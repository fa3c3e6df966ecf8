use vstd::prelude::*;

verus! {

/// What a render is asked for: the size of the image in pixels, the number
/// of bounces a ray is followed over, the number of samples of each pixel,
/// the number of workers, and the file to write, if any.
#[derive(Clone, Debug)]
pub struct TracerArgs {
    pub width: usize,
    pub height: usize,
    pub depth: u16,
    pub samples: usize,
    pub num_threads: usize,
    pub output_path: Option<String>,
}

impl TracerArgs {
    /// The image has pixels, a ray has a bounce, and there is a worker.
    pub open spec fn is_valid_spec(self) -> bool {
        self.width > 0 && self.height > 0 && self.depth > 0 && self.num_threads > 0
    }

    /// Whether the render can start: no size, depth or number of workers
    /// is zero.
    pub fn is_valid(&self) -> (valid: bool)
        ensures
            valid == self.is_valid_spec(),
    {
        self.width > 0 && self.height > 0 && self.depth > 0 && self.num_threads > 0
    }
}

impl Default for TracerArgs {
    /// A render of 400 by 300 pixels, 10 bounces deep, with 100 samples of
    /// each pixel on 4 workers, written to the standard output.
    fn default() -> (args: TracerArgs)
        ensures
            args.width == 400,
            args.height == 300,
            args.depth == 10,
            args.samples == 100,
            args.num_threads == 4,
            args.output_path is None,
            args.is_valid_spec(),
    {
        TracerArgs {
            width: 400,
            height: 300,
            depth: 10,
            samples: 100,
            num_threads: 4,
            output_path: None,
        }
    }
}

} // verus!
