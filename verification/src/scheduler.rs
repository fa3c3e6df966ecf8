use crate::math::{Scalar, Vec3, INFINITY};
use crate::render::{
    cell_extent, cell_of, cell_start, lemma_cells_partition, lemma_row_major, lemma_shares_fit,
    HitRecord, Ray, RenderTile, Subregion,
};
use crate::transport::{
    follows, lemma_one_bounce, lemma_seen_is_radiance, may_call, may_see, radiance, ray_color,
    Transport, T_MIN,
};
use vstd::prelude::*;

verus! {

/// Cuts the image into one band of rows for each worker and puts the bands
/// that the workers filled together again.
pub struct Scheduler {}

/// `region` is band `index` of the image cut into `bands` bands: all the
/// columns, and the rows of cell `index`.
pub open spec fn is_band(region: Subregion, index: int, bands: int, width: int, height: int) -> bool
    recommends
        0 <= index < bands,
{
    &&& region.x == 0
    &&& region.width == width
    &&& region.y == cell_start(index, bands, height)
    &&& region.height == cell_extent(index, bands, height)
}

/// The colour of the pixel in column `px` and row `py` once the tiles have
/// been copied into the image one after the other: that of the last tile
/// whose region holds the pixel, and black where none does.
pub open spec fn merged_pixel<S, C>(tiles: Seq<RenderTile<S, C>>, px: int, py: int) -> Vec3
    decreases tiles.len(),
{
    if tiles.len() == 0 {
        Vec3::zeros_spec()
    } else if tiles.last().region.holds(px, py) {
        tiles.last().color_at(px, py)
    } else {
        merged_pixel(tiles.drop_last(), px, py)
    }
}

/// The tile is as large as its region and lies within the image.
pub open spec fn fits<S, C>(tile: RenderTile<S, C>, width: int, height: int) -> bool {
    &&& tile.is_sized()
    &&& tile.region.x + tile.region.width <= width
    &&& tile.region.y + tile.region.height <= height
}

/// The number of pixels of all the regions together.
pub open spec fn total_area(regions: Seq<Subregion>) -> int
    decreases regions.len(),
{
    if regions.len() == 0 {
        0
    } else {
        total_area(regions.drop_last()) + regions.last().area_spec()
    }
}

/// The rows up to and with row `y` of a rectangle stored row by row end
/// within the rectangle.
proof fn lemma_rows_fit(y: int, width: int, height: int)
    requires
        0 <= y < height,
        0 <= width,
    ensures
        0 <= y * width,
        y * width + width <= width * height,
{
    assert(0 <= y * width && y * width + width <= width * height) by (nonlinear_arith)
        requires
            0 <= y < height,
            0 <= width,
    ;
}

/// `sum` is something that the samples of a pixel may add up to, given what
/// `sample` and `plus` may return: black for no sample, and else what `plus`
/// may make of the sum of the samples before and the last sample. The sum is
/// not divided by the number of samples.
pub open spec fn may_gather<F, A>(sample: &F, plus: &A, count: nat, sum: Vec3) -> bool where
    F: Fn(usize) -> Vec3,
    A: Fn(Vec3, Vec3) -> Vec3,

    decreases count,
{
    if count == 0 {
        sum == Vec3::zeros_spec()
    } else {
        exists|before: Vec3, drawn: Vec3|
            {
                &&& may_gather(sample, plus, (count - 1) as nat, before)
                &&& call_ensures(sample, ((count - 1) as usize,), drawn)
                &&& #[trigger] call_ensures(plus, (before, drawn), sum)
            }
    }
}

/// `sum` is something that the first `count` samples of the pixel in column
/// `px` and row `py` may add up to in the hands of worker `tid`: black for
/// no sample, and else what `plus` may make of the sum of the samples before
/// and of what may be seen, over at most `depth` bounces, along the ray that
/// `cast` may cast for the last sample.
pub open spec fn may_shade<C, H, E, S, B, P>(
    cast: &C,
    background: Vec3,
    hittable: &H,
    emitted: &E,
    scatter: &S,
    blend: &B,
    plus: &P,
    place: (usize, usize, usize),
    depth: nat,
    count: nat,
    sum: Vec3,
) -> bool where
    C: Fn(usize, usize, usize, usize) -> Ray,
    H: Fn(&Ray, Scalar, Scalar) -> Option<HitRecord>,
    E: Fn(&HitRecord) -> Vec3,
    S: Fn(&Ray, &HitRecord) -> Option<(Ray, Vec3)>,
    B: Fn(Vec3, Vec3, Vec3) -> Vec3,
    P: Fn(Vec3, Vec3) -> Vec3,

    decreases count,
{
    if count == 0 {
        sum == Vec3::zeros_spec()
    } else {
        exists|before: Vec3, ray: Ray, color: Vec3|
            {
                &&& may_shade(
                    cast,
                    background,
                    hittable,
                    emitted,
                    scatter,
                    blend,
                    plus,
                    place,
                    depth,
                    (count - 1) as nat,
                    before,
                )
                &&& #[trigger] call_ensures(
                    cast,
                    (place.0, place.1, place.2, (count - 1) as usize),
                    ray,
                )
                &&& may_see(
                    hittable,
                    emitted,
                    scatter,
                    blend,
                    ray,
                    background,
                    T_MIN,
                    INFINITY,
                    depth,
                    color,
                )
                &&& #[trigger] call_ensures(plus, (before, color), sum)
            }
    }
}

/// `color` is something that sample `n` of a pixel may come to: what may be
/// seen, over at most `depth` bounces, along a ray that `cast` may cast for
/// the sample.
pub open spec fn is_sample<C, H, E, S, B>(
    cast: &C,
    background: Vec3,
    hittable: &H,
    emitted: &E,
    scatter: &S,
    blend: &B,
    place: (usize, usize, usize),
    depth: nat,
    n: usize,
    color: Vec3,
) -> bool where
    C: Fn(usize, usize, usize, usize) -> Ray,
    H: Fn(&Ray, Scalar, Scalar) -> Option<HitRecord>,
    E: Fn(&HitRecord) -> Vec3,
    S: Fn(&Ray, &HitRecord) -> Option<(Ray, Vec3)>,
    B: Fn(Vec3, Vec3, Vec3) -> Vec3,
 {
    exists|ray: Ray|
        {
            &&& #[trigger] call_ensures(cast, (place.0, place.1, place.2, n), ray)
            &&& may_see(
                hittable,
                emitted,
                scatter,
                blend,
                ray,
                background,
                T_MIN,
                INFINITY,
                depth,
                color,
            )
        }
}

/// The sum of samples each of which is what a cast ray shows is the colour
/// of the pixel.
proof fn lemma_gathered_is_shaded<F, C, H, E, S, B, P>(
    sample: &F,
    cast: &C,
    background: Vec3,
    hittable: &H,
    emitted: &E,
    scatter: &S,
    blend: &B,
    plus: &P,
    place: (usize, usize, usize),
    depth: nat,
    count: nat,
    sum: Vec3,
) where
    F: Fn(usize) -> Vec3,
    C: Fn(usize, usize, usize, usize) -> Ray,
    H: Fn(&Ray, Scalar, Scalar) -> Option<HitRecord>,
    E: Fn(&HitRecord) -> Vec3,
    S: Fn(&Ray, &HitRecord) -> Option<(Ray, Vec3)>,
    B: Fn(Vec3, Vec3, Vec3) -> Vec3,
    P: Fn(Vec3, Vec3) -> Vec3,

    requires
        forall|n: usize, color: Vec3| #[trigger]
            call_ensures(sample, (n,), color) ==> is_sample(
                cast,
                background,
                hittable,
                emitted,
                scatter,
                blend,
                place,
                depth,
                n,
                color,
            ),
        may_gather(sample, plus, count, sum),
    ensures
        may_shade(
            cast,
            background,
            hittable,
            emitted,
            scatter,
            blend,
            plus,
            place,
            depth,
            count,
            sum,
        ),
    decreases count,
{
    if count > 0 {
        let (before, drawn) = choose|before: Vec3, drawn: Vec3|
            {
                &&& may_gather(sample, plus, (count - 1) as nat, before)
                &&& call_ensures(sample, ((count - 1) as usize,), drawn)
                &&& #[trigger] call_ensures(plus, (before, drawn), sum)
            };
        lemma_gathered_is_shaded(
            sample,
            cast,
            background,
            hittable,
            emitted,
            scatter,
            blend,
            plus,
            place,
            depth,
            (count - 1) as nat,
            before,
        );
        assert(is_sample(
            cast,
            background,
            hittable,
            emitted,
            scatter,
            blend,
            place,
            depth,
            (count - 1) as usize,
            drawn,
        ));
        let ray = choose|ray: Ray|
            {
                &&& #[trigger] call_ensures(
                    cast,
                    (place.0, place.1, place.2, (count - 1) as usize),
                    ray,
                )
                &&& may_see(
                    hittable,
                    emitted,
                    scatter,
                    blend,
                    ray,
                    background,
                    T_MIN,
                    INFINITY,
                    depth,
                    drawn,
                )
            };
    }
}

/// `cast` may be asked for the ray of every sample of every pixel of the
/// image, by every worker, and `plus` may add any two colours.
pub open spec fn may_cast<C, P>(
    cast: &C,
    plus: &P,
    samples: usize,
    num_threads: usize,
    render_width: usize,
    render_height: usize,
) -> bool where C: Fn(usize, usize, usize, usize) -> Ray, P: Fn(Vec3, Vec3) -> Vec3 {
    &&& forall|tid: usize, px: usize, py: usize, n: usize|
        tid < num_threads && px < render_width && py < render_height && n < samples
            ==> #[trigger] call_requires(cast, (tid, px, py, n))
    &&& forall|so_far: Vec3, color: Vec3| #[trigger] call_requires(plus, (so_far, color))
}

impl Scheduler {
    /// The colour of one pixel: for each of its samples in turn, `cast`
    /// casts a ray, the ray is followed through the scene over at most
    /// `max_depth` bounces, against `background` where it meets nothing, and
    /// `plus` adds what is seen to the sum so far, which starts black. The
    /// sum is not divided by the number of samples.
    pub fn shade_pixel<C, H, E, S, B, P>(
        cast: &C,
        background: &Vec3,
        hittable: &H,
        emitted: &E,
        scatter: &S,
        blend: &B,
        plus: &P,
        place: (usize, usize, usize),
        samples: usize,
        max_depth: u16,
    ) -> (sum: Vec3) where
        C: Fn(usize, usize, usize, usize) -> Ray,
        H: Fn(&Ray, Scalar, Scalar) -> Option<HitRecord>,
        E: Fn(&HitRecord) -> Vec3,
        S: Fn(&Ray, &HitRecord) -> Option<(Ray, Vec3)>,
        B: Fn(Vec3, Vec3, Vec3) -> Vec3,
        P: Fn(Vec3, Vec3) -> Vec3,

        requires
            may_call(hittable, emitted, scatter, blend),
            forall|n: usize|
                n < samples ==> #[trigger] call_requires(cast, (place.0, place.1, place.2, n)),
            forall|so_far: Vec3, color: Vec3| #[trigger] call_requires(plus, (so_far, color)),
        ensures
            may_shade(
                cast,
                *background,
                hittable,
                emitted,
                scatter,
                blend,
                plus,
                place,
                max_depth as nat,
                samples as nat,
                sum,
            ),
    {
        let sample = |n: usize| -> (color: Vec3)
            requires
                n < samples,
            ensures
                is_sample(cast, *background, hittable, emitted, scatter, blend, place, max_depth as nat, n, color),
            {
                let ray = cast(place.0, place.1, place.2, n);
                ray_color(ray, background, hittable, emitted, scatter, blend, max_depth)
            };
        let sum = Scheduler::gather(samples, &sample, plus);
        proof {
            lemma_gathered_is_shaded(
                &sample,
                cast,
                *background,
                hittable,
                emitted,
                scatter,
                blend,
                plus,
                place,
                max_depth as nat,
                samples as nat,
                sum,
            );
        }
        sum
    }

    /// Renders the image: cuts it into one band for each worker, gathers in
    /// each band the colour of every pixel as [`Scheduler::shade_pixel`]
    /// does, one band after the other, and puts the bands together. Every
    /// pixel holds the sum of its samples in the hands of the worker that
    /// its row belongs to. Without a worker the image stays black.
    pub fn render<C, H, E, S, B, P>(
        cast: &C,
        background: &Vec3,
        hittable: &H,
        emitted: &E,
        scatter: &S,
        blend: &B,
        plus: &P,
        samples: usize,
        num_threads: usize,
        render_width: usize,
        render_height: usize,
        max_depth: u16,
    ) -> (image: Vec<Vec3>) where
        C: Fn(usize, usize, usize, usize) -> Ray,
        H: Fn(&Ray, Scalar, Scalar) -> Option<HitRecord>,
        E: Fn(&HitRecord) -> Vec3,
        S: Fn(&Ray, &HitRecord) -> Option<(Ray, Vec3)>,
        B: Fn(Vec3, Vec3, Vec3) -> Vec3,
        P: Fn(Vec3, Vec3) -> Vec3,

        requires
            render_width * render_height <= usize::MAX,
            may_call(hittable, emitted, scatter, blend),
            may_cast(cast, plus, samples, num_threads, render_width, render_height),
        ensures
            image@.len() == render_width * render_height,
            num_threads == 0 ==> forall|i: int|
                0 <= i < image@.len() ==> #[trigger] image@[i] == Vec3::zeros_spec(),
            num_threads > 0 ==> forall|px: usize, py: usize|
                px < render_width && py < render_height ==> may_shade(
                    cast,
                    *background,
                    hittable,
                    emitted,
                    scatter,
                    blend,
                    plus,
                    (
                        cell_of(py as int, num_threads as int, render_height as int) as usize,
                        px,
                        py,
                    ),
                    max_depth as nat,
                    samples as nat,
                    #[trigger] image@[py * render_width + px],
                ),
    {
        let shade = |tid: usize, px: usize, py: usize| -> (sum: Vec3)
            requires
                tid < num_threads && px < render_width && py < render_height,
            ensures
                may_shade(
                    cast,
                    *background,
                    hittable,
                    emitted,
                    scatter,
                    blend,
                    plus,
                    (tid, px, py),
                    max_depth as nat,
                    samples as nat,
                    sum,
                ),
            {
                Scheduler::shade_pixel(
                    cast,
                    background,
                    hittable,
                    emitted,
                    scatter,
                    blend,
                    plus,
                    (tid, px, py),
                    samples,
                    max_depth,
                )
            };
        let image = Scheduler::run(&shade, num_threads, render_width, render_height);
        proof {
            if num_threads > 0 {
                assert forall|px: usize, py: usize|
                    px < render_width && py < render_height implies may_shade(
                    cast,
                    *background,
                    hittable,
                    emitted,
                    scatter,
                    blend,
                    plus,
                    (
                        cell_of(py as int, num_threads as int, render_height as int) as usize,
                        px,
                        py,
                    ),
                    max_depth as nat,
                    samples as nat,
                    #[trigger] image@[py * render_width + px],
                ) by {
                    let tid = cell_of(py as int, num_threads as int, render_height as int) as usize;
                    assert(call_ensures(shade, (tid, px, py), image@[py * render_width + px]));
                }
            }
        }
        image
    }

    /// The sum of the samples of one pixel: `sample` is asked for each of
    /// the samples `0` to `samples - 1` in turn, and `plus` adds each to the
    /// sum so far, which starts black.
    pub fn gather<F, A>(samples: usize, sample: &F, plus: &A) -> (sum: Vec3) where
        F: Fn(usize) -> Vec3,
        A: Fn(Vec3, Vec3) -> Vec3,

        requires
            forall|n: usize| n < samples ==> #[trigger] call_requires(sample, (n,)),
            forall|so_far: Vec3, drawn: Vec3| #[trigger] call_requires(plus, (so_far, drawn)),
        ensures
            may_gather(sample, plus, samples as nat, sum),
    {
        let mut sum = Vec3::zeros();
        let mut n: usize = 0;
        while n < samples
            invariant
                n <= samples,
                forall|k: usize| k < samples ==> #[trigger] call_requires(sample, (k,)),
                forall|so_far: Vec3, drawn: Vec3| #[trigger] call_requires(plus, (so_far, drawn)),
                may_gather(sample, plus, n as nat, sum),
            decreases samples - n,
        {
            let drawn = sample(n);
            let ghost before = sum;
            sum = plus(sum, drawn);
            n += 1;
            assert(may_gather(sample, plus, (n - 1) as nat, before));
            assert(call_ensures(sample, ((n - 1) as usize,), drawn));
        }
        sum
    }

    /// The seed of the generator of worker `tid`: the worker's own number,
    /// so that a render with as many workers repeats itself.
    pub fn worker_seed(tid: usize) -> (seed: u64)
        ensures
            seed == tid,
    {
        tid as u64
    }

    /// The bands of the workers, from the top of the image down: band `tid`
    /// is the share of worker `tid`.
    pub fn bands(num_threads: usize, render_width: usize, render_height: usize) -> (regions: Vec<
        Subregion,
    >)
        ensures
            regions@.len() == num_threads,
            forall|tid: int|
                0 <= tid < num_threads ==> is_band(
                    #[trigger] regions@[tid],
                    tid,
                    num_threads as int,
                    render_width as int,
                    render_height as int,
                ),
    {
        let mut regions: Vec<Subregion> = Vec::new();
        let mut tid: usize = 0;
        while tid < num_threads
            invariant
                tid <= num_threads,
                regions@.len() == tid,
                forall|k: int|
                    0 <= k < tid ==> is_band(
                        #[trigger] regions@[k],
                        k,
                        num_threads as int,
                        render_width as int,
                        render_height as int,
                    ),
            decreases num_threads - tid,
        {
            regions.push(Subregion::slice_vertically(tid, num_threads, render_width, render_height));
            tid += 1;
        }
        regions
    }

    /// Renders the image band by band, one band after the other, and puts
    /// the bands together. `shade` returns the colour of a pixel, given the
    /// number of the worker whose band holds it and the pixel's column and
    /// row. Every pixel of the image is asked for once, of the worker that
    /// its row belongs to, and holds what `shade` returned for it. Without a
    /// worker the image stays black.
    pub fn run<F>(shade: &F, num_threads: usize, render_width: usize, render_height: usize) -> (image:
        Vec<Vec3>) where F: Fn(usize, usize, usize) -> Vec3
        requires
            render_width * render_height <= usize::MAX,
            forall|tid: usize, px: usize, py: usize|
                tid < num_threads && px < render_width && py < render_height
                    ==> #[trigger] call_requires(shade, (tid, px, py)),
        ensures
            image@.len() == render_width * render_height,
            num_threads == 0 ==> forall|i: int|
                0 <= i < image@.len() ==> #[trigger] image@[i] == Vec3::zeros_spec(),
            num_threads > 0 ==> forall|px: usize, py: usize|
                px < render_width && py < render_height ==> call_ensures(
                    shade,
                    (
                        cell_of(py as int, num_threads as int, render_height as int) as usize,
                        px,
                        py,
                    ),
                    #[trigger] image@[py * render_width + px],
                ),
    {
        let regions = Scheduler::bands(num_threads, render_width, render_height);
        let mut tiles: Vec<RenderTile<(), ()>> = Vec::new();
        let mut tid: usize = 0;
        while tid < num_threads
            invariant
                tid <= num_threads,
                render_width * render_height <= usize::MAX,
                regions@.len() == num_threads,
                forall|k: int|
                    0 <= k < num_threads ==> is_band(
                        #[trigger] regions@[k],
                        k,
                        num_threads as int,
                        render_width as int,
                        render_height as int,
                    ),
                forall|worker: usize, px: usize, py: usize|
                    worker < num_threads && px < render_width && py < render_height
                        ==> #[trigger] call_requires(shade, (worker, px, py)),
                tiles@.len() == tid,
                forall|k: int|
                    0 <= k < tid ==> (#[trigger] tiles@[k]).region == regions@[k] && tiles@[k].is_sized(),
                forall|k: int, px: usize, py: usize|
                    0 <= k < tid && regions@[k].holds(px as int, py as int) ==> call_ensures(
                        shade,
                        (k as usize, px, py),
                        #[trigger] tiles@[k].color_at(px as int, py as int),
                    ),
            decreases num_threads - tid,
        {
            let region = regions[tid];
            proof {
                lemma_band_within(
                    region,
                    tid as int,
                    num_threads as int,
                    render_width as int,
                    render_height as int,
                );
                assert(region.width * region.height <= render_width * render_height)
                    by (nonlinear_arith)
                    requires
                        region.width == render_width,
                        region.height <= render_height,
                ;
            }
            let mut tile = RenderTile::new(region, (), ());
            let of_worker = |px: usize, py: usize| -> (color: Vec3)
                requires
                    call_requires(shade, (tid, px, py)),
                ensures
                    call_ensures(shade, (tid, px, py), color),
                { shade(tid, px, py) };
            tile.fill(&of_worker);
            let ghost earlier = tiles@;
            tiles.push(tile);
            proof {
                assert forall|k: int, px: usize, py: usize|
                    0 <= k < tid + 1 && regions@[k].holds(px as int, py as int) implies call_ensures(
                    shade,
                    (k as usize, px, py),
                    #[trigger] tiles@[k].color_at(px as int, py as int),
                ) by {
                    if k < tid {
                        assert(tiles@[k] == earlier[k]);
                    }
                }
            }
            tid += 1;
        }
        proof {
            assert forall|k: int| 0 <= k < tiles@.len() implies fits(
                #[trigger] tiles@[k],
                render_width as int,
                render_height as int,
            ) by {
                lemma_band_within(
                    regions@[k],
                    k,
                    num_threads as int,
                    render_width as int,
                    render_height as int,
                );
            }
        }
        let image = Scheduler::merge(&tiles, render_width, render_height);
        proof {
            if num_threads == 0 {
                assert forall|i: int| 0 <= i < image@.len() implies #[trigger] image@[i]
                    == Vec3::zeros_spec() by {}
            } else {
                assert forall|px: usize, py: usize|
                    px < render_width && py < render_height implies call_ensures(
                    shade,
                    (
                        cell_of(py as int, num_threads as int, render_height as int) as usize,
                        px,
                        py,
                    ),
                    #[trigger] image@[py * render_width + px],
                ) by {
                    let wide = render_width as int;
                    lemma_row_major(px as int, py as int, wide, render_height as int);
                    lemma_merge_of_bands(tiles@, wide, render_height as int, px as int, py as int);
                    let holder = cell_of(py as int, num_threads as int, render_height as int);
                    assert(tiles@[holder].region.holds(px as int, py as int));
                }
            }
        }
        image
    }

    /// Copies the tiles into one image of `render_width` by `render_height`
    /// pixels, row by row, each tile to the place of its region. A pixel
    /// that no tile holds stays black.
    pub fn merge<S, C>(
        tiles: &Vec<RenderTile<S, C>>,
        render_width: usize,
        render_height: usize,
    ) -> (image: Vec<Vec3>)
        requires
            render_width * render_height <= usize::MAX,
            forall|k: int|
                0 <= k < tiles@.len() ==> fits(
                    #[trigger] tiles@[k],
                    render_width as int,
                    render_height as int,
                ),
        ensures
            image@.len() == render_width * render_height,
            forall|i: int|
                0 <= i < image@.len() ==> #[trigger] image@[i] == merged_pixel(
                    tiles@,
                    i % (render_width as int),
                    i / (render_width as int),
                ),
            forall|px: int, py: int|
                0 <= px < render_width && 0 <= py < render_height ==> image@[py * render_width
                    + px] == #[trigger] merged_pixel(tiles@, px, py),
    {
        let pixels = render_width * render_height;
        let mut final_buffer: Vec<Vec3> = Vec::new();
        let mut filled: usize = 0;
        while filled < pixels
            invariant
                filled <= pixels,
                final_buffer@.len() == filled,
                forall|i: int| 0 <= i < filled ==> final_buffer@[i] == Vec3::zeros_spec(),
            decreases pixels - filled,
        {
            final_buffer.push(Vec3::zeros());
            filled += 1;
        }
        let ghost wide = render_width as int;
        let mut done: usize = 0;
        assert(tiles@.take(0).len() == 0);
        while done < tiles.len()
            invariant
                done <= tiles@.len(),
                wide == render_width,
                pixels == render_width * render_height,
                final_buffer@.len() == pixels,
                forall|k: int|
                    0 <= k < tiles@.len() ==> fits(
                        #[trigger] tiles@[k],
                        render_width as int,
                        render_height as int,
                    ),
                forall|i: int|
                    0 <= i < pixels ==> #[trigger] final_buffer@[i] == merged_pixel(
                        tiles@.take(done as int),
                        i % wide,
                        i / wide,
                    ),
            decreases tiles@.len() - done,
        {
            let worker = &tiles[done];
            let ghost before = tiles@.take(done as int);
            let ghost region = worker.region;
            assert(fits(tiles@[done as int], render_width as int, render_height as int));
            let tile_pixels = worker.buffer.len();
            let mut y: usize = 0;
            while y < worker.region.height
                invariant
                    y <= region.height,
                    tile_pixels == region.width * region.height,
                    region == worker.region,
                    wide == render_width,
                    pixels == render_width * render_height,
                    final_buffer@.len() == pixels,
                    fits(*worker, render_width as int, render_height as int),
                    forall|i: int|
                        0 <= i < pixels ==> #[trigger] final_buffer@[i] == (if region.holds(
                            i % wide,
                            i / wide,
                        ) && i / wide < region.y + y {
                            worker.color_at(i % wide, i / wide)
                        } else {
                            merged_pixel(before, i % wide, i / wide)
                        }),
                decreases region.height - y,
            {
                proof {
                    lemma_rows_fit(y as int, region.width as int, region.height as int);
                    lemma_rows_fit(region.y + y, wide, render_height as int);
                }
                let y_offset = worker.region.y + y;
                let x_offset = y * worker.region.width;
                let out_buffer_y_offset = y_offset * render_width + worker.region.x;
                let mut x: usize = 0;
                while x < worker.region.width
                    invariant
                        x <= region.width,
                        y < region.height,
                        tile_pixels == region.width * region.height,
                        region == worker.region,
                        wide == render_width,
                        pixels == render_width * render_height,
                        final_buffer@.len() == pixels,
                        fits(*worker, render_width as int, render_height as int),
                        y_offset == region.y + y,
                        x_offset == y * region.width,
                        out_buffer_y_offset == y_offset * render_width + region.x,
                        forall|i: int|
                            0 <= i < pixels ==> #[trigger] final_buffer@[i] == (if region.holds(
                                i % wide,
                                i / wide,
                            ) && (i / wide < region.y + y || (i / wide == region.y + y && i % wide
                                < region.x + x)) {
                                worker.color_at(i % wide, i / wide)
                            } else {
                                merged_pixel(before, i % wide, i / wide)
                            }),
                    decreases region.width - x,
                {
                    proof {
                        lemma_row_major(
                            x as int,
                            y as int,
                            region.width as int,
                            region.height as int,
                        );
                        lemma_row_major(region.x + x, region.y + y, wide, render_height as int);
                    }
                    let in_index = x_offset + x;
                    let out_index = out_buffer_y_offset + x;
                    let color = worker.buffer[in_index];
                    let ghost earlier = final_buffer@;
                    final_buffer.set(out_index, color);
                    proof {
                        assert(color == worker.color_at(region.x + x, region.y + y));
                        assert forall|i: int| 0 <= i < pixels implies #[trigger] final_buffer@[i]
                            == (if region.holds(i % wide, i / wide) && (i / wide < region.y + y || (
                        i / wide == region.y + y && i % wide < region.x + x + 1)) {
                            worker.color_at(i % wide, i / wide)
                        } else {
                            merged_pixel(before, i % wide, i / wide)
                        }) by {
                            vstd::arithmetic::div_mod::lemma_fundamental_div_mod(i, wide);
                            assert(wide * (i / wide) == (i / wide) * wide) by (nonlinear_arith);
                            if i != out_index {
                                assert(final_buffer@[i] == earlier[i]);
                            }
                        }
                    }
                    x += 1;
                }
                y += 1;
            }
            proof {
                let after = tiles@.take(done + 1);
                assert(after.drop_last() =~= before);
                assert(after.last() == *worker);
            }
            done += 1;
        }
        assert(tiles@.take(done as int) =~= tiles@);
        assert forall|px: int, py: int|
            0 <= px < render_width && 0 <= py < render_height implies final_buffer@[py
            * render_width + px] == #[trigger] merged_pixel(tiles@, px, py) by {
            lemma_row_major(px, py, render_width as int, render_height as int);
        }
        final_buffer
    }
}

/// The regions of the tiles are the bands of the image, from the top down.
pub open spec fn are_bands<S, C>(tiles: Seq<RenderTile<S, C>>, width: int, height: int) -> bool {
    forall|tid: int|
        0 <= tid < tiles.len() ==> is_band(
            (#[trigger] tiles[tid]).region,
            tid,
            tiles.len() as int,
            width,
            height,
        )
}

/// Which band a pixel belongs to depends on its row alone, and it belongs
/// to one band only: band `tid` holds the pixel exactly if `tid` is the cell
/// of the pixel's row.
pub proof fn lemma_band_by_row(
    region: Subregion,
    tid: int,
    bands: int,
    width: int,
    height: int,
    px: int,
    py: int,
)
    requires
        0 <= tid < bands,
        is_band(region, tid, bands, width, height),
        0 <= px < width,
        0 <= py < height,
    ensures
        0 <= cell_of(py, bands, height) < bands,
        region.holds(px, py) <==> tid == cell_of(py, bands, height),
{
    lemma_cells_partition(py, tid, bands, height);
}

/// A band lies within the image.
pub proof fn lemma_band_within(region: Subregion, tid: int, bands: int, width: int, height: int)
    requires
        0 <= tid < bands,
        0 <= height,
        is_band(region, tid, bands, width, height),
    ensures
        region.x + region.width <= width,
        region.y + region.height <= height,
{
    lemma_shares_fit(tid, bands, height);
}

/// The first `count` bands together hold the rows above the next band, and
/// all the bands together hold the image: as many pixels as it has.
pub proof fn lemma_bands_fill_image(
    regions: Seq<Subregion>,
    count: int,
    bands: int,
    width: int,
    height: int,
)
    requires
        0 <= count <= bands,
        0 <= width,
        0 <= height,
        regions.len() == count,
        forall|tid: int| 0 <= tid < count ==> is_band(#[trigger] regions[tid], tid, bands, width, height),
    ensures
        count < bands ==> total_area(regions) == width * cell_start(count, bands, height),
        0 < count == bands ==> total_area(regions) == width * height,
    decreases count,
{
    if count == 0 {
        assert(width * cell_start(0, bands, height) == 0) by (nonlinear_arith)
            requires
                cell_start(0, bands, height) == (height / bands) * 0,
        ;
    } else {
        let shorter = regions.drop_last();
        let last = regions.last();
        assert(is_band(regions[count - 1], count - 1, bands, width, height));
        assert forall|tid: int| 0 <= tid < count - 1 implies is_band(
            #[trigger] shorter[tid],
            tid,
            bands,
            width,
            height,
        ) by {
            assert(shorter[tid] == regions[tid]);
        }
        lemma_bands_fill_image(shorter, count - 1, bands, width, height);
        lemma_shares_fit(count - 1, bands, height);
        let start = cell_start(count - 1, bands, height);
        let extent = cell_extent(count - 1, bands, height);
        assert(width * start + width * extent == width * (start + extent)) by (nonlinear_arith);
    }
}

/// Where one tile alone holds a pixel, the merged image has the pixel from
/// that tile.
pub proof fn lemma_merged_from_only<S, C>(
    tiles: Seq<RenderTile<S, C>>,
    holder: int,
    px: int,
    py: int,
)
    requires
        0 <= holder < tiles.len(),
        forall|k: int|
            0 <= k < tiles.len() ==> ((#[trigger] tiles[k]).region.holds(px, py) <==> k == holder),
    ensures
        merged_pixel(tiles, px, py) == tiles[holder].color_at(px, py),
    decreases tiles.len(),
{
    if holder < tiles.len() - 1 {
        let shorter = tiles.drop_last();
        assert(!tiles[tiles.len() - 1].region.holds(px, py));
        assert forall|k: int| 0 <= k < shorter.len() implies ((#[trigger] shorter[k]).region.holds(
            px,
            py,
        ) <==> k == holder) by {
            assert(shorter[k] == tiles[k]);
        }
        lemma_merged_from_only(shorter, holder, px, py);
    } else {
        assert(tiles[holder].region.holds(px, py));
    }
}

/// Merging the bands of an image leaves no pixel unwritten and writes none
/// twice: every pixel of the merged image is the one that the band of its
/// row gathered, and no other band holds it.
pub proof fn lemma_merge_of_bands<S, C>(
    tiles: Seq<RenderTile<S, C>>,
    width: int,
    height: int,
    px: int,
    py: int,
)
    requires
        are_bands(tiles, width, height),
        0 <= px < width,
        0 <= py < height,
        tiles.len() > 0,
    ensures
        0 <= cell_of(py, tiles.len() as int, height) < tiles.len(),
        forall|k: int|
            0 <= k < tiles.len() ==> ((#[trigger] tiles[k]).region.holds(px, py) <==> k == cell_of(
                py,
                tiles.len() as int,
                height,
            )),
        merged_pixel(tiles, px, py) == tiles[cell_of(py, tiles.len() as int, height)].color_at(
            px,
            py,
        ),
{
    let bands = tiles.len() as int;
    let holder = cell_of(py, bands, height);
    lemma_cells_partition(py, 0, bands, height);
    assert forall|k: int| 0 <= k < tiles.len() implies ((#[trigger] tiles[k]).region.holds(
        px,
        py,
    ) <==> k == holder) by {
        lemma_band_by_row(tiles[k].region, k, bands, width, height, px, py);
    }
    lemma_merged_from_only(tiles, holder, px, py);
}

/// The rays of the samples, as a function of the worker, the column, the row
/// and the number of the sample.
pub type Rays = spec_fn(usize, usize, usize, usize) -> Ray;

/// The sum of two colours, as a function.
pub type Sum = spec_fn(Vec3, Vec3) -> Vec3;

/// The sum of the first `count` samples of a pixel where everything answers
/// as functions do: black for no sample, and else the sum of the samples
/// before and of what the last sample's ray shows.
pub open spec fn shaded(
    model: Transport,
    rays: Rays,
    sum_of: Sum,
    background: Vec3,
    place: (usize, usize, usize),
    depth: nat,
    count: nat,
) -> Vec3
    decreases count,
{
    if count == 0 {
        Vec3::zeros_spec()
    } else {
        sum_of(
            shaded(model, rays, sum_of, background, place, depth, (count - 1) as nat),
            radiance(
                model,
                rays(place.0, place.1, place.2, (count - 1) as usize),
                background,
                T_MIN,
                INFINITY,
                depth,
            ),
        )
    }
}

/// Whatever `cast` and `plus` return is what `rays` and `sum_of` say.
pub open spec fn casts_as<C, P>(cast: &C, plus: &P, rays: Rays, sum_of: Sum) -> bool where
    C: Fn(usize, usize, usize, usize) -> Ray,
    P: Fn(Vec3, Vec3) -> Vec3,
 {
    &&& forall|tid: usize, px: usize, py: usize, n: usize, ray: Ray| #[trigger]
        call_ensures(cast, (tid, px, py, n), ray) ==> ray == rays(tid, px, py, n)
    &&& forall|so_far: Vec3, color: Vec3, sum: Vec3| #[trigger]
        call_ensures(plus, (so_far, color), sum) ==> sum == sum_of(so_far, color)
}

/// Where everything answers as functions do, the colour of a pixel is the
/// sum of what the rays of its samples show.
pub proof fn lemma_shaded<C, H, E, S, B, P>(
    cast: &C,
    background: Vec3,
    hittable: &H,
    emitted: &E,
    scatter: &S,
    blend: &B,
    plus: &P,
    model: Transport,
    rays: Rays,
    sum_of: Sum,
    place: (usize, usize, usize),
    depth: nat,
    count: nat,
    sum: Vec3,
) where
    C: Fn(usize, usize, usize, usize) -> Ray,
    H: Fn(&Ray, Scalar, Scalar) -> Option<HitRecord>,
    E: Fn(&HitRecord) -> Vec3,
    S: Fn(&Ray, &HitRecord) -> Option<(Ray, Vec3)>,
    B: Fn(Vec3, Vec3, Vec3) -> Vec3,
    P: Fn(Vec3, Vec3) -> Vec3,

    requires
        follows(hittable, emitted, scatter, blend, model),
        casts_as(cast, plus, rays, sum_of),
        may_shade(
            cast,
            background,
            hittable,
            emitted,
            scatter,
            blend,
            plus,
            place,
            depth,
            count,
            sum,
        ),
    ensures
        sum == shaded(model, rays, sum_of, background, place, depth, count),
    decreases count,
{
    if count > 0 {
        let (before, ray, color) = choose|before: Vec3, ray: Ray, color: Vec3|
            {
                &&& may_shade(
                    cast,
                    background,
                    hittable,
                    emitted,
                    scatter,
                    blend,
                    plus,
                    place,
                    depth,
                    (count - 1) as nat,
                    before,
                )
                &&& #[trigger] call_ensures(
                    cast,
                    (place.0, place.1, place.2, (count - 1) as usize),
                    ray,
                )
                &&& may_see(
                    hittable,
                    emitted,
                    scatter,
                    blend,
                    ray,
                    background,
                    T_MIN,
                    INFINITY,
                    depth,
                    color,
                )
                &&& #[trigger] call_ensures(plus, (before, color), sum)
            };
        lemma_shaded(
            cast,
            background,
            hittable,
            emitted,
            scatter,
            blend,
            plus,
            model,
            rays,
            sum_of,
            place,
            depth,
            (count - 1) as nat,
            before,
        );
        lemma_seen_is_radiance(
            hittable,
            emitted,
            scatter,
            blend,
            model,
            ray,
            background,
            T_MIN,
            INFINITY,
            depth,
            color,
        );
    }
}

/// A pixel of one sample and one bounce tells a hit from a miss: where its
/// ray meets nothing it holds the background, added to black, and where the
/// ray meets a surface it holds what the surface emits, to which a surface
/// that scatters adds nothing but black.
pub proof fn lemma_one_sample_one_bounce(
    model: Transport,
    rays: Rays,
    sum_of: Sum,
    background: Vec3,
    place: (usize, usize, usize),
)
    ensures
        shaded(model, rays, sum_of, background, place, 1, 1) == sum_of(
            Vec3::zeros_spec(),
            match (model.meets)(rays(place.0, place.1, place.2, 0), T_MIN, INFINITY) {
                None => background,
                Some(hit) => match (model.scatter)(rays(place.0, place.1, place.2, 0), hit) {
                    None => (model.emitted)(hit),
                    Some((_, attenuation)) => (model.blend)(
                        (model.emitted)(hit),
                        Vec3::zeros_spec(),
                        attenuation,
                    ),
                },
            },
        ),
{
    reveal_with_fuel(shaded, 2);
    lemma_one_bounce(model, rays(place.0, place.1, place.2, 0), background, T_MIN, INFINITY);
}

} // verus!
