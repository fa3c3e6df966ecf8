use tracer::math::Vec3;
use tracer::render::{RenderTile, Subregion};
use tracer::scheduler::Scheduler;

fn shade(px: usize, py: usize) -> Vec3 {
    Vec3 { x: px as i64, y: py as i64, z: (px * 1000 + py) as i64 }
}

fn render(threads: usize, width: usize, height: usize) -> Vec<Vec3> {
    let mut tiles = Vec::new();
    for region in Scheduler::bands(threads, width, height) {
        let mut tile = RenderTile::new(region, (), ());
        tile.fill(&shade);
        tiles.push(tile);
    }
    Scheduler::merge(&tiles, width, height)
}

#[test]
fn bands_are_the_slices_of_the_workers() {
    let bands = Scheduler::bands(4, 6, 10);
    assert_eq!(
        bands,
        vec![
            Subregion { x: 0, y: 0, width: 6, height: 2 },
            Subregion { x: 0, y: 2, width: 6, height: 2 },
            Subregion { x: 0, y: 4, width: 6, height: 2 },
            Subregion { x: 0, y: 6, width: 6, height: 4 },
        ]
    );
    for (tid, band) in bands.iter().enumerate() {
        assert_eq!(*band, Subregion::slice_vertically(tid, 4, 6, 10));
    }
}

#[test]
fn no_worker_no_band() {
    assert!(Scheduler::bands(0, 6, 10).is_empty());
}

#[test]
fn the_band_of_a_pixel_depends_on_its_row_alone() {
    let (width, height) = (9usize, 23usize);
    for threads in [1usize, 2, 5, 7] {
        let bands = Scheduler::bands(threads, width, height);
        let total: usize = bands.iter().map(|band| band.area()).sum();
        assert_eq!(total, width * height);
        for y in 0..height {
            let holders: Vec<usize> = (0..threads)
                .filter(|tid| bands[*tid].y <= y && y < bands[*tid].y + bands[*tid].height)
                .collect();
            assert_eq!(holders.len(), 1);
            let base = height / threads;
            let expected = if base == 0 || y / base >= threads { threads - 1 } else { y / base };
            assert_eq!(holders[0], expected);
            for x in 0..width {
                let band = bands[holders[0]];
                assert!(band.x <= x && x < band.x + band.width);
            }
        }
    }
}

#[test]
fn merge_gives_the_same_image_for_any_number_of_workers() {
    let (width, height) = (9usize, 23usize);
    let mut expected = Vec::new();
    for y in 0..height {
        for x in 0..width {
            expected.push(shade(x, y));
        }
    }
    for threads in [1usize, 2, 5, 7] {
        let image = render(threads, width, height);
        assert_eq!(image.len(), width * height);
        assert_eq!(image, expected);
    }
}

#[test]
fn merge_leaves_black_what_no_tile_holds() {
    let mut tile = RenderTile::new(Subregion { x: 1, y: 1, width: 2, height: 1 }, (), ());
    tile.fill(&|_px: usize, _py: usize| Vec3 { x: 5, y: 5, z: 5 });
    let image = Scheduler::merge(&vec![tile], 4, 3);
    let black = Vec3 { x: 0, y: 0, z: 0 };
    let lit = Vec3 { x: 5, y: 5, z: 5 };
    assert_eq!(
        image,
        vec![black, black, black, black, black, lit, lit, black, black, black, black, black]
    );
}

#[test]
fn merge_lets_a_later_tile_overwrite_an_earlier_one() {
    let mut under = RenderTile::new(Subregion { x: 0, y: 0, width: 2, height: 2 }, (), ());
    under.fill(&|_px: usize, _py: usize| Vec3 { x: 1, y: 1, z: 1 });
    let mut over = RenderTile::new(Subregion { x: 1, y: 0, width: 1, height: 2 }, (), ());
    over.fill(&|_px: usize, _py: usize| Vec3 { x: 2, y: 2, z: 2 });
    let image = Scheduler::merge(&vec![under, over], 2, 2);
    let one = Vec3 { x: 1, y: 1, z: 1 };
    let two = Vec3 { x: 2, y: 2, z: 2 };
    assert_eq!(image, vec![one, two, one, two]);
}

#[test]
fn merge_of_nothing_is_a_black_image() {
    let tiles: Vec<RenderTile<(), ()>> = Vec::new();
    let image = Scheduler::merge(&tiles, 3, 2);
    assert_eq!(image, vec![Vec3 { x: 0, y: 0, z: 0 }; 6]);
}

#[test]
fn merge_of_an_image_without_pixels_is_empty() {
    let tiles: Vec<RenderTile<(), ()>> = Vec::new();
    assert!(Scheduler::merge(&tiles, 0, 5).is_empty());
    assert!(Scheduler::merge(&tiles, 5, 0).is_empty());
}

#[test]
fn a_worker_is_seeded_with_its_own_number() {
    assert_eq!(Scheduler::worker_seed(0), 0);
    assert_eq!(Scheduler::worker_seed(6), 6);
}

#[test]
fn run_asks_each_pixel_once_of_the_worker_of_its_row() {
    let (width, height) = (5usize, 11usize);
    for threads in [1usize, 2, 5, 7] {
        let asked = std::cell::RefCell::new(Vec::new());
        let image = Scheduler::run(
            &|tid: usize, px: usize, py: usize| {
                asked.borrow_mut().push((tid, px, py));
                shade(px, py)
            },
            threads,
            width,
            height,
        );
        let mut expected = Vec::new();
        let mut pixels = Vec::new();
        for y in 0..height {
            for x in 0..width {
                expected.push(shade(x, y));
                let base = height / threads;
                let tid = if base == 0 || y / base >= threads { threads - 1 } else { y / base };
                pixels.push((tid, x, y));
            }
        }
        assert_eq!(image, expected);
        // The bands follow each other from the top: the pixels are asked in reading order.
        assert_eq!(*asked.borrow(), pixels);
    }
}

#[test]
fn run_without_a_worker_leaves_the_image_black() {
    let image = Scheduler::run(&|_tid: usize, px: usize, py: usize| shade(px, py), 0, 3, 2);
    assert_eq!(image, vec![Vec3 { x: 0, y: 0, z: 0 }; 6]);
}

#[test]
fn run_gives_the_same_image_as_tiles_filled_one_by_one() {
    for threads in [1usize, 2, 5, 7] {
        let image = Scheduler::run(&|_tid: usize, px: usize, py: usize| shade(px, py), threads, 9, 23);
        assert_eq!(image, render(threads, 9, 23));
    }
}

#[test]
fn gather_adds_the_samples_in_turn_and_divides_nothing() {
    let asked = std::cell::RefCell::new(Vec::new());
    let sample = |n: usize| {
        asked.borrow_mut().push(n);
        Vec3 { x: n as i64, y: 10, z: 1 }
    };
    let plus = |sum: Vec3, color: Vec3| Vec3 { x: sum.x * 2 + color.x, y: sum.y + color.y, z: sum.z + color.z };
    // x: ((0 * 2 + 0) * 2 + 1) * 2 + 2, then * 2 + 3.
    assert_eq!(Scheduler::gather(4, &sample, &plus), Vec3 { x: 11, y: 40, z: 4 });
    assert_eq!(*asked.borrow(), vec![0, 1, 2, 3]);
}

#[test]
fn gather_of_no_sample_is_black() {
    let sample = |_n: usize| Vec3 { x: 5, y: 5, z: 5 };
    let plus = |sum: Vec3, color: Vec3| Vec3 { x: sum.x + color.x, y: sum.y + color.y, z: sum.z + color.z };
    assert_eq!(Scheduler::gather(0, &sample, &plus), Vec3 { x: 0, y: 0, z: 0 });
    assert_eq!(Scheduler::gather(1, &sample, &plus), Vec3 { x: 5, y: 5, z: 5 });
}
