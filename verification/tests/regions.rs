use tracer::render::{RenderTile, Subregion};
use tracer::math::Vec3;

#[test]
fn slice_vertically_gives_the_rest_to_the_last_band() {
    let first = Subregion::slice_vertically(0, 3, 8, 10);
    let second = Subregion::slice_vertically(1, 3, 8, 10);
    let last = Subregion::slice_vertically(2, 3, 8, 10);
    assert_eq!(first, Subregion { x: 0, y: 0, width: 8, height: 3 });
    assert_eq!(second, Subregion { x: 0, y: 3, width: 8, height: 3 });
    assert_eq!(last, Subregion { x: 0, y: 6, width: 8, height: 4 });
}

#[test]
fn slice_vertically_with_one_band_is_the_whole_image() {
    let only = Subregion::slice_vertically(0, 1, 400, 300);
    assert_eq!(only, Subregion { x: 0, y: 0, width: 400, height: 300 });
}

#[test]
fn slice_vertically_with_more_bands_than_rows() {
    // Three rows for five bands: the equal share is no row, the last band takes all.
    for tid in 0..4 {
        let band = Subregion::slice_vertically(tid, 5, 7, 3);
        assert_eq!(band, Subregion { x: 0, y: 0, width: 7, height: 0 });
    }
    let last = Subregion::slice_vertically(4, 5, 7, 3);
    assert_eq!(last, Subregion { x: 0, y: 0, width: 7, height: 3 });
}

#[test]
fn grid_cell_cuts_both_ways() {
    // 10 by 7 pixels in 3 by 2 cells: columns of 3, 3, 4 and rows of 3, 4.
    assert_eq!(Subregion::grid_cell(0, 0, 3, 2, 10, 7), Subregion { x: 0, y: 0, width: 3, height: 3 });
    assert_eq!(Subregion::grid_cell(1, 0, 3, 2, 10, 7), Subregion { x: 3, y: 0, width: 3, height: 3 });
    assert_eq!(Subregion::grid_cell(2, 0, 3, 2, 10, 7), Subregion { x: 6, y: 0, width: 4, height: 3 });
    assert_eq!(Subregion::grid_cell(0, 1, 3, 2, 10, 7), Subregion { x: 0, y: 3, width: 3, height: 4 });
    assert_eq!(Subregion::grid_cell(2, 1, 3, 2, 10, 7), Subregion { x: 6, y: 3, width: 4, height: 4 });
}

#[test]
fn grid_cell_of_a_single_cell() {
    assert_eq!(Subregion::grid_cell(0, 0, 1, 1, 5, 9), Subregion { x: 0, y: 0, width: 5, height: 9 });
}

#[test]
fn grid_cells_hold_every_pixel_once() {
    let (width, height) = (11usize, 13usize);
    for cells_x in 1..5usize {
        for cells_y in 1..5usize {
            let mut seen = vec![0u32; width * height];
            for cx in 0..cells_x {
                for cy in 0..cells_y {
                    let cell = Subregion::grid_cell(cx, cy, cells_x, cells_y, width, height);
                    for y in cell.y..cell.y + cell.height {
                        for x in cell.x..cell.x + cell.width {
                            seen[y * width + x] += 1;
                        }
                    }
                }
            }
            assert!(seen.iter().all(|count| *count == 1));
        }
    }
}

#[test]
fn area_is_width_times_height() {
    assert_eq!(Subregion { x: 3, y: 4, width: 5, height: 6 }.area(), 30);
    assert_eq!(Subregion { x: 3, y: 4, width: 0, height: 6 }.area(), 0);
    assert_eq!(Subregion { x: 0, y: 0, width: 400, height: 300 }.area(), 120000);
}

#[test]
fn a_new_tile_is_black_and_as_large_as_its_region() {
    let region = Subregion { x: 0, y: 6, width: 8, height: 4 };
    let tile = RenderTile::new(region, "scene", 7u8);
    assert_eq!(tile.region, region);
    assert_eq!(tile.buffer.len(), 32);
    assert!(tile.buffer.iter().all(|color| *color == Vec3 { x: 0, y: 0, z: 0 }));
    assert_eq!(tile.scene, "scene");
    assert_eq!(tile.camera, 7u8);
}

#[test]
fn store_sets_one_pixel_row_by_row() {
    let region = Subregion { x: 2, y: 5, width: 3, height: 2 };
    let mut tile = RenderTile::new(region, (), ());
    tile.store(1, 1, Vec3 { x: 9, y: 8, z: 7 });
    for (place, color) in tile.buffer.iter().enumerate() {
        if place == 4 {
            assert_eq!(*color, Vec3 { x: 9, y: 8, z: 7 });
        } else {
            assert_eq!(*color, Vec3 { x: 0, y: 0, z: 0 });
        }
    }
}

#[test]
fn fill_asks_for_every_pixel_of_the_image_in_reading_order() {
    let region = Subregion { x: 0, y: 4, width: 3, height: 2 };
    let mut tile = RenderTile::new(region, (), ());
    let asked = std::cell::RefCell::new(Vec::new());
    tile.fill(&|px: usize, py: usize| {
        asked.borrow_mut().push((px, py));
        Vec3 { x: px as i64, y: py as i64, z: 1 }
    });
    assert_eq!(*asked.borrow(), vec![(0, 4), (1, 4), (2, 4), (0, 5), (1, 5), (2, 5)]);
    assert_eq!(tile.buffer[0], Vec3 { x: 0, y: 4, z: 1 });
    assert_eq!(tile.buffer[2], Vec3 { x: 2, y: 4, z: 1 });
    assert_eq!(tile.buffer[3], Vec3 { x: 0, y: 5, z: 1 });
    assert_eq!(tile.buffer[5], Vec3 { x: 2, y: 5, z: 1 });
}
