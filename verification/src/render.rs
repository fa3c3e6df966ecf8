use crate::math::{Scalar, Vec3};
use vstd::prelude::*;

verus! {

/// A ray: where it starts, which way it goes, and the moment of the shutter
/// interval at which it was cast. The direction need not have length one.
#[derive(Clone, Copy, Debug, PartialEq, Eq, Structural)]
pub struct Ray {
    pub origin: Vec3,
    pub direction: Vec3,
    pub time: Scalar,
}

/// Where a ray met a surface: the distance `t` along the ray, the point, the
/// normal turned against the ray, whether the surface was met from outside,
/// the surface coordinates `u` and `v`, and the material, named by its place
/// in the scene's list of materials.
#[derive(Clone, Copy, Debug, PartialEq, Eq, Structural)]
pub struct HitRecord {
    pub t: Scalar,
    pub p: Vec3,
    pub normal: Vec3,
    pub front_facing: bool,
    pub material: usize,
    pub u: Scalar,
    pub v: Scalar,
}

impl HitRecord {
    /// Turns a surface normal against the ray. `facing` is the inner product
    /// of the ray's direction and `outward_normal`: below zero, the ray comes
    /// from outside and the normal stays; else it is turned round.
    pub fn set_face_normal(facing: Scalar, outward_normal: Vec3) -> (oriented: (bool, Vec3))
        requires
            outward_normal.is_keys(),
        ensures
            oriented.0 == (facing < 0),
            oriented.1 == if facing < 0 {
                outward_normal
            } else {
                outward_normal.neg_spec()
            },
    {
        let front_facing = facing < 0;
        let normal = {
            if front_facing {
                outward_normal
            } else {
                outward_normal.neg()
            }
        };
        (front_facing, normal)
    }

    /// The record of a hit at distance `t` and point `p` on a surface
    /// without coordinates of its own: `u` and `v` are zero.
    pub fn from(t: Scalar, p: Vec3, facing: Scalar, normal: Vec3, material: usize) -> (record:
        HitRecord)
        requires
            normal.is_keys(),
        ensures
            record == (HitRecord {
                t,
                p,
                normal: if facing < 0 {
                    normal
                } else {
                    normal.neg_spec()
                },
                front_facing: facing < 0,
                material,
                u: 0,
                v: 0,
            }),
    {
        let (front_facing, normal) = HitRecord::set_face_normal(facing, normal);
        HitRecord { t, p, normal, front_facing, material, u: 0, v: 0 }
    }

    /// The record of a hit at distance `t` and point `p`, at the surface
    /// coordinates `u` and `v`.
    pub fn from_uv(
        t: Scalar,
        p: Vec3,
        facing: Scalar,
        normal: Vec3,
        material: usize,
        u: Scalar,
        v: Scalar,
    ) -> (record: HitRecord)
        requires
            normal.is_keys(),
        ensures
            record == (HitRecord {
                t,
                p,
                normal: if facing < 0 {
                    normal
                } else {
                    normal.neg_spec()
                },
                front_facing: facing < 0,
                material,
                u,
                v,
            }),
    {
        let (front_facing, normal) = HitRecord::set_face_normal(facing, normal);
        HitRecord { t, p, normal, front_facing, material, u, v }
    }
}

/// A rectangle of pixels of the image: its left column `x`, its top row `y`,
/// and its size.
#[derive(Clone, Copy, Debug, PartialEq, Eq, Structural)]
pub struct Subregion {
    pub x: usize,
    pub y: usize,
    pub width: usize,
    pub height: usize,
}

/// The extent of each cell but the last when `total` is cut into `cells`.
pub open spec fn base_extent(total: int, cells: int) -> int
    recommends
        cells > 0,
{
    total / cells
}

/// Where cell `index` begins when `total` is cut into `cells`.
pub open spec fn cell_start(index: int, cells: int, total: int) -> int
    recommends
        cells > 0,
{
    base_extent(total, cells) * index
}

/// The extent of cell `index` when `total` is cut into `cells`: the last
/// cell takes what the equal shares of the others leave.
pub open spec fn cell_extent(index: int, cells: int, total: int) -> int
    recommends
        cells > 0,
{
    if index == cells - 1 {
        total - base_extent(total, cells) * (cells - 1)
    } else {
        base_extent(total, cells)
    }
}

/// The cell that holds `position` when `total` is cut into `cells`.
pub open spec fn cell_of(position: int, cells: int, total: int) -> int
    recommends
        cells > 0,
        0 <= position < total,
{
    if base_extent(total, cells) == 0 || position / base_extent(total, cells) >= cells {
        cells - 1
    } else {
        position / base_extent(total, cells)
    }
}

/// Cutting `total` into `cells` leaves no gap and no overlap: a position
/// lies in a cell exactly if that cell is its `cell_of`.
pub proof fn lemma_cells_partition(position: int, index: int, cells: int, total: int)
    requires
        cells > 0,
        0 <= position < total,
        0 <= index < cells,
    ensures
        0 <= cell_of(position, cells, total) < cells,
        (cell_start(index, cells, total) <= position < cell_start(index, cells, total)
            + cell_extent(index, cells, total)) <==> index == cell_of(position, cells, total),
{
    let base = total / cells;
    assert(base * cells <= total) by (nonlinear_arith)
        requires
            base == total / cells,
            cells > 0,
            total >= 0,
    ;
    if base == 0 {
        assert(base * index == 0) by (nonlinear_arith)
            requires
                base == 0,
        ;
        assert(base * (cells - 1) == 0) by (nonlinear_arith)
            requires
                base == 0,
        ;
    } else {
        let q = position / base;
        assert(q * base <= position < q * base + base && q >= 0) by (nonlinear_arith)
            requires
                q == position / base,
                base > 0,
                position >= 0,
        ;
        if index < cells - 1 {
            assert(base * index + base <= base * (cells - 1)) by (nonlinear_arith)
                requires
                    index < cells - 1,
                    base > 0,
            ;
        }
        if index < q {
            assert(base * index + base <= q * base) by (nonlinear_arith)
                requires
                    index < q,
                    base > 0,
            ;
        }
        if index > q {
            assert(base * index >= q * base + base) by (nonlinear_arith)
                requires
                    index > q,
                    base > 0,
            ;
        }
        assert(base * index == index * base) by (nonlinear_arith);
    }
}

impl Subregion {
    /// The number of pixels of the region.
    pub open spec fn area_spec(self) -> int {
        self.width * self.height
    }

    /// The region is cell (`x`, `y`) of the image cut into `cells_x` columns
    /// and `cells_y` rows of cells.
    pub open spec fn is_grid_cell(
        self,
        x: int,
        y: int,
        cells_x: int,
        cells_y: int,
        width: int,
        height: int,
    ) -> bool {
        &&& self.x == cell_start(x, cells_x, width)
        &&& self.y == cell_start(y, cells_y, height)
        &&& self.width == cell_extent(x, cells_x, width)
        &&& self.height == cell_extent(y, cells_y, height)
    }

    /// The cells of a grid hold every pixel of the image once: cell (`x`,
    /// `y`) holds a pixel exactly if `x` is the cell of the pixel's column
    /// and `y` the cell of its row.
    pub proof fn lemma_grid_cell_by_position(
        self,
        x: int,
        y: int,
        cells_x: int,
        cells_y: int,
        width: int,
        height: int,
        px: int,
        py: int,
    )
        requires
            0 <= x < cells_x,
            0 <= y < cells_y,
            self.is_grid_cell(x, y, cells_x, cells_y, width, height),
            0 <= px < width,
            0 <= py < height,
        ensures
            self.holds(px, py) <==> x == cell_of(px, cells_x, width) && y == cell_of(
                py,
                cells_y,
                height,
            ),
    {
        lemma_cells_partition(px, x, cells_x, width);
        lemma_cells_partition(py, y, cells_y, height);
    }

    /// The pixel in column `px` and row `py` of the image lies in the
    /// region.
    pub open spec fn holds(self, px: int, py: int) -> bool {
        self.x <= px < self.x + self.width && self.y <= py < self.y + self.height
    }

    /// Cell (`x`, `y`) of the image cut into `cells_x` columns and `cells_y`
    /// rows of cells. The cells of a row or column are equal but for the
    /// last, which takes the rest.
    pub fn grid_cell(
        x: usize,
        y: usize,
        cells_x: usize,
        cells_y: usize,
        render_width: usize,
        render_height: usize,
    ) -> (cell: Subregion)
        requires
            x < cells_x,
            y < cells_y,
        ensures
            cell.is_grid_cell(
                x as int,
                y as int,
                cells_x as int,
                cells_y as int,
                render_width as int,
                render_height as int,
            ),
    {
        let base_cell_width = render_width / cells_x;
        let base_cell_height = render_height / cells_y;
        proof {
            lemma_shares_fit(x as int, cells_x as int, render_width as int);
            lemma_shares_fit(y as int, cells_y as int, render_height as int);
        }
        let current_cell_width = {
            if x == cells_x - 1 {
                render_width - (base_cell_width * (cells_x - 1))
            } else {
                base_cell_width
            }
        };
        let current_cell_height = {
            if y == cells_y - 1 {
                render_height - (base_cell_height * (cells_y - 1))
            } else {
                base_cell_height
            }
        };
        Subregion {
            x: base_cell_width * x,
            y: base_cell_height * y,
            width: current_cell_width,
            height: current_cell_height,
        }
    }

    /// Band `y` of the image cut into `cells_y` bands of whole rows. The
    /// bands are equal but for the last, which takes the rest.
    pub fn slice_vertically(
        y: usize,
        cells_y: usize,
        render_width: usize,
        render_height: usize,
    ) -> (band: Subregion)
        requires
            y < cells_y,
        ensures
            band.x == 0,
            band.width == render_width,
            band.y == cell_start(y as int, cells_y as int, render_height as int),
            band.height == cell_extent(y as int, cells_y as int, render_height as int),
    {
        let base_cell_height = render_height / cells_y;
        proof {
            lemma_shares_fit(y as int, cells_y as int, render_height as int);
        }
        let current_cell_height = {
            if y == cells_y - 1 {
                render_height - (base_cell_height * (cells_y - 1))
            } else {
                base_cell_height
            }
        };
        Subregion { x: 0, y: base_cell_height * y, width: render_width, height: current_cell_height }
    }

    pub fn area(&self) -> (pixels: usize)
        requires
            self.area_spec() <= usize::MAX,
        ensures
            pixels == self.area_spec(),
    {
        self.width * self.height
    }
}

/// The equal shares of the cells up to `index` fit in `total`, and a cell
/// ends where the next begins.
pub proof fn lemma_shares_fit(index: int, cells: int, total: int)
    requires
        0 <= index < cells,
        0 <= total,
    ensures
        0 <= cell_start(index, cells, total) <= total,
        0 <= (total / cells) * (cells - 1) <= total,
        0 <= cell_extent(index, cells, total),
        cell_start(index, cells, total) + cell_extent(index, cells, total) <= total,
        index == cells - 1 ==> cell_start(index, cells, total) + cell_extent(index, cells, total)
            == total,
        index < cells - 1 ==> cell_start(index, cells, total) + cell_extent(index, cells, total)
            == cell_start(index + 1, cells, total),
{
    let base = total / cells;
    assert(0 <= base && base * cells <= total) by (nonlinear_arith)
        requires
            base == total / cells,
            cells > 0,
            total >= 0,
    ;
    assert(0 <= base * index && base * index + base <= base * cells) by (nonlinear_arith)
        requires
            0 <= index < cells,
            0 <= base,
    ;
    assert(base * (cells - 1) + base == base * cells) by (nonlinear_arith);
    assert(base * (index + 1) == base * index + base) by (nonlinear_arith);
    assert(0 <= base * (cells - 1)) by (nonlinear_arith)
        requires
            0 <= base,
            cells >= 1,
    ;
}

/// The share of one worker: its region of the image, the colours it has
/// gathered there, row by row, and its own handles on the scene and the
/// camera.
#[derive(Debug)]
pub struct RenderTile<S, C> {
    pub region: Subregion,
    pub buffer: Vec<Vec3>,
    pub scene: S,
    pub camera: C,
}

impl<S, C> RenderTile<S, C> {
    /// The buffer holds one colour for each pixel of the region.
    pub open spec fn is_sized(self) -> bool {
        self.buffer@.len() == self.region.area_spec()
    }

    /// The colour gathered for the pixel in column `px` and row `py` of the
    /// image.
    pub open spec fn color_at(self, px: int, py: int) -> Vec3
        recommends
            self.is_sized(),
            self.region.holds(px, py),
    {
        self.buffer@[(py - self.region.y) * self.region.width + (px - self.region.x)]
    }

    /// A tile for `region`, every pixel black.
    pub fn new(region: Subregion, scene: S, camera: C) -> (tile: RenderTile<S, C>)
        requires
            region.area_spec() <= usize::MAX,
        ensures
            tile.region == region,
            tile.scene == scene,
            tile.camera == camera,
            tile.is_sized(),
            forall|i: int| 0 <= i < tile.buffer@.len() ==> tile.buffer@[i] == Vec3::zeros_spec(),
    {
        let buffer_size = region.area();
        let mut buffer: Vec<Vec3> = Vec::new();
        let mut filled: usize = 0;
        while filled < buffer_size
            invariant
                filled <= buffer_size,
                buffer@.len() == filled,
                forall|i: int| 0 <= i < buffer@.len() ==> buffer@[i] == Vec3::zeros_spec(),
            decreases buffer_size - filled,
        {
            buffer.push(Vec3::zeros());
            filled += 1;
        }
        RenderTile { region, buffer, scene, camera }
    }

    /// Gathers the colour of every pixel of the tile, row by row from the
    /// top and in each row from the left. `shade` returns the colour of the
    /// pixel in a column and row of the whole image.
    pub fn fill<F>(&mut self, shade: &F) where F: Fn(usize, usize) -> Vec3
        requires
            old(self).is_sized(),
            old(self).region.x + old(self).region.width <= usize::MAX,
            old(self).region.y + old(self).region.height <= usize::MAX,
            forall|px: usize, py: usize|
                old(self).region.holds(px as int, py as int) ==> #[trigger] call_requires(
                    shade,
                    (px, py),
                ),
        ensures
            final(self).region == old(self).region,
            final(self).scene == old(self).scene,
            final(self).camera == old(self).camera,
            final(self).is_sized(),
            forall|px: usize, py: usize|
                old(self).region.holds(px as int, py as int) ==> call_ensures(
                    shade,
                    (px, py),
                    #[trigger] final(self).color_at(px as int, py as int),
                ),
    {
        let region = self.region;
        let ghost scene = self.scene;
        let ghost camera = self.camera;
        let mut y: usize = 0;
        while y < region.height
            invariant
                y <= region.height,
                self.region == region,
                self.scene == scene,
                self.camera == camera,
                self.is_sized(),
                region.x + region.width <= usize::MAX,
                region.y + region.height <= usize::MAX,
                forall|px: usize, py: usize|
                    region.holds(px as int, py as int) ==> #[trigger] call_requires(
                        shade,
                        (px, py),
                    ),
                forall|px: usize, py: usize|
                    region.holds(px as int, py as int) && py < region.y + y ==> call_ensures(
                        shade,
                        (px, py),
                        #[trigger] self.color_at(px as int, py as int),
                    ),
            decreases region.height - y,
        {
            let mut x: usize = 0;
            while x < region.width
                invariant
                    x <= region.width,
                    y < region.height,
                    self.region == region,
                    self.scene == scene,
                    self.camera == camera,
                    self.is_sized(),
                    region.x + region.width <= usize::MAX,
                    region.y + region.height <= usize::MAX,
                    forall|px: usize, py: usize|
                        region.holds(px as int, py as int) ==> #[trigger] call_requires(
                            shade,
                            (px, py),
                        ),
                    forall|px: usize, py: usize|
                        region.holds(px as int, py as int) && (py < region.y + y || (py
                            == region.y + y && px < region.x + x)) ==> call_ensures(
                            shade,
                            (px, py),
                            #[trigger] self.color_at(px as int, py as int),
                        ),
                decreases region.width - x,
            {
                let sum = shade(x + region.x, y + region.y);
                let ghost earlier = *self;
                self.store(x, y, sum);
                proof {
                    assert forall|px: usize, py: usize|
                        region.holds(px as int, py as int) && (py < region.y + y || (py
                            == region.y + y && px < region.x + x + 1)) implies call_ensures(
                        shade,
                        (px, py),
                        #[trigger] self.color_at(px as int, py as int),
                    ) by {
                        let place = (py - region.y) * region.width + (px - region.x);
                        lemma_row_major(
                            px - region.x,
                            py - region.y,
                            region.width as int,
                            region.height as int,
                        );
                        lemma_row_major(
                            x as int,
                            y as int,
                            region.width as int,
                            region.height as int,
                        );
                        if place != y * region.width + x {
                            assert(self.color_at(px as int, py as int) == earlier.color_at(
                                px as int,
                                py as int,
                            ));
                        }
                    }
                }
                x += 1;
            }
            y += 1;
        }
    }

    /// Sets the colour of the pixel in column `x` and row `y` of the tile,
    /// both counted from the tile's own corner.
    pub fn store(&mut self, x: usize, y: usize, color: Vec3)
        requires
            old(self).is_sized(),
            x < old(self).region.width,
            y < old(self).region.height,
        ensures
            final(self).region == old(self).region,
            final(self).scene == old(self).scene,
            final(self).camera == old(self).camera,
            final(self).is_sized(),
            final(self).buffer@ == old(self).buffer@.update(
                y * old(self).region.width + x,
                color,
            ),
    {
        let width = self.region.width;
        let pixels = self.buffer.len();
        proof {
            lemma_row_major(x as int, y as int, width as int, self.region.height as int);
            assert(self.buffer@.len() == width * self.region.height);
            assert(y * width + x < pixels);
        }
        let tile_y_offset = y * width;
        self.buffer.set(tile_y_offset + x, color);
    }
}

/// In a rectangle stored row by row, each place has its own index below the
/// rectangle's size.
pub proof fn lemma_row_major(x: int, y: int, width: int, height: int)
    requires
        0 <= x < width,
        0 <= y < height,
    ensures
        0 <= y * width,
        0 <= y * width + x < width * height,
        (y * width + x) / width == y,
        (y * width + x) % width == x,
{
    assert(0 <= y * width && y * width + width <= width * height) by (nonlinear_arith)
        requires
            0 <= y < height,
            0 < width,
    ;
    vstd::arithmetic::div_mod::lemma_fundamental_div_mod_converse(y * width + x, width, y, x);
}

} // verus!
