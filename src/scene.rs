use vstd::prelude::*;
use crate::tileset::{TileRef, Tileset};

verus! {

/// Tiles along each side of the scene grid.
pub const SCENE_SIDE: u32 = 1024;

/// Cells in the scene grid.
pub const SCENE_TILE_COUNT: usize = 1048576;

/// Flip code stored for an unflipped tile.
pub const FLIP_NONE: u8 = 0;

/// Flip code stored for a tile mirrored horizontally.
pub const FLIP_X: u8 = 51;

/// Flip code stored for a tile mirrored vertically.
pub const FLIP_Y: u8 = 102;

/// Flip code stored for a tile mirrored both ways.
pub const FLIP_XY: u8 = 153;

/// Colour and flip code applied to a tile.
#[derive(Clone, Copy, Debug, PartialEq, Eq, Structural)]
pub struct Modifier {
    pub r: u8,
    pub g: u8,
    pub b: u8,
    pub flip: u8,
}

/// One grid position: the front and back tiles, each with a modifier of
/// red, green, blue and flip code.
#[derive(Clone, Copy, Debug, PartialEq, Eq, Structural)]
pub struct TileCell {
    pub front: TileRef,
    pub back: TileRef,
    pub front_modifier: Modifier,
    pub back_modifier: Modifier,
}

/// The cell every position holds in a new scene: no front tile, a white
/// filled back tile, nothing flipped.
pub open spec fn blank_cell() -> TileCell {
    TileCell {
        front: TileRef::Empty,
        back: TileRef::Fill,
        front_modifier: Modifier { r: 255, g: 255, b: 255, flip: FLIP_NONE },
        back_modifier: Modifier { r: 255, g: 255, b: 255, flip: FLIP_NONE },
    }
}

/// The flip code of a `(flip_x, flip_y)` pair.
pub open spec fn flip_code(flip: (bool, bool)) -> u8 {
    match flip {
        (false, false) => FLIP_NONE,
        (true, false) => FLIP_X,
        (false, true) => FLIP_Y,
        (true, true) => FLIP_XY,
    }
}

/// The flip code of a `(flip_x, flip_y)` pair.
pub fn flip_byte(flip: (bool, bool)) -> (r: u8)
    ensures
        r == flip_code(flip),
{
    match flip {
        (false, false) => FLIP_NONE,
        (true, false) => FLIP_X,
        (false, true) => FLIP_Y,
        (true, true) => FLIP_XY,
    }
}

/// Position of the cell `(x, y)` in the row-major grid.
pub open spec fn cell_index(x: int, y: int) -> int {
    y * SCENE_SIDE + x
}

/// Whether `(x, y)` lies on the grid.
pub open spec fn on_grid(x: int, y: int) -> bool {
    0 <= x < SCENE_SIDE && 0 <= y < SCENE_SIDE
}

/// Whether `(x, y)` lies in the rectangle with corners `tl` and `br`, both included.
pub open spec fn in_region(tl: (u32, u32), br: (u32, u32), x: int, y: int) -> bool {
    tl.0 <= x <= br.0 && tl.1 <= y <= br.1
}

/// The cell that a write of the given tiles, colours and flips produces.
pub open spec fn written_cell(
    front: TileRef,
    front_color: (u8, u8, u8),
    front_flip: (bool, bool),
    back: TileRef,
    back_color: (u8, u8, u8),
    back_flip: (bool, bool),
) -> TileCell {
    TileCell {
        front,
        back,
        front_modifier: Modifier {
            r: front_color.0,
            g: front_color.1,
            b: front_color.2,
            flip: flip_code(front_flip),
        },
        back_modifier: Modifier {
            r: back_color.0,
            g: back_color.1,
            b: back_color.2,
            flip: flip_code(back_flip),
        },
    }
}

/// A rectangle of cells to copy into the scene textures: `cells` holds it
/// row by row, `width` cells to a row.
pub struct UploadBatch {
    pub x: u32,
    pub y: u32,
    pub width: u32,
    pub height: u32,
    pub cells: Vec<TileCell>,
}

impl UploadBatch {
    /// The `k`-th cell of the batch belongs at column `x + k % width`, row `y + k / width`.
    pub open spec fn target(&self, k: int) -> (int, int) {
        (self.x + k % (self.width as int), self.y + k / (self.width as int))
    }

    /// Whether the batch covers `(gx, gy)`.
    pub open spec fn covers(&self, gx: int, gy: int) -> bool {
        self.x <= gx < self.x + self.width && self.y <= gy < self.y + self.height
    }

    /// The cell the batch holds for `(gx, gy)`, where it covers it.
    pub open spec fn cell_for(&self, gx: int, gy: int) -> TileCell {
        self.cells@[(gy - self.y) * self.width + (gx - self.x)]
    }
}

/// What a texture holding `tex` holds after `b` is copied into it.
pub open spec fn apply_upload(tex: Seq<TileCell>, b: UploadBatch) -> Seq<TileCell> {
    Seq::new(
        tex.len(),
        |i: int|
            if b.covers(i % (SCENE_SIDE as int), i / (SCENE_SIDE as int)) {
                b.cell_for(i % (SCENE_SIDE as int), i / (SCENE_SIDE as int))
            } else {
                tex[i]
            },
    )
}

/// The whole tile grid, with the rectangle of cells written since the last
/// upload.
pub struct Scene {
    cells: Vec<TileCell>,
    upload_pending: bool,
    dirty_top_left: (u32, u32),
    dirty_bottom_right: (u32, u32),
    uploaded: Ghost<Seq<TileCell>>,
}

impl Scene {
    /// The cells, row by row.
    pub closed spec fn spec_cells(&self) -> Seq<TileCell> {
        self.cells@
    }

    /// Whether cells were written since the last upload.
    pub closed spec fn spec_pending(&self) -> bool {
        self.upload_pending
    }

    /// Top-left corner of the dirty rectangle.
    pub closed spec fn spec_top_left(&self) -> (u32, u32) {
        self.dirty_top_left
    }

    /// Bottom-right corner of the dirty rectangle, included.
    pub closed spec fn spec_bottom_right(&self) -> (u32, u32) {
        self.dirty_bottom_right
    }

    /// What the scene textures hold: the cells as of the last upload.
    pub closed spec fn spec_uploaded(&self) -> Seq<TileCell> {
        self.uploaded@
    }

    /// The cell at `(x, y)`.
    pub open spec fn spec_cell(&self, x: int, y: int) -> TileCell {
        self.spec_cells()[cell_index(x, y)]
    }

    /// Whether the dirty rectangle is the empty one.
    pub open spec fn region_empty(&self) -> bool {
        self.spec_top_left() == (SCENE_SIDE, SCENE_SIDE) && self.spec_bottom_right() == (0u32, 0u32)
    }

    /// The grid is full size; with no upload pending the dirty rectangle is
    /// empty, else it lies on the grid; and every cell that differs from the
    /// textures lies inside it.
    pub open spec fn wf(&self) -> bool {
        &&& self.spec_cells().len() == SCENE_TILE_COUNT
        &&& self.spec_uploaded().len() == SCENE_TILE_COUNT
        &&& !self.spec_pending() ==> self.region_empty()
        &&& self.spec_pending() ==> {
            &&& self.spec_top_left().0 <= self.spec_bottom_right().0 < SCENE_SIDE
            &&& self.spec_top_left().1 <= self.spec_bottom_right().1 < SCENE_SIDE
        }
        &&& forall|x: int, y: int|
            on_grid(x, y) && self.spec_cells()[cell_index(x, y)] != #[trigger] self.spec_uploaded()[cell_index(x, y)]
                ==> self.spec_pending() && in_region(
                self.spec_top_left(),
                self.spec_bottom_right(),
                x,
                y,
            )
    }

    /// A scene of blank cells, already in the textures, with nothing pending.
    pub fn new() -> (r: Self)
        ensures
            r.wf(),
            !r.spec_pending(),
            r.region_empty(),
            forall|i: int| 0 <= i < SCENE_TILE_COUNT ==> #[trigger] r.spec_cells()[i] == blank_cell(),
            r.spec_uploaded() == r.spec_cells(),
    {
        let blank = TileCell {
            front: TileRef::Empty,
            back: TileRef::Fill,
            front_modifier: Modifier { r: 255, g: 255, b: 255, flip: FLIP_NONE },
            back_modifier: Modifier { r: 255, g: 255, b: 255, flip: FLIP_NONE },
        };
        let cells = vec![blank; SCENE_TILE_COUNT];
        Scene {
            uploaded: Ghost(cells@),
            cells,
            upload_pending: false,
            dirty_top_left: (SCENE_SIDE, SCENE_SIDE),
            dirty_bottom_right: (0, 0),
        }
    }

    /// The cells, row by row.
    pub fn cells(&self) -> (r: &Vec<TileCell>)
        ensures
            r@ == self.spec_cells(),
    {
        &self.cells
    }

    /// Whether cells were written since the last upload.
    pub fn upload_pending(&self) -> (r: bool)
        ensures
            r == self.spec_pending(),
    {
        self.upload_pending
    }

    /// The dirty rectangle, as its top-left and bottom-right corners.
    pub fn dirty_region(&self) -> (r: ((u32, u32), (u32, u32)))
        ensures
            r == (self.spec_top_left(), self.spec_bottom_right()),
    {
        (self.dirty_top_left, self.dirty_bottom_right)
    }

    /// How `set_tile` takes `pre` to `post` with result `r`.
    pub open spec fn set_tile_relation(
        pre: Scene,
        post: Scene,
        r: bool,
        tileset: &Tileset,
        position: (i32, i32),
        front_tile: Seq<char>,
        front_color: (u8, u8, u8),
        front_flip: (bool, bool),
        back_tile: Seq<char>,
        back_color: (u8, u8, u8),
        back_flip: (bool, bool),
    ) -> bool {
        let x = position.0 as int;
        let y = position.1 as int;
        let front = tileset.spec_location(front_tile);
        let back = tileset.spec_location(back_tile);
        let cell = written_cell(front.unwrap(), front_color, front_flip, back.unwrap(), back_color, back_flip);
        let changes = on_grid(x, y) && front is Some && back is Some && pre.spec_cell(x, y) != cell;
        &&& r == changes
        &&& changes ==> {
            &&& post.spec_cells() == pre.spec_cells().update(cell_index(x, y), cell)
            &&& post.spec_pending()
            &&& post.spec_top_left() == (
                if x < pre.spec_top_left().0 { x as u32 } else { pre.spec_top_left().0 },
                if y < pre.spec_top_left().1 { y as u32 } else { pre.spec_top_left().1 },
            )
            &&& post.spec_bottom_right() == (
                if x > pre.spec_bottom_right().0 { x as u32 } else { pre.spec_bottom_right().0 },
                if y > pre.spec_bottom_right().1 { y as u32 } else { pre.spec_bottom_right().1 },
            )
            &&& post.spec_uploaded() == pre.spec_uploaded()
        }
        &&& !changes ==> post == pre
    }

    /// Writes the cell at `position`, resolving both tile names in
    /// `tileset`. Nothing changes, and the result is `false`, where the
    /// position is off the grid, a name is unknown, or the cell already
    /// holds exactly this value. Otherwise the cell is written, the dirty
    /// rectangle grows to include it, an upload becomes pending, and the
    /// result is `true`.
    pub fn set_tile(
        &mut self,
        tileset: &Tileset,
        position: (i32, i32),
        front_tile: &str,
        front_color: (u8, u8, u8),
        front_flip: (bool, bool),
        back_tile: &str,
        back_color: (u8, u8, u8),
        back_flip: (bool, bool),
    ) -> (r: bool)
        requires
            old(self).wf(),
        ensures
            final(self).wf(),
            Self::set_tile_relation(
                *old(self),
                *final(self),
                r,
                tileset,
                position,
                front_tile@,
                front_color,
                front_flip,
                back_tile@,
                back_color,
                back_flip,
            ),
    {
        if position.0 < 0 || position.1 < 0 || position.0 >= SCENE_SIDE as i32 || position.1
            >= SCENE_SIDE as i32 {
            return false;
        }
        let x = position.0 as u32;
        let y = position.1 as u32;
        let front = tileset.get_tile_location(front_tile);
        let back = tileset.get_tile_location(back_tile);
        let (front, back) = match (front, back) {
            (Some(f), Some(b)) => (f, b),
            _ => return false,
        };
        let cell = TileCell {
            front,
            back,
            front_modifier: Modifier {
                r: front_color.0,
                g: front_color.1,
                b: front_color.2,
                flip: flip_byte(front_flip),
            },
            back_modifier: Modifier {
                r: back_color.0,
                g: back_color.1,
                b: back_color.2,
                flip: flip_byte(back_flip),
            },
        };
        let index = (y * SCENE_SIDE + x) as usize;
        if self.cells[index] == cell {
            return false;
        }
        self.cells.set(index, cell);
        let tl = self.dirty_top_left;
        let br = self.dirty_bottom_right;
        self.dirty_top_left = (if x < tl.0 { x } else { tl.0 }, if y < tl.1 { y } else { tl.1 });
        self.dirty_bottom_right = (if x > br.0 { x } else { br.0 }, if y > br.1 { y } else { br.1 });
        self.upload_pending = true;
        proof {
            assert forall|gx: int, gy: int|
                on_grid(gx, gy) && self.spec_cells()[cell_index(gx, gy)] != #[trigger] self.spec_uploaded()[cell_index(gx, gy)]
                implies self.spec_pending() && in_region(
                self.spec_top_left(),
                self.spec_bottom_right(),
                gx,
                gy,
            ) by {
                if gx != x || gy != y {
                    lemma_cell_index_injective(gx, gy, x as int, y as int);
                }
            }
        }
        true
    }

    /// How `upload` takes `pre` to `post` with result `r`.
    pub open spec fn upload_relation(pre: Scene, post: Scene, r: Option<UploadBatch>) -> bool {
        &&& match r {
            None => !pre.spec_pending() && post == pre,
            Some(b) => {
                &&& pre.spec_pending()
                &&& b.x == pre.spec_top_left().0
                &&& b.y == pre.spec_top_left().1
                &&& b.width == pre.spec_bottom_right().0 - pre.spec_top_left().0 + 1
                &&& b.height == pre.spec_bottom_right().1 - pre.spec_top_left().1 + 1
                &&& b.cells@.len() == b.width * b.height
                &&& forall|k: int|
                    0 <= k < b.cells@.len() ==> #[trigger] b.cells@[k] == pre.spec_cell(
                        b.target(k).0,
                        b.target(k).1,
                    )
                &&& apply_upload(pre.spec_uploaded(), b) == pre.spec_cells()
            }
        }
        &&& post.spec_cells() == pre.spec_cells()
        &&& !post.spec_pending()
        &&& post.region_empty()
        &&& post.spec_uploaded() == post.spec_cells()
    }

    /// Takes the dirty rectangle out of the grid for copying into the
    /// textures. With nothing pending the result is `None` and nothing
    /// changes. Otherwise the result holds exactly the cells of the dirty
    /// rectangle, row by row; copied over what the textures held, it brings
    /// them level with the grid. The rectangle is then reset to empty and
    /// nothing is pending.
    pub fn upload(&mut self) -> (r: Option<UploadBatch>)
        requires
            old(self).wf(),
        ensures
            final(self).wf(),
            Self::upload_relation(*old(self), *final(self), r),
    {
        if !self.upload_pending {
            proof {
                assert(self.spec_cells() =~= self.spec_uploaded()) by {
                    assert forall|i: int| 0 <= i < SCENE_TILE_COUNT implies self.spec_cells()[i]
                        == self.spec_uploaded()[i] by {
                        lemma_cell_coords(i);
                    }
                }
            }
            return None;
        }
        let x0 = self.dirty_top_left.0;
        let y0 = self.dirty_top_left.1;
        let width = self.dirty_bottom_right.0 - x0 + 1;
        let height = self.dirty_bottom_right.1 - y0 + 1;
        let mut out: Vec<TileCell> = Vec::new();
        let mut ly: u32 = 0;
        while ly < height
            invariant
                self.wf(),
                self.spec_pending(),
                x0 == self.spec_top_left().0,
                y0 == self.spec_top_left().1,
                width == self.spec_bottom_right().0 - x0 + 1,
                height == self.spec_bottom_right().1 - y0 + 1,
                ly <= height,
                out@.len() == ly * width,
                forall|k: int|
                    0 <= k < out@.len() ==> #[trigger] out@[k] == self.spec_cell(
                        x0 + k % (width as int),
                        y0 + k / (width as int),
                    ),
            decreases height - ly,
        {
            let mut lx: u32 = 0;
            while lx < width
                invariant
                    self.wf(),
                    self.spec_pending(),
                    x0 == self.spec_top_left().0,
                    y0 == self.spec_top_left().1,
                    width == self.spec_bottom_right().0 - x0 + 1,
                    height == self.spec_bottom_right().1 - y0 + 1,
                    ly < height,
                    lx <= width,
                    out@.len() == ly * width + lx,
                    forall|k: int|
                        0 <= k < out@.len() ==> #[trigger] out@[k] == self.spec_cell(
                            x0 + k % (width as int),
                            y0 + k / (width as int),
                        ),
                decreases width - lx,
            {
                let index = ((y0 + ly) * SCENE_SIDE + x0 + lx) as usize;
                proof {
                    vstd::arithmetic::div_mod::lemma_fundamental_div_mod_converse(
                        out@.len() as int,
                        width as int,
                        ly as int,
                        lx as int,
                    );
                }
                out.push(self.cells[index]);
                lx += 1;
            }
            ly += 1;
            assert(out@.len() == ly * width) by (nonlinear_arith)
                requires out@.len() == (ly - 1) * width + width;
        }
        let batch = UploadBatch { x: x0, y: y0, width, height, cells: out };
        proof {
            assert(batch.cells@.len() == width * height) by (nonlinear_arith)
                requires batch.cells@.len() == height * width;
            assert(apply_upload(self.spec_uploaded(), batch) =~= self.spec_cells()) by {
                assert forall|i: int| 0 <= i < SCENE_TILE_COUNT implies #[trigger] apply_upload(
                    self.spec_uploaded(),
                    batch,
                )[i] == self.spec_cells()[i] by {
                    lemma_cell_coords(i);
                    let gx = i % (SCENE_SIDE as int);
                    let gy = i / (SCENE_SIDE as int);
                    if batch.covers(gx, gy) {
                        let k = (gy - y0) * width + (gx - x0);
                        assert(0 <= k < width * height) by (nonlinear_arith)
                            requires
                                k == (gy - y0) * width + (gx - x0),
                                0 <= gx - x0 < width,
                                0 <= gy - y0 < height,
                        ;
                        vstd::arithmetic::div_mod::lemma_fundamental_div_mod_converse(
                            k,
                            width as int,
                            gy - y0,
                            gx - x0,
                        );
                    }
                }
            }
        }
        self.upload_pending = false;
        self.dirty_top_left = (SCENE_SIDE, SCENE_SIDE);
        self.dirty_bottom_right = (0, 0);
        self.uploaded = Ghost(self.cells@);
        Some(batch)
    }
}

/// Writing the same cell twice in a row: the second write returns `false`
/// and leaves the scene, its dirty rectangle included, as the first left it.
pub proof fn lemma_set_tile_idempotent(
    s0: Scene,
    s1: Scene,
    s2: Scene,
    r1: bool,
    r2: bool,
    tileset: &Tileset,
    position: (i32, i32),
    front_tile: Seq<char>,
    front_color: (u8, u8, u8),
    front_flip: (bool, bool),
    back_tile: Seq<char>,
    back_color: (u8, u8, u8),
    back_flip: (bool, bool),
)
    requires
        s0.wf(),
        Scene::set_tile_relation(
            s0, s1, r1, tileset, position, front_tile, front_color, front_flip, back_tile, back_color, back_flip,
        ),
        Scene::set_tile_relation(
            s1, s2, r2, tileset, position, front_tile, front_color, front_flip, back_tile, back_color, back_flip,
        ),
    ensures
        !r2,
        s2 == s1,
        s2.spec_top_left() == s1.spec_top_left(),
        s2.spec_bottom_right() == s1.spec_bottom_right(),
{
    let x = position.0 as int;
    let y = position.1 as int;
    if r1 {
        assert(s1.spec_cells()[cell_index(x, y)] == written_cell(
            tileset.spec_location(front_tile).unwrap(),
            front_color,
            front_flip,
            tileset.spec_location(back_tile).unwrap(),
            back_color,
            back_flip,
        ));
    }
}

/// Distinct grid positions have distinct cell indices.
pub(crate) proof fn lemma_cell_index_injective(x1: int, y1: int, x2: int, y2: int)
    requires
        on_grid(x1, y1),
        on_grid(x2, y2),
        x1 != x2 || y1 != y2,
    ensures
        cell_index(x1, y1) != cell_index(x2, y2),
{
    if y1 == y2 {
    } else if y1 < y2 {
        assert(cell_index(x1, y1) < cell_index(x2, y2));
    } else {
        assert(cell_index(x1, y1) > cell_index(x2, y2));
    }
}

/// Every cell index is the index of its column and row.
proof fn lemma_cell_coords(i: int)
    requires
        0 <= i < SCENE_TILE_COUNT,
    ensures
        on_grid(i % (SCENE_SIDE as int), i / (SCENE_SIDE as int)),
        cell_index(i % (SCENE_SIDE as int), i / (SCENE_SIDE as int)) == i,
{
    vstd::arithmetic::div_mod::lemma_fundamental_div_mod(i, SCENE_SIDE as int);
    vstd::arithmetic::div_mod::lemma_mod_pos_bound(i, SCENE_SIDE as int);
    vstd::arithmetic::div_mod::lemma_div_pos_is_pos(i, SCENE_SIDE as int);
    vstd::arithmetic::div_mod::lemma_div_is_ordered(i, SCENE_TILE_COUNT as int - 1, SCENE_SIDE as int);
}

} // verus!
