use vstd::prelude::*;
use crate::input::{Event, InputTracker};
use crate::labels::LabelMap;
use crate::resources::Provider;
use crate::scene::{on_grid, written_cell, Scene, TileCell, UploadBatch};
use crate::tileset::{decoded_rgba, names_view, TileRef, Tileset, TilesetError};
use crate::timestep::{poll_model, Timestep};
use crate::viewport::Viewport;

verus! {

/// What the game asks of the engine when it starts.
#[derive(Debug)]
pub struct Config {
    pub application_name: String,
    pub application_version: String,
    pub viewport_scale: i32,
    pub viewport_width: i32,
    pub viewport_height: i32,
    pub tileset_width: u32,
    pub tileset_height: u32,
    pub tileset_path: String,
    pub tile_names: Vec<String>,
}

impl Default for Config {
    /// The configuration a game gets for each value it leaves out: a
    /// 10x10 viewport at scale 2 and a 3x3 tileset read from `default.png`,
    /// with no tile names.
    fn default() -> (r: Config)
        ensures
            r.application_name@ == "default"@,
            r.application_version@ == "0.0.0"@,
            r.viewport_scale == 2,
            r.viewport_width == 10,
            r.viewport_height == 10,
            r.tileset_width == 3,
            r.tileset_height == 3,
            r.tileset_path@ == "default.png"@,
            r.tile_names@.len() == 0,
    {
        Config {
            application_name: "default".to_owned(),
            application_version: "0.0.0".to_owned(),
            viewport_scale: 2,
            viewport_width: 10,
            viewport_height: 10,
            tileset_width: 3,
            tileset_height: 3,
            tileset_path: "default.png".to_owned(),
            tile_names: Vec::new(),
        }
    }
}

/// Why the engine could not start.
#[derive(Clone, Copy, Debug, PartialEq, Eq, Structural)]
pub enum LoadError {
    /// The tileset image is not among the resources.
    MissingTileset,
    /// The tileset image does not decode.
    UndecodableTileset,
    /// The tileset grid has no columns or no rows.
    EmptyTilesetGrid,
    /// The window for the viewport would be too large.
    FramebufferTooLarge,
}

/// The framebuffer that shows `viewport` with tiles of `tile` pixels.
pub open spec fn framebuffer_of(viewport: Viewport, tile: (u32, u32)) -> (int, int) {
    (
        viewport.spec_width() * tile.0 * viewport.spec_scale(),
        viewport.spec_height() * tile.1 * viewport.spec_scale(),
    )
}

/// Whether both sides of a framebuffer fit in a `u32`.
pub open spec fn fits(size: (int, int)) -> bool {
    size.0 <= u32::MAX && size.1 <= u32::MAX
}

/// What one frame draws: the cells to copy into the scene textures, if
/// any, and the values the shader reads.
pub struct Frame {
    pub upload: Option<UploadBatch>,
    pub viewport_size: (u32, u32),
    pub tileset_size: (u32, u32),
    pub framebuffer_size: (u32, u32),
    pub tile_size: (u32, u32),
    pub scale: u32,
}

/// The tileset, viewport and scene that make up the picture, and whether
/// a new frame is owed.
pub struct Context {
    tileset: Tileset,
    viewport: Viewport,
    scene: Scene,
    framebuffer_size: (u32, u32),
    pending_render: bool,
}

impl Context {
    /// The tileset.
    pub closed spec fn spec_tileset(&self) -> Tileset {
        self.tileset
    }

    /// The viewport.
    pub closed spec fn spec_viewport(&self) -> Viewport {
        self.viewport
    }

    /// The scene.
    pub closed spec fn spec_scene(&self) -> Scene {
        self.scene
    }

    /// The framebuffer size, in pixels.
    pub closed spec fn spec_framebuffer_size(&self) -> (u32, u32) {
        self.framebuffer_size
    }

    /// Whether a new frame is owed.
    pub closed spec fn spec_pending_render(&self) -> bool {
        self.pending_render
    }

    /// The viewport and scene are well formed and the framebuffer fits the
    /// viewport.
    pub open spec fn wf(&self) -> bool {
        &&& self.spec_viewport().wf()
        &&& self.spec_scene().wf()
        &&& framebuffer_of(self.spec_viewport(), self.spec_tileset().spec_tile_dimensions()) == (
            self.spec_framebuffer_size().0 as int,
            self.spec_framebuffer_size().1 as int,
        )
    }

    /// A context for `config` showing `tileset`: a viewport clamped from
    /// the configured one, a blank scene, and a first frame owed. Fails
    /// where the framebuffer would not fit.
    pub fn new(config: &Config, tileset: Tileset) -> (r: Result<Context, LoadError>)
        ensures
            ({
                let vp = Viewport::new_spec(config.viewport_width, config.viewport_height, config.viewport_scale);
                let fb = framebuffer_of(vp, tileset.spec_tile_dimensions());
                match r {
                    Ok(c) => {
                        &&& fits(fb)
                        &&& c.wf()
                        &&& c.spec_tileset() == tileset
                        &&& c.spec_viewport() == vp
                        &&& c.spec_pending_render()
                        &&& !c.spec_scene().spec_pending()
                        &&& c.spec_scene().spec_uploaded() == c.spec_scene().spec_cells()
                        &&& forall|i: int|
                            0 <= i < c.spec_scene().spec_cells().len() ==> #[trigger] c.spec_scene().spec_cells()[i]
                                == crate::scene::blank_cell()
                    },
                    Err(e) => !fits(fb) && e == LoadError::FramebufferTooLarge,
                }
            }),
    {
        let viewport = Viewport::new(config.viewport_width, config.viewport_height, config.viewport_scale);
        match viewport.get_framebuffer_size(tileset.get_tile_dimensions()) {
            Some(framebuffer_size) => Ok(Context {
                tileset,
                viewport,
                scene: Scene::new(),
                framebuffer_size,
                pending_render: true,
            }),
            None => Err(LoadError::FramebufferTooLarge),
        }
    }

    /// Writes a cell of the scene where `position` lies inside the
    /// viewport, as `Scene::set_tile` does; outside the viewport nothing
    /// changes. A frame becomes owed where the cell changed.
    pub fn set_tile(
        &mut self,
        position: (i32, i32),
        front_tile: &str,
        front_color: (u8, u8, u8),
        front_flip: (bool, bool),
        back_tile: &str,
        back_color: (u8, u8, u8),
        back_flip: (bool, bool),
    ) -> (r: bool)
        requires
            old(self).wf(),
        ensures
            final(self).wf(),
            Self::set_tile_relation(
                *old(self),
                *final(self),
                r,
                position,
                front_tile@,
                front_color,
                front_flip,
                back_tile@,
                back_color,
                back_flip,
            ),
    {
        if self.viewport.contains(position.0, position.1) {
            let changed = self.scene.set_tile(
                &self.tileset,
                position,
                front_tile,
                front_color,
                front_flip,
                back_tile,
                back_color,
                back_flip,
            );
            self.pending_render = self.pending_render || changed;
            changed
        } else {
            false
        }
    }

    /// How `set_tile` takes `pre` to `post` with result `r`.
    pub open spec fn set_tile_relation(
        pre: Context,
        post: Context,
        r: bool,
        position: (i32, i32),
        front_tile: Seq<char>,
        front_color: (u8, u8, u8),
        front_flip: (bool, bool),
        back_tile: Seq<char>,
        back_color: (u8, u8, u8),
        back_flip: (bool, bool),
    ) -> bool {
        if pre.spec_viewport().spec_contains(position.0 as int, position.1 as int) {
            &&& Scene::set_tile_relation(
                pre.spec_scene(),
                post.spec_scene(),
                r,
                &pre.spec_tileset(),
                position,
                front_tile,
                front_color,
                front_flip,
                back_tile,
                back_color,
                back_flip,
            )
            &&& post.spec_pending_render() == (pre.spec_pending_render() || r)
            &&& post.spec_tileset() == pre.spec_tileset()
            &&& post.spec_viewport() == pre.spec_viewport()
            &&& post.spec_framebuffer_size() == pre.spec_framebuffer_size()
        } else {
            !r && post == pre
        }
    }

    /// How `set_viewport` takes `pre` to `post` with result `r`.
    pub open spec fn set_viewport_relation(
        pre: Context,
        post: Context,
        r: bool,
        width: i32,
        height: i32,
        scale: i32,
    ) -> bool {
        let vp = Viewport::new_spec(width, height, scale);
        let fb = framebuffer_of(vp, pre.spec_tileset().spec_tile_dimensions());
        &&& r == fits(fb)
        &&& r ==> {
            &&& post.spec_viewport() == vp
            &&& post.spec_framebuffer_size() == (fb.0 as u32, fb.1 as u32)
            &&& post.spec_pending_render()
            &&& post.spec_scene() == pre.spec_scene()
            &&& post.spec_tileset() == pre.spec_tileset()
        }
        &&& !r ==> post == pre
    }

    /// Replaces the viewport, clamped as `Viewport::set` does, resizes the
    /// framebuffer to match, and owes a new frame. Where the new
    /// framebuffer would not fit, nothing changes and the result is `false`.
    pub fn set_viewport(&mut self, width: i32, height: i32, scale: i32) -> (r: bool)
        requires
            old(self).wf(),
        ensures
            final(self).wf(),
            Self::set_viewport_relation(*old(self), *final(self), r, width, height, scale),
    {
        let viewport = Viewport::new(width, height, scale);
        match viewport.get_framebuffer_size(self.tileset.get_tile_dimensions()) {
            Some(size) => {
                self.viewport = viewport;
                self.framebuffer_size = size;
                self.pending_render = true;
                true
            },
            None => false,
        }
    }

    /// Whether the cell `(a, b)` comes before column `x`, row `y` in the
    /// column-by-column walk of the viewport.
    pub open spec fn done_before(vp: Viewport, x: int, y: int, a: int, b: int) -> bool {
        vp.spec_contains(a, b) && (a < x || (a == x && b < y))
    }

    /// Whether clearing changes the cell `(a, b)`, walked before `(x, y)`.
    pub open spec fn changed_before(c: Context, x: int, y: int, a: int, b: int) -> bool {
        Self::done_before(c.spec_viewport(), x, y, a, b) && c.spec_scene().spec_cell(a, b) != cleared_cell()
    }

    /// Whether clearing changes some cell walked before `(x, y)`.
    pub open spec fn any_changed_before(c: Context, x: int, y: int) -> bool {
        exists|a: int, b: int| #[trigger] Self::changed_before(c, x, y, a, b)
    }

    /// Whether `tl` and `br` are the bounding box of the dirty rectangle of
    /// `c` and the cells that clearing changes before `(x, y)`.
    pub open spec fn grown_box(c: Context, tl: (u32, u32), br: (u32, u32), x: int, y: int) -> bool {
        let tl0 = c.spec_scene().spec_top_left();
        let br0 = c.spec_scene().spec_bottom_right();
        &&& tl.0 <= tl0.0 && tl.1 <= tl0.1 && br.0 >= br0.0 && br.1 >= br0.1
        &&& forall|a: int, b: int|
            #[trigger] Self::changed_before(c, x, y, a, b) ==> tl.0 <= a <= br.0 && tl.1 <= b <= br.1
        &&& tl.0 == tl0.0 || exists|a: int, b: int| #[trigger] Self::changed_before(c, x, y, a, b) && a == tl.0
        &&& tl.1 == tl0.1 || exists|a: int, b: int| #[trigger] Self::changed_before(c, x, y, a, b) && b == tl.1
        &&& br.0 == br0.0 || exists|a: int, b: int| #[trigger] Self::changed_before(c, x, y, a, b) && a == br.0
        &&& br.1 == br0.1 || exists|a: int, b: int| #[trigger] Self::changed_before(c, x, y, a, b) && b == br.1
    }

    /// Where clearing `c0` stands once every cell before `(x, y)` is done.
    pub open spec fn clear_progress(c0: Context, c: Context, x: int, y: int) -> bool {
        &&& c.wf()
        &&& c.spec_tileset() == c0.spec_tileset()
        &&& c.spec_viewport() == c0.spec_viewport()
        &&& c.spec_framebuffer_size() == c0.spec_framebuffer_size()
        &&& forall|a: int, b: int|
            on_grid(a, b) ==> #[trigger] c.spec_scene().spec_cell(a, b) == if Self::done_before(
                c0.spec_viewport(),
                x,
                y,
                a,
                b,
            ) {
                cleared_cell()
            } else {
                c0.spec_scene().spec_cell(a, b)
            }
        &&& !Self::any_changed_before(c0, x, y) ==> c == c0
        &&& Self::any_changed_before(c0, x, y) ==> {
            &&& c.spec_pending_render()
            &&& c.spec_scene().spec_pending()
            &&& c.spec_scene().spec_uploaded() == c0.spec_scene().spec_uploaded()
            &&& Self::grown_box(c0, c.spec_scene().spec_top_left(), c.spec_scene().spec_bottom_right(), x, y)
        }
    }

    /// How `clear_viewport` takes `pre` to `post`: every viewport cell is
    /// the cleared cell and every other cell is kept; where no cell
    /// changes, nothing does; otherwise, as `set_tile` does for each cell,
    /// a frame and an upload are owed and the dirty rectangle grows to the
    /// bounding box of itself and the changed cells.
    pub open spec fn clear_relation(pre: Context, post: Context) -> bool {
        Self::clear_progress(pre, post, pre.spec_viewport().spec_width(), 0)
    }

    /// Writes the cleared cell at `(x, y)` of the walk and moves on by one row.
    proof fn lemma_clear_step(c0: Context, pre: Context, post: Context, r: bool, x: int, y: int, name: Seq<char>)
        requires
            Self::clear_progress(c0, pre, x, y),
            c0.spec_viewport().spec_contains(x, y),
            name == crate::tileset::empty_name(),
            post.wf(),
            Self::set_tile_relation(pre, post, r, (x as i32, y as i32), name, (0, 0, 0), (false, false), name, (0, 0, 0), (false, false)),
        ensures
            Self::clear_progress(c0, post, x, y + 1),
    {
        let vp = c0.spec_viewport();
        assert(on_grid(x, y));
        assert(pre.spec_scene().spec_cell(x, y) == c0.spec_scene().spec_cell(x, y));
        assert(pre.spec_tileset().spec_location(name) == Some(TileRef::Empty));
        let changed = c0.spec_scene().spec_cell(x, y) != cleared_cell();
        assert(r == changed);
        assert forall|a: int, b: int| Self::done_before(vp, x, y + 1, a, b) == (Self::done_before(vp, x, y, a, b) || (a == x && b == y)) by {}
        if r {
            assert(Self::changed_before(c0, x, y + 1, x, y));
            assert forall|a: int, b: int|
                on_grid(a, b) implies #[trigger] post.spec_scene().spec_cell(a, b) == if Self::done_before(vp, x, y + 1, a, b) {
                cleared_cell()
            } else {
                c0.spec_scene().spec_cell(a, b)
            } by {
                let cell = written_cell(
                    pre.spec_tileset().spec_location(name).unwrap(),
                    (0, 0, 0),
                    (false, false),
                    pre.spec_tileset().spec_location(name).unwrap(),
                    (0, 0, 0),
                    (false, false),
                );
                assert(cell == cleared_cell());
                assert(post.spec_scene().spec_cells() == pre.spec_scene().spec_cells().update(
                    crate::scene::cell_index(x, y),
                    cell,
                ));
                assert(0 <= crate::scene::cell_index(a, b) < pre.spec_scene().spec_cells().len());
                if a != x || b != y {
                    crate::scene::lemma_cell_index_injective(a, b, x, y);
                    assert(post.spec_scene().spec_cell(a, b) == pre.spec_scene().spec_cell(a, b));
                    assert(Self::done_before(vp, x, y + 1, a, b) == Self::done_before(vp, x, y, a, b));
                }
            }
            let tl0 = c0.spec_scene().spec_top_left();
            let br0 = c0.spec_scene().spec_bottom_right();
            let tl = post.spec_scene().spec_top_left();
            let br = post.spec_scene().spec_bottom_right();
            let ptl = pre.spec_scene().spec_top_left();
            let pbr = pre.spec_scene().spec_bottom_right();
            if !Self::any_changed_before(c0, x, y) {
                assert(pre == c0);
            }
            assert forall|a: int, b: int|
                #[trigger] Self::changed_before(c0, x, y + 1, a, b) implies tl.0 <= a <= br.0 && tl.1 <= b <= br.1 by {
                if !(a == x && b == y) {
                    assert(Self::changed_before(c0, x, y, a, b));
                }
            }
            if tl.0 != tl0.0 && tl.0 != x {
                assert(tl.0 == ptl.0);
                let (a, b) = choose|a: int, b: int| #[trigger] Self::changed_before(c0, x, y, a, b) && a == ptl.0;
                assert(Self::changed_before(c0, x, y + 1, a, b));
            }
            if tl.1 != tl0.1 && tl.1 != y {
                assert(tl.1 == ptl.1);
                let (a, b) = choose|a: int, b: int| #[trigger] Self::changed_before(c0, x, y, a, b) && b == ptl.1;
                assert(Self::changed_before(c0, x, y + 1, a, b));
            }
            if br.0 != br0.0 && br.0 != x {
                assert(br.0 == pbr.0);
                let (a, b) = choose|a: int, b: int| #[trigger] Self::changed_before(c0, x, y, a, b) && a == pbr.0;
                assert(Self::changed_before(c0, x, y + 1, a, b));
            }
            if br.1 != br0.1 && br.1 != y {
                assert(br.1 == pbr.1);
                let (a, b) = choose|a: int, b: int| #[trigger] Self::changed_before(c0, x, y, a, b) && b == pbr.1;
                assert(Self::changed_before(c0, x, y + 1, a, b));
            }
            assert(Self::any_changed_before(c0, x, y + 1));
        } else {
            assert(post == pre);
            assert forall|a: int, b: int|
                Self::changed_before(c0, x, y + 1, a, b) == Self::changed_before(c0, x, y, a, b) by {}
            assert(Self::any_changed_before(c0, x, y + 1) == Self::any_changed_before(c0, x, y));
            if Self::any_changed_before(c0, x, y) {
                let tl = pre.spec_scene().spec_top_left();
                let br = pre.spec_scene().spec_bottom_right();
                assert(Self::grown_box(c0, tl, br, x, y));
                assert forall|a: int, b: int|
                    #[trigger] Self::changed_before(c0, x, y + 1, a, b) implies tl.0 <= a <= br.0 && tl.1 <= b <= br.1 by {
                    assert(Self::changed_before(c0, x, y, a, b));
                }
                let tl0 = c0.spec_scene().spec_top_left();
                let br0 = c0.spec_scene().spec_bottom_right();
                if tl.0 != tl0.0 {
                    let (a, b) = choose|a: int, b: int| #[trigger] Self::changed_before(c0, x, y, a, b) && a == tl.0;
                    assert(Self::changed_before(c0, x, y + 1, a, b));
                }
                if tl.1 != tl0.1 {
                    let (a, b) = choose|a: int, b: int| #[trigger] Self::changed_before(c0, x, y, a, b) && b == tl.1;
                    assert(Self::changed_before(c0, x, y + 1, a, b));
                }
                if br.0 != br0.0 {
                    let (a, b) = choose|a: int, b: int| #[trigger] Self::changed_before(c0, x, y, a, b) && a == br.0;
                    assert(Self::changed_before(c0, x, y + 1, a, b));
                }
                if br.1 != br0.1 {
                    let (a, b) = choose|a: int, b: int| #[trigger] Self::changed_before(c0, x, y, a, b) && b == br.1;
                    assert(Self::changed_before(c0, x, y + 1, a, b));
                }
            }
        }
    }

    /// The walk at the end of a column is the walk at the top of the next.
    proof fn lemma_clear_next_column(c0: Context, c: Context, x: int)
        requires
            Self::clear_progress(c0, c, x, c0.spec_viewport().spec_height()),
        ensures
            Self::clear_progress(c0, c, x + 1, 0),
    {
        let vp = c0.spec_viewport();
        assert forall|a: int, b: int|
            Self::done_before(vp, x + 1, 0, a, b) == Self::done_before(vp, x, vp.spec_height(), a, b) by {}
        assert forall|a: int, b: int|
            Self::changed_before(c0, x + 1, 0, a, b) == Self::changed_before(c0, x, vp.spec_height(), a, b) by {}
        assert(Self::any_changed_before(c0, x + 1, 0) == Self::any_changed_before(c0, x, vp.spec_height()));
        if Self::any_changed_before(c0, x, vp.spec_height()) {
            let tl = c.spec_scene().spec_top_left();
            let br = c.spec_scene().spec_bottom_right();
            let tl0 = c0.spec_scene().spec_top_left();
            let br0 = c0.spec_scene().spec_bottom_right();
            let h = vp.spec_height();
            assert forall|a: int, b: int|
                #[trigger] Self::changed_before(c0, x + 1, 0, a, b) implies tl.0 <= a <= br.0 && tl.1 <= b <= br.1 by {
                assert(Self::changed_before(c0, x, h, a, b));
            }
            if tl.0 != tl0.0 {
                let (a, b) = choose|a: int, b: int| #[trigger] Self::changed_before(c0, x, h, a, b) && a == tl.0;
                assert(Self::changed_before(c0, x + 1, 0, a, b));
            }
            if tl.1 != tl0.1 {
                let (a, b) = choose|a: int, b: int| #[trigger] Self::changed_before(c0, x, h, a, b) && b == tl.1;
                assert(Self::changed_before(c0, x + 1, 0, a, b));
            }
            if br.0 != br0.0 {
                let (a, b) = choose|a: int, b: int| #[trigger] Self::changed_before(c0, x, h, a, b) && a == br.0;
                assert(Self::changed_before(c0, x + 1, 0, a, b));
            }
            if br.1 != br0.1 {
                let (a, b) = choose|a: int, b: int| #[trigger] Self::changed_before(c0, x, h, a, b) && b == br.1;
                assert(Self::changed_before(c0, x + 1, 0, a, b));
            }
        }
    }

    /// Sets every cell of the viewport to no tile in front and behind,
    /// black and unflipped, through `set_tile`, column by column.
    pub fn clear_viewport(&mut self)
        requires
            old(self).wf(),
        ensures
            final(self).wf(),
            Self::clear_relation(*old(self), *final(self)),
    {
        let ghost c0 = *self;
        let (width, height) = self.viewport.get_dimensions();
        let blank_name = "none";
        proof {
            reveal_strlit("none");
            assert(blank_name@ =~= crate::tileset::empty_name());
            assert(!Self::any_changed_before(c0, 0, 0));
            assert forall|a: int, b: int| on_grid(a, b) implies #[trigger] self.spec_scene().spec_cell(a, b) == if Self::done_before(
                c0.spec_viewport(), 0, 0, a, b) { cleared_cell() } else { c0.spec_scene().spec_cell(a, b) } by {}
        }
        let mut x: i32 = 0;
        while x < width
            invariant
                c0.wf(),
                (width as int, height as int) == (c0.spec_viewport().spec_width(), c0.spec_viewport().spec_height()),
                blank_name@ == crate::tileset::empty_name(),
                0 <= x <= width,
                Self::clear_progress(c0, *self, x as int, 0),
            decreases width - x,
        {
            let mut y: i32 = 0;
            while y < height
                invariant
                    c0.wf(),
                    (width as int, height as int) == (c0.spec_viewport().spec_width(), c0.spec_viewport().spec_height()),
                    blank_name@ == crate::tileset::empty_name(),
                    0 <= x < width,
                    0 <= y <= height,
                    Self::clear_progress(c0, *self, x as int, y as int),
                decreases height - y,
            {
                let ghost pre = *self;
                let changed = self.set_tile((x, y), blank_name, (0, 0, 0), (false, false), blank_name, (0, 0, 0), (false, false));
                proof {
                    Self::lemma_clear_step(c0, pre, *self, changed, x as int, y as int, blank_name@);
                }
                y += 1;
            }
            proof {
                Self::lemma_clear_next_column(c0, *self, x as int);
            }
            x += 1;
        }
    }

    /// The viewport.
    pub fn get_viewport(&self) -> (r: &Viewport)
        ensures
            *r == self.spec_viewport(),
    {
        &self.viewport
    }

    /// The tileset.
    pub fn tileset(&self) -> (r: &Tileset)
        ensures
            *r == self.spec_tileset(),
    {
        &self.tileset
    }

    /// The scene.
    pub fn scene(&self) -> (r: &Scene)
        ensures
            *r == self.spec_scene(),
    {
        &self.scene
    }

    /// The framebuffer size, in pixels.
    pub fn framebuffer_size(&self) -> (r: (u32, u32))
        ensures
            r == self.spec_framebuffer_size(),
    {
        self.framebuffer_size
    }

    /// How `present_frame` takes `pre` to `post` with result `r`.
    pub open spec fn present_relation(pre: Context, post: Context, r: Option<Frame>) -> bool {
        &&& !post.spec_pending_render()
        &&& post.spec_viewport() == pre.spec_viewport()
        &&& post.spec_tileset() == pre.spec_tileset()
        &&& post.spec_framebuffer_size() == pre.spec_framebuffer_size()
        &&& match r {
            None => !pre.spec_pending_render() && post == pre,
            Some(f) => {
                &&& pre.spec_pending_render()
                &&& Scene::upload_relation(pre.spec_scene(), post.spec_scene(), f.upload)
                &&& f.viewport_size == (
                    pre.spec_viewport().spec_width() as u32,
                    pre.spec_viewport().spec_height() as u32,
                )
                &&& f.tileset_size == pre.spec_tileset().spec_set_dimensions()
                &&& f.framebuffer_size == pre.spec_framebuffer_size()
                &&& f.tile_size == pre.spec_tileset().spec_tile_dimensions()
                &&& f.scale as int == pre.spec_viewport().spec_scale()
            },
        }
    }

    /// The next frame, where one is owed: the scene's pending upload, as
    /// `Scene::upload` hands it out, and the shader's values. Where none is
    /// owed the result is `None` and nothing changes.
    pub fn present_frame(&mut self) -> (r: Option<Frame>)
        requires
            old(self).wf(),
        ensures
            final(self).wf(),
            Self::present_relation(*old(self), *final(self), r),
    {
        if !self.pending_render {
            return None;
        }
        self.pending_render = false;
        let upload = self.scene.upload();
        Some(Frame {
            upload,
            viewport_size: self.viewport.get_dimensions_u32(),
            tileset_size: self.tileset.get_dimensions_u32(),
            framebuffer_size: self.framebuffer_size,
            tile_size: self.tileset.get_tile_dimensions(),
            scale: self.viewport.get_scale() as u32,
        })
    }
}

/// The text found, or an empty string where none was.
pub fn text_or_empty(found: Option<String>) -> (r: String)
    ensures
        r@ == match found {
            Some(text) => text@,
            None => Seq::<char>::empty(),
        },
{
    match found {
        Some(text) => text,
        None => String::new(),
    }
}

/// The cell that clearing writes: no tile in front and behind, black and
/// unflipped.
pub open spec fn cleared_cell() -> TileCell {
    written_cell(TileRef::Empty, (0, 0, 0), (false, false), TileRef::Empty, (0, 0, 0), (false, false))
}

/// Clearing, drawing the frame, then clearing again: the second clear
/// changes nothing, so no frame is owed after it.
pub proof fn lemma_clear_twice(c0: Context, c1: Context, c2: Context, c3: Context, frame: Option<Frame>)
    requires
        c0.wf(),
        Context::clear_relation(c0, c1),
        Context::present_relation(c1, c2, frame),
        Context::clear_relation(c2, c3),
    ensures
        c3 == c2,
        !c3.spec_pending_render(),
{
    let vp = c2.spec_viewport();
    assert(vp == c0.spec_viewport());
    assert(c2.spec_scene().spec_cells() == c1.spec_scene().spec_cells());
    assert forall|a: int, b: int| !#[trigger] Context::changed_before(c2, vp.spec_width(), 0, a, b) by {
        if Context::done_before(vp, vp.spec_width(), 0, a, b) {
            assert(on_grid(a, b));
            assert(c1.spec_scene().spec_cell(a, b) == cleared_cell());
        }
    }
}

/// Where the engine is in its life.
#[derive(Clone, Copy, Debug, PartialEq, Eq, Structural)]
pub enum EngineState {
    /// No configuration loaded yet.
    Starting,
    /// Configured; the first loop iteration has not run.
    Loading,
    /// The loop is running.
    Running,
    /// Shutting down.
    Exiting,
}

/// The error a failed tileset build becomes.
pub open spec fn tileset_load_error(e: TilesetError) -> LoadError {
    match e {
        TilesetError::EmptyGrid => LoadError::EmptyTilesetGrid,
        TilesetError::Undecodable => LoadError::UndecodableTileset,
    }
}

/// The engine: configuration, resources, input, the picture, and the
/// fixed-rate timesteps, driven by the game through its API.
pub struct Engine<R> {
    config: Option<Config>,
    resources: R,
    input: InputTracker,
    graphics_context: Option<Context>,
    timesteps: LabelMap<Timestep>,
    state: EngineState,
    running: bool,
    torn_down: bool,
}

impl<R: Provider> Engine<R> {
    /// Whether a configuration is loaded.
    pub closed spec fn spec_configured(&self) -> bool {
        self.config is Some
    }

    /// The loaded configuration, if any.
    pub closed spec fn spec_config(&self) -> Option<Config> {
        self.config
    }

    /// The resources.
    pub closed spec fn spec_resources(&self) -> R {
        self.resources
    }

    /// The input tracker.
    pub closed spec fn spec_input(&self) -> InputTracker {
        self.input
    }

    /// The picture, once configured and until torn down.
    pub closed spec fn spec_context(&self) -> Option<Context> {
        self.graphics_context
    }

    /// The timestep of each label used so far.
    pub closed spec fn spec_timesteps(&self) -> Map<Seq<char>, Timestep> {
        self.timesteps@
    }

    /// Where the engine is in its life.
    pub closed spec fn spec_state(&self) -> EngineState {
        self.state
    }

    /// Whether `exit` has not been called.
    pub closed spec fn spec_running(&self) -> bool {
        self.running
    }

    /// Whether the picture was torn down.
    pub closed spec fn spec_torn_down(&self) -> bool {
        self.torn_down
    }

    /// The parts are well formed; the engine is starting exactly while it
    /// has no configuration; the picture exists only while configured and
    /// not torn down; it is torn down only while exiting.
    pub closed spec fn wf(&self) -> bool {
        &&& self.input.wf()
        &&& self.timesteps.wf()
        &&& (self.state == EngineState::Starting) == (self.config is None)
        &&& self.graphics_context is Some ==> self.graphics_context->0.wf()
        &&& self.graphics_context is Some <==> (self.config is Some && !self.torn_down)
        &&& self.torn_down ==> self.state == EngineState::Exiting
    }

    /// `post` differs from `pre` in the picture alone.
    pub open spec fn only_picture_changed(pre: Self, post: Self) -> bool {
        &&& post.spec_input() == pre.spec_input()
        &&& post.spec_timesteps() == pre.spec_timesteps()
        &&& post.spec_state() == pre.spec_state()
        &&& post.spec_running() == pre.spec_running()
        &&& post.spec_torn_down() == pre.spec_torn_down()
        &&& post.spec_configured() == pre.spec_configured()
        &&& post.spec_resources() == pre.spec_resources()
    }

    /// Whether the loop should go on: `exit` was not called and the window
    /// was not asked to close.
    pub open spec fn spec_get_running(&self) -> bool {
        self.spec_running() && !self.spec_input().spec_close_requested()
    }

    /// A starting engine over `resources`, with nothing configured.
    pub fn new(resources: R) -> (r: Self)
        ensures
            r.wf(),
            r.spec_state() == EngineState::Starting,
            !r.spec_configured(),
            r.spec_context() is None,
            r.spec_running(),
            !r.spec_torn_down(),
            r.spec_timesteps() == Map::<Seq<char>, Timestep>::empty(),
            r.spec_input().spec_events() == Seq::<crate::input::EventView>::empty(),
            !r.spec_input().spec_close_requested(),
    {
        Engine {
            config: None,
            resources,
            input: InputTracker::new(),
            graphics_context: None,
            timesteps: LabelMap::new(),
            state: EngineState::Starting,
            running: true,
            torn_down: false,
        }
    }

    /// Whether the loop should go on.
    pub fn get_running(&self) -> (r: bool)
        ensures
            r == self.spec_get_running(),
    {
        self.running && !self.input.close_requested()
    }

    /// Loads `config`, with `tileset_image` the bytes found at its tileset
    /// path, if any. A configuration already loaded stays, and the new one
    /// is ignored. Otherwise the tileset is decoded and the picture built;
    /// on success the engine is loading, and on failure nothing changes.
    pub fn configure(&mut self, config: Config, tileset_image: Option<&[u8]>) -> (r: Result<(), LoadError>)
        requires
            old(self).wf(),
        ensures
            final(self).wf(),
            old(self).spec_configured() ==> r is Ok && *final(self) == *old(self),
            !old(self).spec_configured() ==> match tileset_image {
                None => r == Err::<(), LoadError>(LoadError::MissingTileset),
                Some(bytes) => {
                    let set = (config.tileset_width, config.tileset_height);
                    if set.0 == 0 || set.1 == 0 {
                        r == Err::<(), LoadError>(LoadError::EmptyTilesetGrid)
                    } else {
                        match decoded_rgba(bytes@) {
                            None => r == Err::<(), LoadError>(LoadError::UndecodableTileset),
                            Some(img) => {
                                let vp = Viewport::new_spec(
                                    config.viewport_width,
                                    config.viewport_height,
                                    config.viewport_scale,
                                );
                                let tile = ((img.0 / set.0) as u32, (img.1 / set.1) as u32);
                                if fits(framebuffer_of(vp, tile)) {
                                    &&& r is Ok
                                    &&& final(self).spec_state() == EngineState::Loading
                                    &&& final(self).spec_configured()
                                    &&& final(self).spec_context() matches Some(c) && {
                                        &&& c.spec_viewport() == vp
                                        &&& c.spec_tileset().built_from(img, set, names_view(config.tile_names@))
                                        &&& c.spec_pending_render()
                                        &&& !c.spec_scene().spec_pending()
                                    }
                                } else {
                                    r == Err::<(), LoadError>(LoadError::FramebufferTooLarge)
                                }
                            },
                        }
                    }
                },
            },
            !old(self).spec_configured() && r is Ok ==> {
                &&& final(self).spec_config() == Some(config)
                &&& final(self).spec_input() == old(self).spec_input()
                &&& final(self).spec_timesteps() == old(self).spec_timesteps()
                &&& !final(self).spec_torn_down()
            },
            final(self).spec_running() == old(self).spec_running(),
            final(self).spec_resources() == old(self).spec_resources(),
            r is Err ==> *final(self) == *old(self),
    {
        if self.config.is_some() {
            return Ok(());
        }
        let bytes = match tileset_image {
            Some(b) => b,
            None => return Err(LoadError::MissingTileset),
        };
        let tileset = match Tileset::from_image_bytes(
            bytes,
            (config.tileset_width, config.tileset_height),
            config.tile_names.clone(),
        ) {
            Ok(t) => t,
            Err(TilesetError::EmptyGrid) => return Err(LoadError::EmptyTilesetGrid),
            Err(TilesetError::Undecodable) => return Err(LoadError::UndecodableTileset),
        };
        let context = match Context::new(&config, tileset) {
            Ok(c) => c,
            Err(e) => return Err(e),
        };
        self.graphics_context = Some(context);
        self.config = Some(config);
        self.state = EngineState::Loading;
        Ok(())
    }

    /// Loads `config`, reading its tileset image from the resources, as
    /// `configure` does with what the resources hand back.
    pub fn load_configuration(&mut self, config: Config) -> (r: Result<(), LoadError>)
        requires
            old(self).wf(),
        ensures
            final(self).wf(),
            old(self).spec_configured() ==> r is Ok && *final(self) == *old(self),
            r is Ok ==> final(self).spec_configured(),
            !old(self).spec_configured() && r is Ok ==> {
                &&& final(self).spec_state() == EngineState::Loading
                &&& final(self).spec_context() is Some
                &&& final(self).spec_config() == Some(config)
                &&& final(self).spec_input() == old(self).spec_input()
                &&& final(self).spec_timesteps() == old(self).spec_timesteps()
                &&& !final(self).spec_torn_down()
            },
            final(self).spec_running() == old(self).spec_running(),
            final(self).spec_resources() == old(self).spec_resources(),
            r is Err ==> *final(self) == *old(self),
    {
        if self.config.is_some() {
            return Ok(());
        }
        let bytes = self.resources.read_to_bytes(config.tileset_path.as_str());
        match bytes {
            Some(b) => self.configure(config, Some(b.as_slice())),
            None => self.configure(config, None),
        }
    }

    /// One turn of the lifecycle: loads `config` where nothing is loaded
    /// yet (ignored after the first success), then, while the loop should
    /// go on and the picture stands, moves to running and returns `true`;
    /// otherwise moves to exiting, tears the picture down once, and
    /// returns `false`.
    pub fn run(&mut self, config: Config) -> (r: Result<bool, LoadError>)
        requires
            old(self).wf(),
        ensures
            final(self).wf(),
            old(self).spec_configured() ==> r is Ok,
            r is Err ==> !old(self).spec_configured() && *final(self) == *old(self),
            !old(self).spec_configured() && r is Ok ==> final(self).spec_config() == Some(config),
            old(self).spec_configured() ==> final(self).spec_config() == old(self).spec_config(),
            final(self).spec_running() == old(self).spec_running(),
            final(self).spec_input() == old(self).spec_input(),
            final(self).spec_timesteps() == old(self).spec_timesteps(),
            r matches Ok(go) ==> {
                &&& final(self).spec_configured()
                &&& go == (final(self).spec_get_running() && !final(self).spec_torn_down())
                &&& go ==> final(self).spec_state() == EngineState::Running
                &&& go ==> final(self).spec_context() is Some
                &&& !go ==> final(self).spec_state() == EngineState::Exiting
                &&& !go ==> final(self).spec_torn_down() && final(self).spec_context() is None
            },
    {
        match self.load_configuration(config) {
            Ok(()) => {},
            Err(e) => return Err(e),
        }
        if self.get_running() && !self.torn_down {
            self.state = EngineState::Running;
            Ok(true)
        } else {
            self.state = EngineState::Exiting;
            self.clean();
            Ok(false)
        }
    }

    /// Asks the engine to stop: the loop ends at its next turn, which
    /// tears the picture down.
    pub fn exit(&mut self)
        requires
            old(self).wf(),
        ensures
            final(self).wf(),
            !final(self).spec_running(),
            !final(self).spec_get_running(),
            final(self).spec_state() == (if old(self).spec_configured() {
                EngineState::Exiting
            } else {
                EngineState::Starting
            }),
            final(self).spec_context() == old(self).spec_context(),
            final(self).spec_input() == old(self).spec_input(),
            final(self).spec_timesteps() == old(self).spec_timesteps(),
            final(self).spec_torn_down() == old(self).spec_torn_down(),
            final(self).spec_config() == old(self).spec_config(),
            final(self).spec_resources() == old(self).spec_resources(),
    {
        self.running = false;
        if self.config.is_some() {
            self.state = EngineState::Exiting;
        }
    }

    /// Tears the picture down, once: the result says whether this call did.
    pub fn clean(&mut self) -> (r: bool)
        requires
            old(self).wf(),
            old(self).spec_state() == EngineState::Exiting,
        ensures
            final(self).wf(),
            r == !old(self).spec_torn_down(),
            final(self).spec_torn_down(),
            final(self).spec_context() is None,
            final(self).spec_state() == EngineState::Exiting,
            final(self).spec_input() == old(self).spec_input(),
            final(self).spec_running() == old(self).spec_running(),
            final(self).spec_timesteps() == old(self).spec_timesteps(),
            final(self).spec_config() == old(self).spec_config(),
            final(self).spec_resources() == old(self).spec_resources(),
    {
        if self.torn_down {
            return false;
        }
        self.graphics_context = None;
        self.torn_down = true;
        true
    }

    /// The next frame, where a picture exists and one is owed, as
    /// `Context::present_frame` gives it.
    pub fn render(&mut self) -> (r: Option<Frame>)
        requires
            old(self).wf(),
        ensures
            final(self).wf(),
            Self::only_picture_changed(*old(self), *final(self)),
            match old(self).spec_context() {
                None => r is None && *final(self) == *old(self),
                Some(c) => final(self).spec_context() matches Some(c2) && Context::present_relation(c, c2, r),
            },
    {
        match self.graphics_context.as_mut() {
            Some(context) => context.present_frame(),
            None => None,
        }
    }

    /// The pointer position in viewport tiles for a window of
    /// `window_size` pixels, or `(0, 0)` with no picture.
    pub fn mouse_position(&self, window_size: (u32, u32)) -> (r: (i32, i32))
        requires
            self.wf(),
        ensures
            self.spec_context() is None ==> r == (0i32, 0i32),
            self.spec_context() matches Some(c) ==> {
                let vp = c.spec_viewport();
                let m = self.spec_input().spec_mouse();
                &&& r.0 == (if window_size.0 == 0 { 0 } else {
                    crate::input::saturate_i32(crate::input::div_toward_zero(m.0 * vp.spec_width(), window_size.0 as int))
                })
                &&& r.1 == (if window_size.1 == 0 { 0 } else {
                    crate::input::saturate_i32(crate::input::div_toward_zero(m.1 * vp.spec_height(), window_size.1 as int))
                })
            },
    {
        match &self.graphics_context {
            Some(context) => self.input.mouse_position(window_size, context.get_viewport()),
            None => (0, 0),
        }
    }

    /// Replaces the viewport as `Context::set_viewport` does; with no
    /// picture nothing changes and the result is `false`.
    pub fn set_viewport(&mut self, width: i32, height: i32, scale: i32) -> (r: bool)
        requires
            old(self).wf(),
        ensures
            final(self).wf(),
            Self::only_picture_changed(*old(self), *final(self)),
            match old(self).spec_context() {
                None => !r && *final(self) == *old(self),
                Some(c) => final(self).spec_context() matches Some(c2) && Context::set_viewport_relation(
                    c,
                    c2,
                    r,
                    width,
                    height,
                    scale,
                ),
            },
    {
        match self.graphics_context.as_mut() {
            Some(context) => context.set_viewport(width, height, scale),
            None => false,
        }
    }

    /// Writes a cell of the scene as `Context::set_tile` does; with no
    /// picture nothing changes and the result is `false`.
    pub fn set_tile(
        &mut self,
        position: (i32, i32),
        front_tile: String,
        front_color: (u8, u8, u8),
        front_flip: (bool, bool),
        back_tile: String,
        back_color: (u8, u8, u8),
        back_flip: (bool, bool),
    ) -> (r: bool)
        requires
            old(self).wf(),
        ensures
            final(self).wf(),
            Self::only_picture_changed(*old(self), *final(self)),
            match old(self).spec_context() {
                None => !r && *final(self) == *old(self),
                Some(c) => final(self).spec_context() matches Some(c2) && Context::set_tile_relation(
                    c,
                    c2,
                    r,
                    position,
                    front_tile@,
                    front_color,
                    front_flip,
                    back_tile@,
                    back_color,
                    back_flip,
                ),
            },
    {
        match self.graphics_context.as_mut() {
            Some(context) => context.set_tile(
                position,
                front_tile.as_str(),
                front_color,
                front_flip,
                back_tile.as_str(),
                back_color,
                back_flip,
            ),
            None => false,
        }
    }

    /// Sets every cell of the viewport to no tile in front and behind,
    /// black and unflipped, as `Context::clear_viewport` does.
    pub fn clear_tiles(&mut self)
        requires
            old(self).wf(),
        ensures
            final(self).wf(),
            Self::only_picture_changed(*old(self), *final(self)),
            match old(self).spec_context() {
                None => *final(self) == *old(self),
                Some(c) => final(self).spec_context() matches Some(c2) && Context::clear_relation(c, c2),
            },
    {
        match self.graphics_context.as_mut() {
            Some(c) => c.clear_viewport(),
            None => {},
        }
    }

    /// Whether every button of `button`, a list of names joined by `'+'`,
    /// is held, as `InputTracker::button_down` decides.
    pub fn button_down(&self, button: String) -> (r: bool)
        requires
            self.wf(),
        ensures
            r == self.spec_input().spec_chord_down(button@),
    {
        self.input.button_down(button.as_str())
    }

    /// Hands out the queued events, oldest first, and empties the queue.
    pub fn poll_events(&mut self) -> (r: Vec<Event>)
        requires
            old(self).wf(),
        ensures
            final(self).wf(),
            r@.map_values(|e: Event| e@) == old(self).spec_input().spec_events(),
            final(self).spec_input().spec_events() == Seq::<crate::input::EventView>::empty(),
            final(self).spec_input().spec_buttons() == old(self).spec_input().spec_buttons(),
            final(self).spec_context() == old(self).spec_context(),
            final(self).spec_state() == old(self).spec_state(),
            final(self).spec_input().spec_close_requested() == old(self).spec_input().spec_close_requested(),
            final(self).spec_timesteps() == old(self).spec_timesteps(),
            final(self).spec_running() == old(self).spec_running(),
            final(self).spec_torn_down() == old(self).spec_torn_down(),
            final(self).spec_configured() == old(self).spec_configured(),
    {
        self.input.poll_events()
    }

    /// The input tracker, for feeding it device events.
    pub fn input_mut(&mut self) -> (r: &mut InputTracker)
        requires
            old(self).wf(),
        ensures
            r.wf(),
            final(r).wf() ==> final(self).wf(),
            *r == old(self).spec_input(),
            final(self).spec_input() == *final(r),
            final(self).spec_context() == old(self).spec_context(),
            final(self).spec_state() == old(self).spec_state(),
            final(self).spec_timesteps() == old(self).spec_timesteps(),
            final(self).spec_running() == old(self).spec_running(),
            final(self).spec_torn_down() == old(self).spec_torn_down(),
            final(self).spec_configured() == old(self).spec_configured(),
    {
        &mut self.input
    }

    /// The text of the resource at `path`, or an empty string where there
    /// is none: what the resources hand back, passed through `text_or_empty`.
    pub fn resource_read(&self, path: String) -> String {
        text_or_empty(self.resources.read_to_string(path.as_str()))
    }

    /// The resources.
    pub fn resources(&self) -> (r: &R)
        ensures
            *r == self.spec_resources(),
    {
        &self.resources
    }

    /// Whether a resource exists at `path`.
    pub fn resource_exists(&self, path: String) -> bool {
        self.resources.contains(path.as_str())
    }

    /// Polls the fixed-rate update `label` at `now` nanoseconds, creating
    /// it with no time held on first use: adds the time since its last
    /// poll and returns whether a step of `interval_hz` is due, as
    /// `Timestep::poll` decides.
    pub fn timestep(&mut self, label: &str, interval_hz: u32, now: u64) -> (r: bool)
        requires
            old(self).wf(),
        ensures
            final(self).wf(),
            ({
                let t = if old(self).spec_timesteps().contains_key(label@) {
                    old(self).spec_timesteps()[label@]
                } else {
                    Timestep { accumulator: 0, last_step: now }
                };
                let elapsed = if now >= t.last_step { now - t.last_step } else { 0 };
                let (acc, step) = poll_model(t.accumulator as int, elapsed, interval_hz);
                &&& r == step
                &&& final(self).spec_timesteps() == old(self).spec_timesteps().insert(
                    label@,
                    Timestep { accumulator: acc as u64, last_step: now },
                )
            }),
            final(self).spec_context() == old(self).spec_context(),
            final(self).spec_input() == old(self).spec_input(),
            final(self).spec_state() == old(self).spec_state(),
            final(self).spec_running() == old(self).spec_running(),
            final(self).spec_torn_down() == old(self).spec_torn_down(),
            final(self).spec_configured() == old(self).spec_configured(),
    {
        let mut t = match self.timesteps.get(label) {
            Some(t) => t,
            None => Timestep::new(now),
        };
        let r = t.poll(now, interval_hz);
        self.timesteps.insert(label, t);
        r
    }

    /// Where the engine is in its life.
    pub fn state(&self) -> (r: EngineState)
        ensures
            r == self.spec_state(),
    {
        self.state
    }

    /// The picture, if there is one.
    pub fn context(&self) -> (r: Option<&Context>)
        ensures
            r == match self.spec_context() {
                Some(c) => Some(&c),
                None => None::<&Context>,
            },
    {
        self.graphics_context.as_ref()
    }
}

} // verus!
