use vstd::prelude::*;

verus! {

/// An RGBA image with eight bits per channel, stored row by row.
pub struct Image {
    pub width: u32,
    pub height: u32,
    pub pixels: Vec<u8>,
}

impl Image {
    /// Four channel bytes for each pixel.
    pub open spec fn wf(&self) -> bool {
        self.pixels@.len() == 4 * (self.width as int) * (self.height as int)
    }

    /// The image as plain values: width, height and channel bytes.
    pub open spec fn spec_view(&self) -> (u32, u32, Seq<u8>) {
        (self.width, self.height, self.pixels@)
    }
}

/// Whether the pixel `(x, y)` has a non-zero channel.
pub open spec fn pixel_lit(img: (u32, u32, Seq<u8>), x: int, y: int) -> bool {
    let base = 4 * (y * img.0 + x);
    img.2[base] > 0 || img.2[base + 1] > 0 || img.2[base + 2] > 0 || img.2[base + 3] > 0
}

/// Whether the tile at `(tx, ty)` of a grid of `tw` x `th` pixel tiles has a
/// non-zero channel in one of its pixels.
pub open spec fn tile_filled(img: (u32, u32, Seq<u8>), tw: int, th: int, tx: int, ty: int) -> bool {
    exists|i: int, j: int|
        0 <= i < tw && 0 <= j < th && #[trigger] pixel_lit(img, tx * tw + i, ty * th + j)
}

/// The filled tiles among the first `n` tiles of row `ty`, left to right.
pub open spec fn scan_row(img: (u32, u32, Seq<u8>), tw: int, th: int, ty: int, n: int) -> Seq<(u32, u32)>
    decreases n,
{
    if n <= 0 {
        Seq::empty()
    } else {
        let prev = scan_row(img, tw, th, ty, n - 1);
        if tile_filled(img, tw, th, n - 1, ty) {
            prev.push(((n - 1) as u32, ty as u32))
        } else {
            prev
        }
    }
}

/// The filled tiles of the first `rows` rows of a grid `cols` tiles wide,
/// in row-major order.
pub open spec fn scan_rows(img: (u32, u32, Seq<u8>), tw: int, th: int, cols: int, rows: int) -> Seq<(u32, u32)>
    decreases rows,
{
    if rows <= 0 {
        Seq::empty()
    } else {
        scan_rows(img, tw, th, cols, rows - 1) + scan_row(img, tw, th, rows - 1, cols)
    }
}

/// The filled tiles of an image cut into a grid of `set` tiles, in row-major order.
pub open spec fn filled_tiles(img: (u32, u32, Seq<u8>), set: (u32, u32)) -> Seq<(u32, u32)> {
    let tw = img.0 / set.0;
    let th = img.1 / set.1;
    scan_rows(img, tw as int, th as int, set.0 as int, set.1 as int)
}

/// Where a tile name points in the atlas.
#[derive(Clone, Copy, Debug, PartialEq, Eq, Structural)]
pub enum TileRef {
    /// No tile: nothing is drawn.
    Empty,
    /// A blank tile filled with the modifier's colour.
    Fill,
    /// The tile at this column and row of the atlas.
    At(u32, u32),
}

/// The most recent position given to `name` in `entries`.
pub open spec fn find_last(entries: Seq<(Seq<char>, (u32, u32))>, name: Seq<char>) -> Option<(u32, u32)>
    decreases entries.len(),
{
    if entries.len() == 0 {
        None
    } else if entries.last().0 == name {
        Some(entries.last().1)
    } else {
        find_last(entries.drop_last(), name)
    }
}

/// The reserved name of the empty tile.
pub open spec fn empty_name() -> Seq<char> {
    seq!['n', 'o', 'n', 'e']
}

/// The reserved name of the filled blank tile.
pub open spec fn fill_name() -> Seq<char> {
    seq!['f', 'i', 'l', 'l']
}

/// Names paired with the filled tiles in order, as far as both go.
pub open spec fn assign_names(names: Seq<Seq<char>>, tiles: Seq<(u32, u32)>) -> Seq<(Seq<char>, (u32, u32))> {
    let n = if names.len() < tiles.len() { names.len() } else { tiles.len() };
    Seq::new(n, |i: int| (names[i], tiles[i]))
}

/// The names of a list of strings.
pub open spec fn names_view(names: Seq<String>) -> Seq<Seq<char>> {
    names.map_values(|s: String| s@)
}

/// Why a tileset could not be built.
#[derive(Clone, Copy, Debug, PartialEq, Eq, Structural)]
pub enum TilesetError {
    /// The grid has no columns or no rows.
    EmptyGrid,
    /// The bytes do not decode as an image.
    Undecodable,
}

#[verifier::external_type_specification]
#[verifier::external_body]
pub struct ExImageError(image::ImageError);

/// What `image::load_from_memory` decodes from a byte string, converted to
/// eight-bit RGBA: width, height and channel bytes; `None` where it fails.
pub uninterp spec fn decoded_rgba(bytes: Seq<u8>) -> Option<(u32, u32, Seq<u8>)>;

/// Relies on `image::load_from_memory`, which guesses the format and decodes
/// the bytes, and on `DynamicImage::to_rgba8`, which converts each pixel to
/// four eight-bit channels in a buffer of exactly `4 * width * height` bytes.
#[verifier::external_body]
fn decode_rgba(bytes: &[u8]) -> (r: Result<Image, image::ImageError>)
    ensures
        match r {
            Ok(img) => img.wf() && decoded_rgba(bytes@) == Some(img.spec_view()),
            Err(_) => decoded_rgba(bytes@) is None,
        },
{
    let rgba = image::load_from_memory(bytes)?.to_rgba8();
    Ok(Image { width: rgba.width(), height: rgba.height(), pixels: rgba.into_raw() })
}

/// Named tiles of an atlas image.
pub struct Tileset {
    image: Image,
    set_dimensions: (u32, u32),
    tile_dimensions: (u32, u32),
    entries: Vec<(String, (u32, u32))>,
    unnamed: Vec<(u32, u32)>,
}

/// Relies on `str`'s `==`: two strings are equal when their characters are.
#[verifier::external_body]
pub(crate) fn str_equal(a: &str, b: &str) -> (r: bool)
    ensures
        r == (a@ == b@),
{
    a == b
}

impl Tileset {
    /// The atlas image.
    pub closed spec fn spec_image(&self) -> (u32, u32, Seq<u8>) {
        self.image.spec_view()
    }

    /// Columns and rows of tiles in the atlas.
    pub closed spec fn spec_set_dimensions(&self) -> (u32, u32) {
        self.set_dimensions
    }

    /// Width and height of one tile, in pixels.
    pub closed spec fn spec_tile_dimensions(&self) -> (u32, u32) {
        self.tile_dimensions
    }

    /// Each name with the tile it was given, in the order given.
    pub closed spec fn spec_entries(&self) -> Seq<(Seq<char>, (u32, u32))> {
        self.entries@.map_values(|e: (String, (u32, u32))| (e.0@, e.1))
    }

    /// Filled tiles for which no name was left.
    pub closed spec fn spec_unnamed(&self) -> Seq<(u32, u32)> {
        self.unnamed@
    }

    /// What a tile name resolves to: the two reserved names first, then the
    /// last tile given that name.
    pub open spec fn spec_location(&self, name: Seq<char>) -> Option<TileRef> {
        if name == empty_name() {
            Some(TileRef::Empty)
        } else if name == fill_name() {
            Some(TileRef::Fill)
        } else {
            match find_last(self.spec_entries(), name) {
                Some(p) => Some(TileRef::At(p.0, p.1)),
                None => None,
            }
        }
    }

    /// What `new` builds from an image, a grid size and a list of names.
    pub open spec fn built_from(
        &self,
        image: (u32, u32, Seq<u8>),
        set_dimensions: (u32, u32),
        names: Seq<Seq<char>>,
    ) -> bool {
        let f = filled_tiles(image, set_dimensions);
        &&& self.spec_image() == image
        &&& self.spec_set_dimensions() == set_dimensions
        &&& self.spec_tile_dimensions() == (
            (image.0 / set_dimensions.0) as u32,
            (image.1 / set_dimensions.1) as u32,
        )
        &&& self.spec_entries() == assign_names(names, f)
        &&& self.spec_unnamed() == if names.len() < f.len() {
            f.skip(names.len() as int)
        } else {
            Seq::empty()
        }
    }

    /// Decodes an atlas image and builds the tileset from it as `new` does.
    /// Fails where the grid has no columns or no rows, or where the bytes
    /// do not decode as an image.
    pub fn from_image_bytes(bytes: &[u8], set_dimensions: (u32, u32), tile_names: Vec<String>) -> (r:
        Result<Self, TilesetError>)
        ensures
            set_dimensions.0 == 0 || set_dimensions.1 == 0 ==> r == Err::<Self, TilesetError>(
                TilesetError::EmptyGrid,
            ),
            set_dimensions.0 > 0 && set_dimensions.1 > 0 ==> match decoded_rgba(bytes@) {
                None => r == Err::<Self, TilesetError>(TilesetError::Undecodable),
                Some(img) => r matches Ok(t) && t.built_from(img, set_dimensions, names_view(tile_names@)),
            },
    {
        if set_dimensions.0 == 0 || set_dimensions.1 == 0 {
            return Err(TilesetError::EmptyGrid);
        }
        match decode_rgba(bytes) {
            Ok(image) => Ok(Tileset::new(image, set_dimensions, tile_names)),
            Err(_) => Err(TilesetError::Undecodable),
        }
    }

    /// Cuts `image` into `set_dimensions` tiles, scans them in row-major
    /// order, and gives each tile that has a non-zero channel the next
    /// unused name. Filled tiles left over when the names run out are kept
    /// in `unnamed_tiles`; names left over are dropped.
    pub fn new(image: Image, set_dimensions: (u32, u32), tile_names: Vec<String>) -> (r: Self)
        requires
            image.wf(),
            set_dimensions.0 > 0,
            set_dimensions.1 > 0,
        ensures
            r.built_from(image.spec_view(), set_dimensions, names_view(tile_names@)),
    {
        let tw = image.width / set_dimensions.0;
        let th = image.height / set_dimensions.1;
        let ghost img = image.spec_view();
        let mut found: Vec<(u32, u32)> = Vec::new();
        let mut ty: u32 = 0;
        while ty < set_dimensions.1
            invariant
                image.wf(),
                img == image.spec_view(),
                tw == image.width / set_dimensions.0,
                th == image.height / set_dimensions.1,
                set_dimensions.0 > 0,
                set_dimensions.1 > 0,
                ty <= set_dimensions.1,
                found@ == scan_rows(img, tw as int, th as int, set_dimensions.0 as int, ty as int),
            decreases set_dimensions.1 - ty,
        {
            let mut tx: u32 = 0;
            while tx < set_dimensions.0
                invariant
                    image.wf(),
                    img == image.spec_view(),
                    tw == image.width / set_dimensions.0,
                    th == image.height / set_dimensions.1,
                    set_dimensions.0 > 0,
                    set_dimensions.1 > 0,
                    ty < set_dimensions.1,
                    tx <= set_dimensions.0,
                    found@ == scan_rows(img, tw as int, th as int, set_dimensions.0 as int, ty as int)
                        + scan_row(img, tw as int, th as int, ty as int, tx as int),
                decreases set_dimensions.0 - tx,
            {
                if tile_has_color(&image, set_dimensions, tx, ty) {
                    found.push((tx, ty));
                }
                tx += 1;
            }
            ty += 1;
        }
        let mut entries: Vec<(String, (u32, u32))> = Vec::new();
        let mut unnamed: Vec<(u32, u32)> = Vec::new();
        let ghost names = names_view(tile_names@);
        let mut i: usize = 0;
        while i < found.len()
            invariant
                i <= found.len(),
                names == names_view(tile_names@),
                entries@.len() == if i < tile_names.len() { i as int } else { tile_names.len() as int },
                forall|k: int| 0 <= k < entries@.len() ==> #[trigger] entries@[k].0@ == names[k] && entries@[k].1 == found@[k],
                unnamed@ == if i <= tile_names.len() { Seq::empty() } else {
                    found@.subrange(tile_names.len() as int, i as int)
                },
            decreases found.len() - i,
        {
            if i < tile_names.len() {
                entries.push((tile_names[i].clone(), found[i]));
            } else {
                unnamed.push(found[i]);
                assert(found@.subrange(tile_names.len() as int, i + 1) =~= found@.subrange(
                    tile_names.len() as int,
                    i as int,
                ).push(found@[i as int]));
            }
            i += 1;
        }
        let r = Tileset { image, set_dimensions, tile_dimensions: (tw, th), entries, unnamed };
        assert(r.spec_entries() =~= assign_names(names, found@));
        assert(tile_names@.len() < found@.len() ==> r.spec_unnamed() =~= found@.skip(
            tile_names@.len() as int,
        ));
        r
    }

    /// Columns and rows of tiles in the atlas.
    pub fn get_dimensions_u32(&self) -> (r: (u32, u32))
        ensures
            r == self.spec_set_dimensions(),
    {
        self.set_dimensions
    }

    /// Width and height of one tile, in pixels.
    pub fn get_tile_dimensions(&self) -> (r: (u32, u32))
        ensures
            r == self.spec_tile_dimensions(),
    {
        self.tile_dimensions
    }

    /// The atlas image.
    pub fn image(&self) -> (r: &Image)
        ensures
            r.spec_view() == self.spec_image(),
    {
        &self.image
    }

    /// Filled tiles for which no name was left.
    pub fn unnamed_tiles(&self) -> (r: &Vec<(u32, u32)>)
        ensures
            r@ == self.spec_unnamed(),
    {
        &self.unnamed
    }

    /// Resolves a tile name: `"none"` and `"fill"` are reserved, any other
    /// name gives the tile it was last assigned, and an unknown name `None`.
    pub fn get_tile_location(&self, tile_name: &str) -> (r: Option<TileRef>)
        ensures
            r == self.spec_location(tile_name@),
    {
        if str_equal(tile_name, "none") {
            proof { reveal_strlit("none"); }
            assert("none"@ =~= empty_name());
            return Some(TileRef::Empty);
        }
        if str_equal(tile_name, "fill") {
            proof { reveal_strlit("fill"); reveal_strlit("none"); }
            assert("fill"@ =~= fill_name());
            assert(tile_name@ != empty_name()) by {
                assert(tile_name@[0] != empty_name()[0]);
            }
            return Some(TileRef::Fill);
        }
        proof { reveal_strlit("fill"); reveal_strlit("none"); }
        assert("none"@ =~= empty_name());
        assert("fill"@ =~= fill_name());
        let mut i: usize = self.entries.len();
        assert(self.spec_entries().take(i as int) =~= self.spec_entries());
        while i > 0
            invariant
                i <= self.entries@.len(),
                tile_name@ != empty_name(),
                tile_name@ != fill_name(),
                find_last(self.spec_entries(), tile_name@) == find_last(
                    self.spec_entries().take(i as int),
                    tile_name@,
                ),
            decreases i,
        {
            let ghost pre = self.spec_entries().take(i as int);
            assert(pre.drop_last() =~= self.spec_entries().take(i - 1));
            assert(pre.last() == (self.entries@[i - 1].0@, self.entries@[i - 1].1));
            if str_equal(self.entries[i - 1].0.as_str(), tile_name) {
                let p = self.entries[i - 1].1;
                assert(pre.len() > 0 && pre.last().0 == tile_name@);
                assert(find_last(pre, tile_name@) == Some(p));
                return Some(TileRef::At(p.0, p.1));
            }
            i -= 1;
        }
        assert(self.spec_entries().take(0) =~= Seq::empty());
        None
    }
}

/// `x * q + i < n` for `x < d`, `i < q` and `q == n / d`.
proof fn lemma_tile_offset(n: int, d: int, x: int, i: int)
    requires
        0 < d,
        0 <= n,
        0 <= x < d,
        0 <= i < n / d,
    ensures
        x * (n / d) + i < n,
{
    let q = n / d;
    vstd::arithmetic::div_mod::lemma_fundamental_div_mod(n, d);
    assert(x * q + i < (x + 1) * q) by (nonlinear_arith)
        requires i < q;
    assert((x + 1) * q <= d * q) by (nonlinear_arith)
        requires x + 1 <= d, 0 <= q;
    assert(d * q <= n) by {
        vstd::arithmetic::div_mod::lemma_mod_pos_bound(n, d);
    }
}

/// The channel bytes of pixel `(x, y)` lie inside the image.
proof fn lemma_pixel_index(w: int, h: int, x: int, y: int)
    requires
        0 <= x < w,
        0 <= y < h,
    ensures
        0 <= 4 * (y * w + x),
        4 * (y * w + x) + 3 < 4 * w * h,
        y * w + x < w * h,
{
    assert(0 <= y * w) by (nonlinear_arith)
        requires 0 <= y, 0 <= w;
    assert(y * w + x < (y + 1) * w) by (nonlinear_arith)
        requires x < w;
    assert((y + 1) * w <= h * w) by (nonlinear_arith)
        requires y + 1 <= h, 0 <= w;
    assert(4 * w * h == 4 * (w * h)) by (nonlinear_arith);
    assert(h * w == w * h) by (nonlinear_arith);
}

/// Whether the tile `(tx, ty)` has a pixel with a non-zero channel.
fn tile_has_color(image: &Image, set_dimensions: (u32, u32), tx: u32, ty: u32) -> (r: bool)
    requires
        image.wf(),
        set_dimensions.0 > 0,
        set_dimensions.1 > 0,
        tx < set_dimensions.0,
        ty < set_dimensions.1,
    ensures
        r == tile_filled(
            image.spec_view(),
            (image.width / set_dimensions.0) as int,
            (image.height / set_dimensions.1) as int,
            tx as int,
            ty as int,
        ),
{
    let tw = image.width / set_dimensions.0;
    let th = image.height / set_dimensions.1;
    let ghost img = image.spec_view();
    let mut i: u32 = 0;
    while i < tw
        invariant
            image.wf(),
            img == image.spec_view(),
            tw == image.width / set_dimensions.0,
            th == image.height / set_dimensions.1,
            set_dimensions.0 > 0,
            set_dimensions.1 > 0,
            tx < set_dimensions.0,
            ty < set_dimensions.1,
            i <= tw,
            forall|a: int, b: int|
                0 <= a < i && 0 <= b < th ==> !#[trigger] pixel_lit(img, tx * tw + a, ty * th + b),
        decreases tw - i,
    {
        let mut j: u32 = 0;
        while j < th
            invariant
                image.wf(),
                img == image.spec_view(),
                tw == image.width / set_dimensions.0,
                th == image.height / set_dimensions.1,
                set_dimensions.0 > 0,
                set_dimensions.1 > 0,
                tx < set_dimensions.0,
                ty < set_dimensions.1,
                i < tw,
                j <= th,
                forall|a: int, b: int|
                    0 <= a < i && 0 <= b < th ==> !#[trigger] pixel_lit(img, tx * tw + a, ty * th + b),
                forall|b: int| 0 <= b < j ==> !#[trigger] pixel_lit(img, tx * tw + i, ty * th + b),
            decreases th - j,
        {
            proof {
                lemma_tile_offset(image.width as int, set_dimensions.0 as int, tx as int, i as int);
                lemma_tile_offset(image.height as int, set_dimensions.1 as int, ty as int, j as int);
            }
            let x = tx * tw + i;
            let y = ty * th + j;
            proof {
                lemma_pixel_index(image.width as int, image.height as int, x as int, y as int);
            }
            let len = image.pixels.len();
            assert(len == 4 * (image.width as int * image.height as int)) by (nonlinear_arith)
                requires len == 4 * (image.width as int) * (image.height as int);
            let base = 4 * (y as usize * image.width as usize + x as usize);
            if image.pixels[base] > 0 || image.pixels[base + 1] > 0 || image.pixels[base + 2] > 0
                || image.pixels[base + 3] > 0 {
                assert(pixel_lit(img, tx * tw + i, ty * th + j));
                return true;
            }
            j += 1;
        }
        i += 1;
    }
    false
}

} // verus!
