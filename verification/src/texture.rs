//! Textures: image decoding, atlas re-tiling, and the content-keyed
//! texture cache.
//!
//! A texture's identity is its source path plus its pixel and
//! array-layer dimensions; the cache hands the same GPU resource to
//! every loader of the same content while a strong holder remains.
//! Only fixed-point four-byte-per-pixel color images are accepted.
//! Array textures re-tile the source's pixel rows into depth-major
//! layer order, which is proved here byte for byte.

use vstd::prelude::*;

verus! {

/// What a PNG header holds, when the bytes parse: width, height and
/// bytes per pixel.
pub uninterp spec fn png_header_of(bytes: Seq<u8>) -> Option<(u32, u32, u8)>;

/// The decoded pixel bytes of a PNG, when the bytes parse.
pub uninterp spec fn png_pixels_of(bytes: Seq<u8>) -> Option<Seq<u8>>;

/// Relies on png::Decoder::read_header_info: the parsed width, height
/// and bytes-per-pixel of the image, a function of the bytes alone.
#[verifier::external_body]
fn png_header(bytes: &Vec<u8>) -> (r: Option<(u32, u32, u8)>)
    ensures
        r == png_header_of(bytes@),
{
    let mut decoder = png::Decoder::new(bytes.as_slice());
    match decoder.read_header_info() {
        Ok(info) => {
            let w = info.width;
            let h = info.height;
            let bpp = info.bytes_per_pixel() as u8;
            Some((w, h, bpp))
        },
        Err(_) => None,
    }
}

/// Relies on png::Reader::next_frame after png::Decoder::read_info: the
/// decoded pixel bytes, a function of the bytes alone; per the png
/// documentation the frame fills exactly width * height *
/// bytes-per-pixel bytes.
#[verifier::external_body]
fn png_decode(bytes: &Vec<u8>) -> (r: Option<Vec<u8>>)
    ensures
        match r {
            Some(px) => {
                &&& png_pixels_of(bytes@) == Some(px@)
                &&& (png_header_of(bytes@) matches Some((w, h, bpp)) ==> (bpp == 4 ==> px@.len()
                    == 4 * (w as int) * (h as int)))
            },
            None => png_pixels_of(bytes@) is None,
        },
{
    let decoder = png::Decoder::new(bytes.as_slice());
    match decoder.read_info() {
        Err(_) => None,
        Ok(mut reader) => {
            let mut buffer = vec![0u8; reader.output_buffer_size()];
            match reader.next_frame(&mut buffer) {
                Ok(_) => Some(buffer),
                Err(_) => None,
            }
        },
    }
}

/// The chunk a source row-of-one-tile lands on in depth-major layer
/// order: source chunk `i` of an atlas `cols` tiles wide, `tile_h`
/// pixel rows per tile.
pub open spec fn spec_retile_target(i: int, cols: int, tile_h: int) -> int {
    let chunk_x = i % cols;
    let chunk_y = i / cols;
    let layer_idx = chunk_x + (chunk_y / tile_h) * cols;
    tile_h * layer_idx + chunk_y % tile_h
}

/// Byte `off` of source chunk `ci` arrived at its target chunk.
pub open spec fn retile_ok(
    r: Seq<u8>,
    p: Seq<u8>,
    ci: int,
    off: int,
    cols: int,
    tile_h: int,
    cs: int,
) -> bool {
    r[spec_retile_target(ci, cols, tile_h) * cs + off] == p[ci * cs + off]
}

/// Re-tiles an atlas image's pixel rows into depth-major layer order:
/// the rows of each tile become consecutive, tile by tile, row-major
/// over the tile grid. Each source chunk of `4 * tile_w` bytes (one
/// pixel row of one tile) moves to its target chunk.
pub fn retile_layers(pixels: &Vec<u8>, width: u32, height: u32, tile_w: u32, tile_h: u32) -> (r:
    Vec<u8>)
    requires
        0 < tile_w <= width <= 0x4000,
        0 < tile_h <= height <= 0x4000,
        width as int % tile_w as int == 0,
        height as int % tile_h as int == 0,
        pixels@.len() == 4 * width * height,
    ensures
        r@.len() == pixels@.len(),
        forall|ci: int, off: int|
            0 <= ci < (width as int / tile_w as int) * (height as int) && 0 <= off < 4 * tile_w
                ==> #[trigger] retile_ok(
                r@,
                pixels@,
                ci,
                off,
                width as int / tile_w as int,
                tile_h as int,
                4 * tile_w as int,
            ),
{
    let cols: u32 = width / tile_w;
    let chunk_size: usize = 4 * tile_w as usize;
    proof {
        lemma_retile_dims(width as int, height as int, tile_w as int, tile_h as int);
        assert(cols as int <= width as int) by (nonlinear_arith)
            requires
                cols as int == width as int / tile_w as int,
                (width as int / tile_w as int) * tile_w as int == width as int,
                tile_w >= 1,
                width >= 0,
        ;
        crate::colliders::lemma_mul_bound(cols as int, height as int, 0x4000, 0x4000);
    }
    let n_chunks: usize = cols as usize * height as usize;
    proof {
        assert(n_chunks * chunk_size == pixels@.len()) by (nonlinear_arith)
            requires
                n_chunks == (width as int / tile_w as int) * height as int,
                chunk_size == 4 * tile_w as int,
                (width as int / tile_w as int) * tile_w as int == width as int,
                pixels@.len() == 4 * width as int * height as int,
        ;
    }
    proof {
        assert(4 * (width as int) * (height as int) <= 0x4000_0000) by (nonlinear_arith)
            requires 0 < width <= 0x4000, 0 < height <= 0x4000;
    }
    let mut out: Vec<u8> = Vec::new();
    let mut z: usize = 0;
    while z < pixels.len()
        invariant
            out@.len() == z,
            0 <= z <= pixels@.len(),
            forall|j: int| 0 <= j < z ==> out@[j] == 0u8,
        decreases pixels@.len() - z,
    {
        out.push(0u8);
        z += 1;
    }
    let mut i: usize = 0;
    while i < n_chunks
        invariant
            0 <= i <= n_chunks,
            out@.len() == pixels@.len(),
            pixels@.len() == 4 * width * height,
            0 < tile_w <= width <= 0x4000,
            0 < tile_h <= height <= 0x4000,
            width as int % tile_w as int == 0,
            height as int % tile_h as int == 0,
            cols == width as int / tile_w as int,
            cols >= 1,
            cols <= 0x4000,
            chunk_size == 4 * tile_w as int,
            n_chunks == cols as int * height as int,
            n_chunks * chunk_size == pixels@.len(),
            pixels@.len() <= 0x4000_0000,
            forall|ci: int, off: int|
                0 <= ci < i && 0 <= off < chunk_size ==> #[trigger] retile_ok(
                    out@,
                    pixels@,
                    ci,
                    off,
                    cols as int,
                    tile_h as int,
                    chunk_size as int,
                ),
        decreases n_chunks - i,
    {
        let chunk_x: usize = i % cols as usize;
        let chunk_y: usize = i / cols as usize;
        proof {
            vstd::arithmetic::div_mod::lemma_mod_bound(i as int, cols as int);
            vstd::arithmetic::div_mod::lemma_fundamental_div_mod(i as int, cols as int);
            assert(chunk_y as int <= height as int) by (nonlinear_arith)
                requires
                    chunk_y as int == i as int / cols as int,
                    (i as int) < (cols as int) * (height as int),
                    i as int == (cols as int) * (i as int / cols as int) + i as int % cols as int,
                    0 <= i as int % cols as int,
                    cols >= 1,
                    height >= 1,
            ;
            assert((chunk_y as int / tile_h as int) * cols as int <= height as int
                * cols as int) by (nonlinear_arith)
                requires
                    0 <= chunk_y as int <= height as int,
                    tile_h >= 1,
                    cols >= 1,
            ;
            crate::colliders::lemma_mul_bound(height as int, cols as int, 0x4000, 0x4000);
        }
        let layer_idx: usize = chunk_x + (chunk_y / tile_h as usize) * cols as usize;
        proof {
            lemma_retile_target_bounds(
                i as int,
                cols as int,
                tile_h as int,
                height as int,
            );
            assert(tile_h as int * layer_idx as int + chunk_y as int % tile_h as int
                == spec_retile_target(i as int, cols as int, tile_h as int)) by (nonlinear_arith)
                requires
                    layer_idx as int == i as int % cols as int + ((i as int / cols as int)
                        / tile_h as int) * cols as int,
                    chunk_y as int == i as int / cols as int,
                    spec_retile_target(i as int, cols as int, tile_h as int) == tile_h as int * (
                    i as int % cols as int + ((i as int / cols as int) / tile_h as int)
                        * cols as int) + (i as int / cols as int) % tile_h as int,
            ;
        }
        let target: usize = tile_h as usize * layer_idx + chunk_y % tile_h as usize;
        proof {
            assert(target == spec_retile_target(i as int, cols as int, tile_h as int));
            assert((target + 1) * chunk_size <= n_chunks * chunk_size && (i + 1) * chunk_size
                <= n_chunks * chunk_size && target * chunk_size >= 0 && i * chunk_size >= 0)
                by (nonlinear_arith)
                requires
                    0 <= target < n_chunks,
                    0 <= i < n_chunks,
                    chunk_size > 0,
                    n_chunks >= 0,
            ;
        }
        let mut off: usize = 0;
        while off < chunk_size
            invariant
                0 <= off <= chunk_size,
                0 <= i < n_chunks,
                out@.len() == pixels@.len(),
                chunk_size > 0,
                cols >= 1,
                0 < tile_h <= height <= 0x4000,
                height as int % tile_h as int == 0,
                n_chunks == cols as int * height as int,
                n_chunks * chunk_size == pixels@.len(),
                pixels@.len() <= 0x4000_0000,
                target == spec_retile_target(i as int, cols as int, tile_h as int),
                0 <= target < n_chunks,
                (target + 1) * chunk_size <= pixels@.len(),
                (i + 1) * chunk_size <= pixels@.len(),
                target * chunk_size >= 0,
                i * chunk_size >= 0,
                forall|ci: int, off2: int|
                    0 <= ci < i && 0 <= off2 < chunk_size ==> #[trigger] retile_ok(
                        out@,
                        pixels@,
                        ci,
                        off2,
                        cols as int,
                        tile_h as int,
                        chunk_size as int,
                    ),
                forall|off2: int|
                    0 <= off2 < off ==> #[trigger] retile_ok(
                        out@,
                        pixels@,
                        i as int,
                        off2,
                        cols as int,
                        tile_h as int,
                        chunk_size as int,
                    ),
            decreases chunk_size - off,
        {
            proof {
                assert(i * chunk_size + off < (i + 1) * chunk_size && target * chunk_size + off
                    < (target + 1) * chunk_size && i * chunk_size + off >= 0 && target
                    * chunk_size + off >= 0) by (nonlinear_arith)
                    requires 0 <= off < chunk_size, i >= 0, target >= 0;
            }
            let b = pixels[i * chunk_size + off];
            let ghost out_prev = out@;
            out[target * chunk_size + off] = b;
            proof {
                assert forall|ci: int, off2: int|
                    0 <= ci < i && 0 <= off2 < chunk_size implies #[trigger] retile_ok(
                    out@,
                    pixels@,
                    ci,
                    off2,
                    cols as int,
                    tile_h as int,
                    chunk_size as int,
                ) by {
                    assert(retile_ok(
                        out_prev,
                        pixels@,
                        ci,
                        off2,
                        cols as int,
                        tile_h as int,
                        chunk_size as int,
                    ));
                    lemma_retile_injective(ci, i as int, cols as int, tile_h as int);
                    let tci = spec_retile_target(ci, cols as int, tile_h as int);
                    assert(tci != target);
                    assert(tci * chunk_size + off2 != target * chunk_size + off)
                        by (nonlinear_arith)
                        requires
                            tci != target,
                            0 <= off2 < chunk_size,
                            0 <= off < chunk_size,
                            chunk_size > 0,
                    ;
                    lemma_retile_target_bounds(ci, cols as int, tile_h as int, height as int);
                    assert(tci * chunk_size + off2 < n_chunks * chunk_size && tci * chunk_size
                        + off2 >= 0) by (nonlinear_arith)
                        requires
                            0 <= tci < n_chunks,
                            0 <= off2 < chunk_size,
                            chunk_size > 0,
                    ;
                    assert(out@[tci * chunk_size + off2] == out_prev[tci * chunk_size + off2]);
                }
                assert forall|off2: int| 0 <= off2 < off + 1 implies #[trigger] retile_ok(
                    out@,
                    pixels@,
                    i as int,
                    off2,
                    cols as int,
                    tile_h as int,
                    chunk_size as int,
                ) by {
                    assert(target * chunk_size + off2 < n_chunks * chunk_size && target
                        * chunk_size + off2 >= 0 && i * chunk_size + off2 < n_chunks * chunk_size)
                        by (nonlinear_arith)
                        requires
                            0 <= target < n_chunks,
                            0 <= i < n_chunks,
                            0 <= off2 <= off < chunk_size,
                            chunk_size > 0,
                    ;
                    if off2 < off {
                        assert(retile_ok(
                            out_prev,
                            pixels@,
                            i as int,
                            off2,
                            cols as int,
                            tile_h as int,
                            chunk_size as int,
                        ));
                        assert(out@[target * chunk_size + off2] == out_prev[target * chunk_size
                            + off2]);
                    } else {
                        assert(out@[target * chunk_size + off] == b);
                    }
                }
            }
            off += 1;
        }
        proof {
            assert forall|ci: int, off2: int|
                0 <= ci < i + 1 && 0 <= off2 < chunk_size implies #[trigger] retile_ok(
                out@,
                pixels@,
                ci,
                off2,
                cols as int,
                tile_h as int,
                chunk_size as int,
            ) by {
                if ci == i {
                    assert(retile_ok(
                        out@,
                        pixels@,
                        i as int,
                        off2,
                        cols as int,
                        tile_h as int,
                        chunk_size as int,
                    ));
                }
            }
        }
        i += 1;
    }
    out
}

/// Row counts divide out exactly for an atlas that is a whole number of
/// tiles in each direction.
proof fn lemma_retile_dims(width: int, height: int, tile_w: int, tile_h: int)
    requires
        0 < tile_w <= width,
        0 < tile_h <= height,
        width % tile_w == 0,
        height % tile_h == 0,
    ensures
        (width / tile_w) * tile_w == width,
        (height / tile_h) * tile_h == height,
        width / tile_w >= 1,
        height / tile_h >= 1,
{
    vstd::arithmetic::div_mod::lemma_fundamental_div_mod(width, tile_w);
    vstd::arithmetic::div_mod::lemma_fundamental_div_mod(height, tile_h);
    assert((width / tile_w) * tile_w == width) by (nonlinear_arith)
        requires width == tile_w * (width / tile_w) + width % tile_w, width % tile_w == 0;
    assert((height / tile_h) * tile_h == height) by (nonlinear_arith)
        requires height == tile_h * (height / tile_h) + height % tile_h, height % tile_h == 0;
    assert(width / tile_w >= 1 && height / tile_h >= 1) by (nonlinear_arith)
        requires
            (width / tile_w) * tile_w == width,
            (height / tile_h) * tile_h == height,
            0 < tile_w <= width,
            0 < tile_h <= height,
    ;
}

/// The retile target of a chunk stays within the chunk count.
proof fn lemma_retile_target_bounds(i: int, cols: int, tile_h: int, height: int)
    requires
        cols >= 1,
        tile_h >= 1,
        height >= tile_h,
        height % tile_h == 0,
        0 <= i < cols * height,
    ensures
        0 <= spec_retile_target(i, cols, tile_h) < cols * height,
{
    let cx = i % cols;
    let cy = i / cols;
    vstd::arithmetic::div_mod::lemma_mod_bound(i, cols);
    vstd::arithmetic::div_mod::lemma_fundamental_div_mod(i, cols);
    assert(0 <= cy < height) by (nonlinear_arith)
        requires
            i == cols * cy + cx,
            0 <= cx < cols,
            0 <= i < cols * height,
            cols >= 1,
            height >= 1,
    ;
    vstd::arithmetic::div_mod::lemma_mod_bound(cy, tile_h);
    vstd::arithmetic::div_mod::lemma_fundamental_div_mod(cy, tile_h);
    vstd::arithmetic::div_mod::lemma_fundamental_div_mod(height, tile_h);
    let ly = cy / tile_h;
    let rem = cy % tile_h;
    assert(0 <= ly <= height / tile_h - 1) by (nonlinear_arith)
        requires
            cy == tile_h * ly + rem,
            0 <= rem < tile_h,
            0 <= cy < height,
            tile_h >= 1,
            height % tile_h == 0,
            height == tile_h * (height / tile_h) + height % tile_h,
    ;
    vstd::arithmetic::div_mod::lemma_fundamental_div_mod(height, tile_h);
    assert(0 <= tile_h * (cx + ly * cols) + rem < cols * height) by (nonlinear_arith)
        requires
            0 <= cx < cols,
            0 <= ly <= height / tile_h - 1,
            0 <= rem < tile_h,
            tile_h >= 1,
            cols >= 1,
            height == tile_h * (height / tile_h),
    ;
}

/// Distinct source chunks land on distinct target chunks.
proof fn lemma_retile_injective(a: int, b: int, cols: int, tile_h: int)
    requires
        cols >= 1,
        tile_h >= 1,
        0 <= a,
        0 <= b,
        a != b,
    ensures
        spec_retile_target(a, cols, tile_h) != spec_retile_target(b, cols, tile_h),
{
    vstd::arithmetic::div_mod::lemma_fundamental_div_mod(a, cols);
    vstd::arithmetic::div_mod::lemma_fundamental_div_mod(b, cols);
    vstd::arithmetic::div_mod::lemma_mod_bound(a, cols);
    vstd::arithmetic::div_mod::lemma_mod_bound(b, cols);
    vstd::arithmetic::div_mod::lemma_fundamental_div_mod(a / cols, tile_h);
    vstd::arithmetic::div_mod::lemma_fundamental_div_mod(b / cols, tile_h);
    vstd::arithmetic::div_mod::lemma_mod_bound(a / cols, tile_h);
    vstd::arithmetic::div_mod::lemma_mod_bound(b / cols, tile_h);
    assert(spec_retile_target(a, cols, tile_h) != spec_retile_target(b, cols, tile_h))
        by (nonlinear_arith)
        requires
            a == cols * (a / cols) + a % cols,
            b == cols * (b / cols) + b % cols,
            0 <= a % cols < cols,
            0 <= b % cols < cols,
            a / cols == tile_h * ((a / cols) / tile_h) + (a / cols) % tile_h,
            b / cols == tile_h * ((b / cols) / tile_h) + (b / cols) % tile_h,
            0 <= (a / cols) % tile_h < tile_h,
            0 <= (b / cols) % tile_h < tile_h,
            a != b,
            cols >= 1,
            tile_h >= 1,
            spec_retile_target(a, cols, tile_h) == tile_h * (a % cols + ((a / cols) / tile_h)
                * cols) + (a / cols) % tile_h,
            spec_retile_target(b, cols, tile_h) == tile_h * (b % cols + ((b / cols) / tile_h)
                * cols) + (b / cols) % tile_h,
    ;
}

/// A loaded texture: its cache identity and dimensions. The GPU-side
/// image it stands for is shared by every holder of the same id.
#[derive(Clone, Copy, Debug, PartialEq, Eq, Structural, Hash)]
pub struct Texture {
    pub id: u64,
    pub width: u32,
    pub height: u32,
    pub array_layers: u32,
}

/// One texture-cache slot: the content key (source path plus
/// dimensions), the texture, and its live holder count.
#[derive(Debug)]
pub struct TexEntry {
    pub path: String,
    pub width: u32,
    pub height: u32,
    pub array_layers: u32,
    pub texture: Texture,
    pub refs: u64,
}

/// The content identity of a cache slot.
pub open spec fn tex_key(e: TexEntry) -> (Seq<char>, u32, u32, u32) {
    (e.path@, e.width, e.height, e.array_layers)
}

/// The process-wide texture cache: content-keyed, reference counted;
/// a slot with no live holders is dead and reused on the next miss.
#[derive(Debug)]
pub struct TextureCache {
    entries: Vec<TexEntry>,
    next_id: u64,
}

impl TextureCache {
    /// Unique content keys, unique texture ids below the next fresh id,
    /// each slot's texture carrying the slot's dimensions.
    pub closed spec fn wf(self) -> bool {
        &&& forall|i: int, j: int|
            0 <= i < j < self.entries@.len() ==> tex_key(#[trigger] self.entries@[i]) != tex_key(
                #[trigger] self.entries@[j],
            )
        &&& forall|i: int, j: int|
            0 <= i < j < self.entries@.len() ==> (#[trigger] self.entries@[i]).texture.id != (
            #[trigger] self.entries@[j]).texture.id
        &&& forall|i: int|
            0 <= i < self.entries@.len() ==> (#[trigger] self.entries@[i]).texture.id
                < self.next_id
        &&& forall|i: int|
            0 <= i < self.entries@.len() ==> {
                let e = #[trigger] self.entries@[i];
                e.texture.width == e.width && e.texture.height == e.height
                    && e.texture.array_layers == e.array_layers
            }
    }

    /// The slot stored under a content key, if any.
    pub closed spec fn spec_entry(self, key: (Seq<char>, u32, u32, u32)) -> Option<TexEntry> {
        if exists|i: int| 0 <= i < self.entries@.len() && tex_key(#[trigger] self.entries@[i])
            == key {
            let i = choose|i: int|
                0 <= i < self.entries@.len() && tex_key(#[trigger] self.entries@[i]) == key;
            Some(self.entries@[i])
        } else {
            None
        }
    }

    /// Whether a content key has a live texture.
    pub open spec fn spec_live(self, key: (Seq<char>, u32, u32, u32)) -> bool {
        match self.spec_entry(key) {
            Some(e) => e.refs > 0,
            None => false,
        }
    }

    pub closed spec fn spec_next_id(self) -> u64 {
        self.next_id
    }

    pub fn new() -> (r: TextureCache)
        ensures
            r.wf(),
            forall|k: (Seq<char>, u32, u32, u32)| r.spec_entry(k) is None,
            r.spec_next_id() == 0,
    {
        TextureCache { entries: Vec::new(), next_id: 0 }
    }

    fn find_idx(&self, path: &String, width: u32, height: u32, array_layers: u32) -> (r: Option<
        usize,
    >)
        requires
            self.wf(),
        ensures
            match r {
                Some(i) => i < self.entries@.len() && tex_key(self.entries@[i as int]) == (
                    path@,
                    width,
                    height,
                    array_layers,
                ) && self.spec_entry((path@, width, height, array_layers)) == Some(
                    self.entries@[i as int],
                ),
                None => self.spec_entry((path@, width, height, array_layers)) is None,
            },
    {
        let mut i: usize = 0;
        while i < self.entries.len()
            invariant
                0 <= i <= self.entries@.len(),
                self.wf(),
                forall|j: int|
                    0 <= j < i ==> tex_key(#[trigger] self.entries@[j]) != (
                        path@,
                        width,
                        height,
                        array_layers,
                    ),
            decreases self.entries@.len() - i,
        {
            let e = &self.entries[i];
            if e.path == *path && e.width == width && e.height == height && e.array_layers
                == array_layers {
                proof {
                    let j = choose|j: int|
                        0 <= j < self.entries@.len() && tex_key(#[trigger] self.entries@[j]) == (
                            path@,
                            width,
                            height,
                            array_layers,
                        );
                    assert(j == i);
                }
                return Some(i);
            }
            i += 1;
        }
        None
    }

    /// Whether a content key currently has a live texture.
    pub fn is_live(&self, path: &String, width: u32, height: u32, array_layers: u32) -> (r: bool)
        requires
            self.wf(),
        ensures
            r == self.spec_live((path@, width, height, array_layers)),
    {
        match self.find_idx(path, width, height, array_layers) {
            Some(i) => self.entries[i].refs > 0,
            None => false,
        }
    }

    /// Loads or creates the texture of a content key: the same
    /// underlying resource comes back for the same key while a live
    /// holder remains; otherwise a fresh resource is created and
    /// registered, reusing a dead slot of the same key if one is left.
    pub fn load_or_create(&mut self, path: &String, width: u32, height: u32, array_layers: u32)
        -> (t: Texture)
        requires
            old(self).wf(),
            old(self).spec_next_id() < 0xFFFF_FFFF_FFFF_FFFF,
        ensures
            final(self).wf(),
            t.width == width && t.height == height && t.array_layers == array_layers,
            final(self).spec_live((path@, width, height, array_layers)),
            final(self).spec_entry((path@, width, height, array_layers)) is Some,
            final(self).spec_entry((path@, width, height, array_layers))->Some_0.texture == t,
            (if old(self).spec_live((path@, width, height, array_layers)) {
                &&& t == old(self).spec_entry((path@, width, height, array_layers))->Some_0.texture
                &&& final(self).spec_next_id() == old(self).spec_next_id()
            } else {
                &&& t.id == old(self).spec_next_id()
                &&& final(self).spec_next_id() == old(self).spec_next_id() + 1
            }),
            forall|k: (Seq<char>, u32, u32, u32)|
                k != (path@, width, height, array_layers) ==> #[trigger] final(self).spec_entry(k)
                    == old(self).spec_entry(k),
    {
        let found = self.find_idx(path, width, height, array_layers);
        match found {
            Some(i) => {
                if self.entries[i].refs > 0 {
                    let ghost pre = *self;
                    let t = self.entries[i].texture;
                    let old_refs = self.entries[i].refs;
                    let new_refs: u64 = if old_refs == 0xFFFF_FFFF_FFFF_FFFF {
                        old_refs
                    } else {
                        old_refs + 1
                    };
                    self.entries[i].refs = new_refs;
                    proof {
                        lemma_tex_update(pre, *self, i as int, (path@, width, height, array_layers));
                    }
                    return t;
                }
                let ghost pre = *self;
                let t = Texture { id: self.next_id, width, height, array_layers };
                self.next_id = self.next_id + 1;
                self.entries[i] = TexEntry {
                    path: copy_string(path),
                    width,
                    height,
                    array_layers,
                    texture: t,
                    refs: 1,
                };
                proof {
                    lemma_tex_update(pre, *self, i as int, (path@, width, height, array_layers));
                }
                t
            },
            None => {
                let ghost pre = *self;
                let t = Texture { id: self.next_id, width, height, array_layers };
                self.next_id = self.next_id + 1;
                self.entries.push(
                    TexEntry {
                        path: copy_string(path),
                        width,
                        height,
                        array_layers,
                        texture: t,
                        refs: 1,
                    },
                );
                proof {
                    lemma_tex_push(pre, *self, (path@, width, height, array_layers));
                }
                t
            },
        }
    }

    /// Drops one live holder of a content key's texture; at zero the
    /// slot is dead and the next miss on the key recreates the
    /// resource.
    pub fn release(&mut self, path: &String, width: u32, height: u32, array_layers: u32)
        requires
            old(self).wf(),
        ensures
            final(self).wf(),
            final(self).spec_next_id() == old(self).spec_next_id(),
            match old(self).spec_entry((path@, width, height, array_layers)) {
                Some(e) => {
                    &&& final(self).spec_entry((path@, width, height, array_layers)) == Some(
                        TexEntry {
                            refs: if e.refs > 0 {
                                (e.refs - 1) as u64
                            } else {
                                0
                            },
                            ..e
                        },
                    )
                    &&& forall|k: (Seq<char>, u32, u32, u32)|
                        k != (path@, width, height, array_layers)
                            ==> #[trigger] final(self).spec_entry(k) == old(self).spec_entry(k)
                },
                None => *final(self) == *old(self),
            },
    {
        let found = self.find_idx(path, width, height, array_layers);
        match found {
            Some(i) => {
                let ghost pre = *self;
                if self.entries[i].refs > 0 {
                    let r = self.entries[i].refs;
                    self.entries[i].refs = r - 1;
                } else {
                    proof {
                        assert(self.entries@ =~= pre.entries@.update(
                            i as int,
                            pre.entries@[i as int],
                        ));
                    }
                }
                proof {
                    lemma_tex_update(pre, *self, i as int, (path@, width, height, array_layers));
                }
            },
            None => {},
        }
    }
}

/// A plain copy of a string.
fn copy_string(s: &String) -> (r: String)
    ensures
        r@ == s@,
{
    s.clone()
}

/// Updating the slot at an index (key unchanged, dimensions kept
/// consistent) changes lookups only at that key.
proof fn lemma_tex_update(
    pre: TextureCache,
    post: TextureCache,
    i: int,
    key: (Seq<char>, u32, u32, u32),
)
    requires
        pre.wf(),
        0 <= i < pre.entries@.len(),
        tex_key(pre.entries@[i]) == key,
        post.entries@ == pre.entries@.update(i, post.entries@[i]),
        tex_key(post.entries@[i]) == key,
        post.entries@[i].texture.id < post.next_id,
        post.next_id >= pre.next_id,
        post.entries@[i].texture.width == post.entries@[i].width,
        post.entries@[i].texture.height == post.entries@[i].height,
        post.entries@[i].texture.array_layers == post.entries@[i].array_layers,
        forall|j: int|
            0 <= j < pre.entries@.len() && j != i ==> (#[trigger] pre.entries@[j]).texture.id
                != post.entries@[i].texture.id,
    ensures
        post.wf(),
        post.spec_entry(key) == Some(post.entries@[i]),
        forall|k: (Seq<char>, u32, u32, u32)|
            k != key ==> #[trigger] post.spec_entry(k) == pre.spec_entry(k),
{
    assert forall|k: (Seq<char>, u32, u32, u32)| k != key implies #[trigger] post.spec_entry(k)
        == pre.spec_entry(k) by {
        if exists|j: int| 0 <= j < pre.entries@.len() && tex_key(#[trigger] pre.entries@[j]) == k {
            let j = choose|j: int|
                0 <= j < pre.entries@.len() && tex_key(#[trigger] pre.entries@[j]) == k;
            assert(j != i);
            assert(tex_key(post.entries@[j]) == k);
            let j2 = choose|j2: int|
                0 <= j2 < post.entries@.len() && tex_key(#[trigger] post.entries@[j2]) == k;
            assert(j2 != i ==> post.entries@[j2] == pre.entries@[j2]);
            assert(j2 == j);
        } else {
            assert forall|j: int| 0 <= j < post.entries@.len()
                implies tex_key(#[trigger] post.entries@[j]) != k by {
                if j != i {
                    assert(post.entries@[j] == pre.entries@[j]);
                }
            }
        }
    }
    let j2 = choose|j2: int|
        0 <= j2 < post.entries@.len() && tex_key(#[trigger] post.entries@[j2]) == key;
    assert(tex_key(post.entries@[i]) == key);
    assert(j2 == i || tex_key(pre.entries@[j2]) == key);
    assert(j2 == i);
}

/// Appending a slot under a fresh key changes lookups only at that key.
proof fn lemma_tex_push(pre: TextureCache, post: TextureCache, key: (Seq<char>, u32, u32, u32))
    requires
        pre.wf(),
        pre.spec_entry(key) is None,
        post.entries@ == pre.entries@.push(post.entries@.last()),
        tex_key(post.entries@.last()) == key,
        post.entries@.last().texture.id == pre.next_id,
        post.next_id == pre.next_id + 1,
        post.entries@.last().texture.width == post.entries@.last().width,
        post.entries@.last().texture.height == post.entries@.last().height,
        post.entries@.last().texture.array_layers == post.entries@.last().array_layers,
    ensures
        post.wf(),
        post.spec_entry(key) == Some(post.entries@.last()),
        forall|k: (Seq<char>, u32, u32, u32)|
            k != key ==> #[trigger] post.spec_entry(k) == pre.spec_entry(k),
{
    let n = pre.entries@.len() as int;
    assert(forall|j: int| 0 <= j < n ==> post.entries@[j] == pre.entries@[j]);
    assert forall|i: int, j: int| 0 <= i < j < post.entries@.len()
        implies tex_key(#[trigger] post.entries@[i]) != tex_key(#[trigger] post.entries@[j]) by {
        if j == n {
            if tex_key(pre.entries@[i]) == key {
                assert(exists|m: int|
                    0 <= m < pre.entries@.len() && tex_key(#[trigger] pre.entries@[m]) == key);
            }
        }
    }
    assert(tex_key(post.entries@[n]) == key);
    let j2 = choose|j2: int|
        0 <= j2 < post.entries@.len() && tex_key(#[trigger] post.entries@[j2]) == key;
    assert(j2 == n) by {
        if j2 < n {
            assert(tex_key(pre.entries@[j2]) == key);
        }
    }
    assert forall|k: (Seq<char>, u32, u32, u32)| k != key implies #[trigger] post.spec_entry(k)
        == pre.spec_entry(k) by {
        if exists|j: int| 0 <= j < pre.entries@.len() && tex_key(#[trigger] pre.entries@[j]) == k {
            let j = choose|j: int|
                0 <= j < pre.entries@.len() && tex_key(#[trigger] pre.entries@[j]) == k;
            assert(tex_key(post.entries@[j]) == k);
            let m = choose|m: int|
                0 <= m < post.entries@.len() && tex_key(#[trigger] post.entries@[m]) == k;
            assert(m < n);
            assert(m == j);
        } else {
            assert forall|j: int| 0 <= j < post.entries@.len()
                implies tex_key(#[trigger] post.entries@[j]) != k by {
                if j < n {
                    assert(post.entries@[j] == pre.entries@[j]);
                }
            }
        }
    }
}

/// Law: loading the same path and dimensions twice hands back the same
/// underlying resource, as long as a strong holder keeps the first load
/// alive between the calls.
pub proof fn law_texture_cache_idempotent(
    c0: TextureCache,
    c1: TextureCache,
    c2: TextureCache,
    t1: Texture,
    t2: Texture,
    key: (Seq<char>, u32, u32, u32),
)
    requires
        // t1 came out of a load on c0
        c1.spec_live(key),
        c1.spec_entry(key)->Some_0.texture == t1,
        // t1 stayed live until a second load of the same key on c1
        c1.spec_live(key) ==> c2.spec_entry(key)->Some_0.texture == c1.spec_entry(
            key,
        )->Some_0.texture,
        c2.spec_entry(key)->Some_0.texture == t2,
    ensures
        t2 == t1,
{
}


/// Why a texture failed to load.
#[derive(Clone, Copy, Debug, PartialEq, Eq, Structural)]
pub enum TextureError {
    /// The bytes are not a decodable image.
    DecodeFailure,
    /// Only fixed-point four-byte-per-pixel color is supported.
    UnsupportedFormat,
    /// An atlas must be a whole number of tiles in each direction, and
    /// within the size the re-tiler accepts.
    BadDimensions,
}

/// Loads a plain texture from encoded image bytes: the header is
/// parsed, only four-byte-per-pixel images are accepted, and the cache
/// shares one resource per (path, dimensions) content key. Fails with
/// the first applicable error: an unparsable header, an unsupported
/// pixel format, or (on a cache miss only) undecodable pixel data.
pub fn texture_from_png(cache: &mut TextureCache, path: &String, bytes: &Vec<u8>) -> (r: Result<
    Texture,
    TextureError,
>)
    requires
        old(cache).wf(),
        old(cache).spec_next_id() < 0xFFFF_FFFF_FFFF_FFFF,
    ensures
        final(cache).wf(),
        match png_header_of(bytes@) {
            None => {
                &&& r == Err::<Texture, TextureError>(TextureError::DecodeFailure)
                &&& *final(cache) == *old(cache)
            },
            Some((w, h, bpp)) => {
                if bpp != 4 {
                    &&& r == Err::<Texture, TextureError>(TextureError::UnsupportedFormat)
                    &&& *final(cache) == *old(cache)
                } else if !old(cache).spec_live((path@, w, h, 1)) && png_pixels_of(bytes@)
                    is None {
                    &&& r == Err::<Texture, TextureError>(TextureError::DecodeFailure)
                    &&& *final(cache) == *old(cache)
                } else {
                    match r {
                        Ok(t) => {
                            &&& t.width == w && t.height == h && t.array_layers == 1
                            &&& final(cache).spec_live((path@, w, h, 1))
                            &&& final(cache).spec_entry((path@, w, h, 1))->Some_0.texture == t
                            &&& (old(cache).spec_live((path@, w, h, 1)) ==> t == old(
                                cache,
                            ).spec_entry((path@, w, h, 1))->Some_0.texture)
                        },
                        Err(_) => false,
                    }
                }
            },
        },
{
    let header = png_header(bytes);
    let (w, h, bpp) = match header {
        None => {
            return Err(TextureError::DecodeFailure);
        },
        Some(t) => t,
    };
    if bpp != 4 {
        return Err(TextureError::UnsupportedFormat);
    }
    if cache.is_live(path, w, h, 1) {
        return Ok(cache.load_or_create(path, w, h, 1));
    }
    match png_decode(bytes) {
        None => Err(TextureError::DecodeFailure),
        Some(_pixels) => Ok(cache.load_or_create(path, w, h, 1)),
    }
}

/// Loads a texture array from encoded atlas bytes: the source pixel
/// grid must be an exact multiple of the declared per-layer dimensions;
/// on a cache miss the decoded rows are re-tiled into depth-major layer
/// order and returned alongside the texture as the upload-ready data
/// (`None` on a hit, where the resource already exists). The layer
/// count is the tile count of the grid.
pub fn texture_array_from_png(
    cache: &mut TextureCache,
    path: &String,
    bytes: &Vec<u8>,
    layer_w: u32,
    layer_h: u32,
) -> (r: Result<(Texture, Option<Vec<u8>>), TextureError>)
    requires
        old(cache).wf(),
        old(cache).spec_next_id() < 0xFFFF_FFFF_FFFF_FFFF,
        0 < layer_w,
        0 < layer_h,
    ensures
        final(cache).wf(),
        match r {
            Ok((t, data)) => {
                &&& png_header_of(bytes@) matches Some((w, h, bpp)) ==> {
                    &&& bpp == 4
                    &&& w as int % layer_w as int == 0
                    &&& h as int % layer_h as int == 0
                    &&& t.width == layer_w && t.height == layer_h
                    &&& t.array_layers == (w as int / layer_w as int) * (h as int
                        / layer_h as int)
                    &&& final(cache).spec_live((path@, layer_w, layer_h, t.array_layers))
                    &&& final(cache).spec_entry(
                        (path@, layer_w, layer_h, t.array_layers),
                    )->Some_0.texture == t
                    &&& (match data {
                        Some(d) => {
                            &&& png_pixels_of(bytes@) matches Some(px) ==> {
                                &&& d@.len() == px.len()
                                &&& forall|ci: int, off: int|
                                    0 <= ci < (w as int / layer_w as int) * (h as int) && 0 <= off
                                        < 4 * layer_w ==> #[trigger] retile_ok(
                                        d@,
                                        px,
                                        ci,
                                        off,
                                        w as int / layer_w as int,
                                        layer_h as int,
                                        4 * layer_w as int,
                                    )
                            }
                        },
                        None => old(cache).spec_live((path@, layer_w, layer_h, t.array_layers)),
                    })
                }
                &&& png_header_of(bytes@) is Some
            },
            Err(e) => match e {
                TextureError::DecodeFailure => png_header_of(bytes@) is None || (
                png_pixels_of(bytes@) is None && png_header_of(bytes@) is Some),
                TextureError::UnsupportedFormat => png_header_of(bytes@) matches Some(
                    (w, h, bpp),
                ) && bpp != 4,
                TextureError::BadDimensions => png_header_of(bytes@) matches Some((w, h, bpp))
                    && (w as int % layer_w as int != 0 || h as int % layer_h as int != 0 || w
                    > 0x4000 || h > 0x4000 || w < layer_w || h < layer_h),
            },
        },
{
    let header = png_header(bytes);
    let (w, h, bpp) = match header {
        None => {
            return Err(TextureError::DecodeFailure);
        },
        Some(t) => t,
    };
    if bpp != 4 {
        return Err(TextureError::UnsupportedFormat);
    }
    if w % layer_w != 0 || h % layer_h != 0 || w > 0x4000 || h > 0x4000 || w < layer_w || h
        < layer_h {
        return Err(TextureError::BadDimensions);
    }
    let cols = w / layer_w;
    let rows = h / layer_h;
    proof {
        lemma_retile_dims(w as int, h as int, layer_w as int, layer_h as int);
        crate::colliders::lemma_mul_bound(cols as int, rows as int, 0x4000, 0x4000);
        assert(cols as int <= w as int && rows as int <= h as int) by (nonlinear_arith)
            requires
                cols as int == w as int / layer_w as int,
                rows as int == h as int / layer_h as int,
                (w as int / layer_w as int) * layer_w as int == w as int,
                (h as int / layer_h as int) * layer_h as int == h as int,
                layer_w >= 1,
                layer_h >= 1,
                w >= 0,
                h >= 0,
        ;
    }
    let array_layers = cols * rows;
    if cache.is_live(path, layer_w, layer_h, array_layers) {
        let t = cache.load_or_create(path, layer_w, layer_h, array_layers);
        return Ok((t, None));
    }
    let pixels = match png_decode(bytes) {
        None => {
            return Err(TextureError::DecodeFailure);
        },
        Some(px) => px,
    };
    let data = retile_layers(&pixels, w, h, layer_w, layer_h);
    let t = cache.load_or_create(path, layer_w, layer_h, array_layers);
    Ok((t, Some(data)))
}


/// The content identity of a sampler descriptor-set layout: the shader
/// stage set and the two filter modes, as their enumeration codes.
#[derive(Clone, Copy, Debug, PartialEq, Eq, Structural, Hash)]
pub struct LayoutKey {
    pub shader_stages: u32,
    pub min_filter: u32,
    pub mag_filter: u32,
}

/// One layout-cache slot.
#[derive(Clone, Copy, Debug, PartialEq, Eq, Structural)]
pub struct LayoutEntry {
    pub key: LayoutKey,
    pub layout_id: u32,
    pub refs: u64,
}

/// The process-wide cache of sampler descriptor-set layouts, keyed by
/// shader stages and filter modes; like the texture cache, entries are
/// reference counted and dead slots are reused.
#[derive(Debug)]
pub struct LayoutCache {
    entries: Vec<LayoutEntry>,
    next_id: u32,
}

impl LayoutCache {
    /// Unique keys, unique layout ids below the next fresh id.
    pub closed spec fn wf(self) -> bool {
        &&& forall|i: int, j: int|
            0 <= i < j < self.entries@.len() ==> (#[trigger] self.entries@[i]).key != (
            #[trigger] self.entries@[j]).key
        &&& forall|i: int, j: int|
            0 <= i < j < self.entries@.len() ==> (#[trigger] self.entries@[i]).layout_id != (
            #[trigger] self.entries@[j]).layout_id
        &&& forall|i: int|
            0 <= i < self.entries@.len() ==> (#[trigger] self.entries@[i]).layout_id < self.next_id
    }

    /// The slot stored under a key, if any.
    pub closed spec fn spec_entry(self, key: LayoutKey) -> Option<LayoutEntry> {
        if exists|i: int| 0 <= i < self.entries@.len() && (#[trigger] self.entries@[i]).key
            == key {
            let i = choose|i: int|
                0 <= i < self.entries@.len() && (#[trigger] self.entries@[i]).key == key;
            Some(self.entries@[i])
        } else {
            None
        }
    }

    /// Whether a key has a live layout.
    pub open spec fn spec_live(self, key: LayoutKey) -> bool {
        match self.spec_entry(key) {
            Some(e) => e.refs > 0,
            None => false,
        }
    }

    pub closed spec fn spec_next_id(self) -> u32 {
        self.next_id
    }

    pub fn new() -> (r: LayoutCache)
        ensures
            r.wf(),
            forall|k: LayoutKey| r.spec_entry(k) is None,
            r.spec_next_id() == 0,
    {
        LayoutCache { entries: Vec::new(), next_id: 0 }
    }

    fn find_idx(&self, key: LayoutKey) -> (r: Option<usize>)
        requires
            self.wf(),
        ensures
            match r {
                Some(i) => i < self.entries@.len() && self.entries@[i as int].key == key
                    && self.spec_entry(key) == Some(self.entries@[i as int]),
                None => self.spec_entry(key) is None,
            },
    {
        let mut i: usize = 0;
        while i < self.entries.len()
            invariant
                0 <= i <= self.entries@.len(),
                self.wf(),
                forall|j: int| 0 <= j < i ==> (#[trigger] self.entries@[j]).key != key,
            decreases self.entries@.len() - i,
        {
            let e = &self.entries[i];
            if e.key.shader_stages == key.shader_stages && e.key.min_filter == key.min_filter
                && e.key.mag_filter == key.mag_filter {
                proof {
                    let j = choose|j: int|
                        0 <= j < self.entries@.len() && (#[trigger] self.entries@[j]).key == key;
                    assert(j == i);
                }
                return Some(i);
            }
            i += 1;
        }
        None
    }

    /// Looks up or creates the layout of a stage/filter combination:
    /// the same layout comes back for the same combination while a
    /// holder remains, and a dead slot of the same key is reused.
    pub fn load_or_create(&mut self, key: LayoutKey) -> (id: u32)
        requires
            old(self).wf(),
            old(self).spec_next_id() < 0xFFFF_FFFF,
        ensures
            final(self).wf(),
            final(self).spec_live(key),
            final(self).spec_entry(key) is Some,
            final(self).spec_entry(key)->Some_0.layout_id == id,
            (if old(self).spec_live(key) {
                &&& id == old(self).spec_entry(key)->Some_0.layout_id
                &&& final(self).spec_next_id() == old(self).spec_next_id()
            } else {
                &&& id == old(self).spec_next_id()
                &&& final(self).spec_next_id() == old(self).spec_next_id() + 1
            }),
            forall|k: LayoutKey|
                k != key ==> #[trigger] final(self).spec_entry(k) == old(self).spec_entry(k),
    {
        let found = self.find_idx(key);
        match found {
            Some(i) => {
                if self.entries[i].refs > 0 {
                    let ghost pre = *self;
                    let id = self.entries[i].layout_id;
                    let old_refs = self.entries[i].refs;
                    let new_refs: u64 = if old_refs == 0xFFFF_FFFF_FFFF_FFFF {
                        old_refs
                    } else {
                        old_refs + 1
                    };
                    self.entries[i].refs = new_refs;
                    proof {
                        lemma_layout_update(pre, *self, i as int, key);
                    }
                    return id;
                }
                let ghost pre = *self;
                let id = self.next_id;
                self.next_id = self.next_id + 1;
                self.entries[i] = LayoutEntry { key, layout_id: id, refs: 1 };
                proof {
                    lemma_layout_update(pre, *self, i as int, key);
                }
                id
            },
            None => {
                let ghost pre = *self;
                let id = self.next_id;
                self.next_id = self.next_id + 1;
                self.entries.push(LayoutEntry { key, layout_id: id, refs: 1 });
                proof {
                    lemma_layout_push(pre, *self, key);
                }
                id
            },
        }
    }

    /// Drops one holder of a combination's layout.
    pub fn release(&mut self, key: LayoutKey)
        requires
            old(self).wf(),
        ensures
            final(self).wf(),
            final(self).spec_next_id() == old(self).spec_next_id(),
            match old(self).spec_entry(key) {
                Some(e) => {
                    &&& final(self).spec_entry(key) == Some(
                        LayoutEntry {
                            refs: if e.refs > 0 {
                                (e.refs - 1) as u64
                            } else {
                                0
                            },
                            ..e
                        },
                    )
                    &&& forall|k: LayoutKey|
                        k != key ==> #[trigger] final(self).spec_entry(k) == old(
                            self,
                        ).spec_entry(k)
                },
                None => *final(self) == *old(self),
            },
    {
        let found = self.find_idx(key);
        match found {
            Some(i) => {
                let ghost pre = *self;
                if self.entries[i].refs > 0 {
                    let r = self.entries[i].refs;
                    self.entries[i].refs = r - 1;
                } else {
                    proof {
                        assert(self.entries@ =~= pre.entries@.update(
                            i as int,
                            pre.entries@[i as int],
                        ));
                    }
                }
                proof {
                    lemma_layout_update(pre, *self, i as int, key);
                }
            },
            None => {},
        }
    }
}

/// Updating the slot at an index (key unchanged) changes lookups only
/// at that key.
proof fn lemma_layout_update(pre: LayoutCache, post: LayoutCache, i: int, key: LayoutKey)
    requires
        pre.wf(),
        0 <= i < pre.entries@.len(),
        pre.entries@[i].key == key,
        post.entries@ == pre.entries@.update(i, post.entries@[i]),
        post.entries@[i].key == key,
        post.entries@[i].layout_id < post.next_id,
        post.next_id >= pre.next_id,
        forall|j: int|
            0 <= j < pre.entries@.len() && j != i ==> (#[trigger] pre.entries@[j]).layout_id
                != post.entries@[i].layout_id,
    ensures
        post.wf(),
        post.spec_entry(key) == Some(post.entries@[i]),
        forall|k: LayoutKey| k != key ==> #[trigger] post.spec_entry(k) == pre.spec_entry(k),
{
    assert forall|k: LayoutKey| k != key implies #[trigger] post.spec_entry(k) == pre.spec_entry(
        k,
    ) by {
        if exists|j: int| 0 <= j < pre.entries@.len() && (#[trigger] pre.entries@[j]).key == k {
            let j = choose|j: int|
                0 <= j < pre.entries@.len() && (#[trigger] pre.entries@[j]).key == k;
            assert(j != i);
            assert(post.entries@[j].key == k);
            let j2 = choose|j2: int|
                0 <= j2 < post.entries@.len() && (#[trigger] post.entries@[j2]).key == k;
            assert(j2 != i ==> post.entries@[j2] == pre.entries@[j2]);
            assert(j2 == j);
        } else {
            assert forall|j: int| 0 <= j < post.entries@.len()
                implies (#[trigger] post.entries@[j]).key != k by {
                if j != i {
                    assert(post.entries@[j] == pre.entries@[j]);
                }
            }
        }
    }
    let j2 = choose|j2: int|
        0 <= j2 < post.entries@.len() && (#[trigger] post.entries@[j2]).key == key;
    assert(post.entries@[i].key == key);
    assert(j2 == i || pre.entries@[j2].key == key);
    assert(j2 == i);
}

/// Appending a slot under a fresh key changes lookups only at that key.
proof fn lemma_layout_push(pre: LayoutCache, post: LayoutCache, key: LayoutKey)
    requires
        pre.wf(),
        pre.spec_entry(key) is None,
        post.entries@ == pre.entries@.push(post.entries@.last()),
        post.entries@.last().key == key,
        post.entries@.last().layout_id == pre.next_id,
        post.next_id == pre.next_id + 1,
    ensures
        post.wf(),
        post.spec_entry(key) == Some(post.entries@.last()),
        forall|k: LayoutKey| k != key ==> #[trigger] post.spec_entry(k) == pre.spec_entry(k),
{
    let n = pre.entries@.len() as int;
    assert(forall|j: int| 0 <= j < n ==> post.entries@[j] == pre.entries@[j]);
    assert forall|i: int, j: int| 0 <= i < j < post.entries@.len()
        implies (#[trigger] post.entries@[i]).key != (#[trigger] post.entries@[j]).key by {
        if j == n {
            if pre.entries@[i].key == key {
                assert(exists|m: int|
                    0 <= m < pre.entries@.len() && (#[trigger] pre.entries@[m]).key == key);
            }
        }
    }
    assert(post.entries@[n].key == key);
    let j2 = choose|j2: int|
        0 <= j2 < post.entries@.len() && (#[trigger] post.entries@[j2]).key == key;
    assert(j2 == n) by {
        if j2 < n {
            assert(pre.entries@[j2].key == key);
        }
    }
    assert forall|k: LayoutKey| k != key implies #[trigger] post.spec_entry(k) == pre.spec_entry(
        k,
    ) by {
        if exists|j: int| 0 <= j < pre.entries@.len() && (#[trigger] pre.entries@[j]).key == k {
            let j = choose|j: int|
                0 <= j < pre.entries@.len() && (#[trigger] pre.entries@[j]).key == k;
            assert(post.entries@[j].key == k);
            let m = choose|m: int|
                0 <= m < post.entries@.len() && (#[trigger] post.entries@[m]).key == k;
            assert(m < n);
            assert(m == j);
        } else {
            assert forall|j: int| 0 <= j < post.entries@.len()
                implies (#[trigger] post.entries@[j]).key != k by {
                if j < n {
                    assert(post.entries@[j] == pre.entries@[j]);
                }
            }
        }
    }
}

} // verus!
