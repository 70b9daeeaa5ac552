//! Pixel preparation for image blocks, and their placement.
use vstd::prelude::*;
use crate::style::ResourceKey;

verus! {

/// Pixel layouts that a decoded image can be uploaded in.
#[derive(Debug, Clone, Copy, PartialEq, Eq, Structural)]
pub enum ImageFormat {
    /// One byte of coverage per pixel.
    A8,
    RGB8,
    RG8,
    /// Four bytes per pixel: blue, green, red, alpha.
    BGRA8,
}

/// The alpha byte of pixel `i` of BGRA pixels.
pub open spec fn alpha_at(bytes: Seq<u8>, i: int) -> u8 {
    bytes[i * 4 + 3]
}

/// Whether an image in `format` with pixel bytes `bytes` is fully opaque.
pub open spec fn image_opaque(format: ImageFormat, bytes: Seq<u8>) -> bool {
    match format {
        ImageFormat::BGRA8 => forall|i: int| 0 <= i < bytes.len() / 4 ==> #[trigger] alpha_at(bytes, i) == 255,
        ImageFormat::RGB8 => true,
        ImageFormat::RG8 => true,
        ImageFormat::A8 => false,
    }
}

/// `c` scaled by alpha `a`, rounded to nearest.
pub open spec fn scale_by_alpha(c: u8, a: u8) -> u8 {
    ((c as int * a as int + 128) / 255) as u8
}

/// Byte `i` of the premultiplied form of RGBA pixels `p`: each pixel
/// becomes blue, green, red scaled by its alpha, then the alpha.
pub open spec fn premultiplied_at(p: Seq<u8>, i: int) -> u8 {
    let base = i - i % 4;
    let a = p[base + 3];
    if i % 4 == 0 {
        scale_by_alpha(p[base + 2], a)
    } else if i % 4 == 1 {
        scale_by_alpha(p[base + 1], a)
    } else if i % 4 == 2 {
        scale_by_alpha(p[base], a)
    } else {
        a
    }
}

fn scale(c: u8, a: u8) -> (r: u8)
    ensures
        r == scale_by_alpha(c, a),
{
    assert(c as u32 * a as u32 <= 255 * 255) by (nonlinear_arith)
        requires c <= 255, a <= 255;
    let v = (c as u32 * a as u32 + 128) / 255;
    v as u8
}

impl BuiltImageBlock {
    /// Whether an image in `format` is fully opaque; for BGRA pixels, whether
    /// every alpha byte is 255.
    pub fn is_image_opaque(format: ImageFormat, bytes: &[u8]) -> (r: bool)
        ensures
            r == image_opaque(format, bytes@),
    {
        match format {
            ImageFormat::BGRA8 => {
                let n = bytes.len() / 4;
                let mut i: usize = 0;
                while i < n
                    invariant
                        format == ImageFormat::BGRA8,
                        n == bytes@.len() / 4,
                        0 <= i <= n,
                        forall|j: int| 0 <= j < i ==> #[trigger] alpha_at(bytes@, j) == 255,
                    decreases n - i,
                {
                    assert(i * 4 + 3 < bytes.len()) by (nonlinear_arith)
                        requires i < n, n == bytes@.len() / 4;
                    let alpha = bytes[i * 4 + 3];
                    if alpha != 255 {
                        assert(alpha_at(bytes@, i as int) != 255);
                        return false;
                    }
                    i = i + 1;
                }
                true
            },
            ImageFormat::RGB8 => true,
            ImageFormat::RG8 => true,
            ImageFormat::A8 => false,
        }
    }

    /// Turns RGBA pixels into BGRA pixels premultiplied by their alpha.
    pub fn premultiply(data: &mut [u8])
        requires
            old(data)@.len() % 4 == 0,
        ensures
            final(data)@.len() == old(data)@.len(),
            forall|i: int| 0 <= i < old(data)@.len() ==> #[trigger] final(data)@[i] == premultiplied_at(old(data)@, i),
    {
        let ghost p = data@;
        let n = data.len() / 4;
        let mut k: usize = 0;
        while k < n
            invariant
                n == p.len() / 4,
                p.len() % 4 == 0,
                data@.len() == p.len(),
                0 <= k <= n,
                forall|i: int| 0 <= i < k * 4 ==> #[trigger] data@[i] == premultiplied_at(p, i),
                forall|i: int| k * 4 <= i < p.len() ==> #[trigger] data@[i] == p[i],
            decreases n - k,
        {
            assert(k * 4 + 3 < data.len()) by (nonlinear_arith)
                requires k < n, n == p.len() / 4, data@.len() == p.len();
            let o = k * 4;
            let a = data[o + 3];
            let b = data[o + 2];
            let g = data[o + 1];
            let r = data[o];
            data[o + 3] = a;
            data[o + 2] = scale(r, a);
            data[o + 1] = scale(g, a);
            data[o] = scale(b, a);
            assert forall|i: int| 0 <= i < (k + 1) * 4 implies #[trigger] data@[i] == premultiplied_at(p, i) by {
                if i >= o {
                    assert(i - i % 4 == o);
                }
            }
            k = k + 1;
        }
    }
}

/// Pixels ready for upload: format, bytes, and whether they are opaque.
#[derive(Debug, Clone)]
pub struct PreparedImage {
    pub width: u32,
    pub height: u32,
    pub format: ImageFormat,
    pub bytes: Vec<u8>,
    pub opaque: bool,
}

/// Prepares decoded pixels for upload: RGBA pixels, given as `BGRA8`, are
/// premultiplied and reordered; every format gets its opacity.
pub fn prepare_image(width: u32, height: u32, format: ImageFormat, bytes: Vec<u8>) -> (r: PreparedImage)
    requires
        format == ImageFormat::BGRA8 ==> bytes@.len() % 4 == 0,
    ensures
        r.width == width,
        r.height == height,
        r.format == format,
        format == ImageFormat::BGRA8 ==> r.bytes@.len() == bytes@.len() && forall|i: int|
            0 <= i < bytes@.len() ==> #[trigger] r.bytes@[i] == premultiplied_at(bytes@, i),
        format != ImageFormat::BGRA8 ==> r.bytes@ == bytes@,
        r.opaque == image_opaque(format, r.bytes@),
{
    let mut bytes = bytes;
    if format == ImageFormat::BGRA8 {
        BuiltImageBlock::premultiply(bytes.as_mut_slice());
    }
    let opaque = BuiltImageBlock::is_image_opaque(format, bytes.as_slice());
    PreparedImage { width, height, format, bytes, opaque }
}

/// An image block: the backend's image and its size in pixels.
#[derive(Debug, Clone, Copy, PartialEq, Eq)]
pub struct BuiltImageBlock {
    pub key: ResourceKey,
    pub width: u32,
    pub height: u32,
}

/// The height at which an image of `w` by `h` pixels is drawn `width`
/// wide, keeping its aspect ratio; nothing for an image without width.
pub open spec fn image_height(w: u32, h: u32, width: u64) -> int {
    if w == 0 {
        0
    } else {
        width as int * h as int / w as int
    }
}

impl BuiltImageBlock {
    /// An image block whose pixels are not loaded yet.
    pub fn new(key: ResourceKey) -> (r: Self)
        ensures
            r == (BuiltImageBlock { key, width: 0, height: 0 }),
    {
        BuiltImageBlock { key, width: 0, height: 0 }
    }

    /// The height of the image drawn `width` wide.
    pub fn height(&self, width: u64) -> (r: u64)
        requires
            width <= u32::MAX,
        ensures
            r == image_height(self.width, self.height, width),
    {
        if self.width == 0 {
            0
        } else {
            assert(width * self.height <= u32::MAX * u32::MAX) by (nonlinear_arith)
                requires width <= u32::MAX, self.height <= u32::MAX;
            width * self.height as u64 / self.width as u64
        }
    }
}

} // verus!
