//! The window icon: the pixels of the application's PNG image, in the
//! red, green, blue, alpha layout that window toolkits take.

use vstd::prelude::*;
use vstd::arithmetic::div_mod::{
    lemma_fundamental_div_mod, lemma_fundamental_div_mod_converse, lemma_mod_pos_bound,
};

verus! {

/// How the samples of a decoded image are laid out.
#[derive(Clone, Copy, PartialEq, Eq, Debug, Structural)]
pub enum PixelLayout {
    Grayscale,
    Rgb,
    Indexed,
    GrayscaleAlpha,
    Rgba,
}

/// The first frame of a PNG image as `png` decodes it with its default
/// settings: its samples, width, height and layout.
pub uninterp spec fn png_first_frame(bytes: Seq<u8>) -> Option<(Seq<u8>, u32, u32, PixelLayout)>;

/// `png::Decoder::read_info`, `Reader::output_buffer_size` and
/// `Reader::next_frame`: the first frame of the image, its samples cut to
/// the size that the decoder reports. What the decoder makes of the bytes is
/// named, not stated; `None` where any of the three fails.
#[verifier::external_body]
fn decode_png(bytes: &[u8]) -> (frame: Option<(Vec<u8>, u32, u32, PixelLayout)>)
    ensures
        match frame {
            Some((samples, width, height, layout)) => png_first_frame(bytes@) == Some(
                (samples@, width, height, layout),
            ),
            None => png_first_frame(bytes@) is None,
        },
{
    let mut reader = png::Decoder::new(std::io::Cursor::new(bytes)).read_info().ok()?;
    let mut samples = vec![0u8; reader.output_buffer_size()?];
    let info = reader.next_frame(&mut samples).ok()?;
    samples.truncate(info.buffer_size());
    let layout = match info.color_type {
        png::ColorType::Grayscale => PixelLayout::Grayscale,
        png::ColorType::Rgb => PixelLayout::Rgb,
        png::ColorType::Indexed => PixelLayout::Indexed,
        png::ColorType::GrayscaleAlpha => PixelLayout::GrayscaleAlpha,
        png::ColorType::Rgba => PixelLayout::Rgba,
    };
    Some((samples, info.width, info.height, layout))
}

/// An image as rows of red, green, blue and alpha bytes.
pub struct RgbaImage {
    pub pixels: Vec<u8>,
    pub width: u32,
    pub height: u32,
}

/// Red, green and blue samples with a fully opaque alpha after each
/// pixel; samples after the last whole pixel are dropped.
pub open spec fn with_opaque_alpha(rgb: Seq<u8>) -> Seq<u8> {
    Seq::new(
        ((rgb.len() / 3) * 4) as nat,
        |i: int|
            if i % 4 == 3 {
                255u8
            } else {
                rgb[(i / 4) * 3 + i % 4]
            },
    )
}

/// Gives every pixel of red, green and blue samples a fully opaque alpha.
pub fn add_opaque_alpha(rgb: &[u8]) -> (rgba: Vec<u8>)
    ensures
        rgba@ == with_opaque_alpha(rgb@),
{
    let pixels = rgb.len() / 3;
    let mut rgba: Vec<u8> = Vec::new();
    let mut k: usize = 0;
    proof {
        lemma_fundamental_div_mod(rgb.len() as int, 3);
        lemma_mod_pos_bound(rgb.len() as int, 3);
    }
    while k < pixels
        invariant
            pixels == rgb@.len() / 3,
            3 * pixels <= rgb.len(),
            k <= pixels,
            rgba@.len() == 4 * k,
            forall|j: int| 0 <= j < 4 * k ==> #[trigger] rgba@[j] == with_opaque_alpha(rgb@)[j],
        decreases pixels - k,
    {
        let base = 3 * k;
        rgba.push(rgb[base]);
        rgba.push(rgb[base + 1]);
        rgba.push(rgb[base + 2]);
        rgba.push(255u8);
        proof {
            assert forall|j: int| 0 <= j < 4 * (k + 1) implies #[trigger] rgba@[j]
                == with_opaque_alpha(rgb@)[j] by {
                if j >= 4 * k {
                    lemma_fundamental_div_mod_converse(j, 4, k as int, j - 4 * k);
                }
            }
        }
        k = k + 1;
    }
    proof {
        assert(rgba@ =~= with_opaque_alpha(rgb@));
    }
    rgba
}

/// The icon pixels that a decoded frame gives: its samples as they stand
/// where they carry alpha, with every pixel fully opaque where they are red,
/// green and blue only; `None` for another layout or no frame.
pub open spec fn icon_of_frame(frame: Option<(Seq<u8>, u32, u32, PixelLayout)>) -> Option<
    (Seq<u8>, u32, u32),
> {
    match frame {
        Some((samples, width, height, PixelLayout::Rgba)) => Some((samples, width, height)),
        Some((samples, width, height, PixelLayout::Rgb)) => Some(
            (with_opaque_alpha(samples), width, height),
        ),
        _ => None,
    }
}

pub open spec fn frame_view(frame: Option<(Vec<u8>, u32, u32, PixelLayout)>) -> Option<
    (Seq<u8>, u32, u32, PixelLayout),
> {
    match frame {
        Some((samples, width, height, layout)) => Some((samples@, width, height, layout)),
        None => None,
    }
}

pub open spec fn image_view(image: Option<RgbaImage>) -> Option<(Seq<u8>, u32, u32)> {
    match image {
        Some(found) => Some((found.pixels@, found.width, found.height)),
        None => None,
    }
}

/// The window icon that a decoded frame gives.
pub fn icon_from_frame(frame: Option<(Vec<u8>, u32, u32, PixelLayout)>) -> (image: Option<RgbaImage>)
    ensures
        image_view(image) == icon_of_frame(frame_view(frame)),
{
    match frame {
        Some((samples, width, height, PixelLayout::Rgba)) => Some(
            RgbaImage { pixels: samples, width, height },
        ),
        Some((samples, width, height, PixelLayout::Rgb)) => Some(
            RgbaImage { pixels: add_opaque_alpha(samples.as_slice()), width, height },
        ),
        _ => None,
    }
}

/// The window icon that a PNG image gives: the icon of its first frame, as
/// `png` decodes it.
pub fn icon_pixels(png: &[u8]) -> (image: Option<RgbaImage>)
    ensures
        image_view(image) == icon_of_frame(png_first_frame(png@)),
{
    let frame = decode_png(png);
    icon_from_frame(frame)
}

} // verus!
