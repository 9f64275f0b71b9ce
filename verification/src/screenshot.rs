//! Screenshots: what arrives with a frame, and the pixels in it.
use vstd::prelude::*;
use vstd::string::*;


verus! {

/// An encoded image of what a frame looked like.
#[derive(Debug, Clone)]
pub struct Screenshot {
    /// Width in physical pixels.
    pub width: u32,
    /// Height in physical pixels.
    pub height: u32,
    pub png: Vec<u8>,
}

/// Decoded pixels, row by row, four bytes to a pixel: red, green, blue and alpha.
#[derive(Debug, Clone)]
pub struct Picture {
    pub width: u32,
    pub height: u32,
    pub rgba: Vec<u8>,
}

impl View for Picture {
    type V = (u32, u32, Seq<u8>);

    open spec fn view(&self) -> (u32, u32, Seq<u8>) {
        (self.width, self.height, self.rgba@)
    }
}

impl Picture {
    /// There are bytes for every pixel.
    pub open spec fn wf(self) -> bool {
        4 * (self.width * self.height) <= self.rgba@.len()
    }
}

impl Screenshot {
    /// There is something to decode.
    pub open spec fn has_pixels(self) -> bool {
        self.width != 0 && self.height != 0 && self.png@.len() != 0
    }

    /// Is there something to decode?
    pub fn is_imaged(&self) -> (r: bool)
        ensures
            r == self.has_pixels(),
            r <==> self.width > 0 && self.height > 0 && self.png@.len() > 0,
    {
        self.width != 0 && self.height != 0 && self.png.len() != 0
    }
}

/// `outcome` is something that `image::load_from_memory`, followed by
/// `DynamicImage::to_rgba8`, can make of the bytes: width, height and pixels, or the text of an
/// error.
pub uninterp spec fn decodes_to(
    png: Seq<u8>,
    outcome: Result<(u32, u32, Seq<u8>), Seq<char>>,
) -> bool;

pub open spec fn outcome_view(decoded: Result<Picture, String>) -> Result<
    (u32, u32, Seq<u8>),
    Seq<char>,
> {
    match decoded {
        Ok(picture) => Ok(picture@),
        Err(err) => Err(err@),
    }
}

/// Calls `image::load_from_memory`, then `DynamicImage::to_rgba8`; an error comes back as its
/// `Display` text. The result is tied to the bytes, but not fixed by them: decoding also depends
/// on the hooks that the process has registered with `image::hooks`. Nothing is said of which
/// bytes can be decoded, nor of the pixels, but that an `ImageBuffer` has bytes for every pixel.
#[verifier::external_body]
pub(crate) fn decode(png: &Vec<u8>) -> (r: Result<Picture, String>)
    ensures
        decodes_to(png@, outcome_view(r)),
        r matches Ok(picture) ==> picture.wf(),
{
    let image = image::load_from_memory(png).map_err(|err| err.to_string())?.to_rgba8();
    Ok(Picture { width: image.width(), height: image.height(), rgba: image.into_raw() })
}

/// Why a screenshot could not be shown.
pub fn decode_failure(err: &str) -> (r: String)
    ensures
        r@ == "decode screenshot PNG failed: "@ + err@,
{
    let mut words = "decode screenshot PNG failed: ".to_owned();
    words.append(err);
    words
}

/// A picture is sound exactly if it holds four bytes for each of its pixels, and to one that is
/// sound more bytes do no harm.
pub proof fn law_a_sound_picture_has_four_bytes_to_a_pixel(p: Picture, q: Picture, row: int, column: int)
    ensures
        p.rgba@.len() == 4 * (p.width * p.height) ==> p.wf(),
        p.rgba@.len() < 4 * (p.width * p.height) ==> !p.wf(),
        p.wf() && q.width == p.width && q.height == p.height && q.rgba@.len() >= p.rgba@.len()
            ==> q.wf(),
        p.wf() && 0 <= row < p.height && 0 <= column < p.width ==> 0 <= 4 * (row * p.width + column)
            && 4 * (row * p.width + column) + 3 < p.rgba@.len(),
{
    if p.wf() && 0 <= row < p.height && 0 <= column < p.width {
        let width = p.width as int;
        let height = p.height as int;
        assert(0 <= row * width && row * width + width <= width * height) by (nonlinear_arith)
            requires
                0 <= row < height,
                0 <= width,
        ;
    }
}

}
