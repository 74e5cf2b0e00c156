//! Image preview: picks the terminal's graphics protocol, shrinks images to
//! the terminal width and produces the escape sequence.
use vstd::prelude::*;
use vstd::string::*;
use std::collections::HashMap;
use crate::capabilities::{GraphicsProtocol, TerminalCapabilities};
use crate::kitty::{encode_kitty, kitty_spec, text_result};
use crate::sixel::{RgbPixels, pixels_wf, encode_image_sixel, sixel_spec};

verus! {

/// A decoded image of the `image` crate.
#[verifier::external_type_specification]
#[verifier::external_body]
pub struct ExDynamicImage(image::DynamicImage);

/// How an image came about: decoded from bytes, or scaled down from another
/// to fit a width.
pub enum ImageSource {
    Decoded(Seq<u8>),
    Thumbnail(Box<ImageSource>, u32),
}

/// An image together with how it came about.  Only the wrappers of this
/// module build one, each recording the call that made the image.
pub struct PreviewImage {
    img: image::DynamicImage,
    source: Ghost<ImageSource>,
}

impl PreviewImage {
    /// How the image came about.
    pub closed spec fn source(&self) -> ImageSource {
        self.source@
    }
}

/// The text of the error `image::load_from_memory` reports for `bytes`, or
/// `None` when it decodes.
pub uninterp spec fn image_load_error(bytes: Seq<u8>) -> Option<Seq<char>>;

/// The width of the image that `src` describes (`DynamicImage::width`).
pub uninterp spec fn image_width_of(src: ImageSource) -> u32;

/// The height of the image that `src` describes (`DynamicImage::height`).
pub uninterp spec fn image_height_of(src: ImageSource) -> u32;

/// The RGB pixels of the image that `src` describes
/// (`DynamicImage::to_rgb8`): width, height and row-major bytes.
pub uninterp spec fn image_rgb(src: ImageSource) -> (u32, u32, Seq<u8>);

/// The PNG file of the image that `src` describes (`DynamicImage::write_to`
/// with `ImageFormat::Png`), or the text of its error.
pub uninterp spec fn image_png(src: ImageSource) -> Result<Seq<u8>, Seq<char>>;

/// `image::load_from_memory`: the decoded image, or the error's text.
#[verifier::external_body]
fn load_image(bytes: &[u8]) -> (r: Result<PreviewImage, String>)
    ensures
        r is Err <==> image_load_error(bytes@) is Some,
        r matches Err(m) ==> image_load_error(bytes@) == Some(m@),
        r matches Ok(im) ==> im.source() == ImageSource::Decoded(bytes@),
{
    match image::load_from_memory(bytes) {
        Ok(img) => Ok(PreviewImage { img, source: Ghost(ImageSource::Decoded(bytes@)) }),
        Err(e) => Err(e.to_string()),
    }
}

/// `img.width()`.
#[verifier::external_body]
fn image_width(im: &PreviewImage) -> (r: u32)
    ensures
        r == image_width_of(im.source()),
{
    im.img.width()
}

/// `img.height()`.
#[verifier::external_body]
fn image_height(im: &PreviewImage) -> (r: u32)
    ensures
        r == image_height_of(im.source()),
{
    im.img.height()
}

/// The height `h` of an image of width `w` and height `h0` scaled to width
/// `m` keeps the aspect ratio to within a pixel: `h` is `h0 * m / w` rounded
/// (at least 1).
pub open spec fn proportional_height(w: u32, h0: u32, m: u32, h: u32) -> bool {
    &&& h >= 1
    &&& -(w as int) <= h * w - h0 * m <= w
}

/// `img.thumbnail(max_width, u32::MAX)` for an image wider than
/// `max_width`: the image scaled down, aspect ratio kept, to exactly
/// `max_width` pixels of width (`resize_dimensions` in the `image` source:
/// the width ratio is the smaller one, and the height is the rounded
/// proportional height, at least 1).
#[verifier::external_body]
fn thumbnail(im: &PreviewImage, max_width: u32) -> (r: PreviewImage)
    requires
        max_width > 0,
        image_width_of(im.source()) > max_width,
    ensures
        r.source() == ImageSource::Thumbnail(Box::new(im.source()), max_width),
        image_width_of(r.source()) == max_width,
        proportional_height(
            image_width_of(im.source()),
            image_height_of(im.source()),
            max_width,
            image_height_of(r.source()),
        ),
{
    PreviewImage {
        img: im.img.thumbnail(max_width, u32::MAX),
        source: Ghost(ImageSource::Thumbnail(Box::new(im.source@), max_width)),
    }
}

/// `img.to_rgb8()` as plain pixels: the dimensions and the row-major RGB
/// bytes, three per pixel.
#[verifier::external_body]
fn rgb_pixels(im: &PreviewImage) -> (r: RgbPixels)
    ensures
        pixels_wf(r),
        (r.width, r.height, r.data@) == image_rgb(im.source()),
{
    let rgb = im.img.to_rgb8();
    let (width, height) = rgb.dimensions();
    RgbPixels { width, height, data: rgb.into_raw() }
}

/// `img.write_to(.., ImageFormat::Png)`: the PNG file bytes, or the error's
/// text.
#[verifier::external_body]
fn png_file(im: &PreviewImage) -> (r: Result<Vec<u8>, String>)
    ensures
        match r {
            Ok(b) => image_png(im.source()) == Ok::<Seq<u8>, Seq<char>>(b@),
            Err(m) => image_png(im.source()) == Err::<Seq<u8>, Seq<char>>(m@),
        },
{
    let mut out = std::io::Cursor::new(Vec::new());
    match im.img.write_to(&mut out, image::ImageFormat::Png) {
        Ok(()) => Ok(out.into_inner()),
        Err(e) => Err(e.to_string()),
    }
}

/// Width in pixels that `cols` terminal columns of about 8 pixels hold.
pub open spec fn cols_pixels(cols: u16) -> int {
    cols * 8
}

/// The width to shrink an image of width `width` to, so that it fits in
/// `cols` columns; `None` when it fits already or `cols` is 0.
pub open spec fn thumb_width(width: u32, cols: u16) -> Option<u32> {
    if cols > 0 && width > cols_pixels(cols) {
        Some(cols_pixels(cols) as u32)
    } else {
        None
    }
}

/// The width to shrink an image of width `width` to, so that it fits in
/// `cols` columns; `None` when it fits already or `cols` is 0.
pub fn thumbnail_width(width: u32, cols: u16) -> (r: Option<u32>)
    ensures
        r == thumb_width(width, cols),
        r is Some <==> cols > 0 && width > cols_pixels(cols),
        r matches Some(m) ==> m == cols_pixels(cols),
{
    let max_px = (cols as u32) * 8;
    if width <= max_px || max_px == 0 {
        None
    } else {
        Some(max_px)
    }
}

/// How an image is after being fitted to `cols` columns.
pub open spec fn resized_source(src: ImageSource, cols: u16) -> ImageSource {
    match thumb_width(image_width_of(src), cols) {
        Some(m) => ImageSource::Thumbnail(Box::new(src), m),
        None => src,
    }
}

/// Decodes image bytes.
pub fn decode_image(bytes: &[u8]) -> (r: Result<PreviewImage, String>)
    ensures
        r is Err <==> image_load_error(bytes@) is Some,
        r matches Err(m) ==> image_load_error(bytes@) == Some(m@),
        r matches Ok(im) ==> im.source() == ImageSource::Decoded(bytes@),
{
    load_image(bytes)
}

impl PreviewImage {
    /// The width in pixels.
    pub fn width(&self) -> (r: u32)
        ensures
            r == image_width_of(self.source()),
    {
        image_width(self)
    }

    /// The height in pixels.
    pub fn height(&self) -> (r: u32)
        ensures
            r == image_height_of(self.source()),
    {
        image_height(self)
    }
}

/// Scales `img` down to fit within `cols` terminal columns (about 8 pixels
/// each): an image no wider than that, or `cols` 0, comes back as it is;
/// a wider one is the thumbnail exactly `cols * 8` pixels wide, its height
/// scaled in proportion.
pub fn resize_to_cols(img: PreviewImage, cols: u16) -> (r: PreviewImage)
    ensures
        r.source() == resized_source(img.source(), cols),
        cols == 0 ==> r == img,
        thumb_width(image_width_of(img.source()), cols) is None ==> r == img,
        thumb_width(image_width_of(img.source()), cols) matches Some(m) ==> image_width_of(
            r.source(),
        ) == m && proportional_height(
            image_width_of(img.source()),
            image_height_of(img.source()),
            m,
            image_height_of(r.source()),
        ),
{
    match thumbnail_width(image_width(&img), cols) {
        Some(max_px) => thumbnail(&img, max_px),
        None => img,
    }
}

/// The result of a preview encoding.
#[derive(Debug, Clone)]
pub enum PreviewOutput {
    /// A terminal escape sequence (kitty or sixel) ready to be written.
    EscapeSequence(String),
    /// No protocol available.
    Unavailable,
}

/// Prefixes an error text.
fn prefixed(prefix: &str, m: String) -> (r: String)
    ensures
        r@ == prefix@ + m@,
{
    let mut s = String::from_str(prefix);
    s.append(m.as_str());
    s
}

/// The sixel sequence (or error) for the pixels of the image `src`.
pub open spec fn sixel_of(src: ImageSource) -> Result<Seq<char>, Seq<char>> {
    let (w, h, data) = image_rgb(src);
    sixel_spec(w, h, data)
}

/// What encoding image bytes as sixel gives.
pub open spec fn encode_sixel_spec(bytes: Seq<u8>) -> Result<Seq<char>, Seq<char>> {
    match image_load_error(bytes) {
        Some(m) => Err("image load error: "@ + m),
        None => sixel_of(ImageSource::Decoded(bytes)),
    }
}

/// Abstract value of an encoding result.
pub open spec fn preview_view(r: Result<PreviewOutput, String>) -> Result<Option<Seq<char>>, Seq<char>> {
    match r {
        Ok(PreviewOutput::EscapeSequence(s)) => Ok(Some(s@)),
        Ok(PreviewOutput::Unavailable) => Ok(None),
        Err(m) => Err(m@),
    }
}

/// A sequence or an error, as a preview result.
pub open spec fn as_preview(r: Result<Seq<char>, Seq<char>>) -> Result<Option<Seq<char>>, Seq<char>> {
    match r {
        Ok(s) => Ok(Some(s)),
        Err(m) => Err(m),
    }
}

/// What a preview with protocol `g` gives for image bytes and a column
/// limit: nothing without a protocol; else the decoded image fitted to the
/// columns, as a kitty sequence of its PNG file or as sixel of its pixels.
pub open spec fn encode_png_spec(g: GraphicsProtocol, bytes: Seq<u8>, cols: u16) -> Result<Option<Seq<char>>, Seq<char>> {
    match g {
        GraphicsProtocol::NoGraphics => Ok(None),
        _ => match image_load_error(bytes) {
            Some(m) => Err("image load: "@ + m),
            None => {
                let src = resized_source(ImageSource::Decoded(bytes), cols);
                match g {
                    GraphicsProtocol::Kitty => match image_png(src) {
                        Err(m) => Err("PNG encode: "@ + m),
                        Ok(png) => as_preview(kitty_spec(png)),
                    },
                    _ => as_preview(sixel_of(src)),
                }
            },
        },
    }
}

/// Decodes image bytes and encodes them as a sixel sequence.
pub fn encode_sixel(png_bytes: &[u8]) -> (r: Result<String, String>)
    ensures
        text_result(r) == encode_sixel_spec(png_bytes@),
{
    proof {
        reveal_strlit("image load error: ");
    }
    let img = match load_image(png_bytes) {
        Ok(img) => img,
        Err(m) => {
            return Err(prefixed("image load error: ", m));
        },
    };
    let px = rgb_pixels(&img);
    encode_image_sixel(&px)
}

/// Unified image preview: the terminal's best graphics protocol, with images
/// shrunk to the terminal width.
pub struct ImagePreview {
    caps: TerminalCapabilities,
    cache: HashMap<u64, String>,
}

impl ImagePreview {
    /// The graphics protocol in use.
    pub closed spec fn graphics(&self) -> GraphicsProtocol {
        self.caps.graphics
    }

    /// The cached sequences.
    pub closed spec fn cached(&self) -> Map<u64, String> {
        self.cache@
    }

    /// A preview for the given terminal capabilities, with an empty cache.
    pub fn new(caps: TerminalCapabilities) -> (r: Self)
        ensures
            r.graphics() == caps.graphics,
            r.cached() == Map::<u64, String>::empty(),
    {
        ImagePreview { caps, cache: HashMap::new() }
    }

    /// The graphics protocol in use.
    pub fn protocol(&self) -> (r: GraphicsProtocol)
        ensures
            r == self.graphics(),
    {
        self.caps.graphics
    }

    /// Encodes image bytes with the terminal's protocol, first shrinking the
    /// image to `max_cols` columns when `max_cols > 0`.  Without a graphics
    /// protocol nothing is decoded and the answer is `Unavailable`.
    pub fn encode_png(&mut self, png_bytes: &[u8], max_cols: u16) -> (r: Result<PreviewOutput, String>)
        ensures
            final(self).graphics() == old(self).graphics(),
            final(self).cached() == old(self).cached(),
            preview_view(r) == encode_png_spec(old(self).graphics(), png_bytes@, max_cols),
    {
        proof {
            reveal_strlit("image load: ");
            reveal_strlit("PNG encode: ");
        }
        if !self.caps.supports_any_graphics() {
            return Ok(PreviewOutput::Unavailable);
        }
        let img = match load_image(png_bytes) {
            Ok(img) => img,
            Err(m) => {
                return Err(prefixed("image load: ", m));
            },
        };
        let img = if max_cols > 0 {
            resize_to_cols(img, max_cols)
        } else {
            img
        };
        match self.caps.graphics {
            GraphicsProtocol::Kitty => {
                let png = match png_file(&img) {
                    Ok(b) => b,
                    Err(m) => {
                        return Err(prefixed("PNG encode: ", m));
                    },
                };
                match encode_kitty(png.as_slice()) {
                    Ok(s) => Ok(PreviewOutput::EscapeSequence(s)),
                    Err(m) => Err(m),
                }
            },
            GraphicsProtocol::Sixel => {
                let px = rgb_pixels(&img);
                match encode_image_sixel(&px) {
                    Ok(s) => Ok(PreviewOutput::EscapeSequence(s)),
                    Err(m) => Err(m),
                }
            },
            GraphicsProtocol::NoGraphics => Ok(PreviewOutput::Unavailable),
        }
    }

    /// Empties the cache.
    pub fn clear_cache(&mut self)
        ensures
            final(self).graphics() == old(self).graphics(),
            final(self).cached() == Map::<u64, String>::empty(),
    {
        self.cache.clear();
    }
}

} // verus!
