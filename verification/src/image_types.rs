//! Request parameters for image generation back ends.
use vstd::prelude::*;

verus! {

/// Output size of a generated image.
#[derive(Debug, Clone, Copy, PartialEq, Eq, Structural)]
pub enum ImageSize {
    Square1024,
    Landscape1792x1024,
    Portrait1024x1792,
    Custom { width: u32, height: u32 },
}

/// Width and height, in pixels, that a size stands for.
pub open spec fn size_dimensions(s: ImageSize) -> (u32, u32) {
    match s {
        ImageSize::Square1024 => (1024, 1024),
        ImageSize::Landscape1792x1024 => (1792, 1024),
        ImageSize::Portrait1024x1792 => (1024, 1792),
        ImageSize::Custom { width, height } => (width, height),
    }
}

impl ImageSize {
    /// Width and height in pixels.
    pub fn dimensions(&self) -> (r: (u32, u32))
        ensures
            r == size_dimensions(*self),
    {
        match self {
            ImageSize::Square1024 => (1024, 1024),
            ImageSize::Landscape1792x1024 => (1792, 1024),
            ImageSize::Portrait1024x1792 => (1024, 1792),
            ImageSize::Custom { width, height } => (*width, *height),
        }
    }

    /// The `size` parameter of the OpenAI images API; custom sizes fall back
    /// to the square size.
    pub fn to_openai_str(&self) -> (r: &'static str)
        ensures
            r@ == match *self {
                ImageSize::Landscape1792x1024 => "1792x1024"@,
                ImageSize::Portrait1024x1792 => "1024x1792"@,
                _ => "1024x1024"@,
            },
    {
        match self {
            ImageSize::Square1024 => "1024x1024",
            ImageSize::Landscape1792x1024 => "1792x1024",
            ImageSize::Portrait1024x1792 => "1024x1792",
            ImageSize::Custom { .. } => "1024x1024",
        }
    }
}

impl Default for ImageSize {
    fn default() -> (r: Self)
        ensures
            r == ImageSize::Square1024,
    {
        ImageSize::Square1024
    }
}

/// Rendering style accepted by the OpenAI images API.
#[derive(Debug, Clone, Copy, PartialEq, Eq, Structural)]
pub enum ImageStyle {
    Vivid,
    Natural,
}

impl ImageStyle {
    /// The `style` parameter value.
    pub fn to_openai_str(&self) -> (r: &'static str)
        ensures
            r@ == match *self {
                ImageStyle::Vivid => "vivid"@,
                ImageStyle::Natural => "natural"@,
            },
    {
        match self {
            ImageStyle::Vivid => "vivid",
            ImageStyle::Natural => "natural",
        }
    }
}

/// Quality setting accepted by the OpenAI images API.
#[derive(Debug, Clone, Copy, PartialEq, Eq, Structural)]
pub enum ImageQuality {
    Standard,
    Hd,
}

impl ImageQuality {
    /// The `quality` parameter value.
    pub fn to_openai_str(&self) -> (r: &'static str)
        ensures
            r@ == match *self {
                ImageQuality::Standard => "standard"@,
                ImageQuality::Hd => "hd"@,
            },
    {
        match self {
            ImageQuality::Standard => "standard",
            ImageQuality::Hd => "hd",
        }
    }
}

/// Which back end produced an image.
#[derive(Debug, Clone, Copy, PartialEq, Eq, Structural)]
pub enum ImageProviderType {
    OpenAi,
    Fal,
    ComfyUi,
    Automatic1111,
}

/// One generated image, as a URL or as raw bytes.
#[derive(Debug, Clone)]
pub struct GeneratedImage {
    pub url: Option<String>,
    pub data: Option<Vec<u8>>,
    pub revised_prompt: Option<String>,
    pub width: u32,
    pub height: u32,
    pub seed: Option<u64>,
}

} // verus!
