use hyprcollab::image_types::{ImageQuality, ImageSize, ImageStyle};

#[test]
fn test_image_size_square_dimensions() {
    assert_eq!(ImageSize::Square1024.dimensions(), (1024, 1024));
}

#[test]
fn test_image_size_landscape_dimensions() {
    assert_eq!(ImageSize::Landscape1792x1024.dimensions(), (1792, 1024));
}

#[test]
fn test_image_size_portrait_dimensions() {
    assert_eq!(ImageSize::Portrait1024x1792.dimensions(), (1024, 1792));
}

#[test]
fn test_image_size_custom_dimensions() {
    let size = ImageSize::Custom { width: 512, height: 768 };
    assert_eq!(size.dimensions(), (512, 768));
}

#[test]
fn test_image_size_to_openai_str() {
    assert_eq!(ImageSize::Square1024.to_openai_str(), "1024x1024");
    assert_eq!(ImageSize::Landscape1792x1024.to_openai_str(), "1792x1024");
    assert_eq!(ImageSize::Portrait1024x1792.to_openai_str(), "1024x1792");
}

#[test]
fn test_image_size_custom_falls_back_to_square() {
    let size = ImageSize::Custom { width: 300, height: 400 };
    assert_eq!(size.to_openai_str(), "1024x1024");
}

#[test]
fn test_image_style_to_openai_str() {
    assert_eq!(ImageStyle::Vivid.to_openai_str(), "vivid");
    assert_eq!(ImageStyle::Natural.to_openai_str(), "natural");
}

#[test]
fn test_image_quality_to_openai_str() {
    assert_eq!(ImageQuality::Standard.to_openai_str(), "standard");
    assert_eq!(ImageQuality::Hd.to_openai_str(), "hd");
}

#[test]
fn test_image_size_default() {
    assert_eq!(ImageSize::default(), ImageSize::Square1024);
}
