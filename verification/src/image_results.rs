//! Turning the image services' answers into generated images.
use vstd::prelude::*;
use vstd::string::*;
use crate::image_types::GeneratedImage;
use crate::kitty::{base64_decode, base64_decoding, opt_bytes};
use crate::document::opt_chars;

verus! {

/// Abstract value of a generated image.
pub struct ImageView {
    pub url: Option<Seq<char>>,
    pub data: Option<Seq<u8>>,
    pub revised_prompt: Option<Seq<char>>,
    pub width: u32,
    pub height: u32,
    pub seed: Option<u64>,
}

/// The abstract value of a generated image.
pub open spec fn image_view(g: GeneratedImage) -> ImageView {
    ImageView {
        url: opt_chars(g.url),
        data: opt_bytes(g.data),
        revised_prompt: opt_chars(g.revised_prompt),
        width: g.width,
        height: g.height,
        seed: g.seed,
    }
}

/// The abstract values of generated images.
pub open spec fn images_view(v: Seq<GeneratedImage>) -> Seq<ImageView> {
    v.map_values(|g: GeneratedImage| image_view(g))
}

/// What base64 text decodes to, if it decodes.
pub open spec fn decoded(b64: Option<Seq<char>>) -> Option<Seq<u8>> {
    match b64 {
        Some(t) => base64_decoding(t),
        None => None,
    }
}

/// One image of the OpenAI images answer.
pub struct OpenAiImage {
    pub url: Option<String>,
    pub b64_json: Option<String>,
    pub revised_prompt: Option<String>,
}

/// The generated image for one OpenAI answer image of the requested size.
pub open spec fn openai_image_spec(img: OpenAiImage, w: u32, h: u32) -> ImageView {
    ImageView {
        url: opt_chars(img.url),
        data: decoded(opt_chars(img.b64_json)),
        revised_prompt: opt_chars(img.revised_prompt),
        width: w,
        height: h,
        seed: None,
    }
}

/// The images of an OpenAI answer: each keeps its URL and revised prompt,
/// its base64 data decoded (dropped when it does not decode), with the
/// requested size.
pub fn openai_images(data: Vec<OpenAiImage>, w: u32, h: u32) -> (r: Vec<GeneratedImage>)
    ensures
        images_view(r@) == data@.map_values(|img: OpenAiImage| openai_image_spec(img, w, h)),
{
    let ghost src = data@;
    let mut out: Vec<GeneratedImage> = Vec::new();
    let rest = data;
    let mut i: usize = 0;
    while i < rest.len()
        invariant
            rest@ == src,
            i <= src.len(),
            images_view(out@) == src.take(i as int).map_values(
                |img: OpenAiImage| openai_image_spec(img, w, h),
            ),
        decreases src.len() - i,
    {
        let img = &rest[i];
        let bytes = match &img.b64_json {
            Some(b) => base64_decode(b.as_str()),
            None => None,
        };
        let g = GeneratedImage {
            url: img.url.clone(),
            data: bytes,
            revised_prompt: img.revised_prompt.clone(),
            width: w,
            height: h,
            seed: None,
        };
        let ghost before = images_view(out@);
        out.push(g);
        proof {
            assert(image_view(g) == openai_image_spec(src[i as int], w, h));
            assert(images_view(out@) =~= before.push(image_view(g)));
            assert(src.take(i + 1) =~= src.take(i as int).push(src[i as int]));
        }
        i = i + 1;
    }
    proof {
        assert(src.take(i as int) =~= src);
    }
    out
}

/// The seeds an answer reports, the negative ones left out.
pub open spec fn known_seeds(all: Seq<i64>) -> Seq<u64>
    decreases all.len(),
{
    if all.len() == 0 {
        seq![]
    } else {
        let rest = known_seeds(all.drop_last());
        if all.last() >= 0 {
            rest.push(all.last() as u64)
        } else {
            rest
        }
    }
}

/// The seeds of `all` that are not negative, in order.
pub fn nonnegative_seeds(all: &Vec<i64>) -> (r: Vec<u64>)
    ensures
        r@ == known_seeds(all@),
{
    let mut out: Vec<u64> = Vec::new();
    let mut i: usize = 0;
    while i < all.len()
        invariant
            i <= all@.len(),
            out@ == known_seeds(all@.take(i as int)),
        decreases all@.len() - i,
    {
        proof {
            assert(all@.take(i + 1).drop_last() =~= all@.take(i as int));
        }
        if all[i] >= 0 {
            out.push(all[i] as u64);
        }
        i = i + 1;
    }
    proof {
        assert(all@.take(i as int) =~= all@);
    }
    out
}

/// The generated image for the `i`-th base64 image of a txt2img answer.
pub open spec fn a1111_image_spec(b64: Seq<char>, seeds: Seq<u64>, i: int, w: u32, h: u32) -> ImageView {
    ImageView {
        url: None,
        data: base64_decoding(b64),
        revised_prompt: None,
        width: w,
        height: h,
        seed: if i < seeds.len() {
            Some(seeds[i])
        } else {
            None
        },
    }
}

/// The images of a txt2img answer: each base64 image decoded (dropped when
/// it does not decode), with the requested size and the seed at its
/// position among the reported nonnegative seeds.
pub fn a1111_images(images: &Vec<String>, all_seeds: &Vec<i64>, w: u32, h: u32) -> (r: Vec<
    GeneratedImage,
>)
    ensures
        r@.len() == images@.len(),
        forall|i: int|
            0 <= i < images@.len() ==> image_view(#[trigger] r@[i]) == a1111_image_spec(
                images@[i]@,
                known_seeds(all_seeds@),
                i,
                w,
                h,
            ),
{
    let seeds = nonnegative_seeds(all_seeds);
    let mut out: Vec<GeneratedImage> = Vec::new();
    let mut i: usize = 0;
    while i < images.len()
        invariant
            seeds@ == known_seeds(all_seeds@),
            i <= images@.len(),
            out@.len() == i,
            forall|k: int|
                0 <= k < i ==> image_view(#[trigger] out@[k]) == a1111_image_spec(
                    images@[k]@,
                    seeds@,
                    k,
                    w,
                    h,
                ),
        decreases images@.len() - i,
    {
        let seed = if i < seeds.len() {
            Some(seeds[i])
        } else {
            None
        };
        let g = GeneratedImage {
            url: None,
            data: base64_decode(images[i].as_str()),
            revised_prompt: None,
            width: w,
            height: h,
            seed,
        };
        out.push(g);
        i = i + 1;
    }
    out
}

/// One image of a fal answer: its URL and size.
pub struct FalImage {
    pub url: String,
    pub width: u32,
    pub height: u32,
}

/// The images of a fal answer: URL and size as given, the answer's seed on
/// each.
pub fn fal_images(images: Vec<FalImage>, seed: Option<u64>) -> (r: Vec<GeneratedImage>)
    ensures
        r@.len() == images@.len(),
        forall|i: int|
            0 <= i < images@.len() ==> image_view(#[trigger] r@[i]) == (ImageView {
                url: Some(images@[i].url@),
                data: None,
                revised_prompt: None,
                width: images@[i].width,
                height: images@[i].height,
                seed: seed,
            }),
{
    let mut out: Vec<GeneratedImage> = Vec::new();
    let mut i: usize = 0;
    while i < images.len()
        invariant
            i <= images@.len(),
            out@.len() == i,
            forall|k: int|
                0 <= k < i ==> image_view(#[trigger] out@[k]) == (ImageView {
                    url: Some(images@[k].url@),
                    data: None,
                    revised_prompt: None,
                    width: images@[k].width,
                    height: images@[k].height,
                    seed: seed,
                }),
        decreases images@.len() - i,
    {
        let g = GeneratedImage {
            url: Some(images[i].url.clone()),
            data: None,
            revised_prompt: None,
            width: images[i].width,
            height: images[i].height,
            seed,
        };
        out.push(g);
        i = i + 1;
    }
    out
}

/// An image entry of a ComfyUI history: its file name and, when given, its
/// subfolder and type.
pub struct ComfyImageRef {
    pub filename: String,
    pub subfolder: Option<String>,
    pub kind: Option<String>,
}

/// The download URL of a ComfyUI image: the subfolder defaults to empty and
/// the type to `output`.
pub open spec fn comfy_url_spec(base_url: Seq<char>, r: ComfyImageRef) -> Seq<char> {
    base_url + "/view?filename="@ + r.filename@ + "&subfolder="@ + match r.subfolder {
        Some(s) => s@,
        None => seq![],
    } + "&type="@ + match r.kind {
        Some(k) => k@,
        None => "output"@,
    }
}

/// The download URL of a ComfyUI image.
pub fn comfy_image_url(base_url: &str, r: &ComfyImageRef) -> (u: String)
    ensures
        u@ == comfy_url_spec(base_url@, *r),
{
    proof {
        reveal_strlit("/view?filename=");
        reveal_strlit("&subfolder=");
        reveal_strlit("&type=");
        reveal_strlit("output");
    }
    let mut u = String::from_str(base_url);
    u.append("/view?filename=");
    u.append(r.filename.as_str());
    u.append("&subfolder=");
    match &r.subfolder {
        Some(s) => u.append(s.as_str()),
        None => {},
    }
    u.append("&type=");
    match &r.kind {
        Some(k) => u.append(k.as_str()),
        None => u.append("output"),
    }
    proof {
        assert(u@ =~= comfy_url_spec(base_url@, *r));
    }
    u
}

/// The images of a ComfyUI history: a URL for each entry, with the
/// requested size and the seed the workflow ran with.
pub fn comfy_images(refs: &Vec<ComfyImageRef>, base_url: &str, w: u32, h: u32, seed: u64) -> (r: Vec<
    GeneratedImage,
>)
    ensures
        r@.len() == refs@.len(),
        forall|i: int|
            0 <= i < refs@.len() ==> image_view(#[trigger] r@[i]) == (ImageView {
                url: Some(comfy_url_spec(base_url@, refs@[i])),
                data: None,
                revised_prompt: None,
                width: w,
                height: h,
                seed: Some(seed),
            }),
{
    let mut out: Vec<GeneratedImage> = Vec::new();
    let mut i: usize = 0;
    while i < refs.len()
        invariant
            i <= refs@.len(),
            out@.len() == i,
            forall|k: int|
                0 <= k < i ==> image_view(#[trigger] out@[k]) == (ImageView {
                    url: Some(comfy_url_spec(base_url@, refs@[k])),
                    data: None,
                    revised_prompt: None,
                    width: w,
                    height: h,
                    seed: Some(seed),
                }),
        decreases refs@.len() - i,
    {
        let g = GeneratedImage {
            url: Some(comfy_image_url(base_url, &refs[i])),
            data: None,
            revised_prompt: None,
            width: w,
            height: h,
            seed: Some(seed),
        };
        out.push(g);
        i = i + 1;
    }
    out
}

/// A moment in time.
#[verifier::external_type_specification]
#[verifier::external_body]
pub struct ExSystemTime(std::time::SystemTime);

/// `SystemTime::now()`.
#[verifier::external_body]
fn system_now() -> (r: std::time::SystemTime) {
    std::time::SystemTime::now()
}

/// `t.duration_since(UNIX_EPOCH)`, the error dropped: `None` for a time
/// before the epoch.
#[verifier::external_body]
fn since_epoch(t: &std::time::SystemTime) -> (r: Option<std::time::Duration>) {
    t.duration_since(std::time::UNIX_EPOCH).ok()
}

/// `d.subsec_nanos()`: the fractional part of the span in nanoseconds,
/// which std documents as less than one billion.
#[verifier::external_body]
fn subsec_nanos(d: &std::time::Duration) -> (r: u32)
    ensures
        r < 1_000_000_000,
{
    d.subsec_nanos()
}

/// The seed for a clock reading: the nanoseconds within the current
/// second, or 42 when the clock is before the epoch (`None`).
pub fn seed_from_clock(subsec_nanos: Option<u32>) -> (r: u64)
    ensures
        r == match subsec_nanos {
            Some(n) => n as u64,
            None => 42u64,
        },
{
    match subsec_nanos {
        Some(n) => n as u64,
        None => 42,
    }
}

/// A seed from the clock: the nanoseconds within the current second, or 42
/// when the clock is before the epoch.
pub fn time_seed() -> (r: u64)
    ensures
        r == 42 || r < 1_000_000_000,
{
    let now = system_now();
    let nanos = match since_epoch(&now) {
        Some(d) => Some(subsec_nanos(&d)),
        None => None,
    };
    seed_from_clock(nanos)
}

} // verus!
