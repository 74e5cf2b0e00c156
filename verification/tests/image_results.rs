use hyprcollab::image_results::{
    a1111_images, comfy_image_url, comfy_images, fal_images, nonnegative_seeds, openai_images,
    time_seed, ComfyImageRef, FalImage, OpenAiImage,
};
use hyprcollab::streaming::{chunk_to_token, parse_finish_reason, request_model, ChoiceDelta, FinishReason};

#[test]
fn openai_images_decode_base64() {
    let imgs = openai_images(
        vec![
            OpenAiImage { url: Some("http://x/1.png".into()), b64_json: None, revised_prompt: Some("p".into()) },
            OpenAiImage { url: None, b64_json: Some("aGk=".into()), revised_prompt: None },
            OpenAiImage { url: None, b64_json: Some("not base64!".into()), revised_prompt: None },
        ],
        1024,
        1792,
    );
    assert_eq!(imgs.len(), 3);
    assert_eq!(imgs[0].url.as_deref(), Some("http://x/1.png"));
    assert_eq!(imgs[0].revised_prompt.as_deref(), Some("p"));
    assert_eq!(imgs[1].data.as_deref(), Some(&b"hi"[..]));
    assert!(imgs[2].data.is_none());
    assert_eq!((imgs[1].width, imgs[1].height, imgs[1].seed), (1024, 1792, None));
}

#[test]
fn a1111_images_take_nonnegative_seeds_in_order() {
    assert_eq!(nonnegative_seeds(&vec![5, -1, 7]), vec![5, 7]);
    let imgs = a1111_images(&vec!["aGk=".to_string(), "aGk=".to_string(), "aGk=".to_string()], &vec![5, -1, 7], 512, 512);
    let seeds: Vec<Option<u64>> = imgs.iter().map(|g| g.seed).collect();
    assert_eq!(seeds, vec![Some(5), Some(7), None]);
    assert!(imgs.iter().all(|g| g.data.as_deref() == Some(&b"hi"[..]) && g.url.is_none()));
}

#[test]
fn fal_images_keep_sizes() {
    let imgs = fal_images(vec![FalImage { url: "u".into(), width: 3, height: 4 }], Some(9));
    assert_eq!((imgs[0].url.as_deref(), imgs[0].width, imgs[0].height, imgs[0].seed), (Some("u"), 3, 4, Some(9)));
}

#[test]
fn comfy_urls() {
    let r = ComfyImageRef { filename: "a.png".into(), subfolder: None, kind: None };
    assert_eq!(comfy_image_url("http://h", &r), "http://h/view?filename=a.png&subfolder=&type=output");
    let r2 = ComfyImageRef { filename: "b.png".into(), subfolder: Some("s".into()), kind: Some("temp".into()) };
    let imgs = comfy_images(&vec![r, r2], "http://h", 8, 9, 77);
    assert_eq!(imgs[1].url.as_deref(), Some("http://h/view?filename=b.png&subfolder=s&type=temp"));
    assert_eq!(imgs[1].seed, Some(77));
}

#[test]
fn time_seed_is_subsecond() {
    let s = time_seed();
    assert!(s == 42 || s < 1_000_000_000);
}

#[test]
fn chunk_to_token_conversion() {
    assert!(chunk_to_token(None, None).is_none());
    let t = chunk_to_token(Some(ChoiceDelta { content: None, finish_reason: Some("length".into()), tool_calls: vec![] }), None).unwrap();
    assert_eq!((t.delta.as_str(), t.finish_reason), ("", Some(FinishReason::Length)));
    let t = chunk_to_token(Some(ChoiceDelta { content: Some("a".into()), finish_reason: None, tool_calls: vec![] }), None).unwrap();
    assert_eq!((t.delta.as_str(), t.finish_reason), ("a", None));
    assert_eq!(parse_finish_reason(None), FinishReason::Stop);
}

#[test]
fn request_model_defaults() {
    assert_eq!(request_model("base", ""), "base");
    assert_eq!(request_model("base", "other"), "other");
}

#[test]
fn seed_from_clock_uses_nanos_or_42() {
    assert_eq!(hyprcollab::image_results::seed_from_clock(Some(123_456)), 123_456);
    assert_eq!(hyprcollab::image_results::seed_from_clock(None), 42);
}
