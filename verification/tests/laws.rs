use hyprcollab::split::{join_strings, split_str};

#[test]
fn split_then_join_gives_text_back() {
    for (t, sep) in [("a,b,,c", ","), ("", ","), ("x--y--", "--"), ("héllo wörld", "ö")] {
        let parts: Vec<String> = split_str(t, sep).into_iter().map(|s| s.to_string()).collect();
        assert_eq!(join_strings(&parts, sep), t);
    }
}

#[test]
fn split_keeps_empty_pieces() {
    let parts = split_str("a,,b,", ",");
    assert_eq!(parts, vec!["a", "", "b", ""]);
}
