//! Kitty graphics protocol: PNG bytes as base64 in escape-sequence frames of
//! at most 4096 payload characters each.
use vstd::prelude::*;
use vstd::utf8::*;
use vstd::string::*;
use base64::Engine;
use crate::text::{
    bytes_of, substr, find, find_scan, find_from, matches_at, lemma_ascii_bytes,
    lemma_match_boundaries, lemma_match_start_boundary, lemma_boundary_shift,
};

verus! {

broadcast use {vstd::utf8::encode_utf8_valid_utf8, vstd::utf8::encode_utf8_decode_utf8};

/// Base64 payload characters per frame.
pub const CHUNK_SIZE: usize = 4096;

/// The standard base64 digit for a six-bit value.
pub open spec fn b64_digit(v: int) -> char {
    if v < 26 {
        (65 + v) as char
    } else if v < 52 {
        (71 + v) as char
    } else if v < 62 {
        (v - 4) as char
    } else if v == 62 {
        '+'
    } else {
        '/'
    }
}

/// Padded standard base64 (RFC 4648) of `d`: three bytes become four digits,
/// and a final one or two bytes become two or three digits padded with `=`.
pub open spec fn base64_std(d: Seq<u8>) -> Seq<char>
    decreases d.len(),
{
    if d.len() == 0 {
        seq![]
    } else if d.len() == 1 {
        seq![b64_digit(d[0] as int / 4), b64_digit((d[0] as int % 4) * 16), '=', '=']
    } else if d.len() == 2 {
        seq![
            b64_digit(d[0] as int / 4),
            b64_digit((d[0] as int % 4) * 16 + d[1] as int / 16),
            b64_digit((d[1] as int % 16) * 4),
            '=',
        ]
    } else {
        seq![
            b64_digit(d[0] as int / 4),
            b64_digit((d[0] as int % 4) * 16 + d[1] as int / 16),
            b64_digit((d[1] as int % 16) * 4 + d[2] as int / 64),
            b64_digit(d[2] as int % 64),
        ] + base64_std(d.subrange(3, d.len() as int))
    }
}

/// A character of padded base64 text: a digit or `=`.
pub open spec fn is_b64_char(c: char) -> bool {
    ('A' <= c <= 'Z') || ('a' <= c <= 'z') || ('0' <= c <= '9') || c == '+' || c == '/' || c
        == '='
}

proof fn lemma_b64_digit(v: int)
    requires
        0 <= v < 64,
    ensures
        is_b64_char(b64_digit(v)),
{
}

/// Base64 text consists of digits and padding only.
pub proof fn lemma_base64_chars(d: Seq<u8>)
    ensures
        forall|i: int| 0 <= i < base64_std(d).len() ==> is_b64_char(#[trigger] base64_std(d)[i]),
        d.len() > 0 ==> base64_std(d).len() > 0,
    decreases d.len(),
{
    if d.len() == 0 {
    } else if d.len() == 1 {
        lemma_b64_digit(d[0] as int / 4);
        lemma_b64_digit((d[0] as int % 4) * 16);
    } else if d.len() == 2 {
        lemma_b64_digit(d[0] as int / 4);
        lemma_b64_digit((d[0] as int % 4) * 16 + d[1] as int / 16);
        lemma_b64_digit((d[1] as int % 16) * 4);
    } else {
        lemma_b64_digit(d[0] as int / 4);
        lemma_b64_digit((d[0] as int % 4) * 16 + d[1] as int / 16);
        lemma_b64_digit((d[1] as int % 16) * 4 + d[2] as int / 64);
        lemma_b64_digit(d[2] as int % 64);
        let rest = d.subrange(3, d.len() as int);
        lemma_base64_chars(rest);
        let head = seq![
            b64_digit(d[0] as int / 4),
            b64_digit((d[0] as int % 4) * 16 + d[1] as int / 16),
            b64_digit((d[1] as int % 16) * 4 + d[2] as int / 64),
            b64_digit(d[2] as int % 64),
        ];
        assert forall|i: int| 0 <= i < base64_std(d).len() implies is_b64_char(
            #[trigger] base64_std(d)[i],
        ) by {
            if i >= 4 {
                assert(base64_std(d)[i] == base64_std(rest)[i - 4]);
            } else {
                assert(base64_std(d)[i] == head[i]);
            }
        }
    }
}

/// Base64 text is ASCII.
pub proof fn lemma_base64_ascii(d: Seq<u8>)
    ensures
        is_ascii_chars(base64_std(d)),
{
    lemma_base64_chars(d);
    assert forall|i: int| 0 <= i < base64_std(d).len() implies '\0' <= #[trigger] base64_std(d)[i]
        <= '\u{7f}' by {
        assert(is_b64_char(base64_std(d)[i]));
    }
}

/// `STANDARD.encode(data)`: the padded standard base64 text of the bytes.
#[verifier::external_body]
fn base64_encode(data: &[u8]) -> (r: String)
    ensures
        r@ == base64_std(data@),
{
    base64::engine::general_purpose::STANDARD.encode(data)
}

/// What `STANDARD.decode` gives for `text`: the bytes, or `None` where it
/// reports an error.
pub uninterp spec fn base64_decoding(text: Seq<char>) -> Option<Seq<u8>>;

/// The bytes of an optional vector.
pub open spec fn opt_bytes(o: Option<Vec<u8>>) -> Option<Seq<u8>> {
    match o {
        Some(v) => Some(v@),
        None => None,
    }
}

/// `STANDARD.decode(text)`, the error dropped.  Decoding the crate's own
/// encoding of some bytes gives those bytes back.
#[verifier::external_body]
pub(crate) fn base64_decode(text: &str) -> (r: Option<Vec<u8>>)
    ensures
        opt_bytes(r) == base64_decoding(text@),
        forall|d: Seq<u8>| #[trigger] base64_std(d) == text@ ==> opt_bytes(r) == Some(d),
{
    base64::engine::general_purpose::STANDARD.decode(text).ok()
}

/// The frames for payload characters `i..` of `enc`: the first frame also
/// announces a PNG transmission; `m=1` marks every frame but the last.
pub open spec fn kitty_frames(enc: Seq<char>, i: int) -> Seq<char>
    decreases enc.len() - i,
{
    if i < 0 || i >= enc.len() {
        seq![]
    } else {
        let j = if i + 4096 < enc.len() {
            i + 4096
        } else {
            enc.len() as int
        };
        let more = if j >= enc.len() {
            "0"@
        } else {
            "1"@
        };
        let head = if i == 0 {
            "\x1b_Ga=T,f=100,q=1,m="@
        } else {
            "\x1b_Gm="@
        };
        head + more + ";"@ + enc.subrange(i, j) + "\x1b\\"@ + kitty_frames(enc, j)
    }
}

/// What `encode_kitty` gives for `png`.
pub open spec fn kitty_spec(png: Seq<u8>) -> Result<Seq<char>, Seq<char>> {
    if png.len() == 0 {
        Err("empty PNG data"@)
    } else {
        Ok(kitty_frames(base64_std(png), 0))
    }
}

/// Abstract value of a text or an error text.
pub open spec fn text_result(r: Result<String, String>) -> Result<Seq<char>, Seq<char>> {
    match r {
        Ok(s) => Ok(s@),
        Err(m) => Err(m@),
    }
}

/// In ASCII text every position is a character boundary, and a slice of the
/// bytes is the slice of the characters.
pub proof fn lemma_ascii_slice(s: Seq<char>, i: int, j: int)
    requires
        is_ascii_chars(s),
        0 <= i <= j <= s.len(),
    ensures
        bytes_of(s).len() == s.len(),
        is_char_boundary(bytes_of(s), i),
        is_char_boundary(bytes_of(s), j),
        decode_utf8(bytes_of(s).subrange(i, j)) == s.subrange(i, j),
{
    lemma_ascii_bytes(s);
    let b = bytes_of(s);
    is_char_boundary_start_end_of_seq(b);
    if i < s.len() {
        is_char_boundary_iff_not_is_continuation_byte(b, i);
    }
    if j < s.len() {
        is_char_boundary_iff_not_is_continuation_byte(b, j);
    }
    let sub = s.subrange(i, j);
    assert(is_ascii_chars(sub));
    lemma_ascii_bytes(sub);
    assert(b.subrange(i, j) =~= bytes_of(sub));
}

/// Encodes PNG bytes as kitty graphics escape sequences: the base64 text in
/// frames of at most 4096 characters, the first announcing a PNG
/// transmission and each but the last flagged `m=1`.  Empty input is an
/// error.
pub fn encode_kitty(png_bytes: &[u8]) -> (r: Result<String, String>)
    ensures
        text_result(r) == kitty_spec(png_bytes@),
{
    if png_bytes.len() == 0 {
        proof {
            reveal_strlit("empty PNG data");
        }
        return Err(String::from_str("empty PNG data"));
    }
    let enc = base64_encode(png_bytes);
    let ghost e = enc@;
    proof {
        lemma_base64_ascii(png_bytes@);
        lemma_ascii_slice(e, 0, 0);
        reveal_strlit("0");
        reveal_strlit("1");
        reveal_strlit(";");
        reveal_strlit("\x1b_Ga=T,f=100,q=1,m=");
        reveal_strlit("\x1b_Gm=");
        reveal_strlit("\x1b\\");
    }
    let s = enc.as_str();
    let n = s.as_bytes().len();
    let mut out = String::new();
    let mut i: usize = 0;
    while i < n
        invariant
            e == s@,
            is_ascii_chars(e),
            n == e.len(),
            n == s.spec_bytes().len(),
            s.spec_bytes() == bytes_of(e),
            i <= n,
            kitty_frames(e, 0) == out@ + kitty_frames(e, i as int),
        decreases n - i,
    {
        let j = if n - i > CHUNK_SIZE {
            i + CHUNK_SIZE
        } else {
            n
        };
        proof {
            lemma_ascii_slice(e, i as int, j as int);
        }
        let chunk = substr(s, i, j);
        let ghost before = out@;
        if i == 0 {
            out.append("\x1b_Ga=T,f=100,q=1,m=");
        } else {
            out.append("\x1b_Gm=");
        }
        if j >= n {
            out.append("0");
        } else {
            out.append("1");
        }
        out.append(";");
        out.append(chunk);
        out.append("\x1b\\");
        proof {
            assert(chunk@ == e.subrange(i as int, j as int));
            assert(out@ + kitty_frames(e, j as int) =~= before + kitty_frames(e, i as int));
        }
        i = j;
    }
    proof {
        assert(out@ =~= kitty_frames(e, 0));
    }
    Ok(out)
}

/// The base64 text of the first kitty frame in `t`: what lies between the
/// first `;` and the first `ESC \` after the first `ESC _ G`, when the `;`
/// comes first.
pub open spec fn payload_text(t: Seq<u8>) -> Option<Seq<u8>> {
    match find(t, bytes_of("\x1b_G"@)) {
        None => None,
        Some(start) => {
            let after = t.subrange(start + 3, t.len() as int);
            match find(after, bytes_of(";"@)) {
                None => None,
                Some(semi) => match find(after, bytes_of("\x1b\\"@)) {
                    None => None,
                    Some(end) => if end <= semi + 1 {
                        None
                    } else {
                        Some(after.subrange(semi + 1, end))
                    },
                },
            }
        },
    }
}

/// What `extract_payload` gives for `t`.
pub open spec fn extract_spec(t: Seq<u8>) -> Option<Seq<u8>> {
    match payload_text(t) {
        None => None,
        Some(p) => base64_decoding(decode_utf8(p)),
    }
}

/// Decodes the base64 payload of the first kitty frame in `seq`.
pub fn extract_payload(seq: &str) -> (r: Option<Vec<u8>>)
    ensures
        opt_bytes(r) == extract_spec(seq.spec_bytes()),
        forall|d: Seq<u8>|
            #[trigger] payload_text(seq.spec_bytes()) == Some(bytes_of(base64_std(d))) ==> opt_bytes(
                r,
            ) == Some(d),
{
    let esc_g = "\x1b_G";
    let semi_pat = ";";
    let st = "\x1b\\";
    proof {
        reveal_strlit("\x1b_G");
        reveal_strlit(";");
        reveal_strlit("\x1b\\");
        lemma_ascii_bytes(esc_g@);
        lemma_ascii_bytes(semi_pat@);
        lemma_ascii_bytes(st@);
        is_char_boundary_start_end_of_seq(seq.spec_bytes());
        assert(esc_g.spec_bytes().len() == 3);
    }
    let t = seq.as_bytes();
    let g = esc_g.as_bytes();
    assert(g@.len() == 3);
    let tl = t.len();
    let start = match find_from(t, g, 0) {
        Some(k) => k,
        None => {
            return None;
        },
    };
    proof {
        lemma_match_start_boundary(t@, start as int, esc_g.spec_bytes());
        lemma_match_boundaries(t@, start as int, esc_g.spec_bytes());
        lemma_boundary_shift(t@, start + 3, t@.len() as int);
    }
    let after = substr(seq, start + 3, tl);
    let a = after.as_bytes();
    proof {
        assert(a@ == t@.subrange(start + 3, t@.len() as int));
        is_char_boundary_start_end_of_seq(a@);
    }
    let semi = match find_from(a, semi_pat.as_bytes(), 0) {
        Some(k) => k,
        None => {
            return None;
        },
    };
    let end = match find_from(a, st.as_bytes(), 0) {
        Some(k) => k,
        None => {
            return None;
        },
    };
    if end <= semi + 1 {
        return None;
    }
    proof {
        lemma_match_start_boundary(a@, semi as int, semi_pat.spec_bytes());
        lemma_match_boundaries(a@, semi as int, semi_pat.spec_bytes());
        lemma_match_start_boundary(a@, end as int, st.spec_bytes());
    }
    let b64 = substr(after, semi + 1, end);
    proof {
        assert forall|d: Seq<u8>| #[trigger]
            payload_text(seq.spec_bytes()) == Some(bytes_of(base64_std(d))) implies b64@
            == base64_std(d) by {
            assert(b64.spec_bytes() == bytes_of(base64_std(d)));
        }
    }
    base64_decode(b64)
}

/// Kitty frames of ASCII text are ASCII.
proof fn lemma_frames_ascii(e: Seq<char>, i: int)
    requires
        is_ascii_chars(e),
    ensures
        is_ascii_chars(kitty_frames(e, i)),
    decreases e.len() - i,
{
    reveal_strlit("0");
    reveal_strlit("1");
    reveal_strlit(";");
    reveal_strlit("\x1b_Ga=T,f=100,q=1,m=");
    reveal_strlit("\x1b_Gm=");
    reveal_strlit("\x1b\\");
    if 0 <= i < e.len() {
        let j = if i + 4096 < e.len() {
            i + 4096
        } else {
            e.len() as int
        };
        lemma_frames_ascii(e, j);
        let f = kitty_frames(e, i);
        let more = if j >= e.len() {
            "0"@
        } else {
            "1"@
        };
        let head = if i == 0 {
            "\x1b_Ga=T,f=100,q=1,m="@
        } else {
            "\x1b_Gm="@
        };
        let sub = e.subrange(i, j);
        let tail = kitty_frames(e, j);
        assert(f == head + more + ";"@ + sub + "\x1b\\"@ + tail);
        assert forall|k: int| 0 <= k < f.len() implies '\0' <= #[trigger] f[k] <= '\u{7f}' by {
            let a = head.len() + 1 + 1;
            if k < head.len() {
                assert(f[k] == head[k]);
            } else if k < a {
            } else if k < a + sub.len() {
                assert(f[k] == sub[k - a]);
                assert(sub[k - a] == e[i + k - a]);
            } else if k < a + sub.len() + 2 {
            } else {
                assert(f[k] == tail[k - a - sub.len() - 2]);
            }
        }
    }
}

/// Past `ESC _ G`, the first frame's header holds neither `;` nor `ESC`.
proof fn lemma_header_chars()
    ensures
        forall|m: int|
            3 <= m < 19 ==> #[trigger] "\x1b_Ga=T,f=100,q=1,m="@[m] != ';'
                && "\x1b_Ga=T,f=100,q=1,m="@[m] != '\x1b',
{
    reveal_strlit("\x1b_Ga=T,f=100,q=1,m=");
    let h = "\x1b_Ga=T,f=100,q=1,m="@;
    assert forall|m: int| 3 <= m < 19 implies #[trigger] h[m] != ';' && h[m] != '\x1b' by {
        if m == 3 {
            assert(h[3] == 'a');
        } else if m == 4 {
            assert(h[4] == '=');
        } else if m == 5 {
            assert(h[5] == 'T');
        } else if m == 6 {
            assert(h[6] == ',');
        } else if m == 7 {
            assert(h[7] == 'f');
        } else if m == 8 {
            assert(h[8] == '=');
        } else if m == 9 {
            assert(h[9] == '1');
        } else if m == 10 {
            assert(h[10] == '0');
        } else if m == 11 {
            assert(h[11] == '0');
        } else if m == 12 {
            assert(h[12] == ',');
        } else if m == 13 {
            assert(h[13] == 'q');
        } else if m == 14 {
            assert(h[14] == '=');
        } else if m == 15 {
            assert(h[15] == '1');
        } else if m == 16 {
            assert(h[16] == ',');
        } else if m == 17 {
            assert(h[17] == 'm');
        } else if m == 18 {
            assert(h[18] == '=');
        }
    }
}

/// The payload of the first frame of a kitty encoding is the start of the
/// PNG's base64 text: all of it when it fits in one frame of 4096
/// characters.
pub proof fn law_first_frame_payload(png: Seq<u8>)
    requires
        png.len() > 0,
    ensures
        payload_text(bytes_of(kitty_frames(base64_std(png), 0))) == Some(
            bytes_of(
                base64_std(png).subrange(
                    0,
                    if base64_std(png).len() > 4096 {
                        4096
                    } else {
                        base64_std(png).len() as int
                    },
                ),
            ),
        ),
{
    reveal_strlit("0");
    reveal_strlit("1");
    reveal_strlit(";");
    reveal_strlit("\x1b_Ga=T,f=100,q=1,m=");
    reveal_strlit("\x1b\\");
    reveal_strlit("\x1b_G");
    let e = base64_std(png);
    lemma_base64_chars(png);
    lemma_base64_ascii(png);
    lemma_header_chars();
    let j: int = if e.len() > 4096 {
        4096
    } else {
        e.len() as int
    };
    let f = kitty_frames(e, 0);
    let head = "\x1b_Ga=T,f=100,q=1,m="@;
    let more = if j >= e.len() {
        "0"@
    } else {
        "1"@
    };
    let sub = e.subrange(0, j);
    let tail = kitty_frames(e, j);
    assert(f == head + more + ";"@ + sub + "\x1b\\"@ + tail);
    lemma_frames_ascii(e, 0);
    lemma_ascii_bytes(f);
    let t = bytes_of(f);
    assert(head.len() == 19);
    // the frame starts with ESC _ G
    let g = bytes_of("\x1b_G"@);
    lemma_ascii_bytes("\x1b_G"@);
    assert(t.subrange(0, 3) =~= g) by {
        assert(f[0] == '\x1b');
        assert(f[1] == '_');
        assert(f[2] == 'G');
    }
    assert(find(t, g) == Some(0int));
    let after = t.subrange(3, t.len() as int);
    // the first ';' after it is the one ending the header
    let sc = bytes_of(";"@);
    lemma_ascii_bytes(";"@);
    assert(sc =~= seq![59u8]);
    assert(matches_at(after, sc, 17)) by {
        assert(f[20] == ';');
        assert(after.subrange(17, 18) =~= sc);
    }
    assert forall|k: int| 0 <= k < 17 implies !#[trigger] matches_at(after, sc, k) by {
        assert(after[k] == t[k + 3]);
        if k + 3 < 19 {
            assert(f[k + 3] == head[k + 3]);
            assert(head[k + 3] != ';');
        } else {
            assert(f[19] == more[0]);
        }
        if matches_at(after, sc, k) {
            assert(after.subrange(k, k + 1)[0] == sc[0]);
        }
    }
    crate::text::lemma_find_scan_found(after, sc, 0, 17);
    // the first ESC \ ends the payload
    let stb = bytes_of("\x1b\\"@);
    lemma_ascii_bytes("\x1b\\"@);
    assert(stb =~= seq![27u8, 92u8]);
    assert(matches_at(after, stb, 18 + j)) by {
        assert(f[21 + j] == '\x1b');
        assert(f[22 + j] == '\\');
        assert(after.subrange(18 + j, 20 + j) =~= stb);
    }
    assert forall|k: int| 0 <= k < 18 + j implies !#[trigger] matches_at(after, stb, k) by {
        assert(after[k] == t[k + 3]);
        if k + 3 < 19 {
            assert(f[k + 3] == head[k + 3]);
            assert(head[k + 3] != '\x1b');
        } else if k + 3 < 21 {
        } else {
            assert(f[k + 3] == sub[k - 18]);
            assert(is_b64_char(e[k - 18]));
        }
        if matches_at(after, stb, k) {
            assert(after.subrange(k, k + 2)[0] == stb[0]);
        }
    }
    crate::text::lemma_find_scan_found(after, stb, 0, 18 + j);
    assert(j > 0);
    // the payload is the base64 text of the frame
    assert(is_ascii_chars(sub));
    lemma_ascii_bytes(sub);
    assert(after.subrange(18, 18 + j) =~= bytes_of(sub)) by {
        assert forall|k: int| 0 <= k < j implies after.subrange(18, 18 + j)[k] == bytes_of(sub)[k] by {
            assert(f[21 + k] == sub[k]);
        }
    }
}

} // verus!
