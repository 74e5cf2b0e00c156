//! Terminal graphics capabilities, decided from the terminal's environment
//! variables.
use vstd::prelude::*;
use vstd::string::*;
use crate::text::{bytes_of, contains, contains_bytes, str_eq};
use crate::paths::{lowercase, to_lowercase};

verus! {

/// Terminal graphics protocol support.
#[derive(Debug, Clone, Copy, PartialEq, Eq, Structural)]
pub enum GraphicsProtocol {
    /// Kitty terminal graphics protocol (preferred).
    Kitty,
    /// DEC Sixel graphics (fallback).
    Sixel,
    /// No known graphics protocol: a text-only terminal.
    NoGraphics,
}

/// Terminal capability flags.
#[derive(Debug, Clone)]
pub struct TerminalCapabilities {
    pub graphics: GraphicsProtocol,
    pub true_color: bool,
    pub term: String,
    pub colorterm: String,
    /// Estimated terminal width in columns (0 = unknown).
    pub columns: u16,
}

/// `a` contains `b`, compared as UTF-8 bytes (what `str::contains` tests).
pub open spec fn has(a: Seq<char>, b: Seq<char>) -> bool {
    contains(bytes_of(a), bytes_of(b))
}

/// ASCII lowercase of a byte.
pub open spec fn ascii_lower(b: u8) -> u8 {
    if 65 <= b <= 90 {
        (b + 32) as u8
    } else {
        b
    }
}

/// Equal up to ASCII case (what `str::eq_ignore_ascii_case` tests).
pub open spec fn ascii_ci_eq(a: Seq<u8>, b: Seq<u8>) -> bool {
    a.len() == b.len() && forall|i: int| 0 <= i < a.len() ==> ascii_lower(a[i]) == ascii_lower(b[i])
}

/// `a.eq_ignore_ascii_case(b)`.
pub fn eq_ignore_ascii_case(a: &str, b: &str) -> (r: bool)
    ensures
        r == ascii_ci_eq(a.spec_bytes(), b.spec_bytes()),
{
    let x = a.as_bytes();
    let y = b.as_bytes();
    if x.len() != y.len() {
        return false;
    }
    let mut i: usize = 0;
    while i < x.len()
        invariant
            x@ == a.spec_bytes(),
            y@ == b.spec_bytes(),
            x@.len() == y@.len(),
            i <= x@.len(),
            forall|j: int| 0 <= j < i ==> ascii_lower(x@[j]) == ascii_lower(y@[j]),
        decreases x@.len() - i,
    {
        let p = x[i];
        let q = y[i];
        let lp = if 65 <= p && p <= 90 {
            p + 32
        } else {
            p
        };
        let lq = if 65 <= q && q <= 90 {
            q + 32
        } else {
            q
        };
        if lp != lq {
            return false;
        }
        i = i + 1;
    }
    true
}

/// The protocol that the environment variables point to: kitty when `TERM`
/// names it or `TERM_PROGRAM` is `kitty` (in any ASCII case); sixel for
/// mlterm, xterm-like terminals, sixel terminals and iTerm; else none.
pub open spec fn detect_spec(term: Seq<char>, term_program: Seq<char>, mlterm: bool) -> GraphicsProtocol {
    if has(term, "kitty"@) || ascii_ci_eq(bytes_of(term_program), bytes_of("kitty"@)) {
        GraphicsProtocol::Kitty
    } else if mlterm || has(term, "xterm"@) || has(term, "mlterm"@) || has(term, "sixel"@) || has(
        lowercase(term_program),
        "iterm"@,
    ) {
        GraphicsProtocol::Sixel
    } else {
        GraphicsProtocol::NoGraphics
    }
}

/// Which graphics protocol the terminal supports, judged from `TERM`,
/// `TERM_PROGRAM` and whether `MLTERM` is set.
pub fn detect_protocol(term: &str, term_program: &str, mlterm: bool) -> (r: GraphicsProtocol)
    ensures
        r == detect_spec(term@, term_program@, mlterm),
{
    proof {
        reveal_strlit("kitty");
        reveal_strlit("xterm");
        reveal_strlit("mlterm");
        reveal_strlit("sixel");
        reveal_strlit("iterm");
    }
    if contains_bytes(term.as_bytes(), "kitty".as_bytes()) || eq_ignore_ascii_case(
        term_program,
        "kitty",
    ) {
        return GraphicsProtocol::Kitty;
    }
    if mlterm || contains_bytes(term.as_bytes(), "xterm".as_bytes()) || contains_bytes(
        term.as_bytes(),
        "mlterm".as_bytes(),
    ) || contains_bytes(term.as_bytes(), "sixel".as_bytes()) || contains_bytes(
        to_lowercase(term_program).as_str().as_bytes(),
        "iterm".as_bytes(),
    ) {
        return GraphicsProtocol::Sixel;
    }
    GraphicsProtocol::NoGraphics
}

/// Whether `COLORTERM` (lowercased) announces 24-bit colour, or `TERM`
/// names kitty.
pub open spec fn true_color_spec(term: Seq<char>, colorterm: Seq<char>) -> bool {
    lowercase(colorterm) == "truecolor"@ || lowercase(colorterm) == "24bit"@ || has(term, "kitty"@)
}

impl TerminalCapabilities {
    /// Capabilities from the values of `TERM`, `TERM_PROGRAM` and `COLORTERM`
    /// and whether `MLTERM` is set.
    pub fn from_vars(term: String, term_program: &str, colorterm: String, mlterm: bool) -> (r: Self)
        ensures
            r.graphics == detect_spec(term@, term_program@, mlterm),
            r.true_color == true_color_spec(term@, colorterm@),
            r.term@ == term@,
            r.colorterm@ == colorterm@,
            r.columns == 0,
    {
        let graphics = detect_protocol(term.as_str(), term_program, mlterm);
        let lc = to_lowercase(colorterm.as_str());
        proof {
            reveal_strlit("truecolor");
            reveal_strlit("24bit");
            reveal_strlit("kitty");
        }
        let true_color = str_eq(lc.as_str(), "truecolor") || str_eq(lc.as_str(), "24bit")
            || contains_bytes(term.as_str().as_bytes(), "kitty".as_bytes());
        TerminalCapabilities { graphics, true_color, term, colorterm, columns: 0 }
    }

    /// Capabilities with an explicit protocol; true colour exactly for kitty.
    pub fn with_protocol(protocol: GraphicsProtocol) -> (r: Self)
        ensures
            r.graphics == protocol,
            r.true_color == (protocol == GraphicsProtocol::Kitty),
            r.term@.len() == 0,
            r.colorterm@.len() == 0,
            r.columns == 0,
    {
        TerminalCapabilities {
            graphics: protocol,
            true_color: protocol == GraphicsProtocol::Kitty,
            term: String::new(),
            colorterm: String::new(),
            columns: 0,
        }
    }

    /// Whether the kitty protocol is available.
    pub fn supports_kitty(&self) -> (r: bool)
        ensures
            r == (self.graphics == GraphicsProtocol::Kitty),
    {
        self.graphics == GraphicsProtocol::Kitty
    }

    /// Whether sixel graphics are available.
    pub fn supports_sixel(&self) -> (r: bool)
        ensures
            r == (self.graphics == GraphicsProtocol::Sixel),
    {
        self.graphics == GraphicsProtocol::Sixel
    }

    /// Whether any graphics protocol is available.
    pub fn supports_any_graphics(&self) -> (r: bool)
        ensures
            r == (self.graphics != GraphicsProtocol::NoGraphics),
    {
        self.graphics != GraphicsProtocol::NoGraphics
    }
}

impl Default for TerminalCapabilities {
    fn default() -> (r: Self)
        ensures
            r.graphics == GraphicsProtocol::NoGraphics,
            !r.true_color,
            r.term@.len() == 0,
            r.colorterm@.len() == 0,
            r.columns == 0,
    {
        TerminalCapabilities {
            graphics: GraphicsProtocol::NoGraphics,
            true_color: false,
            term: String::new(),
            colorterm: String::new(),
            columns: 0,
        }
    }
}

} // verus!
