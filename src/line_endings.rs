//! Line ending detection and normalization.
use vstd::prelude::*;

use crate::text::{push_char, scalars};

verus! {

broadcast use vstd::string::group_string_axioms;

/// Line ending styles.
#[derive(Debug, Clone, Copy, PartialEq, Eq, Structural)]
pub enum LineEndingStyle {
    /// Unix, Linux and macOS: `\n`
    Lf,
    /// Windows: `\r\n`
    Crlf,
    /// Classic Mac OS: `\r`
    Cr,
}

/// The characters that a style writes at the end of a line.
pub open spec fn style_text(style: LineEndingStyle) -> Seq<char> {
    match style {
        LineEndingStyle::Lf => seq!['\n'],
        LineEndingStyle::Crlf => seq!['\r', '\n'],
        LineEndingStyle::Cr => seq!['\r'],
    }
}

/// Relies on `std::path::MAIN_SEPARATOR`, the platform's path separator:
/// a backslash on Windows only.
#[verifier::external_body]
fn main_separator() -> (r: char) {
    std::path::MAIN_SEPARATOR
}

impl LineEndingStyle {
    /// The characters of this line ending.
    pub fn as_str(&self) -> (r: &'static str)
        ensures
            r@ == style_text(*self),
    {
        match self {
            LineEndingStyle::Lf => {
                proof {
                    reveal_strlit("\n");
                }
                "\n"
            },
            LineEndingStyle::Crlf => {
                proof {
                    reveal_strlit("\r\n");
                }
                "\r\n"
            },
            LineEndingStyle::Cr => {
                proof {
                    reveal_strlit("\r");
                }
                "\r"
            },
        }
    }

    /// The platform's own style: CRLF on Windows, LF elsewhere.
    pub fn platform_default() -> (r: Self)
        ensures
            r == LineEndingStyle::Lf || r == LineEndingStyle::Crlf,
    {
        if main_separator() == '\\' {
            LineEndingStyle::Crlf
        } else {
            LineEndingStyle::Lf
        }
    }
}

/// Style of the first line ending in `s`, if it has one.
pub open spec fn first_line_ending(s: Seq<char>) -> Option<LineEndingStyle>
    decreases s.len(),
{
    if s.len() == 0 {
        None
    } else if s[0] == '\r' {
        if s.len() > 1 && s[1] == '\n' {
            Some(LineEndingStyle::Crlf)
        } else {
            Some(LineEndingStyle::Cr)
        }
    } else if s[0] == '\n' {
        Some(LineEndingStyle::Lf)
    } else {
        first_line_ending(s.drop_first())
    }
}

/// Detects the line ending style of `content` from its first line ending;
/// content without one gets the platform's default style.
pub fn detect_line_ending(content: &str) -> (r: LineEndingStyle)
    ensures
        first_line_ending(content@) matches Some(style) ==> r == style,
        first_line_ending(content@) is None ==> (r == LineEndingStyle::Lf || r
            == LineEndingStyle::Crlf),
{
    let chars = scalars(content);
    let n = chars.len();
    let mut i: usize = 0;
    assert(chars@.skip(0) =~= chars@);
    while i < n
        invariant
            n == chars@.len(),
            chars@ == content@,
            i <= n,
            first_line_ending(chars@.skip(i as int)) == first_line_ending(content@),
        decreases n - i,
    {
        let ghost rest = chars@.skip(i as int);
        if chars[i] == '\r' {
            if i + 1 < n && chars[i + 1] == '\n' {
                return LineEndingStyle::Crlf;
            }
            return LineEndingStyle::Cr;
        }
        if chars[i] == '\n' {
            return LineEndingStyle::Lf;
        }
        proof {
            assert(rest.drop_first() =~= chars@.skip(i + 1));
        }
        i = i + 1;
    }
    proof {
        assert(chars@.skip(i as int).len() == 0);
    }
    LineEndingStyle::platform_default()
}

/// `s` with every CRLF, lone CR and LF written as `nl`.
pub open spec fn with_line_endings(s: Seq<char>, nl: Seq<char>) -> Seq<char>
    decreases s.len(),
{
    if s.len() == 0 {
        Seq::empty()
    } else if s[0] == '\r' && s.len() > 1 && s[1] == '\n' {
        nl + with_line_endings(s.skip(2), nl)
    } else if s[0] == '\r' || s[0] == '\n' {
        nl + with_line_endings(s.drop_first(), nl)
    } else {
        seq![s[0]] + with_line_endings(s.drop_first(), nl)
    }
}

/// Rewrites every line ending of `text` (CRLF, lone CR or LF) in the
/// `target` style.
pub fn normalize_line_endings(text: &str, target: LineEndingStyle) -> (r: String)
    ensures
        r@ == with_line_endings(text@, style_text(target)),
{
    let chars = scalars(text);
    let nl = target.as_str();
    let n = chars.len();
    let mut out = String::new();
    let mut i: usize = 0;
    assert(chars@.skip(0) =~= chars@);
    assert(out@ + with_line_endings(chars@, nl@) =~= with_line_endings(chars@, nl@));
    while i < n
        invariant
            n == chars@.len(),
            chars@ == text@,
            nl@ == style_text(target),
            i <= n,
            out@ + with_line_endings(chars@.skip(i as int), nl@) == with_line_endings(text@, nl@),
        decreases n - i,
    {
        let ghost rest = chars@.skip(i as int);
        let ghost before = out@;
        if chars[i] == '\r' && i + 1 < n && chars[i + 1] == '\n' {
            out.append(nl);
            proof {
                assert(rest.skip(2) =~= chars@.skip(i + 2));
                assert(before + (nl@ + with_line_endings(rest.skip(2), nl@)) =~= out@
                    + with_line_endings(chars@.skip(i + 2), nl@));
            }
            i = i + 2;
        } else if chars[i] == '\r' || chars[i] == '\n' {
            out.append(nl);
            proof {
                assert(rest.drop_first() =~= chars@.skip(i + 1));
                assert(before + (nl@ + with_line_endings(rest.drop_first(), nl@)) =~= out@
                    + with_line_endings(chars@.skip(i + 1), nl@));
            }
            i = i + 1;
        } else {
            push_char(&mut out, chars[i]);
            proof {
                assert(rest.drop_first() =~= chars@.skip(i + 1));
                assert(before + (seq![rest[0]] + with_line_endings(rest.drop_first(), nl@))
                    =~= out@ + with_line_endings(chars@.skip(i + 1), nl@));
            }
            i = i + 1;
        }
    }
    proof {
        assert(chars@.skip(i as int).len() == 0);
        assert(out@ + with_line_endings(chars@.skip(i as int), nl@) =~= out@);
    }
    out
}

/// Analysis of the line endings of a text.
#[derive(Debug, Clone, PartialEq, Eq, Structural)]
pub struct LineEndingAnalysis {
    /// Predominant style (majority wins)
    pub style: LineEndingStyle,
    /// Total line ending count
    pub total_count: usize,
    /// Whether more than one style is present
    pub has_mixed: bool,
    /// CRLF count
    pub crlf_count: usize,
    /// LF count
    pub lf_count: usize,
    /// CR count
    pub cr_count: usize,
}

/// Numbers of CRLF, lone LF and lone CR line endings in `s`.
pub open spec fn line_ending_counts(s: Seq<char>) -> (nat, nat, nat)
    decreases s.len(),
{
    if s.len() == 0 {
        (0, 0, 0)
    } else if s[0] == '\r' && s.len() > 1 && s[1] == '\n' {
        let c = line_ending_counts(s.skip(2));
        (c.0 + 1, c.1, c.2)
    } else if s[0] == '\n' {
        let c = line_ending_counts(s.drop_first());
        (c.0, c.1 + 1, c.2)
    } else if s[0] == '\r' {
        let c = line_ending_counts(s.drop_first());
        (c.0, c.1, c.2 + 1)
    } else {
        line_ending_counts(s.drop_first())
    }
}

/// The style with the most line endings; ties go to CRLF, then LF.
pub open spec fn predominant(crlf: nat, lf: nat, cr: nat) -> LineEndingStyle {
    if crlf >= lf && crlf >= cr {
        LineEndingStyle::Crlf
    } else if lf >= cr {
        LineEndingStyle::Lf
    } else {
        LineEndingStyle::Cr
    }
}

/// Counts the line endings of `content` by style, over the whole text.
pub fn analyze_line_endings(content: &str) -> (r: LineEndingAnalysis)
    ensures
        (r.crlf_count as nat, r.lf_count as nat, r.cr_count as nat) == line_ending_counts(
            content@,
        ),
        r.total_count == r.crlf_count + r.lf_count + r.cr_count,
        r.style == predominant(r.crlf_count as nat, r.lf_count as nat, r.cr_count as nat),
        r.has_mixed == ((if r.crlf_count > 0 {
            1int
        } else {
            0int
        }) + (if r.lf_count > 0 {
            1int
        } else {
            0int
        }) + (if r.cr_count > 0 {
            1int
        } else {
            0int
        }) > 1),
{
    let chars = scalars(content);
    let n = chars.len();
    let mut crlf_count: usize = 0;
    let mut lf_count: usize = 0;
    let mut cr_count: usize = 0;
    let mut i: usize = 0;
    assert(chars@.skip(0) =~= chars@);
    while i < n
        invariant
            n == chars@.len(),
            chars@ == content@,
            i <= n,
            crlf_count + lf_count + cr_count <= i,
            ({
                let c = line_ending_counts(chars@.skip(i as int));
                ((crlf_count + c.0) as nat, (lf_count + c.1) as nat, (cr_count + c.2) as nat)
            }) == line_ending_counts(content@),
        decreases n - i,
    {
        let ghost rest = chars@.skip(i as int);
        if chars[i] == '\r' && i + 1 < n && chars[i + 1] == '\n' {
            proof {
                assert(rest.skip(2) =~= chars@.skip(i + 2));
            }
            crlf_count = crlf_count + 1;
            i = i + 2;
        } else if chars[i] == '\n' {
            proof {
                assert(rest.drop_first() =~= chars@.skip(i + 1));
            }
            lf_count = lf_count + 1;
            i = i + 1;
        } else if chars[i] == '\r' {
            proof {
                assert(rest.drop_first() =~= chars@.skip(i + 1));
            }
            cr_count = cr_count + 1;
            i = i + 1;
        } else {
            proof {
                assert(rest.drop_first() =~= chars@.skip(i + 1));
            }
            i = i + 1;
        }
    }
    proof {
        assert(chars@.skip(i as int).len() == 0);
    }
    let style = if crlf_count >= lf_count && crlf_count >= cr_count {
        LineEndingStyle::Crlf
    } else if lf_count >= cr_count {
        LineEndingStyle::Lf
    } else {
        LineEndingStyle::Cr
    };
    let mut used: usize = 0;
    if crlf_count > 0 {
        used = used + 1;
    }
    if lf_count > 0 {
        used = used + 1;
    }
    if cr_count > 0 {
        used = used + 1;
    }
    LineEndingAnalysis {
        style,
        total_count: crlf_count + lf_count + cr_count,
        has_mixed: used > 1,
        crlf_count,
        lf_count,
        cr_count,
    }
}

} // verus!
