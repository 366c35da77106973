//! Character-level analysis of the difference between an expected and an
//! actual string: where they differ, and which characters make the
//! difference.
use vstd::prelude::*;

use crate::char_diff::{is_boundary_pair, lemma_boundary_pair_unique, CharDiff};
use crate::text::{
    decimal, push_char, push_radix, radix_digits, same_scalars, scalar_len, scalars, substring,
};
use unicode_normalization::UnicodeNormalization;

verus! {

/// Common prefix and suffix lengths of two strings, in scalar values. The
/// suffix is looked for only in what the prefix leaves, so the two never
/// overlap; equal strings give `(length, 0)`.
pub fn find_common_boundaries(a: &str, b: &str) -> (r: (usize, usize))
    ensures
        is_boundary_pair(a@, b@, r.0 as nat, r.1 as nat),
        a@ == b@ ==> r == (a@.len() as usize, 0usize),
{
    let a_chars = scalars(a);
    let b_chars = scalars(b);
    let prefix_len = CharDiff::find_common_prefix(&a_chars, &b_chars);
    let suffix_len = CharDiff::find_common_suffix(&a_chars, &b_chars, prefix_len);
    proof {
        if a@ == b@ {
            assert(a@.skip(a@.len() as int) =~= b@.skip(b@.len() as int));
            lemma_boundary_pair_unique(
                a@,
                b@,
                prefix_len as nat,
                suffix_len as nat,
                a@.len(),
                0,
            );
        }
    }
    (prefix_len, suffix_len)
}

/// Number of positions of `s` that hold the character with code `code`.
pub open spec fn occurrences(s: Seq<char>, code: u32) -> nat
    decreases s.len(),
{
    if s.len() == 0 {
        0
    } else {
        occurrences(s.drop_last(), code) + if s.last() as u32 == code {
            1nat
        } else {
            0nat
        }
    }
}

proof fn lemma_occurrences_bound(s: Seq<char>, code: u32)
    ensures
        occurrences(s, code) <= s.len(),
    decreases s.len(),
{
    if s.len() > 0 {
        lemma_occurrences_bound(s.drop_last(), code);
    }
}

/// Whether some entry of the tally `v` is for `code`.
pub open spec fn listed(v: Seq<(u32, usize)>, code: u32) -> bool {
    exists|i: int| 0 <= i < v.len() && v[i].0 == code
}

/// `v` lists each character code of `s` once, in ascending order, with the
/// number of its occurrences.
pub open spec fn is_tally_of(v: Seq<(u32, usize)>, s: Seq<char>) -> bool {
    &&& forall|i: int, j: int| 0 <= i < j < v.len() ==> v[i].0 < v[j].0
    &&& forall|i: int| 0 <= i < v.len() ==> v[i].1 > 0 && v[i].1 == occurrences(s, v[i].0)
    &&& forall|code: u32| occurrences(s, code) > 0 ==> #[trigger] listed(v, code)
}

/// Counts how often each character code occurs in `s`; codes ascend.
pub fn count_chars(s: &str) -> (r: Vec<(u32, usize)>)
    ensures
        is_tally_of(r@, s@),
{
    let chars = scalars(s);
    tally(&chars)
}

fn tally(chars: &Vec<char>) -> (r: Vec<(u32, usize)>)
    ensures
        is_tally_of(r@, chars@),
{
    let mut v: Vec<(u32, usize)> = Vec::new();
    let mut k: usize = 0;
    proof {
        assert forall|code: u32| occurrences(chars@.take(0), code) > 0 implies #[trigger] listed(
            v@,
            code,
        ) by {
            assert(chars@.take(0).len() == 0);
        }
    }
    while k < chars.len()
        invariant
            k <= chars@.len(),
            is_tally_of(v@, chars@.take(k as int)),
        decreases chars@.len() - k,
    {
        let ghost old_v = v@;
        let ghost before = chars@.take(k as int);
        let ghost after = chars@.take(k + 1);
        let code = chars[k] as u32;
        proof {
            assert(after.drop_last() =~= before);
            assert(after.last() == chars@[k as int]);
        }
        let mut pos: usize = 0;
        while pos < v.len() && v[pos].0 < code
            invariant
                v@ == old_v,
                pos <= v@.len(),
                forall|i: int| 0 <= i < pos ==> v@[i].0 < code,
            decreases v@.len() - pos,
        {
            pos = pos + 1;
        }
        if pos < v.len() && v[pos].0 == code {
            proof {
                lemma_occurrences_bound(before, code);
            }
            let n = v[pos].1;
            v.set(pos, (code, n + 1));
            proof {
                assert forall|i: int| 0 <= i < v@.len() implies v@[i].1 > 0 && v@[i].1
                    == occurrences(after, v@[i].0) by {
                    if i != pos {
                        assert(v@[i] == old_v[i]);
                    }
                }
                assert forall|c: u32| occurrences(after, c) > 0 implies #[trigger] listed(
                    v@,
                    c,
                ) by {
                    if c == code {
                        assert(v@[pos as int].0 == c);
                    } else {
                        assert(listed(old_v, c));
                        let i = choose|i: int| 0 <= i < old_v.len() && old_v[i].0 == c;
                        assert(v@[i].0 == c);
                    }
                }
            }
        } else {
            proof {
                if occurrences(before, code) > 0 {
                    assert(listed(old_v, code));
                    let i = choose|i: int| 0 <= i < old_v.len() && old_v[i].0 == code;
                    if i < pos {
                    } else if i > pos {
                        assert(old_v[pos as int].0 < old_v[i].0);
                    }
                }
            }
            v.insert(pos, (code, 1));
            proof {
                assert forall|i: int| 0 <= i < v@.len() implies v@[i].1 > 0 && v@[i].1
                    == occurrences(after, v@[i].0) by {
                    if i < pos {
                        assert(v@[i] == old_v[i]);
                    } else if i > pos {
                        assert(v@[i] == old_v[i - 1]);
                        assert(old_v[i - 1].0 != code);
                    }
                }
                assert forall|i: int, j: int| 0 <= i < j < v@.len() implies v@[i].0 < v@[j].0 by {
                    if j < pos {
                    } else if j == pos {
                    } else if i < pos {
                        assert(old_v[i].0 < old_v[pos as int].0 || i == pos);
                    } else if i == pos {
                        assert(old_v[pos as int].0 <= old_v[j - 1].0);
                    }
                }
                assert forall|c: u32| occurrences(after, c) > 0 implies #[trigger] listed(
                    v@,
                    c,
                ) by {
                    if c == code {
                        assert(v@[pos as int].0 == c);
                    } else {
                        assert(listed(old_v, c));
                        let i = choose|i: int| 0 <= i < old_v.len() && old_v[i].0 == c;
                        if i < pos {
                            assert(v@[i].0 == c);
                        } else {
                            assert(v@[i + 1].0 == c);
                        }
                    }
                }
            }
        }
        k = k + 1;
    }
    proof {
        assert(chars@.take(k as int) =~= chars@);
    }
    v
}

/// The count that the tally `v` holds for `code`, zero when it lists none.
pub open spec fn count_in(v: Seq<(u32, usize)>, code: u32) -> nat {
    if listed(v, code) {
        v[choose|i: int| 0 <= i < v.len() && v[i].0 == code].1 as nat
    } else {
        0
    }
}

/// In a tally, the count held for each code is its number of occurrences.
pub proof fn lemma_tally_count(v: Seq<(u32, usize)>, s: Seq<char>, code: u32)
    requires
        is_tally_of(v, s),
    ensures
        count_in(v, code) == occurrences(s, code),
{
    if !listed(v, code) {
        if occurrences(s, code) > 0 {
            assert(listed(v, code));
        }
    }
}

/// Looks up the count held for `code` in a tally.
fn count_of(codes: &Vec<(u32, usize)>, code: u32) -> (r: usize)
    requires
        forall|i: int, j: int| 0 <= i < j < codes@.len() ==> codes@[i].0 < codes@[j].0,
    ensures
        r == count_in(codes@, code),
{
    let mut i: usize = 0;
    while i < codes.len()
        invariant
            i <= codes@.len(),
            forall|a: int, b: int| 0 <= a < b < codes@.len() ==> codes@[a].0 < codes@[b].0,
            forall|k: int| 0 <= k < i ==> codes@[k].0 != code,
        decreases codes@.len() - i,
    {
        if codes[i].0 == code {
            proof {
                assert(listed(codes@, code));
                let j = choose|j: int| 0 <= j < codes@.len() && codes@[j].0 == code;
                if j != i {
                    if j < i {
                    } else {
                        assert(codes@[i as int].0 < codes@[j].0);
                    }
                }
            }
            return codes[i].1;
        }
        i = i + 1;
    }
    0
}

/// Whitespace, line ending, control, printable or other (non-ASCII) codes,
/// numbered 0 to 4 in that order.
pub open spec fn char_kind(code: u32) -> nat {
    if code == 9 || code == 32 || code == 160 {
        0
    } else if code == 10 || code == 13 {
        1
    } else if code <= 31 || code == 127 {
        2
    } else if 33 <= code <= 126 {
        3
    } else {
        4
    }
}

/// The entries of `v` whose code is of kind `kind`, in order.
pub open spec fn of_kind(v: Seq<(u32, usize)>, kind: nat) -> Seq<(u32, usize)>
    decreases v.len(),
{
    if v.len() == 0 {
        Seq::empty()
    } else if char_kind(v.last().0) == kind {
        of_kind(v.drop_last(), kind).push(v.last())
    } else {
        of_kind(v.drop_last(), kind)
    }
}

/// Semantic grouping of character codes with their counts.
#[derive(Debug, Clone, Default)]
pub struct CharCodeClassification {
    /// spaces, tabs, no-break spaces
    pub whitespace: Vec<(u32, usize)>,
    /// CR, LF
    pub line_endings: Vec<(u32, usize)>,
    /// printable ASCII
    pub printable: Vec<(u32, usize)>,
    /// control characters
    pub control: Vec<(u32, usize)>,
    /// everything outside ASCII
    pub unicode: Vec<(u32, usize)>,
}

/// Sorts the entries of a tally into the five kinds, keeping their order.
pub fn classify_characters(codes: &Vec<(u32, usize)>) -> (r: CharCodeClassification)
    ensures
        r.whitespace@ == of_kind(codes@, 0),
        r.line_endings@ == of_kind(codes@, 1),
        r.control@ == of_kind(codes@, 2),
        r.printable@ == of_kind(codes@, 3),
        r.unicode@ == of_kind(codes@, 4),
{
    let mut whitespace: Vec<(u32, usize)> = Vec::new();
    let mut line_endings: Vec<(u32, usize)> = Vec::new();
    let mut printable: Vec<(u32, usize)> = Vec::new();
    let mut control: Vec<(u32, usize)> = Vec::new();
    let mut unicode: Vec<(u32, usize)> = Vec::new();
    let mut i: usize = 0;
    proof {
        assert(codes@.take(0) =~= Seq::<(u32, usize)>::empty());
    }
    while i < codes.len()
        invariant
            i <= codes@.len(),
            whitespace@ == of_kind(codes@.take(i as int), 0),
            line_endings@ == of_kind(codes@.take(i as int), 1),
            control@ == of_kind(codes@.take(i as int), 2),
            printable@ == of_kind(codes@.take(i as int), 3),
            unicode@ == of_kind(codes@.take(i as int), 4),
        decreases codes@.len() - i,
    {
        let entry = codes[i];
        let code = entry.0;
        if code == 9 || code == 32 || code == 160 {
            whitespace.push(entry);
        } else if code == 10 || code == 13 {
            line_endings.push(entry);
        } else if code <= 31 || code == 127 {
            control.push(entry);
        } else if 33 <= code && code <= 126 {
            printable.push(entry);
        } else {
            unicode.push(entry);
        }
        proof {
            let t = codes@.take(i + 1);
            assert(t.drop_last() =~= codes@.take(i as int));
            assert(t.last() == entry);
        }
        i = i + 1;
    }
    proof {
        assert(codes@.take(i as int) =~= codes@);
    }
    CharCodeClassification { whitespace, line_endings, printable, control, unicode }
}

/// Common whitespace and formatting problems.
#[derive(Debug, Clone, Copy, PartialEq, Eq, Structural)]
pub enum WhitespaceIssue {
    /// Tabs and spaces both present
    TabsVsSpaces,
    /// Both CR and LF present
    MixedLineEndings,
    /// More than three spaces
    ExtraSpaces,
    /// Whitespace at the end of a line
    TrailingWhitespace,
}

/// Encoding-related problems.
#[derive(Debug, Clone, Copy, PartialEq, Eq, Structural)]
pub enum EncodingIssue {
    /// A UTF-16 surrogate code
    Utf16Surrogate,
    /// U+FFFD, the replacement character
    ReplacementChar,
    /// U+FEFF, the byte order mark
    ByteOrderMark,
}

/// A line of `s` ends at position `j`: at the end of `s`, before a LF, or
/// before a CRLF.
pub open spec fn line_ends_at(s: Seq<char>, j: int) -> bool {
    j == s.len() || s[j] == '\n' || (j + 1 < s.len() && s[j] == '\r' && s[j + 1] == '\n')
}

/// Some line of `s` ends in a space or a tab.
pub open spec fn has_trailing_whitespace(s: Seq<char>) -> bool {
    exists|i: int| 0 <= i < s.len() && (s[i] == ' ' || s[i] == '\t') && #[trigger] line_ends_at(s, i + 1)
}

fn trailing_whitespace(s: &str) -> (r: bool)
    ensures
        r == has_trailing_whitespace(s@),
{
    let c = scalars(s);
    let n = c.len();
    let mut i: usize = 0;
    while i < n
        invariant
            c@ == s@,
            n == s@.len(),
            i <= n,
            forall|k: int| 0 <= k < i ==> !((s@[k] == ' ' || s@[k] == '\t') && #[trigger] line_ends_at(s@, k + 1)),
        decreases n - i,
    {
        if c[i] == ' ' || c[i] == '\t' {
            if i + 1 == n || c[i + 1] == '\n' || (i + 2 < n && c[i + 1] == '\r' && c[i + 2] == '\n') {
                proof {
                    assert(line_ends_at(s@, i + 1));
                }
                return true;
            }
        }
        i = i + 1;
    }
    false
}

/// The whitespace issues for a tally of differing characters and the two
/// differing parts, in a fixed order.
pub open spec fn whitespace_issues(v: Seq<(u32, usize)>, e: Seq<char>, a: Seq<char>) -> Seq<WhitespaceIssue> {
    (if count_in(v, 9) > 0 && count_in(v, 32) > 0 {
        seq![WhitespaceIssue::TabsVsSpaces]
    } else {
        Seq::empty()
    }) + (if count_in(v, 13) > 0 && count_in(v, 10) > 0 {
        seq![WhitespaceIssue::MixedLineEndings]
    } else {
        Seq::empty()
    }) + (if count_in(v, 32) > 3 {
        seq![WhitespaceIssue::ExtraSpaces]
    } else {
        Seq::empty()
    }) + (if has_trailing_whitespace(e) || has_trailing_whitespace(a) {
        seq![WhitespaceIssue::TrailingWhitespace]
    } else {
        Seq::empty()
    })
}

/// Detects whitespace and formatting issues in the differing characters.
pub fn detect_whitespace_issues(codes: &Vec<(u32, usize)>, expected_diff: &str, actual_diff: &str) -> (r: Vec<WhitespaceIssue>)
    requires
        forall|i: int, j: int| 0 <= i < j < codes@.len() ==> codes@[i].0 < codes@[j].0,
    ensures
        r@ == whitespace_issues(codes@, expected_diff@, actual_diff@),
{
    let mut issues: Vec<WhitespaceIssue> = Vec::new();
    let tabs = count_of(codes, 9);
    let spaces = count_of(codes, 32);
    let crs = count_of(codes, 13);
    let lfs = count_of(codes, 10);
    if tabs > 0 && spaces > 0 {
        issues.push(WhitespaceIssue::TabsVsSpaces);
    }
    if crs > 0 && lfs > 0 {
        issues.push(WhitespaceIssue::MixedLineEndings);
    }
    if spaces > 3 {
        issues.push(WhitespaceIssue::ExtraSpaces);
    }
    if trailing_whitespace(expected_diff) || trailing_whitespace(actual_diff) {
        issues.push(WhitespaceIssue::TrailingWhitespace);
    }
    proof {
        assert(issues@ =~= whitespace_issues(codes@, expected_diff@, actual_diff@));
    }
    issues
}

/// Some entry of the tally is for a UTF-16 surrogate code.
pub open spec fn lists_surrogate(v: Seq<(u32, usize)>) -> bool {
    exists|i: int| 0 <= i < v.len() && 0xD800 <= #[trigger] v[i].0 <= 0xDFFF
}

/// The encoding issues for a tally of differing characters, in a fixed order.
pub open spec fn encoding_issues(v: Seq<(u32, usize)>) -> Seq<EncodingIssue> {
    (if count_in(v, 0xFFFD) > 0 {
        seq![EncodingIssue::ReplacementChar]
    } else {
        Seq::empty()
    }) + (if count_in(v, 0xFEFF) > 0 {
        seq![EncodingIssue::ByteOrderMark]
    } else {
        Seq::empty()
    }) + (if lists_surrogate(v) {
        seq![EncodingIssue::Utf16Surrogate]
    } else {
        Seq::empty()
    })
}

/// Detects encoding issues among the differing characters.
pub fn detect_encoding_issues(codes: &Vec<(u32, usize)>) -> (r: Vec<EncodingIssue>)
    requires
        forall|i: int, j: int| 0 <= i < j < codes@.len() ==> codes@[i].0 < codes@[j].0,
    ensures
        r@ == encoding_issues(codes@),
{
    let mut issues: Vec<EncodingIssue> = Vec::new();
    if count_of(codes, 0xFFFD) > 0 {
        issues.push(EncodingIssue::ReplacementChar);
    }
    if count_of(codes, 0xFEFF) > 0 {
        issues.push(EncodingIssue::ByteOrderMark);
    }
    let mut i: usize = 0;
    let mut surrogate = false;
    while i < codes.len() && !surrogate
        invariant
            i <= codes@.len(),
            surrogate ==> i < codes@.len() && 0xD800 <= codes@[i as int].0 <= 0xDFFF,
            forall|k: int| 0 <= k < i ==> !(0xD800 <= #[trigger] codes@[k].0 <= 0xDFFF),
        decreases codes@.len() - i + if surrogate {
            0int
        } else {
            1int
        },
    {
        if 0xD800 <= codes[i].0 && codes[i].0 <= 0xDFFF {
            surrogate = true;
        } else {
            i = i + 1;
        }
    }
    if surrogate {
        issues.push(EncodingIssue::Utf16Surrogate);
    }
    proof {
        assert(issues@ =~= encoding_issues(codes@));
    }
    issues
}

/// Some zero-width character (ZWSP, ZWNJ, ZWJ or BOM) is in the tally.
pub open spec fn lists_zero_width(v: Seq<(u32, usize)>) -> bool {
    count_in(v, 0x200B) > 0 || count_in(v, 0x200C) > 0 || count_in(v, 0x200D) > 0 || count_in(
        v,
        0xFEFF,
    ) > 0
}

fn has_zero_width(codes: &Vec<(u32, usize)>) -> (r: bool)
    requires
        forall|i: int, j: int| 0 <= i < j < codes@.len() ==> codes@[i].0 < codes@[j].0,
    ensures
        r == lists_zero_width(codes@),
{
    count_of(codes, 0x200B) > 0 || count_of(codes, 0x200C) > 0 || count_of(codes, 0x200D) > 0
        || count_of(codes, 0xFEFF) > 0
}

/// Name for the canonical composition (NFC) of a string.
pub uninterp spec fn nfc_of(s: Seq<char>) -> Seq<char>;

/// Name for the canonical decomposition (NFD) of a string.
pub uninterp spec fn nfd_of(s: Seq<char>) -> Seq<char>;

/// Relies on `UnicodeNormalization::nfc` of unicode-normalization: the
/// string in Normalization Form C, a function of its characters alone.
#[verifier::external_body]
fn to_nfc(s: &str) -> (r: String)
    ensures
        r@ == nfc_of(s@),
{
    s.nfc().collect()
}

/// Relies on `UnicodeNormalization::nfd` of unicode-normalization: the
/// string in Normalization Form D, a function of its characters alone.
#[verifier::external_body]
fn to_nfd(s: &str) -> (r: String)
    ensures
        r@ == nfd_of(s@),
{
    s.nfd().collect()
}

/// Unicode normalization status of the two strings.
#[derive(Debug, Clone)]
pub struct UnicodeAnalysis {
    /// One of the strings is already in composed form (NFC)
    pub has_composed: bool,
    /// One of the strings changes under decomposition (NFD)
    pub has_decomposed: bool,
    /// The strings differ but have the same NFC form
    pub normalization_mismatch: bool,
}

/// Compares the strings with their composed and decomposed forms.
pub fn analyze_unicode(expected: &str, actual: &str) -> (r: UnicodeAnalysis)
    ensures
        r.has_composed == (nfc_of(expected@) == expected@ || nfc_of(actual@) == actual@),
        r.has_decomposed == (nfd_of(expected@) != expected@ || nfd_of(actual@) != actual@),
        r.normalization_mismatch == (nfc_of(expected@) == nfc_of(actual@) && expected@ != actual@),
{
    let exp_nfc = to_nfc(expected);
    let exp_nfd = to_nfd(expected);
    let act_nfc = to_nfc(actual);
    let act_nfd = to_nfd(actual);
    let has_composed = same_scalars(exp_nfc.as_str(), expected) || same_scalars(act_nfc.as_str(), actual);
    let has_decomposed = !same_scalars(exp_nfd.as_str(), expected) || !same_scalars(act_nfd.as_str(), actual);
    let normalization_mismatch = same_scalars(exp_nfc.as_str(), act_nfc.as_str()) && !same_scalars(expected, actual);
    UnicodeAnalysis { has_composed, has_decomposed, normalization_mismatch }
}

/// A string has one tally only.
pub proof fn lemma_tally_unique(v: Seq<(u32, usize)>, w: Seq<(u32, usize)>, s: Seq<char>)
    requires
        is_tally_of(v, s),
        is_tally_of(w, s),
    ensures
        v == w,
{
    lemma_tally_prefix(v, w, s, 0);
}

proof fn lemma_tally_prefix(v: Seq<(u32, usize)>, w: Seq<(u32, usize)>, s: Seq<char>, i: int)
    requires
        is_tally_of(v, s),
        is_tally_of(w, s),
        0 <= i <= v.len(),
        i <= w.len(),
        forall|k: int| 0 <= k < i ==> v[k] == w[k],
    ensures
        v == w,
    decreases v.len() - i,
{
    if i < v.len() && i < w.len() {
        let x = v[i].0;
        let y = w[i].0;
        if x < y {
            assert(listed(w, x));
            let j = choose|j: int| 0 <= j < w.len() && w[j].0 == x;
            if j < i {
                assert(v[j].0 < v[i].0);
            } else if j > i {
                assert(w[i].0 < w[j].0);
            }
        } else if y < x {
            assert(listed(v, y));
            let j = choose|j: int| 0 <= j < v.len() && v[j].0 == y;
            if j < i {
                assert(w[j].0 < w[i].0);
            } else if j > i {
                assert(v[i].0 < v[j].0);
            }
        }
        lemma_tally_prefix(v, w, s, i + 1);
    } else if i < v.len() {
        let x = v[i].0;
        assert(listed(w, x));
        let j = choose|j: int| 0 <= j < w.len() && w[j].0 == x;
        assert(v[j].0 < v[i].0);
    } else if i < w.len() {
        let y = w[i].0;
        assert(listed(v, y));
        let j = choose|j: int| 0 <= j < v.len() && v[j].0 == y;
        assert(w[j].0 < w[i].0);
    } else {
        assert(v =~= w);
    }
}

/// The entries of `v` whose code `w` does not list, in order.
pub open spec fn absent_from(v: Seq<(u32, usize)>, w: Seq<(u32, usize)>) -> Seq<(u32, usize)>
    decreases v.len(),
{
    if v.len() == 0 {
        Seq::empty()
    } else if count_in(w, v.last().0) == 0 {
        absent_from(v.drop_last(), w).push(v.last())
    } else {
        absent_from(v.drop_last(), w)
    }
}

/// The entries of `v` whose code `w` lists too, with both counts, in order.
pub open spec fn shared_with(v: Seq<(u32, usize)>, w: Seq<(u32, usize)>) -> Seq<(u32, usize, usize)>
    decreases v.len(),
{
    if v.len() == 0 {
        Seq::empty()
    } else if count_in(w, v.last().0) > 0 {
        shared_with(v.drop_last(), w).push((v.last().0, v.last().1, count_in(w, v.last().0) as usize))
    } else {
        shared_with(v.drop_last(), w)
    }
}

/// Comparison of the character counts of two strings.
#[derive(Debug, Clone, Default)]
pub struct CharDistribution {
    /// Codes only in the expected string, with their counts
    pub only_in_expected: Vec<(u32, usize)>,
    /// Codes only in the actual string, with their counts
    pub only_in_actual: Vec<(u32, usize)>,
    /// Codes in both, with the expected and the actual count
    pub in_both: Vec<(u32, usize, usize)>,
}

/// `d` compares `ve` and `va`, the tallies of two strings.
pub open spec fn distribution_from(d: CharDistribution, ve: Seq<(u32, usize)>, va: Seq<(u32, usize)>) -> bool {
    &&& d.only_in_expected@ == absent_from(ve, va)
    &&& d.only_in_actual@ == absent_from(va, ve)
    &&& d.in_both@ == shared_with(ve, va)
}

/// `d` compares the character counts of `e` and `a`.
pub open spec fn is_distribution_of(d: CharDistribution, e: Seq<char>, a: Seq<char>) -> bool {
    exists|ve: Seq<(u32, usize)>, va: Seq<(u32, usize)>|
        is_tally_of(ve, e) && is_tally_of(va, a) && #[trigger] distribution_from(d, ve, va)
}

/// Compares the character counts of `expected` and `actual`, code by code
/// in ascending order.
pub fn compare_distribution(expected: &str, actual: &str) -> (r: CharDistribution)
    ensures
        is_distribution_of(r, expected@, actual@),
{
    let exp_codes = count_chars(expected);
    let act_codes = count_chars(actual);
    let mut only_in_expected: Vec<(u32, usize)> = Vec::new();
    let mut only_in_actual: Vec<(u32, usize)> = Vec::new();
    let mut in_both: Vec<(u32, usize, usize)> = Vec::new();
    let mut i: usize = 0;
    proof {
        assert(exp_codes@.take(0) =~= Seq::<(u32, usize)>::empty());
        assert(act_codes@.take(0) =~= Seq::<(u32, usize)>::empty());
    }
    while i < exp_codes.len()
        invariant
            i <= exp_codes@.len(),
            is_tally_of(exp_codes@, expected@),
            is_tally_of(act_codes@, actual@),
            only_in_expected@ == absent_from(exp_codes@.take(i as int), act_codes@),
            in_both@ == shared_with(exp_codes@.take(i as int), act_codes@),
        decreases exp_codes@.len() - i,
    {
        let (code, count) = exp_codes[i];
        let other = count_of(&act_codes, code);
        if other > 0 {
            in_both.push((code, count, other));
        } else {
            only_in_expected.push((code, count));
        }
        proof {
            let t = exp_codes@.take(i + 1);
            assert(t.drop_last() =~= exp_codes@.take(i as int));
        }
        i = i + 1;
    }
    let mut j: usize = 0;
    while j < act_codes.len()
        invariant
            j <= act_codes@.len(),
            is_tally_of(exp_codes@, expected@),
            is_tally_of(act_codes@, actual@),
            only_in_actual@ == absent_from(act_codes@.take(j as int), exp_codes@),
        decreases act_codes@.len() - j,
    {
        let (code, count) = act_codes[j];
        if count_of(&exp_codes, code) == 0 {
            only_in_actual.push((code, count));
        }
        proof {
            let t = act_codes@.take(j + 1);
            assert(t.drop_last() =~= act_codes@.take(j as int));
        }
        j = j + 1;
    }
    proof {
        assert(exp_codes@.take(i as int) =~= exp_codes@);
        assert(act_codes@.take(j as int) =~= act_codes@);
    }
    let r = CharDistribution { only_in_expected, only_in_actual, in_both };
    proof {
        assert(distribution_from(r, exp_codes@, act_codes@));
    }
    r
}

/// The fix to suggest: zero-width characters first, then a normalization
/// mismatch, then the first whitespace issue, then the first encoding issue.
pub open spec fn suggestion_for(
    ws: Seq<WhitespaceIssue>,
    enc: Seq<EncodingIssue>,
    zero_width: bool,
    mismatch: bool,
) -> Option<Seq<char>> {
    if zero_width {
        Some("Remove zero-width characters from your search string"@)
    } else if mismatch {
        Some("Normalize Unicode to NFC form in your search string"@)
    } else if ws.len() > 0 {
        Some(
            match ws[0] {
                WhitespaceIssue::TabsVsSpaces => "Replace tabs with spaces (or vice versa) in your search string"@,
                WhitespaceIssue::MixedLineEndings => "Use consistent line endings (LF or CRLF, not mixed)"@,
                WhitespaceIssue::ExtraSpaces => "Check for extra/missing spaces in your search string"@,
                WhitespaceIssue::TrailingWhitespace => "Remove trailing whitespace from lines in your search string"@,
            },
        )
    } else if enc.len() > 0 {
        Some(
            match enc[0] {
                EncodingIssue::ReplacementChar => "File contains invalid UTF-8 characters (\u{FFFD})"@,
                EncodingIssue::ByteOrderMark => "Remove Byte Order Mark (BOM) from file"@,
                EncodingIssue::Utf16Surrogate => "File contains invalid UTF-16 surrogate characters"@,
            },
        )
    } else {
        None
    }
}

/// An optional string, viewed as an optional character sequence.
pub open spec fn opt_view(o: Option<String>) -> Option<Seq<char>> {
    match o {
        Some(t) => Some(t@),
        None => None,
    }
}

/// Suggests a fix for the detected issues, if any applies.
pub fn generate_suggestion(
    whitespace_issues: &Vec<WhitespaceIssue>,
    encoding_issues: &Vec<EncodingIssue>,
    has_zero_width: bool,
    unicode_analysis: &UnicodeAnalysis,
) -> (r: Option<String>)
    ensures
        opt_view(r) == suggestion_for(
            whitespace_issues@,
            encoding_issues@,
            has_zero_width,
            unicode_analysis.normalization_mismatch,
        ),
{
    if has_zero_width {
        return Some("Remove zero-width characters from your search string".to_string());
    }
    if unicode_analysis.normalization_mismatch {
        return Some("Normalize Unicode to NFC form in your search string".to_string());
    }
    if whitespace_issues.len() > 0 {
        let text = match whitespace_issues[0] {
            WhitespaceIssue::TabsVsSpaces => "Replace tabs with spaces (or vice versa) in your search string",
            WhitespaceIssue::MixedLineEndings => "Use consistent line endings (LF or CRLF, not mixed)",
            WhitespaceIssue::ExtraSpaces => "Check for extra/missing spaces in your search string",
            WhitespaceIssue::TrailingWhitespace => "Remove trailing whitespace from lines in your search string",
        };
        return Some(text.to_string());
    }
    if encoding_issues.len() > 0 {
        let text = match encoding_issues[0] {
            EncodingIssue::ReplacementChar => "File contains invalid UTF-8 characters (\u{FFFD})",
            EncodingIssue::ByteOrderMark => "Remove Byte Order Mark (BOM) from file",
            EncodingIssue::Utf16Surrogate => "File contains invalid UTF-16 surrogate characters",
        };
        return Some(text.to_string());
    }
    None
}

/// Readable name of a character code, `"?"` for codes without one.
pub open spec fn char_name(code: u32) -> Seq<char> {
    if code == 9 {
        "TAB"@
    } else if code == 10 {
        "LF"@
    } else if code == 13 {
        "CR"@
    } else if code == 32 {
        "SPACE"@
    } else if code == 160 {
        "NBSP"@
    } else if code == 0x200B {
        "ZWSP"@
    } else if code == 0x200C {
        "ZWNJ"@
    } else if code == 0x200D {
        "ZWJ"@
    } else if code == 0xFEFF {
        "BOM"@
    } else {
        "?"@
    }
}

/// Readable name of common character codes.
pub fn format_char_name(code: u32) -> (r: &'static str)
    ensures
        r@ == char_name(code),
{
    if code == 9 {
        "TAB"
    } else if code == 10 {
        "LF"
    } else if code == 13 {
        "CR"
    } else if code == 32 {
        "SPACE"
    } else if code == 160 {
        "NBSP"
    } else if code == 0x200B {
        "ZWSP"
    } else if code == 0x200C {
        "ZWNJ"
    } else if code == 0x200D {
        "ZWJ"
    } else if code == 0xFEFF {
        "BOM"
    } else {
        "?"
    }
}

/// Lower-case hexadecimal digits of `n`, at least two.
pub open spec fn hex2(n: nat) -> Seq<char> {
    if n < 16 {
        seq!['0'] + radix_digits(n, 16)
    } else {
        radix_digits(n, 16)
    }
}

/// How a code is shown: printable ASCII as itself, anything else as `\x`
/// and its hexadecimal digits.
pub open spec fn char_display(code: u32) -> Seq<char> {
    if 32 <= code <= 126 {
        seq![(code as u8) as char]
    } else {
        seq!['\\', 'x'] + hex2(code as nat)
    }
}

fn push_char_display(out: &mut String, code: u32)
    ensures
        final(out)@ == old(out)@ + char_display(code),
{
    if 32 <= code && code <= 126 {
        push_char(out, (code as u8) as char);
    } else {
        push_char(out, '\\');
        push_char(out, 'x');
        if code < 16 {
            push_char(out, '0');
        }
        push_radix(out, code as usize, 16);
    }
    proof {
        assert(final(out)@ =~= old(out)@ + char_display(code));
    }
}

/// Shows a character code: printable ASCII as itself, others as a
/// hexadecimal escape.
pub fn format_char_display(code: u32) -> (r: String)
    ensures
        r@ == char_display(code),
{
    let mut out = String::new();
    push_char_display(&mut out, code);
    out
}

/// One entry of the code report: `code:count[display]`.
pub open spec fn report_entry(e: (u32, usize)) -> Seq<char> {
    decimal(e.0 as nat) + seq![':'] + decimal(e.1 as nat) + seq!['['] + char_display(e.0) + seq![']']
}

/// The report entries of `v`, separated by commas.
pub open spec fn report_text(v: Seq<(u32, usize)>) -> Seq<char>
    decreases v.len(),
{
    if v.len() == 0 {
        Seq::empty()
    } else if v.len() == 1 {
        report_entry(v[0])
    } else {
        report_text(v.drop_last()) + seq![','] + report_entry(v.last())
    }
}

/// Formats a tally as `code:count[display]` entries separated by commas.
pub fn format_char_code_report(codes: &Vec<(u32, usize)>) -> (r: String)
    ensures
        r@ == report_text(codes@),
{
    let mut out = String::new();
    let mut i: usize = 0;
    proof {
        assert(codes@.take(0) =~= Seq::<(u32, usize)>::empty());
    }
    while i < codes.len()
        invariant
            i <= codes@.len(),
            out@ == report_text(codes@.take(i as int)),
        decreases codes@.len() - i,
    {
        let (code, count) = codes[i];
        if i > 0 {
            push_char(&mut out, ',');
        }
        push_radix(&mut out, code as usize, 10);
        push_char(&mut out, ':');
        push_radix(&mut out, count, 10);
        push_char(&mut out, '[');
        push_char_display(&mut out, code);
        push_char(&mut out, ']');
        proof {
            let t = codes@.take(i + 1);
            assert(t.drop_last() =~= codes@.take(i as int));
            assert(t.last() == codes@[i as int]);
            if i == 0 {
                assert(out@ =~= report_entry(t[0]));
            } else {
                assert(out@ =~= report_text(t.drop_last()) + seq![','] + report_entry(t.last()));
            }
        }
        i = i + 1;
    }
    proof {
        assert(codes@.take(i as int) =~= codes@);
    }
    out
}

/// The decimal codes of the characters of `s`, separated by commas.
pub open spec fn codes_text(s: Seq<char>) -> Seq<char>
    decreases s.len(),
{
    if s.len() == 0 {
        Seq::empty()
    } else if s.len() == 1 {
        decimal(s[0] as u32 as nat)
    } else {
        codes_text(s.drop_last()) + seq![','] + decimal(s.last() as u32 as nat)
    }
}

/// The character codes of `s` in decimal, separated by commas, or `empty`.
pub fn inline_codes(s: &str) -> (r: String)
    ensures
        s@.len() == 0 ==> r@ == "empty"@,
        s@.len() > 0 ==> r@ == codes_text(s@),
{
    let chars = scalars(s);
    if chars.len() == 0 {
        return "empty".to_string();
    }
    let mut out = String::new();
    let mut i: usize = 0;
    proof {
        assert(chars@.take(0) =~= Seq::<char>::empty());
    }
    while i < chars.len()
        invariant
            chars@ == s@,
            i <= chars@.len(),
            out@ == codes_text(chars@.take(i as int)),
        decreases chars@.len() - i,
    {
        if i > 0 {
            push_char(&mut out, ',');
        }
        push_radix(&mut out, chars[i] as u32 as usize, 10);
        proof {
            let t = chars@.take(i + 1);
            assert(t.drop_last() =~= chars@.take(i as int));
            assert(t.last() == chars@[i as int]);
            if i == 0 {
                assert(out@ =~= decimal(t[0] as u32 as nat));
            } else {
                assert(out@ =~= codes_text(t.drop_last()) + seq![','] + decimal(t.last() as u32 as nat));
            }
        }
        i = i + 1;
    }
    proof {
        assert(chars@.take(i as int) =~= chars@);
    }
    out
}

/// Name for how Rust's `{:?}` shows a string: quoted, with escapes.
pub uninterp spec fn debug_quoted(s: Seq<char>) -> Seq<char>;

/// Relies on the `Debug` impl of `str`: the string quoted, with escapes,
/// which depends on its characters alone.
#[verifier::external_body]
fn quoted(s: &str) -> (r: String)
    ensures
        r@ == debug_quoted(s@),
{
    format!("{s:?}")
}

/// The diff as `prefix{-removed-}{+added+}suffix`, each marked part only
/// when it is not empty.
pub open spec fn diff_markup(e: Seq<char>, ed: Seq<char>, ad: Seq<char>, p: nat, s: nat) -> Seq<char> {
    e.take(p as int) + (if ed.len() > 0 {
        "{-"@ + ed + "-}"@
    } else {
        Seq::empty()
    }) + (if ad.len() > 0 {
        "{+"@ + ad + "+}"@
    } else {
        Seq::empty()
    }) + e.skip(e.len() - s)
}

/// A labelled line with a differing part, quoted, and its character codes.
pub open spec fn codes_line(label: Seq<char>, d: Seq<char>) -> Seq<char> {
    label + debug_quoted(d) + " ["@ + inline_codes_text(d) + "]"@
}

/// The diff markup followed by the character codes of both differing parts.
pub open spec fn visual_diff(e: Seq<char>, ed: Seq<char>, ad: Seq<char>, p: nat, s: nat) -> Seq<char> {
    diff_markup(e, ed, ad, p, s) + "\n\nWith character codes:"@ + codes_line("\nExpected diff: "@, ed)
        + codes_line("\nActual diff:   "@, ad)
}

/// What `inline_codes` shows for `s`.
pub open spec fn inline_codes_text(s: Seq<char>) -> Seq<char> {
    if s.len() == 0 {
        "empty"@
    } else {
        codes_text(s)
    }
}

fn push_codes_line(out: &mut String, label: &str, d: &str)
    ensures
        final(out)@ == old(out)@ + codes_line(label@, d@),
{
    out.append(label);
    out.append(quoted(d).as_str());
    out.append(" [");
    out.append(inline_codes(d).as_str());
    out.append("]");
    proof {
        assert(final(out)@ =~= old(out)@ + codes_line(label@, d@));
    }
}

fn push_diff_markup(out: &mut String, expected: &str, expected_diff: &str, actual_diff: &str, prefix_len: usize, suffix_len: usize)
    requires
        prefix_len <= expected@.len(),
        suffix_len <= expected@.len(),
    ensures
        final(out)@ == old(out)@ + diff_markup(expected@, expected_diff@, actual_diff@, prefix_len as nat, suffix_len as nat),
{
    let n = expected.unicode_len();
    out.append(expected.substring_char(0, prefix_len));
    let ghost a = out@;
    if expected_diff.unicode_len() > 0 {
        out.append("{-");
        out.append(expected_diff);
        out.append("-}");
    }
    let ghost b = out@;
    if actual_diff.unicode_len() > 0 {
        out.append("{+");
        out.append(actual_diff);
        out.append("+}");
    }
    let ghost c = out@;
    out.append(expected.substring_char(n - suffix_len, n));
    proof {
        assert(expected@.subrange(0, prefix_len as int) =~= expected@.take(prefix_len as int));
        assert(expected@.subrange(n - suffix_len, n as int) =~= expected@.skip(n - suffix_len));
        if expected_diff@.len() > 0 {
            assert(b =~= a + ("{-"@ + expected_diff@ + "-}"@));
        } else {
            assert(b =~= a + Seq::<char>::empty());
        }
        if actual_diff@.len() > 0 {
            assert(c =~= b + ("{+"@ + actual_diff@ + "+}"@));
        } else {
            assert(c =~= b + Seq::<char>::empty());
        }
        assert(final(out)@ =~= old(out)@ + diff_markup(
            expected@,
            expected_diff@,
            actual_diff@,
            prefix_len as nat,
            suffix_len as nat,
        ));
    }
}

/// Formats the diff with the character codes of its differing parts.
fn format_visual_diff_with_codes(
    expected: &str,
    expected_diff: &str,
    actual_diff: &str,
    prefix_len: usize,
    suffix_len: usize,
) -> (r: String)
    requires
        prefix_len <= expected@.len(),
        suffix_len <= expected@.len(),
    ensures
        r@ == visual_diff(expected@, expected_diff@, actual_diff@, prefix_len as nat, suffix_len as nat),
{
    let mut output = String::new();
    push_diff_markup(&mut output, expected, expected_diff, actual_diff, prefix_len, suffix_len);
    output.append("\n\nWith character codes:");
    push_codes_line(&mut output, "\nExpected diff: ", expected_diff);
    push_codes_line(&mut output, "\nActual diff:   ", actual_diff);
    proof {
        assert(output@ =~= visual_diff(
            expected@,
            expected_diff@,
            actual_diff@,
            prefix_len as nat,
            suffix_len as nat,
        ));
    }
    output
}

/// Character code analysis of the difference between two strings.
#[derive(Debug, Clone)]
pub struct CharCodeData {
    /// `code:count[display]` entries, separated by commas
    pub report: String,
    /// Number of distinct character codes in the differing parts
    pub unique_count: usize,
    /// Total length of the differing parts, in scalar values
    pub diff_length: usize,
    /// Codes of the differing parts by kind
    pub classification: CharCodeClassification,
    /// Whitespace issues found
    pub whitespace_issues: Vec<WhitespaceIssue>,
    /// Encoding issues found
    pub encoding_issues: Vec<EncodingIssue>,
    /// Per-code comparison of the two differing parts
    pub distribution: CharDistribution,
    /// Normalization status of the two strings
    pub unicode_analysis: UnicodeAnalysis,
    /// Whether a zero-width character is among the differing parts
    pub has_zero_width: bool,
    /// Suggested fix, if any applies
    pub suggestion: Option<String>,
    /// Diff markup with the character codes of the differing parts
    pub visual_diff_with_codes: String,
}

/// `r` is the analysis of `e` against `a` for the boundary pair `(p, s)`,
/// `v` being the tally of the two differing parts together.
pub open spec fn analysis_with(
    r: CharCodeData,
    e: Seq<char>,
    a: Seq<char>,
    p: nat,
    s: nat,
    v: Seq<(u32, usize)>,
) -> bool {
    let ed = e.subrange(p as int, e.len() - s);
    let ad = a.subrange(p as int, a.len() - s);
    &&& is_boundary_pair(e, a, p, s)
    &&& is_tally_of(v, ed + ad)
    &&& r.report@ == report_text(v)
    &&& r.unique_count == v.len()
    &&& r.diff_length == ed.len() + ad.len()
    &&& r.classification.whitespace@ == of_kind(v, 0)
    &&& r.classification.line_endings@ == of_kind(v, 1)
    &&& r.classification.control@ == of_kind(v, 2)
    &&& r.classification.printable@ == of_kind(v, 3)
    &&& r.classification.unicode@ == of_kind(v, 4)
    &&& r.whitespace_issues@ == whitespace_issues(v, ed, ad)
    &&& r.encoding_issues@ == encoding_issues(v)
    &&& is_distribution_of(r.distribution, ed, ad)
    &&& r.unicode_analysis.has_composed == (nfc_of(e) == e || nfc_of(a) == a)
    &&& r.unicode_analysis.has_decomposed == (nfd_of(e) != e || nfd_of(a) != a)
    &&& r.unicode_analysis.normalization_mismatch == (nfc_of(e) == nfc_of(a) && e != a)
    &&& r.has_zero_width == lists_zero_width(v)
    &&& opt_view(r.suggestion) == suggestion_for(
        r.whitespace_issues@,
        r.encoding_issues@,
        r.has_zero_width,
        r.unicode_analysis.normalization_mismatch,
    )
    &&& r.visual_diff_with_codes@ == visual_diff(e, ed, ad, p, s)
}

/// `r` is the analysis of `e` against `a`; it fixes every field (see
/// `lemma_analysis_unique`).
pub open spec fn is_analysis_of(r: CharCodeData, e: Seq<char>, a: Seq<char>) -> bool {
    exists|p: nat, s: nat, v: Seq<(u32, usize)>| #[trigger] analysis_with(r, e, a, p, s, v)
}

/// Two distributions of the same pair of strings are the same.
pub proof fn lemma_distribution_unique(d1: CharDistribution, d2: CharDistribution, e: Seq<char>, a: Seq<char>)
    requires
        is_distribution_of(d1, e, a),
        is_distribution_of(d2, e, a),
    ensures
        d1.only_in_expected@ == d2.only_in_expected@,
        d1.only_in_actual@ == d2.only_in_actual@,
        d1.in_both@ == d2.in_both@,
{
    let (ve1, va1) = choose|ve: Seq<(u32, usize)>, va: Seq<(u32, usize)>|
        is_tally_of(ve, e) && is_tally_of(va, a) && #[trigger] distribution_from(d1, ve, va);
    let (ve2, va2) = choose|ve: Seq<(u32, usize)>, va: Seq<(u32, usize)>|
        is_tally_of(ve, e) && is_tally_of(va, a) && #[trigger] distribution_from(d2, ve, va);
    lemma_tally_unique(ve1, ve2, e);
    lemma_tally_unique(va1, va2, a);
}

/// The analysis of two strings is determined by the strings: two results
/// that both meet `is_analysis_of` agree on every field.
pub proof fn lemma_analysis_unique(r1: CharCodeData, r2: CharCodeData, e: Seq<char>, a: Seq<char>)
    requires
        is_analysis_of(r1, e, a),
        is_analysis_of(r2, e, a),
    ensures
        r1.report@ == r2.report@,
        r1.unique_count == r2.unique_count,
        r1.diff_length == r2.diff_length,
        r1.classification.whitespace@ == r2.classification.whitespace@,
        r1.classification.line_endings@ == r2.classification.line_endings@,
        r1.classification.control@ == r2.classification.control@,
        r1.classification.printable@ == r2.classification.printable@,
        r1.classification.unicode@ == r2.classification.unicode@,
        r1.whitespace_issues@ == r2.whitespace_issues@,
        r1.encoding_issues@ == r2.encoding_issues@,
        r1.distribution.only_in_expected@ == r2.distribution.only_in_expected@,
        r1.distribution.only_in_actual@ == r2.distribution.only_in_actual@,
        r1.distribution.in_both@ == r2.distribution.in_both@,
        r1.unicode_analysis.has_composed == r2.unicode_analysis.has_composed,
        r1.unicode_analysis.has_decomposed == r2.unicode_analysis.has_decomposed,
        r1.unicode_analysis.normalization_mismatch == r2.unicode_analysis.normalization_mismatch,
        r1.has_zero_width == r2.has_zero_width,
        opt_view(r1.suggestion) == opt_view(r2.suggestion),
        r1.visual_diff_with_codes@ == r2.visual_diff_with_codes@,
{
    let (p1, s1, v1) = choose|p: nat, s: nat, v: Seq<(u32, usize)>| #[trigger] analysis_with(r1, e, a, p, s, v);
    let (p2, s2, v2) = choose|p: nat, s: nat, v: Seq<(u32, usize)>| #[trigger] analysis_with(r2, e, a, p, s, v);
    lemma_boundary_pair_unique(e, a, p1, s1, p2, s2);
    let ed = e.subrange(p1 as int, e.len() - s1);
    let ad = a.subrange(p1 as int, a.len() - s1);
    lemma_tally_unique(v1, v2, ed + ad);
    lemma_distribution_unique(r1.distribution, r2.distribution, ed, ad);
}

impl CharCodeData {
    /// Analyzes the difference between `expected` and `actual`: the codes
    /// of the differing characters, their kinds, whitespace and encoding
    /// issues, normalization, a suggested fix and an annotated diff.
    pub fn analyze(expected: &str, actual: &str) -> (r: Self)
        ensures
            is_analysis_of(r, expected@, actual@),
    {
        let (prefix_len, suffix_len) = find_common_boundaries(expected, actual);
        let n_e = scalar_len(expected);
        let n_a = scalar_len(actual);
        let expected_diff = substring(expected, prefix_len, n_e - suffix_len);
        let actual_diff = substring(actual, prefix_len, n_a - suffix_len);
        let mut full_diff = String::new();
        full_diff.append(expected_diff.as_str());
        full_diff.append(actual_diff.as_str());
        let codes = count_chars(full_diff.as_str());
        let report = format_char_code_report(&codes);
        let unique_count = codes.len();
        let diff_length = scalar_len(full_diff.as_str());
        let classification = classify_characters(&codes);
        let whitespace_issues = detect_whitespace_issues(
            &codes,
            expected_diff.as_str(),
            actual_diff.as_str(),
        );
        let encoding_issues = detect_encoding_issues(&codes);
        let distribution = compare_distribution(expected_diff.as_str(), actual_diff.as_str());
        let unicode_analysis = analyze_unicode(expected, actual);
        let has_zero_width = has_zero_width(&codes);
        let suggestion = generate_suggestion(
            &whitespace_issues,
            &encoding_issues,
            has_zero_width,
            &unicode_analysis,
        );
        let visual_diff_with_codes = format_visual_diff_with_codes(
            expected,
            expected_diff.as_str(),
            actual_diff.as_str(),
            prefix_len,
            suffix_len,
        );
        let r = CharCodeData {
            report,
            unique_count,
            diff_length,
            classification,
            whitespace_issues,
            encoding_issues,
            distribution,
            unicode_analysis,
            has_zero_width,
            suggestion,
            visual_diff_with_codes,
        };
        proof {
            assert(full_diff@ =~= expected_diff@ + actual_diff@);
            assert(analysis_with(r, expected@, actual@, prefix_len as nat, suffix_len as nat, codes@));
        }
        r
    }
}

/// `NAME×count` entries of a tally, separated by `", "`.
pub open spec fn names_text(v: Seq<(u32, usize)>) -> Seq<char>
    decreases v.len(),
{
    if v.len() == 0 {
        Seq::empty()
    } else if v.len() == 1 {
        char_name(v[0].0) + "\u{d7}"@ + decimal(v[0].1 as nat)
    } else {
        names_text(v.drop_last()) + ", "@ + char_name(v.last().0) + "\u{d7}"@ + decimal(
            v.last().1 as nat,
        )
    }
}

fn push_names(out: &mut String, v: &Vec<(u32, usize)>)
    ensures
        final(out)@ == old(out)@ + names_text(v@),
{
    let ghost start = out@;
    let mut i: usize = 0;
    proof {
        assert(v@.take(0) =~= Seq::<(u32, usize)>::empty());
        assert(out@ =~= start + names_text(v@.take(0)));
    }
    while i < v.len()
        invariant
            i <= v@.len(),
            out@ == start + names_text(v@.take(i as int)),
        decreases v@.len() - i,
    {
        let (code, count) = v[i];
        if i > 0 {
            out.append(", ");
        }
        out.append(format_char_name(code));
        out.append("\u{d7}");
        push_radix(out, count, 10);
        proof {
            let t = v@.take(i + 1);
            assert(t.drop_last() =~= v@.take(i as int));
            assert(t.last() == v@[i as int]);
            if i == 0 {
                assert(out@ =~= start + names_text(t));
            } else {
                assert(out@ =~= start + names_text(t));
            }
        }
        i = i + 1;
    }
    proof {
        assert(v@.take(i as int) =~= v@);
    }
}

/// How a whitespace issue is named in the report.
pub open spec fn whitespace_issue_name(i: WhitespaceIssue) -> Seq<char> {
    match i {
        WhitespaceIssue::TabsVsSpaces => "TabsVsSpaces"@,
        WhitespaceIssue::MixedLineEndings => "MixedLineEndings"@,
        WhitespaceIssue::ExtraSpaces => "ExtraSpaces"@,
        WhitespaceIssue::TrailingWhitespace => "TrailingWhitespace"@,
    }
}

/// How an encoding issue is named in the report.
pub open spec fn encoding_issue_name(i: EncodingIssue) -> Seq<char> {
    match i {
        EncodingIssue::Utf16Surrogate => "Utf16Surrogate"@,
        EncodingIssue::ReplacementChar => "ReplacementChar"@,
        EncodingIssue::ByteOrderMark => "ByteOrderMark"@,
    }
}

impl WhitespaceIssue {
    /// The issue's name.
    pub fn name(&self) -> (r: &'static str)
        ensures
            r@ == whitespace_issue_name(*self),
    {
        match self {
            WhitespaceIssue::TabsVsSpaces => "TabsVsSpaces",
            WhitespaceIssue::MixedLineEndings => "MixedLineEndings",
            WhitespaceIssue::ExtraSpaces => "ExtraSpaces",
            WhitespaceIssue::TrailingWhitespace => "TrailingWhitespace",
        }
    }
}

impl EncodingIssue {
    /// The issue's name.
    pub fn name(&self) -> (r: &'static str)
        ensures
            r@ == encoding_issue_name(*self),
    {
        match self {
            EncodingIssue::Utf16Surrogate => "Utf16Surrogate",
            EncodingIssue::ReplacementChar => "ReplacementChar",
            EncodingIssue::ByteOrderMark => "ByteOrderMark",
        }
    }
}

/// Marker in front of each reported issue.
pub open spec fn warning() -> Seq<char> {
    "  \u{26a0}\u{fe0f}  "@
}

/// One warning line per whitespace issue.
pub open spec fn whitespace_issue_lines(v: Seq<WhitespaceIssue>) -> Seq<char>
    decreases v.len(),
{
    if v.len() == 0 {
        Seq::empty()
    } else {
        whitespace_issue_lines(v.drop_last()) + warning() + whitespace_issue_name(v.last()) + "\n"@
    }
}

/// One warning line per encoding issue.
pub open spec fn encoding_issue_lines(v: Seq<EncodingIssue>) -> Seq<char>
    decreases v.len(),
{
    if v.len() == 0 {
        Seq::empty()
    } else {
        encoding_issue_lines(v.drop_last()) + warning() + encoding_issue_name(v.last()) + "\n"@
    }
}

fn push_whitespace_issue_lines(out: &mut String, v: &Vec<WhitespaceIssue>)
    ensures
        final(out)@ == old(out)@ + whitespace_issue_lines(v@),
{
    let ghost start = out@;
    let mut i: usize = 0;
    proof {
        assert(v@.take(0) =~= Seq::<WhitespaceIssue>::empty());
        assert(out@ =~= start + whitespace_issue_lines(v@.take(0)));
    }
    while i < v.len()
        invariant
            i <= v@.len(),
            out@ == start + whitespace_issue_lines(v@.take(i as int)),
        decreases v@.len() - i,
    {
        out.append("  \u{26a0}\u{fe0f}  ");
        out.append(v[i].name());
        out.append("\n");
        proof {
            let t = v@.take(i + 1);
            assert(t.drop_last() =~= v@.take(i as int));
            assert(out@ =~= start + whitespace_issue_lines(t));
        }
        i = i + 1;
    }
    proof {
        assert(v@.take(i as int) =~= v@);
    }
}

fn push_encoding_issue_lines(out: &mut String, v: &Vec<EncodingIssue>)
    ensures
        final(out)@ == old(out)@ + encoding_issue_lines(v@),
{
    let ghost start = out@;
    let mut i: usize = 0;
    proof {
        assert(v@.take(0) =~= Seq::<EncodingIssue>::empty());
        assert(out@ =~= start + encoding_issue_lines(v@.take(0)));
    }
    while i < v.len()
        invariant
            i <= v@.len(),
            out@ == start + encoding_issue_lines(v@.take(i as int)),
        decreases v@.len() - i,
    {
        out.append("  \u{26a0}\u{fe0f}  ");
        out.append(v[i].name());
        out.append("\n");
        proof {
            let t = v@.take(i + 1);
            assert(t.drop_last() =~= v@.take(i as int));
            assert(out@ =~= start + encoding_issue_lines(t));
        }
        i = i + 1;
    }
    proof {
        assert(v@.take(i as int) =~= v@);
    }
}

/// `piece` when `cond` holds, nothing otherwise.
pub open spec fn when(cond: bool, piece: Seq<char>) -> Seq<char> {
    if cond {
        piece
    } else {
        Seq::empty()
    }
}

/// The character types section of the report.
pub open spec fn types_section(c: CharCodeClassification) -> Seq<char> {
    when(
        c.whitespace@.len() > 0 || c.line_endings@.len() > 0,
        "\nCharacter Types:\n"@ + when(
            c.whitespace@.len() > 0,
            "  Whitespace: "@ + names_text(c.whitespace@) + "\n"@,
        ) + when(
            c.line_endings@.len() > 0,
            "  Line endings: "@ + names_text(c.line_endings@) + "\n"@,
        ) + when(
            c.control@.len() > 0,
            "  Control chars: "@ + decimal(c.control@.len()) + " types\n"@,
        ) + when(
            c.unicode@.len() > 0,
            "  Unicode chars: "@ + decimal(c.unicode@.len()) + " types\n"@,
        ),
    )
}

/// The issues section of the report.
pub open spec fn issues_section(d: CharCodeData) -> Seq<char> {
    when(
        d.whitespace_issues@.len() > 0 || d.encoding_issues@.len() > 0 || d.has_zero_width,
        "\nIssues Detected:\n"@ + whitespace_issue_lines(d.whitespace_issues@)
            + encoding_issue_lines(d.encoding_issues@) + when(
            d.has_zero_width,
            "  \u{26a0}\u{fe0f}  Zero-width characters detected\n"@,
        ) + when(
            d.unicode_analysis.normalization_mismatch,
            "  \u{26a0}\u{fe0f}  Unicode normalization mismatch (NFC vs NFD)\n"@,
        ),
    )
}

/// The distribution section of the report.
pub open spec fn distribution_section(d: CharDistribution) -> Seq<char> {
    when(
        d.only_in_expected@.len() > 0 || d.only_in_actual@.len() > 0,
        "\nDistribution:\n"@ + when(
            d.only_in_expected@.len() > 0,
            "  Only in search string: "@ + names_text(d.only_in_expected@) + "\n"@,
        ) + when(
            d.only_in_actual@.len() > 0,
            "  Only in found string: "@ + names_text(d.only_in_actual@) + "\n"@,
        ),
    )
}

/// The whole report: counts, then the types, issues and distribution
/// sections, the visual diff and the suggestion.
pub open spec fn detailed_report(d: CharCodeData) -> Seq<char> {
    "Character Analysis:\n"@ + "  Character codes: "@ + d.report@ + "\n"@ + "  Unique codes: "@
        + decimal(d.unique_count as nat) + ", Diff length: "@ + decimal(d.diff_length as nat)
        + "\n"@ + types_section(d.classification) + issues_section(d) + distribution_section(
        d.distribution,
    ) + "\nVisual Diff:\n"@ + d.visual_diff_with_codes@ + "\n"@ + match d.suggestion {
        Some(t) => "\n\u{1F4A1} Suggestion: "@ + t@ + "\n"@,
        None => Seq::empty(),
    }
}

fn push_names_line(out: &mut String, label: &str, v: &Vec<(u32, usize)>)
    ensures
        final(out)@ == old(out)@ + when(v@.len() > 0, label@ + names_text(v@) + "\n"@),
{
    if v.len() > 0 {
        out.append(label);
        push_names(out, v);
        out.append("\n");
    }
    proof {
        assert(final(out)@ =~= old(out)@ + when(v@.len() > 0, label@ + names_text(v@) + "\n"@));
    }
}

fn push_kinds_line(out: &mut String, label: &str, n: usize)
    ensures
        final(out)@ == old(out)@ + when(n > 0, label@ + decimal(n as nat) + " types\n"@),
{
    if n > 0 {
        out.append(label);
        push_radix(out, n, 10);
        out.append(" types\n");
    }
    proof {
        assert(final(out)@ =~= old(out)@ + when(n > 0, label@ + decimal(n as nat) + " types\n"@));
    }
}

fn push_types_section(out: &mut String, c: &CharCodeClassification)
    ensures
        final(out)@ == old(out)@ + types_section(*c),
{
    if c.whitespace.len() == 0 && c.line_endings.len() == 0 {
        proof {
            assert(out@ =~= old(out)@ + types_section(*c));
        }
        return;
    }
    out.append("\nCharacter Types:\n");
    push_names_line(out, "  Whitespace: ", &c.whitespace);
    push_names_line(out, "  Line endings: ", &c.line_endings);
    push_kinds_line(out, "  Control chars: ", c.control.len());
    push_kinds_line(out, "  Unicode chars: ", c.unicode.len());
    proof {
        assert(out@ =~= old(out)@ + types_section(*c));
    }
}

fn push_issues_section(out: &mut String, d: &CharCodeData)
    ensures
        final(out)@ == old(out)@ + issues_section(*d),
{
    if d.whitespace_issues.len() == 0 && d.encoding_issues.len() == 0 && !d.has_zero_width {
        proof {
            assert(out@ =~= old(out)@ + issues_section(*d));
        }
        return;
    }
    out.append("\nIssues Detected:\n");
    push_whitespace_issue_lines(out, &d.whitespace_issues);
    push_encoding_issue_lines(out, &d.encoding_issues);
    let ghost a = out@;
    if d.has_zero_width {
        out.append("  \u{26a0}\u{fe0f}  Zero-width characters detected\n");
    }
    let ghost b = out@;
    if d.unicode_analysis.normalization_mismatch {
        out.append("  \u{26a0}\u{fe0f}  Unicode normalization mismatch (NFC vs NFD)\n");
    }
    proof {
        assert(b =~= a + when(d.has_zero_width, "  \u{26a0}\u{fe0f}  Zero-width characters detected\n"@));
        assert(out@ =~= b + when(
            d.unicode_analysis.normalization_mismatch,
            "  \u{26a0}\u{fe0f}  Unicode normalization mismatch (NFC vs NFD)\n"@,
        ));
        assert(out@ =~= old(out)@ + issues_section(*d));
    }
}

fn push_distribution_section(out: &mut String, d: &CharDistribution)
    ensures
        final(out)@ == old(out)@ + distribution_section(*d),
{
    if d.only_in_expected.len() == 0 && d.only_in_actual.len() == 0 {
        proof {
            assert(out@ =~= old(out)@ + distribution_section(*d));
        }
        return;
    }
    out.append("\nDistribution:\n");
    push_names_line(out, "  Only in search string: ", &d.only_in_expected);
    push_names_line(out, "  Only in found string: ", &d.only_in_actual);
    proof {
        assert(out@ =~= old(out)@ + distribution_section(*d));
    }
}

impl CharCodeData {
    /// Formats the whole analysis as structured text.
    pub fn format_detailed_report(&self) -> (r: String)
        ensures
            r@ == detailed_report(*self),
    {
        let mut output = String::new();
        output.append("Character Analysis:\n");
        output.append("  Character codes: ");
        output.append(self.report.as_str());
        output.append("\n");
        output.append("  Unique codes: ");
        push_radix(&mut output, self.unique_count, 10);
        output.append(", Diff length: ");
        push_radix(&mut output, self.diff_length, 10);
        output.append("\n");
        let ghost head = output@;
        push_types_section(&mut output, &self.classification);
        push_issues_section(&mut output, self);
        push_distribution_section(&mut output, &self.distribution);
        output.append("\nVisual Diff:\n");
        output.append(self.visual_diff_with_codes.as_str());
        output.append("\n");
        let ghost body = output@;
        match &self.suggestion {
            Some(t) => {
                output.append("\n\u{1F4A1} Suggestion: ");
                output.append(t.as_str());
                output.append("\n");
            },
            None => {},
        }
        proof {
            assert(head =~= "Character Analysis:\n"@ + "  Character codes: "@ + self.report@ + "\n"@
                + "  Unique codes: "@ + decimal(self.unique_count as nat) + ", Diff length: "@
                + decimal(self.diff_length as nat) + "\n"@);
            assert(body =~= head + types_section(self.classification) + issues_section(*self)
                + distribution_section(self.distribution) + "\nVisual Diff:\n"@
                + self.visual_diff_with_codes@ + "\n"@);
            assert(output@ =~= detailed_report(*self));
        }
        output
    }
}

} // verus!
