//! Records of edit attempts, written one tab-separated line each.
use vstd::prelude::*;

use crate::text::{push_char, scalars};

verus! {

broadcast use vstd::string::group_string_axioms;

/// Outcome of an edit attempt.
#[derive(Debug, Clone)]
pub enum EditBlockResult {
    ExactMatch,
    FuzzyMatchAccepted,
    FuzzyMatchRejected,
    NoMatchFound,
    Error(String),
}

/// `s` with each newline, tab and carriage return written as `\n`, `\t`
/// and `\r`, so that it fits in one field of a tab-separated line.
pub open spec fn tsv_escaped(s: Seq<char>) -> Seq<char>
    decreases s.len(),
{
    if s.len() == 0 {
        Seq::empty()
    } else {
        tsv_escaped(s.drop_last()) + if s.last() == '\n' {
            seq!['\\', 'n']
        } else if s.last() == '\t' {
            seq!['\\', 't']
        } else if s.last() == '\r' {
            seq!['\\', 'r']
        } else {
            seq![s.last()]
        }
    }
}

/// Escapes newlines, tabs and carriage returns for a tab-separated field.
pub fn escape_tsv(s: &str) -> (r: String)
    ensures
        r@ == tsv_escaped(s@),
{
    let chars = scalars(s);
    let mut out = String::new();
    let mut i: usize = 0;
    proof {
        assert(chars@.take(0) =~= Seq::<char>::empty());
    }
    while i < chars.len()
        invariant
            chars@ == s@,
            i <= chars@.len(),
            out@ == tsv_escaped(chars@.take(i as int)),
        decreases chars@.len() - i,
    {
        let c = chars[i];
        if c == '\n' {
            push_char(&mut out, '\\');
            push_char(&mut out, 'n');
        } else if c == '\t' {
            push_char(&mut out, '\\');
            push_char(&mut out, 't');
        } else if c == '\r' {
            push_char(&mut out, '\\');
            push_char(&mut out, 'r');
        } else {
            push_char(&mut out, c);
        }
        proof {
            let t = chars@.take(i + 1);
            assert(t.drop_last() =~= chars@.take(i as int));
            assert(out@ =~= tsv_escaped(t));
        }
        i = i + 1;
    }
    proof {
        assert(chars@.take(i as int) =~= chars@);
    }
    out
}

} // verus!
