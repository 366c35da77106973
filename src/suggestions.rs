//! User-facing suggestions for failed edits: a message and a numbered list
//! of actions.
use vstd::prelude::*;

use crate::text::{decimal, push_radix};

verus! {

broadcast use vstd::string::group_string_axioms;

/// Actionable suggestion for users.
#[derive(Debug, Clone)]
pub struct Suggestion {
    /// Main message explaining what happened
    pub message: String,
    /// Actionable steps the user can take
    pub actions: Vec<String>,
}

/// The actions as numbered lines, `"1. first\n2. second\n..."`.
pub open spec fn numbered_lines(actions: Seq<Seq<char>>) -> Seq<char>
    decreases actions.len(),
{
    if actions.len() == 0 {
        Seq::empty()
    } else {
        numbered_lines(actions.drop_last()) + decimal(actions.len()) + seq!['.', ' ']
            + actions.last() + seq!['\n']
    }
}

/// Heading above the numbered actions.
pub open spec fn suggestions_heading() -> Seq<char> {
    "\n\u{1F4A1} Suggestions:\n"@
}

impl Suggestion {
    /// Formats the actions under a heading, numbered from one; no actions
    /// give an empty string.
    pub fn format(&self) -> (r: String)
        ensures
            self.actions@.len() == 0 ==> r@.len() == 0,
            self.actions@.len() > 0 ==> r@ == suggestions_heading() + numbered_lines(
                self.actions.deep_view(),
            ),
    {
        let mut output = String::new();
        if self.actions.len() == 0 {
            return output;
        }
        output.append("\n\u{1F4A1} Suggestions:\n");
        let ghost actions = self.actions.deep_view();
        let mut i: usize = 0;
        proof {
            assert(actions.take(0) =~= Seq::<Seq<char>>::empty());
            assert(output@ =~= suggestions_heading() + numbered_lines(actions.take(0)));
        }
        while i < self.actions.len()
            invariant
                actions == self.actions.deep_view(),
                i <= self.actions@.len(),
                output@ == suggestions_heading() + numbered_lines(actions.take(i as int)),
            decreases self.actions@.len() - i,
        {
            let ghost before = output@;
            push_radix(&mut output, i + 1, 10);
            output.append(". ");
            output.append(self.actions[i].as_str());
            output.append("\n");
            proof {
                reveal_strlit(". ");
                reveal_strlit("\n");
                let t = actions.take(i + 1);
                assert(t.len() == i + 1);
                assert(t.drop_last() =~= actions.take(i as int));
                assert(t.last() == self.actions@[i as int]@);
                assert(output@ =~= suggestions_heading() + numbered_lines(t));
            }
            i = i + 1;
        }
        proof {
            assert(actions.take(i as int) =~= actions);
        }
        output
    }

    /// Suggestion for an empty search string.
    pub fn empty_search() -> (r: Self)
        ensures
            r.message@ == "Empty search strings are not allowed."@,
            r.actions.deep_view() == seq!["Provide a non-empty string to search for"@],
    {
        let mut actions: Vec<String> = Vec::new();
        actions.push("Provide a non-empty string to search for".to_string());
        proof {
            assert(actions.deep_view() =~= seq!["Provide a non-empty string to search for"@]);
        }
        Suggestion { message: "Empty search strings are not allowed.".to_string(), actions }
    }

    /// Suggestion for an edit whose old and new strings are the same.
    pub fn identical_strings() -> (r: Self)
        ensures
            r.message@ == "old_string and new_string are identical."@,
            r.actions.deep_view() == seq!["No changes would be made - provide different strings"@],
    {
        let mut actions: Vec<String> = Vec::new();
        actions.push("No changes would be made - provide different strings".to_string());
        proof {
            assert(actions.deep_view() =~= seq![
                "No changes would be made - provide different strings"@,
            ]);
        }
        Suggestion { message: "old_string and new_string are identical.".to_string(), actions }
    }
}

} // verus!
