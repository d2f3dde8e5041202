//! What the command line settings of log and trace share: the error of a
//! malformed setting and the list of entries between braces.

use vstd::prelude::*;
use crate::text::{same_text, split_char, split_on};
use vstd::string::StrSliceExecFns;

verus! {

/// Why a setting string is refused.
#[derive(Debug, Clone, Copy, PartialEq, Eq, Structural)]
pub enum ArgsError {
    /// The string is not made of a path, one `=` and a value.
    Assignment,
    /// An entry between the braces is not made of a name, one `:` and a value.
    Pair,
    /// A part is not where the setting syntax puts it (a missing `:`,
    /// missing braces) or names an unknown verbosity, category, kind or
    /// boolean.
    Malformed,
}

/// The entries of `{a, b, ...}`: `None` when the braces are missing.
pub open spec fn braced(t: Seq<char>) -> Option<Seq<Seq<char>>> {
    if t.len() >= 2 && t[0] == '{' && t.last() == '}' {
        Some(split_on(t.subrange(1, t.len() - 1), ','))
    } else {
        None
    }
}

/// The entries between the braces of `t`, if it has them.
pub fn braced_entries(t: &str) -> (r: Option<Vec<String>>)
    ensures
        match braced(t@) {
            Some(items) => r matches Some(v) && v@.map_values(|x: String| x@) == items,
            None => r is None,
        },
{
    let n = t.unicode_len();
    if n < 2 || t.get_char(0) != '{' || t.get_char(n - 1) != '}' {
        return None;
    }
    let inner = t.substring_char(1, n - 1);
    Some(split_char(inner, ','))
}

/// Whether `t` is empty or `{}`.
pub fn no_entries(t: &str) -> (r: bool)
    ensures
        r == (t@.len() == 0 || t@ == "{}"@),
{
    t.unicode_len() == 0 || same_text(t, "{}")
}

} // verus!
