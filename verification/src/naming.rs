//! Names built from a base name and a number.

use vstd::prelude::*;
use vstd::string::{StrSliceExecFns, StringExecFns};

verus! {

/// The decimal digit of `d`.
pub open spec fn digit_char(d: nat) -> char {
    (48 + d) as char
}

/// The decimal representation of `n`, as `Display` writes it.
pub open spec fn decimal(n: nat) -> Seq<char>
    decreases n,
{
    if n < 10 {
        seq![digit_char(n)]
    } else {
        decimal(n / 10).push(digit_char(n % 10))
    }
}

/// The digit `d` as text.
fn digit_text(d: usize) -> (r: &'static str)
    requires
        d < 10,
    ensures
        r@ == seq![digit_char(d as nat)],
{
    let digits = "0123456789";
    proof {
        reveal_strlit("0123456789");
    }
    let r = digits.substring_char(d, d + 1);
    proof {
        assert(r@ =~= seq![digit_char(d as nat)]);
    }
    r
}

/// The decimal representation of `n`.
pub fn decimal_text(n: usize) -> (r: String)
    ensures
        r@ == decimal(n as nat),
    decreases n,
{
    if n < 10 {
        String::from_str(digit_text(n))
    } else {
        let head = decimal_text(n / 10);
        head.concat(digit_text(n % 10))
    }
}

/// `{base}.{kind}_{id}`.
pub fn forge_indexed_name(base: &str, kind: &str, id: usize) -> (r: String)
    ensures
        r@ == base@ + seq!['.'] + kind@ + seq!['_'] + decimal(id as nat),
{
    let dot = ".";
    let under = "_";
    proof {
        reveal_strlit(".");
        reveal_strlit("_");
    }
    let digits = decimal_text(id);
    let r = String::from_str(base).concat(dot).concat(kind).concat(under).concat(digits.as_str());
    proof {
        assert(r@ =~= base@ + seq!['.'] + kind@ + seq!['_'] + decimal(id as nat));
    }
    r
}

} // verus!
