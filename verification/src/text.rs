//! Text helpers for the command line settings: splitting on a character,
//! trimming white space and comparing strings, as `str` does them.

use vstd::prelude::*;
use vstd::string::{StrSliceExecFns, StringExecFns};

verus! {

/// Index of the first `c` at or after `k` in `s`, or -1.
pub open spec fn first_of(s: Seq<char>, c: char, k: int) -> int
    decreases s.len() - k,
{
    if k < 0 || k >= s.len() {
        -1
    } else if s[k] == c {
        k
    } else {
        first_of(s, c, k + 1)
    }
}

pub proof fn lemma_first_of(s: Seq<char>, c: char, k: int)
    requires
        0 <= k,
    ensures
        first_of(s, c, k) == -1 || (k <= first_of(s, c, k) < s.len() && s[first_of(s, c, k)] == c),
        first_of(s, c, k) == -1 ==> forall|j: int| k <= j < s.len() ==> s[j] != c,
        first_of(s, c, k) != -1 ==> forall|j: int| k <= j < first_of(s, c, k) ==> s[j] != c,
    decreases s.len() - k,
{
    if k < s.len() && s[k] != c {
        lemma_first_of(s, c, k + 1);
    }
}

/// The pieces of `s` between the occurrences of `c`, as `str::split`
/// returns them.
pub open spec fn split_on(s: Seq<char>, c: char) -> Seq<Seq<char>>
    decreases s.len(),
{
    let i = first_of(s, c, 0);
    if i < 0 {
        seq![s]
    } else {
        proof {
            lemma_first_of(s, c, 0);
        }
        seq![s.take(i)] + split_on(s.skip(i + 1), c)
    }
}

/// The parts of `s` before and after its first `c`, as `str::split_once`
/// returns them.
pub open spec fn split_once_on(s: Seq<char>, c: char) -> Option<(Seq<char>, Seq<char>)> {
    let i = first_of(s, c, 0);
    if i < 0 {
        None
    } else {
        Some((s.take(i), s.skip(i + 1)))
    }
}

/// A white space character (the Unicode `White_Space` property that
/// `char::is_whitespace` tests).
pub open spec fn is_space(c: char) -> bool {
    let x = c as u32;
    ||| 0x09 <= x <= 0x0d
    ||| x == 0x20
    ||| x == 0x85
    ||| x == 0xa0
    ||| x == 0x1680
    ||| 0x2000 <= x <= 0x200a
    ||| x == 0x2028
    ||| x == 0x2029
    ||| x == 0x202f
    ||| x == 0x205f
    ||| x == 0x3000
}

/// Index of the first character at or after `k` that is not white space, or
/// the length.
pub open spec fn space_end(s: Seq<char>, k: int) -> int
    decreases s.len() - k,
{
    if k < 0 || k >= s.len() || !is_space(s[k]) {
        k
    } else {
        space_end(s, k + 1)
    }
}

/// Index just after the last character before `j` that is not white space,
/// or 0.
pub open spec fn space_start(s: Seq<char>, j: int) -> int
    decreases j,
{
    if j <= 0 || j > s.len() || !is_space(s[j - 1]) {
        j
    } else {
        space_start(s, j - 1)
    }
}

/// `s` without leading and trailing white space, as `str::trim` returns it.
pub open spec fn trim_spaces(s: Seq<char>) -> Seq<char> {
    let i = space_end(s, 0);
    let j = space_start(s, s.len() as int);
    if j <= i {
        Seq::empty()
    } else {
        s.subrange(i, j)
    }
}

/// Whether `c` is white space.
pub fn is_space_char(c: char) -> (r: bool)
    ensures
        r == is_space(c),
{
    let x = c as u32;
    (0x09 <= x && x <= 0x0d) || x == 0x20 || x == 0x85 || x == 0xa0 || x == 0x1680 || (0x2000 <= x
        && x <= 0x200a) || x == 0x2028 || x == 0x2029 || x == 0x202f || x == 0x205f || x == 0x3000
}

/// Whether two strings hold the same characters.
pub fn same_text(a: &str, b: &str) -> (r: bool)
    ensures
        r == (a@ == b@),
{
    let n = a.unicode_len();
    if n != b.unicode_len() {
        return false;
    }
    let mut i: usize = 0;
    while i < n
        invariant
            n == a@.len(),
            n == b@.len(),
            0 <= i <= n,
            forall|j: int| 0 <= j < i ==> a@[j] == b@[j],
        decreases n - i,
    {
        if a.get_char(i) != b.get_char(i) {
            return false;
        }
        i = i + 1;
    }
    proof {
        assert(a@ =~= b@);
    }
    true
}

/// Index of the first `c` at or after `k`, or the length.
fn find_char(s: &str, len: usize, c: char, k: usize) -> (r: usize)
    requires
        len == s@.len(),
        k <= len,
    ensures
        r <= len,
        r == len <==> first_of(s@, c, k as int) == -1,
        r < len ==> r == first_of(s@, c, k as int),
{
    let mut i: usize = k;
    while i < len
        invariant
            len == s@.len(),
            k <= i <= len,
            first_of(s@, c, i as int) == first_of(s@, c, k as int),
        decreases len - i,
    {
        if s.get_char(i) == c {
            return i;
        }
        i = i + 1;
    }
    i
}

/// The pieces of `s` between the occurrences of `c`.
pub fn split_char(s: &str, c: char) -> (r: Vec<String>)
    ensures
        r@.map_values(|x: String| x@) == split_on(s@, c),
{
    let len = s.unicode_len();
    let ghost t = s@;
    let mut res: Vec<String> = Vec::new();
    let mut start: usize = 0;
    proof {
        assert(t.skip(0) =~= t);
    }
    loop
        invariant
            len == t.len(),
            t == s@,
            0 <= start <= len,
            res@.map_values(|x: String| x@) + split_on(t.skip(start as int), c) == split_on(t, c),
        decreases len - start,
    {
        let i = find_char(s, len, c, start);
        let ghost rest = t.skip(start as int);
        proof {
            lemma_first_of(t, c, start as int);
            lemma_first_of(rest, c, 0);
            if i < len {
                assert forall|j: int| 0 <= j < i - start implies rest[j] != c by {
                    assert(rest[j] == t[j + start]);
                }
                assert(rest[i - start] == t[i as int]);
                assert(first_of(rest, c, 0) == i - start);
            } else {
                if first_of(rest, c, 0) != -1 {
                    assert(rest[first_of(rest, c, 0)] == t[first_of(rest, c, 0) + start]);
                }
                assert(first_of(rest, c, 0) == -1);
            }
        }
        let piece = String::from_str(s.substring_char(start, i));
        proof {
            assert(piece@ =~= rest.take(i - start));
            assert(res@.push(piece).map_values(|x: String| x@) =~= res@.map_values(|x: String| x@).push(
                piece@,
            ));
        }
        res.push(piece);
        if i == len {
            proof {
                assert(rest.take(i - start) =~= rest);
                assert(split_on(rest, c) == seq![rest]);
            }
            return res;
        }
        proof {
            assert(rest.skip(i - start + 1) =~= t.skip(i + 1));
        }
        start = i + 1;
    }
}

/// The parts of `s` before and after its first `c`, if it has one.
pub fn split_once_char(s: &str, c: char) -> (r: Option<(String, String)>)
    ensures
        match split_once_on(s@, c) {
            Some(p) => r matches Some(x) && x.0@ == p.0 && x.1@ == p.1,
            None => r is None,
        },
{
    let len = s.unicode_len();
    let i = find_char(s, len, c, 0);
    if i == len {
        return None;
    }
    let before = String::from_str(s.substring_char(0, i));
    let after = String::from_str(s.substring_char(i + 1, len));
    proof {
        assert(before@ =~= s@.take(i as int));
        assert(after@ =~= s@.skip(i + 1));
    }
    Some((before, after))
}

/// `s` without leading and trailing white space.
pub fn trim_text(s: &str) -> (r: String)
    ensures
        r@ == trim_spaces(s@),
{
    let len = s.unicode_len();
    let ghost t = s@;
    let mut i: usize = 0;
    while i < len && is_space_char(s.get_char(i))
        invariant
            len == t.len(),
            t == s@,
            0 <= i <= len,
            space_end(t, i as int) == space_end(t, 0),
        decreases len - i,
    {
        i = i + 1;
    }
    let mut j: usize = len;
    while j > 0 && is_space_char(s.get_char(j - 1))
        invariant
            len == t.len(),
            t == s@,
            0 <= j <= len,
            space_start(t, j as int) == space_start(t, len as int),
        decreases j,
    {
        j = j - 1;
    }
    if j <= i {
        String::new()
    } else {
        let r = String::from_str(s.substring_char(i, j));
        proof {
            assert(r@ =~= t.subrange(i as int, j as int));
        }
        r
    }
}

} // verus!
