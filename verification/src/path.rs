//! Hierarchical module paths: segments separated by `::`.

use vstd::prelude::*;
use vstd::string::{StrSliceExecFns, StringExecFns};

verus! {

/// A `::` separator starts at index `i` of `s`.
pub open spec fn sep_at(s: Seq<char>, i: int) -> bool {
    0 <= i && i + 1 < s.len() && s[i] == ':' && s[i + 1] == ':'
}

/// Index of the first separator at or after `k`, or -1.
pub open spec fn first_sep(s: Seq<char>, k: int) -> int
    decreases s.len() - k,
{
    if k < 0 || k + 1 >= s.len() {
        -1
    } else if sep_at(s, k) {
        k
    } else {
        first_sep(s, k + 1)
    }
}

/// Index of the last separator that starts before `k`, or -1.
pub open spec fn last_sep_before(s: Seq<char>, k: int) -> int
    decreases k,
{
    if k <= 0 {
        -1
    } else if sep_at(s, k - 1) {
        k - 1
    } else {
        last_sep_before(s, k - 1)
    }
}

pub proof fn lemma_first_sep(s: Seq<char>, k: int)
    requires
        0 <= k,
    ensures
        first_sep(s, k) == -1 || (k <= first_sep(s, k) && sep_at(s, first_sep(s, k))),
        first_sep(s, k) == -1 ==> forall|j: int| k <= j ==> !sep_at(s, j),
        first_sep(s, k) != -1 ==> forall|j: int| k <= j < first_sep(s, k) ==> !sep_at(s, j),
    decreases s.len() - k,
{
    if k + 1 < s.len() && !sep_at(s, k) {
        lemma_first_sep(s, k + 1);
    }
}

pub proof fn lemma_last_sep_before(s: Seq<char>, k: int)
    ensures
        last_sep_before(s, k) == -1 || (0 <= last_sep_before(s, k) < k && sep_at(
            s,
            last_sep_before(s, k),
        )),
        last_sep_before(s, k) == -1 ==> forall|j: int| j < k ==> !sep_at(s, j),
        last_sep_before(s, k) != -1 ==> forall|j: int| last_sep_before(s, k) < j < k ==> !sep_at(s, j),
    decreases k,
{
    if k > 0 && !sep_at(s, k - 1) {
        lemma_last_sep_before(s, k - 1);
    }
}

/// The segments of a path, as `str::split("::")` returns them.
pub open spec fn split_sep(s: Seq<char>) -> Seq<Seq<char>>
    decreases s.len(),
{
    let i = first_sep(s, 0);
    if i < 0 {
        seq![s]
    } else {
        proof {
            lemma_first_sep(s, 0);
        }
        seq![s.take(i)] + split_sep(s.skip(i + 2))
    }
}

/// The part of a path after its last separator, as
/// `str::rsplit_once("::")` returns it, if the path has a separator.
pub open spec fn last_segment(s: Seq<char>) -> Option<Seq<char>> {
    let i = last_sep_before(s, s.len() as int);
    if i < 0 {
        None
    } else {
        Some(s.skip(i + 2))
    }
}

/// Whether `::` starts at index `i` of `s`.
fn sep_starts(s: &str, len: usize, i: usize) -> (r: bool)
    requires
        len == s@.len(),
    ensures
        r == sep_at(s@, i as int),
{
    if i < len && len - i >= 2 {
        s.get_char(i) == ':' && s.get_char(i + 1) == ':'
    } else {
        false
    }
}

/// The segments of a path separated by `::`.
pub fn split_path(path: &str) -> (r: Vec<String>)
    ensures
        r@.map_values(|x: String| x@) == split_sep(path@),
{
    let len = path.unicode_len();
    let mut res: Vec<String> = Vec::new();
    let mut start: usize = 0;
    let mut i: usize = 0;
    let ghost s = path@;
    proof {
        assert(s.skip(0) =~= s);
    }
    while i < len
        invariant
            len == s.len(),
            s == path@,
            0 <= start <= i <= len,
            forall|j: int| start <= j < i ==> !sep_at(s, j),
            res@.map_values(|x: String| x@) + split_sep(s.skip(start as int)) == split_sep(s),
        decreases len - i,
    {
        if sep_starts(path, len, i) {
            let seg = path.substring_char(start, i);
            let seg_owned = String::from_str(seg);
            proof {
                let t = s.skip(start as int);
                lemma_first_sep(t, 0);
                assert forall|j: int| 0 <= j < (i - start) implies !sep_at(t, j) by {
                    assert(sep_at(t, j) == sep_at(s, j + start));
                }
                assert(sep_at(t, (i - start) as int)) by {
                    assert(t[i - start] == s[i as int]);
                    assert(t[i - start + 1] == s[i + 1]);
                }
                assert(first_sep(t, 0) == i - start);
                assert(t.take((i - start) as int) =~= s.subrange(start as int, i as int));
                assert(t.skip(i - start + 2) =~= s.skip(i + 2));
                assert(res@.push(seg_owned).map_values(|x: String| x@) =~= res@.map_values(
                    |x: String| x@,
                ).push(seg_owned@));
            }
            res.push(seg_owned);
            start = i + 2;
            i = i + 2;
        } else {
            i = i + 1;
        }
    }
    let last = path.substring_char(start, len);
    let last_owned = String::from_str(last);
    proof {
        let t = s.skip(start as int);
        lemma_first_sep(t, 0);
        if first_sep(t, 0) != -1 {
            let f = first_sep(t, 0);
            assert(sep_at(s, f + start)) by {
                assert(t[f] == s[f + start]);
                assert(t[f + 1] == s[f + start + 1]);
            }
        }
        assert(split_sep(t) == seq![t]);
        assert(t =~= s.subrange(start as int, len as int));
        assert(res@.push(last_owned).map_values(|x: String| x@) =~= res@.map_values(|x: String| x@)
            + split_sep(t));
    }
    res.push(last_owned);
    res
}

/// The part of a path after its last `::`, if the path has one.
pub fn path_key(path: &str) -> (r: Option<String>)
    ensures
        match last_segment(path@) {
            Some(k) => (r matches Some(x) && x@ == k),
            None => r is None,
        },
{
    let len = path.unicode_len();
    let ghost s = path@;
    let mut k: usize = len;
    while k > 0 && !sep_starts(path, len, k - 1)
        invariant
            len == s.len(),
            s == path@,
            0 <= k <= len,
            last_sep_before(s, k as int) == last_sep_before(s, len as int),
        decreases k,
    {
        k = k - 1;
    }
    if k == 0 {
        proof {
            assert(last_sep_before(s, 0) == -1);
        }
        None
    } else {
        proof {
            assert(last_sep_before(s, k as int) == k - 1);
            assert(k + 1 <= len);
        }
        let key = path.substring_char(k + 1, len);
        proof {
            assert(key@ =~= s.skip(k + 1));
        }
        Some(String::from_str(key))
    }
}

/// `parent::name`.
pub fn child_path(parent: &str, name: &str) -> (r: String)
    ensures
        r@ == parent@ + seq![':', ':'] + name@,
{
    let p = String::from_str(parent);
    let sep = String::from_str("::");
    proof {
        reveal_strlit("::");
    }
    let with_sep = p.concat(sep.as_str());
    with_sep.concat(name)
}

/// Whether a segment is the wildcard `*`.
pub fn is_wildcard(seg: &str) -> (r: bool)
    ensures
        r == (seg@ == seq!['*']),
{
    if seg.unicode_len() == 1 {
        let c = seg.get_char(0);
        proof {
            if c == '*' {
                assert(seg@ =~= seq!['*']);
            }
        }
        c == '*'
    } else {
        false
    }
}

} // verus!
