//! Kinds of trace that a module can produce.

use vstd::prelude::*;
use crate::output::setting::{ArgsError, braced, braced_entries};
use crate::text::{same_text, split_char, split_on, trim_spaces, trim_text};
use vstd::string::StrSliceExecFns;

verus! {

/// Number of trace kinds.
pub const KIND_COUNT: usize = 2;

/// Kind of a trace.
#[derive(Debug, Copy, Clone, PartialEq, Eq, Structural)]
pub enum Kind {
    /// Trace built through the lifetime of a packet payload
    Payload,
    /// Trace built through a component pipeline
    Pipeline,
}

impl Kind {
    /// Position of the kind in the declaration order.
    pub open spec fn index(self) -> nat {
        match self {
            Kind::Payload => 0,
            Kind::Pipeline => 1,
        }
    }

    /// Position of the kind, used as index of its trace backend.
    pub fn as_index(&self) -> (r: usize)
        ensures
            r == self.index(),
            r < KIND_COUNT,
    {
        match self {
            Kind::Payload => 0,
            Kind::Pipeline => 1,
        }
    }

    /// Every kind, in declaration order.
    pub fn iter() -> (r: Vec<Kind>)
        ensures
            r@ == seq![Kind::Payload, Kind::Pipeline],
    {
        vec![Kind::Payload, Kind::Pipeline]
    }
}

/// A trace setting for the modules whose path matches `path`: each listed
/// kind is turned on or off.
#[derive(Debug, Clone)]
pub struct Args {
    path: String,
    kind_val: Vec<(Kind, bool)>,
}

impl Args {
    pub closed spec fn spec_path(&self) -> Seq<char> {
        self.path@
    }

    pub closed spec fn spec_kind_val(&self) -> Seq<(Kind, bool)> {
        self.kind_val@
    }

    pub fn new(path: String, kind_val: Vec<(Kind, bool)>) -> (r: Self)
        ensures
            r.spec_path() == path@,
            r.spec_kind_val() == kind_val@,
    {
        Args { path, kind_val }
    }

    /// Read a trace setting, as `trace_setting` does.
    fn read(s: &str) -> (r: Option<Result<Args, ArgsError>>)
        ensures
            match trace_setting(s@) {
                None => r is None,
                Some(Err(e)) => r == Some(Err::<Args, ArgsError>(e)),
                Some(Ok(t)) => r matches Some(Ok(a)) && a.spec_path() == t.0 && a.spec_kind_val()
                    == t.1,
            },
    {
        let parts = split_char(s, '=');
        if parts.len() != 2 {
            return Some(Err(ArgsError::Assignment));
        }
        let path = parts[0].clone();
        let items = match braced_entries(parts[1].as_str()) {
            Some(v) => v,
            None => {
                return None;
            },
        };
        match read_kind_val(&items) {
            None => None,
            Some(Err(e)) => Some(Err(e)),
            Some(Ok(kind_val)) => Some(Ok(Args { path, kind_val })),
        }
    }

    /// Whether `s` is a trace setting that reads without failing: its
    /// entries are between braces, its kinds are known and its values are
    /// booleans.
    pub fn reads(s: &str) -> (r: bool)
        ensures
            r == trace_setting_reads(s@),
    {
        Self::read(s).is_some()
    }

    /// Parse a trace setting `path={kind:bool, ...}`. A string without
    /// exactly one `=`, or with an entry that is not a pair, is refused; any
    /// other malformed setting gives `Malformed`.
    pub fn from_str(s: &str) -> (r: Result<Args, ArgsError>)
        ensures
            match trace_setting(s@) {
                Some(Ok(t)) => r matches Ok(a) && a.spec_path() == t.0 && a.spec_kind_val() == t.1,
                Some(Err(e)) => r == Err::<Args, ArgsError>(e),
                None => r == Err::<Args, ArgsError>(ArgsError::Malformed),
            },
    {
        match Self::read(s) {
            Some(r) => r,
            None => Err(ArgsError::Malformed),
        }
    }

    pub fn path(&self) -> (r: &String)
        ensures
            r@ == self.spec_path(),
    {
        &self.path
    }

    pub fn kind_val(&self) -> (r: &Vec<(Kind, bool)>)
        ensures
            r@ == self.spec_kind_val(),
    {
        &self.kind_val
    }
}

impl std::str::FromStr for Args {
    type Err = ArgsError;

    /// Parse a setting, as `Args::from_str` does.
    fn from_str(s: &str) -> Result<Args, ArgsError> {
        Args::from_str(s)
    }
}

/// The kind of that name.
pub open spec fn kind_named(s: Seq<char>) -> Option<Kind> {
    if s == "Payload"@ {
        Some(Kind::Payload)
    } else if s == "Pipeline"@ {
        Some(Kind::Pipeline)
    } else {
        None
    }
}

/// The boolean written `s` (`true` or `false`, as `str::parse` reads it).
pub open spec fn bool_named(s: Seq<char>) -> Option<bool> {
    if s == "true"@ {
        Some(true)
    } else if s == "false"@ {
        Some(false)
    } else {
        None
    }
}

/// The `Kind:bool` entries of a trace setting, read from left to right:
/// empty entries are skipped, an entry that is not a pair is refused, and an
/// unknown kind or a value that is not a boolean makes the reading fail
/// (`None`). The value is not trimmed.
pub open spec fn kind_val_items(items: Seq<Seq<char>>) -> Option<Result<Seq<(Kind, bool)>, ArgsError>>
    decreases items.len(),
{
    if items.len() == 0 {
        Some(Ok(Seq::empty()))
    } else if items[0].len() == 0 {
        kind_val_items(items.skip(1))
    } else {
        let pair = split_on(items[0], ':');
        if pair.len() != 2 {
            Some(Err(ArgsError::Pair))
        } else {
            match (kind_named(trim_spaces(pair[0])), bool_named(pair[1])) {
                (Some(k), Some(v)) => match kind_val_items(items.skip(1)) {
                    Some(Ok(rest)) => Some(Ok(seq![(k, v)] + rest)),
                    other => other,
                },
                _ => None,
            }
        }
    }
}

/// A trace setting `path={kind:bool, ...}` read as its path and entries.
/// `None` where the reading fails on a malformed part that the setting
/// syntax does not report as an error: missing braces, an unknown kind, a
/// value that is not a boolean.
pub open spec fn trace_setting(s: Seq<char>) -> Option<Result<(Seq<char>, Seq<(Kind, bool)>), ArgsError>> {
    let parts = split_on(s, '=');
    if parts.len() != 2 {
        Some(Err(ArgsError::Assignment))
    } else {
        match braced(parts[1]) {
            None => None,
            Some(items) => match kind_val_items(items) {
                None => None,
                Some(Err(e)) => Some(Err(e)),
                Some(Ok(kv)) => Some(Ok((parts[0], kv))),
            },
        }
    }
}

/// Whether `t` is a trace setting that reads without failing.
pub open spec fn trace_setting_reads(t: Seq<char>) -> bool {
    trace_setting(t) is Some
}

/// The kind named `s`.
pub fn kind_from(s: &str) -> (r: Option<Kind>)
    ensures
        r == kind_named(s@),
{
    if same_text(s, "Payload") {
        Some(Kind::Payload)
    } else if same_text(s, "Pipeline") {
        Some(Kind::Pipeline)
    } else {
        None
    }
}

/// The boolean written `s`.
pub fn bool_from(s: &str) -> (r: Option<bool>)
    ensures
        r == bool_named(s@),
{
    if same_text(s, "true") {
        Some(true)
    } else if same_text(s, "false") {
        Some(false)
    } else {
        None
    }
}

/// Read the entries, as `kind_val_items` does.
fn read_kind_val(items: &Vec<String>) -> (r: Option<Result<Vec<(Kind, bool)>, ArgsError>>)
    ensures
        match kind_val_items(items@.map_values(|x: String| x@)) {
            None => r is None,
            Some(Err(e)) => r == Some(Err::<Vec<(Kind, bool)>, ArgsError>(e)),
            Some(Ok(kv)) => r matches Some(Ok(v)) && v@ == kv,
        },
{
    let ghost iv = items@.map_values(|x: String| x@);
    let mut kv: Vec<(Kind, bool)> = Vec::new();
    let mut k: usize = 0;
    proof {
        assert(iv.skip(0) =~= iv);
    }
    while k < items.len()
        invariant
            iv == items@.map_values(|x: String| x@),
            0 <= k <= items.len(),
            kind_val_items(iv) == match kind_val_items(iv.skip(k as int)) {
                Some(Ok(rest)) => Some(Ok(kv@ + rest)),
                other => other,
            },
        decreases items.len() - k,
    {
        let ghost rest = iv.skip(k as int);
        proof {
            assert(rest[0] == items@[k as int]@);
            assert(rest.skip(1) =~= iv.skip(k + 1));
        }
        let item = items[k].as_str();
        if item.unicode_len() == 0 {
            k = k + 1;
            continue;
        }
        let pair = split_char(item, ':');
        if pair.len() != 2 {
            return Some(Err(ArgsError::Pair));
        }
        proof {
            assert(split_on(rest[0], ':')[0] == pair@[0]@);
            assert(split_on(rest[0], ':')[1] == pair@[1]@);
        }
        let kind = kind_from(trim_text(pair[0].as_str()).as_str());
        let val = bool_from(pair[1].as_str());
        match (kind, val) {
            (Some(c), Some(v)) => {
                let ghost before = kv@;
                kv.push((c, v));
                proof {
                    assert forall|tail: Seq<(Kind, bool)>| #[trigger] (kv@ + tail) == before + (seq![
                        (c, v),
                    ] + tail) by {
                        assert(kv@ + tail =~= before + (seq![(c, v)] + tail));
                    }
                }
            },
            _ => {
                return None;
            },
        }
        k = k + 1;
    }
    proof {
        assert(iv.skip(k as int) =~= Seq::<Seq<char>>::empty());
        assert(kv@ + Seq::<(Kind, bool)>::empty() =~= kv@);
    }
    Some(Ok(kv))
}

/// Trace on/off state by kind index, after each setting is applied in order.
pub open spec fn trace_flags_after(flags: Seq<bool>, kind_val: Seq<(Kind, bool)>) -> Seq<bool>
    decreases kind_val.len(),
{
    if kind_val.len() == 0 {
        flags
    } else {
        trace_flags_after(flags, kind_val.drop_last()).update(
            kind_val.last().0.index() as int,
            kind_val.last().1,
        )
    }
}

/// The value that the last setting of `kind_val` for kind index `j` gives,
/// if one does.
pub open spec fn last_setting(kind_val: Seq<(Kind, bool)>, j: int) -> Option<bool>
    decreases kind_val.len(),
{
    if kind_val.len() == 0 {
        None
    } else if kind_val.last().0.index() == j {
        Some(kind_val.last().1)
    } else {
        last_setting(kind_val.drop_last(), j)
    }
}

/// After the settings, a kind holds the value of its last setting, and
/// keeps its flag when no setting names it.
pub proof fn lemma_trace_flags_at(flags: Seq<bool>, kind_val: Seq<(Kind, bool)>, j: int)
    requires
        flags.len() == KIND_COUNT,
        0 <= j < KIND_COUNT,
    ensures
        trace_flags_after(flags, kind_val).len() == KIND_COUNT,
        trace_flags_after(flags, kind_val)[j] == match last_setting(kind_val, j) {
            Some(v) => v,
            None => flags[j],
        },
    decreases kind_val.len(),
{
    if kind_val.len() > 0 {
        lemma_trace_flags_at(flags, kind_val.drop_last(), j);
    }
}

/// Applying the same trace settings twice is applying them once.
pub proof fn law_trace_settings_idempotent(flags: Seq<bool>, kind_val: Seq<(Kind, bool)>)
    requires
        flags.len() == KIND_COUNT,
    ensures
        trace_flags_after(trace_flags_after(flags, kind_val), kind_val) == trace_flags_after(
            flags,
            kind_val,
        ),
{
    let once = trace_flags_after(flags, kind_val);
    lemma_trace_flags_at(flags, kind_val, 0);
    lemma_trace_flags_at(flags, kind_val, 1);
    lemma_trace_flags_at(once, kind_val, 0);
    lemma_trace_flags_at(once, kind_val, 1);
    assert(trace_flags_after(once, kind_val) =~= once);
}

/// The name of a trace kind in a setting: the name of its variant.
pub open spec fn kind_name(k: Kind) -> Seq<char> {
    match k {
        Kind::Payload => "Payload"@,
        Kind::Pipeline => "Pipeline"@,
    }
}

/// Reading the name of a kind gives that kind back, and a text reads as a
/// kind only when it is that kind's name.
pub proof fn law_kind_names(k: Kind, s: Seq<char>)
    ensures
        kind_named(kind_name(k)) == Some(k),
        kind_named(s) == Some(k) ==> s == kind_name(k),
{
    reveal_strlit("Payload");
    reveal_strlit("Pipeline");
    assert("Payload"@[1] == 'a' && "Pipeline"@[1] == 'i');
}

/// A boolean value reads as written: `true` and `false` only.
pub proof fn law_bool_names(b: bool, s: Seq<char>)
    ensures
        bool_named(if b { "true"@ } else { "false"@ }) == Some(b),
        bool_named(s) == Some(b) ==> s == (if b { "true"@ } else { "false"@ }),
{
    reveal_strlit("true");
    reveal_strlit("false");
    assert("true"@.len() == 4 && "false"@.len() == 5);
}

/// Every kind has a place of its own among the trace flags.
pub proof fn law_kind_index(k: Kind, l: Kind)
    ensures
        k.index() < KIND_COUNT,
        k.index() == l.index() ==> k == l,
{
}

/// Trace settings apply in order, so the last one that names a kind wins:
/// with setting `j` the last for kind `k`, the flag of `k` afterwards is
/// the value of setting `j`.
pub proof fn law_last_trace_setting_wins(flags: Seq<bool>, kind_val: Seq<(Kind, bool)>, k: Kind, j: int)
    requires
        flags.len() == KIND_COUNT,
        0 <= j < kind_val.len(),
        kind_val[j].0 == k,
        forall|i: int| j < i < kind_val.len() ==> #[trigger] kind_val[i].0 != k,
    ensures
        trace_flags_after(flags, kind_val).len() == KIND_COUNT,
        trace_flags_after(flags, kind_val)[k.index() as int] == kind_val[j].1,
    decreases kind_val.len(),
{
    lemma_flags_len(flags, kind_val);
    let d = kind_val.drop_last();
    lemma_flags_len(flags, d);
    if j < kind_val.len() - 1 {
        assert(kind_val.last() == kind_val[kind_val.len() - 1]);
        law_kind_index(kind_val.last().0, k);
        assert forall|i: int| j < i < d.len() implies #[trigger] d[i].0 != k by {
            assert(d[i] == kind_val[i]);
        }
        law_last_trace_setting_wins(flags, d, k, j);
    }
}

/// A kind that no setting names keeps its flag.
pub proof fn law_unnamed_kind_keeps_flag(flags: Seq<bool>, kind_val: Seq<(Kind, bool)>, k: Kind)
    requires
        flags.len() == KIND_COUNT,
        forall|i: int| 0 <= i < kind_val.len() ==> #[trigger] kind_val[i].0 != k,
    ensures
        trace_flags_after(flags, kind_val).len() == KIND_COUNT,
        trace_flags_after(flags, kind_val)[k.index() as int] == flags[k.index() as int],
    decreases kind_val.len(),
{
    lemma_flags_len(flags, kind_val);
    if kind_val.len() > 0 {
        let d = kind_val.drop_last();
        lemma_flags_len(flags, d);
        assert(kind_val.last() == kind_val[kind_val.len() - 1]);
        law_kind_index(kind_val.last().0, k);
        assert forall|i: int| 0 <= i < d.len() implies #[trigger] d[i].0 != k by {
            assert(d[i] == kind_val[i]);
        }
        law_unnamed_kind_keeps_flag(flags, d, k);
    }
}

/// Settings keep the number of flags.
proof fn lemma_flags_len(flags: Seq<bool>, kind_val: Seq<(Kind, bool)>)
    requires
        flags.len() == KIND_COUNT,
    ensures
        trace_flags_after(flags, kind_val).len() == flags.len(),
    decreases kind_val.len(),
{
    if kind_val.len() > 0 {
        lemma_flags_len(flags, kind_val.drop_last());
        law_kind_index(kind_val.last().0, kind_val.last().0);
    }
}

} // verus!
