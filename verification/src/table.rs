//! Trace post-processing: reading a stream of delimited records, and
//! checking that the traced columns each hold values of one kind before they
//! are turned into a table.

use vstd::prelude::*;
use crate::protocol::Traceable;
use vstd::string::StringExecFns;

verus! {

/// Byte that ends a record of a trace stream.
pub const STREAM_DELIMITER: u8 = 0xA;

/// Records that fail to decode are retried with the next chunk appended at
/// most this many times.
pub const MAX_RETRY: usize = 10;

/// What reading a trace stream does after a record failed to decode.
#[derive(Debug, Clone, Copy, PartialEq, Eq, Structural)]
pub enum RetryVerdict {
    /// Append the next chunk to the record and decode again.
    Retry,
    /// Stop reading and keep the records decoded so far (the last record of
    /// a stopped simulation may be cut).
    Stop,
    /// Stop reading and report the decoding error: nothing was decoded.
    Fail,
}

/// Reading state of a trace stream: the retries of the current record and
/// the records decoded.
#[derive(Debug)]
pub struct StreamReader {
    retry: usize,
    decoded: usize,
}

impl StreamReader {
    pub closed spec fn spec_retry(&self) -> usize {
        self.retry
    }

    pub closed spec fn spec_decoded(&self) -> usize {
        self.decoded
    }

    /// A reader at the start of a stream.
    pub fn new() -> (r: Self)
        ensures
            r.spec_retry() == 0,
            r.spec_decoded() == 0,
    {
        StreamReader { retry: 0, decoded: 0 }
    }

    /// Whether the record buffer starts afresh for the next chunk: no retry
    /// is under way.
    pub fn clears_buffer(&self) -> (r: bool)
        ensures
            r == (self.spec_retry() == 0),
    {
        self.retry == 0
    }

    /// A record was decoded.
    pub fn decoded(&mut self)
        requires
            old(self).spec_decoded() < usize::MAX,
        ensures
            final(self).spec_retry() == 0,
            final(self).spec_decoded() == old(self).spec_decoded() + 1,
    {
        self.retry = 0;
        self.decoded = self.decoded + 1;
    }

    /// A record failed to decode: retry with the next chunk, unless it was
    /// retried too often.
    pub fn decode_failed(&mut self) -> (r: RetryVerdict)
        requires
            old(self).spec_retry() <= MAX_RETRY,
        ensures
            final(self).spec_retry() == old(self).spec_retry() + 1,
            final(self).spec_decoded() == old(self).spec_decoded(),
            r == if final(self).spec_retry() <= MAX_RETRY {
                RetryVerdict::Retry
            } else if old(self).spec_decoded() > 0 {
                RetryVerdict::Stop
            } else {
                RetryVerdict::Fail
            },
    {
        self.retry = self.retry + 1;
        if self.retry <= MAX_RETRY {
            RetryVerdict::Retry
        } else if self.decoded > 0 {
            RetryVerdict::Stop
        } else {
            RetryVerdict::Fail
        }
    }

    /// Number of records decoded.
    pub fn decoded_count(&self) -> (r: usize)
        ensures
            r == self.spec_decoded(),
    {
        self.decoded
    }
}

/// Kind of the values of a column.
#[derive(Debug, Clone, Copy, PartialEq, Eq, Structural)]
pub enum ColumnKind {
    Text,
    Scalar,
    Array,
    /// No value: an empty column.
    Empty,
}

/// Why a column cannot become a table column.
#[derive(Debug, Clone)]
pub enum ParserError {
    /// The column of that name holds values of several kinds.
    MixedTypes(String),
}

/// The kind of a traced value.
pub open spec fn kind_of(t: Traceable) -> ColumnKind {
    match t {
        Traceable::Text(_) => ColumnKind::Text,
        Traceable::Scalar(_) => ColumnKind::Scalar,
        Traceable::Array(_) => ColumnKind::Array,
    }
}

/// The kind of a column: that of its first value, when every value has it.
pub open spec fn column_kind_of(values: Seq<Traceable>) -> Option<ColumnKind> {
    if values.len() == 0 {
        Some(ColumnKind::Empty)
    } else if forall|i: int| 0 <= i < values.len() ==> #[trigger] kind_of(values[i]) == kind_of(values[0]) {
        Some(kind_of(values[0]))
    } else {
        None
    }
}

/// The kind of a traced value.
pub fn traceable_kind(t: &Traceable) -> (r: ColumnKind)
    ensures
        r == kind_of(*t),
{
    match t {
        Traceable::Text(_) => ColumnKind::Text,
        Traceable::Scalar(_) => ColumnKind::Scalar,
        Traceable::Array(_) => ColumnKind::Array,
    }
}

/// The kind of the column `name`; a column with values of several kinds is
/// refused.
pub fn column_kind(name: &str, values: &Vec<Traceable>) -> (r: Result<ColumnKind, ParserError>)
    ensures
        match column_kind_of(values@) {
            Some(k) => r == Ok::<ColumnKind, ParserError>(k),
            None => r matches Err(ParserError::MixedTypes(n)) && n@ == name@,
        },
{
    if values.len() == 0 {
        return Ok(ColumnKind::Empty);
    }
    let first = traceable_kind(&values[0]);
    let mut i: usize = 1;
    while i < values.len()
        invariant
            values@.len() > 0,
            first == kind_of(values@[0]),
            1 <= i <= values@.len(),
            forall|j: int| 0 <= j < i ==> #[trigger] kind_of(values@[j]) == first,
        decreases values.len() - i,
    {
        if traceable_kind(&values[i]) != first {
            proof {
                assert(kind_of(values@[i as int]) != kind_of(values@[0]));
            }
            return Err(ParserError::MixedTypes(String::from_str(name)));
        }
        i = i + 1;
    }
    Ok(first)
}

/// The kinds of the columns, in order; the first column with values of
/// several kinds is refused.
pub fn column_kinds(columns: &Vec<(String, Vec<Traceable>)>) -> (r: Result<Vec<ColumnKind>, ParserError>)
    ensures
        r matches Ok(ks) ==> ks@.len() == columns@.len() && forall|i: int|
            0 <= i < columns@.len() ==> column_kind_of(#[trigger] columns@[i].1@) == Some(ks@[i]),
        r matches Err(ParserError::MixedTypes(n)) ==> exists|i: int|
            0 <= i < columns@.len() && column_kind_of(#[trigger] columns@[i].1@) is None && n@
                == columns@[i].0@ && forall|j: int| 0 <= j < i ==> column_kind_of(#[trigger] columns@[j].1@) is Some,
        r is Ok <==> forall|i: int| 0 <= i < columns@.len() ==> column_kind_of(#[trigger] columns@[i].1@) is Some,
{
    let mut ks: Vec<ColumnKind> = Vec::new();
    let mut i: usize = 0;
    while i < columns.len()
        invariant
            0 <= i <= columns@.len(),
            ks@.len() == i,
            forall|j: int| 0 <= j < i ==> column_kind_of(#[trigger] columns@[j].1@) == Some(ks@[j]),
        decreases columns.len() - i,
    {
        match column_kind(columns[i].0.as_str(), &columns[i].1) {
            Ok(k) => {
                ks.push(k);
            },
            Err(e) => {
                return Err(e);
            },
        }
        i = i + 1;
    }
    Ok(ks)
}

} // verus!
