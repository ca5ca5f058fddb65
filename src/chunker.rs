//! Cutting the input's records into batches of a fixed size, checking the
//! shape of each record on the way.
use vstd::prelude::*;

verus! {

/// A data row's field count differs from the header's. `row` counts data
/// rows from zero.
#[derive(Debug, Clone, Copy, PartialEq, Eq, Structural)]
pub struct RecordShapeError {
    pub row: usize,
    pub expected: usize,
    pub found: usize,
}

/// Buffers records until a batch is full.
pub struct Chunker {
    arity: usize,
    size: usize,
    pending: Vec<Vec<String>>,
    rows_seen: usize,
}

impl Chunker {
    /// The field count every record must have.
    pub closed spec fn spec_arity(&self) -> nat {
        self.arity as nat
    }

    /// The number of records in a full batch.
    pub closed spec fn spec_size(&self) -> nat {
        self.size as nat
    }

    /// The records taken since the last batch was handed out.
    pub closed spec fn spec_pending(&self) -> Seq<Seq<Seq<char>>> {
        self.pending.deep_view()
    }

    /// The number of records taken so far.
    pub closed spec fn spec_rows_seen(&self) -> nat {
        self.rows_seen as nat
    }

    /// A batch holds at least one record, and a full batch never waits.
    pub open spec fn wf(&self) -> bool {
        &&& self.spec_size() > 0
        &&& self.spec_pending().len() < self.spec_size()
    }

    pub fn new(arity: usize, size: usize) -> (r: Chunker)
        requires
            size > 0,
        ensures
            r.wf(),
            r.spec_arity() == arity,
            r.spec_size() == size,
            r.spec_pending().len() == 0,
            r.spec_rows_seen() == 0,
    {
        let r = Chunker { arity, size, pending: Vec::new(), rows_seen: 0 };
        assert(r.spec_pending() =~= Seq::<Seq<Seq<char>>>::empty());
        r
    }

    pub fn rows_seen(&self) -> (r: usize)
        ensures
            r == self.spec_rows_seen(),
    {
        self.rows_seen
    }

    /// Takes the next record. A record whose field count is not the header's
    /// is refused with its row number. Returns the batch that this record
    /// fills, if it fills one.
    pub fn push(&mut self, record: Vec<String>) -> (r: Result<Option<Vec<Vec<String>>>, RecordShapeError>)
        requires
            old(self).spec_rows_seen() < usize::MAX,
        ensures
            old(self).wf() ==> final(self).wf(),
            final(self).spec_arity() == old(self).spec_arity(),
            final(self).spec_size() == old(self).spec_size(),
            record.len() != old(self).spec_arity() <==> r is Err,
            r matches Err(e) ==> {
                &&& e.row == old(self).spec_rows_seen()
                &&& e.expected == old(self).spec_arity()
                &&& e.found == record.len()
                &&& final(self).spec_pending() == old(self).spec_pending()
                &&& final(self).spec_rows_seen() == old(self).spec_rows_seen()
            },
            r is Ok ==> final(self).spec_rows_seen() == old(self).spec_rows_seen() + 1,
            r matches Ok(Some(batch)) ==> {
                &&& batch.deep_view() == old(self).spec_pending().push(record.deep_view())
                &&& batch.len() >= old(self).spec_size()
                &&& old(self).wf() ==> batch.len() == old(self).spec_size()
                &&& final(self).spec_pending().len() == 0
            },
            r matches Ok(None) ==> {
                &&& final(self).spec_pending() == old(self).spec_pending().push(record.deep_view())
                &&& final(self).spec_pending().len() < old(self).spec_size()
            },
    {
        if record.len() != self.arity {
            return Err(RecordShapeError { row: self.rows_seen, expected: self.arity, found: record.len() });
        }
        let ghost before = self.pending.deep_view();
        let ghost rv = record.deep_view();
        self.rows_seen = self.rows_seen + 1;
        self.pending.push(record);
        assert(self.pending.deep_view() =~= before.push(rv));
        if self.pending.len() >= self.size {
            let mut batch: Vec<Vec<String>> = Vec::new();
            batch.append(&mut self.pending);
            assert(self.pending.deep_view() =~= Seq::<Seq<Seq<char>>>::empty());
            Ok(Some(batch))
        } else {
            Ok(None)
        }
    }

    /// Hands out the last, partial batch, if any record is left.
    pub fn finish(self) -> (r: Option<Vec<Vec<String>>>)
        ensures
            r is None <==> self.spec_pending().len() == 0,
            r matches Some(batch) ==> batch.deep_view() == self.spec_pending(),
    {
        if self.pending.len() == 0 {
            None
        } else {
            Some(self.pending)
        }
    }
}

} // verus!
