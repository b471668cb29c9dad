//! Write batches whose records each carry a key, a timestamp and, for a
//! put, a value.

use vstd::prelude::*;
use vstd::slice::slice_to_vec;

verus! {

/// A column family: an independently ordered keyspace, named by its id.
pub struct ColumnFamily {
    pub id: u32,
}

/// The id of the column family that exists in every store.
pub const DEFAULT_CF: u32 = 0;

/// One timestamped record as a value: a put when `value` is present, a
/// delete when it is absent.
pub struct RecordView {
    pub cf: u32,
    pub key: Seq<u8>,
    pub ts: Seq<u8>,
    pub value: Option<Seq<u8>>,
}

pub struct WriteRecord {
    pub cf: u32,
    pub key: Vec<u8>,
    pub ts: Vec<u8>,
    pub value: Option<Vec<u8>>,
}

impl View for WriteRecord {
    type V = RecordView;

    open spec fn view(&self) -> RecordView {
        RecordView {
            cf: self.cf,
            key: self.key@,
            ts: self.ts@,
            value: match &self.value {
                Some(v) => Some(v@),
                None => None,
            },
        }
    }
}

impl WriteRecord {
    pub fn put(cf: u32, key: &[u8], ts: &[u8], value: &[u8]) -> (r: WriteRecord)
        ensures
            r@ == (RecordView { cf, key: key@, ts: ts@, value: Some(value@) }),
    {
        WriteRecord {
            cf,
            key: slice_to_vec(key),
            ts: slice_to_vec(ts),
            value: Some(slice_to_vec(value)),
        }
    }

    pub fn delete(cf: u32, key: &[u8], ts: &[u8]) -> (r: WriteRecord)
        ensures
            r@ == (RecordView { cf, key: key@, ts: ts@, value: None }),
    {
        WriteRecord { cf, key: slice_to_vec(key), ts: slice_to_vec(ts), value: None }
    }
}

/// The views of a sequence of records, in order.
pub open spec fn records_view(rs: Seq<WriteRecord>) -> Seq<RecordView> {
    rs.map_values(|r: WriteRecord| r@)
}

pub proof fn lemma_records_view_push(rs: Seq<WriteRecord>, r: WriteRecord)
    ensures
        records_view(rs.push(r)) == records_view(rs).push(r@),
{
    assert(records_view(rs.push(r)) =~= records_view(rs).push(r@));
}

/// Records appended in order; they apply in that order once written.
pub struct WriteBatch {
    records: Vec<WriteRecord>,
}

impl View for WriteBatch {
    type V = Seq<RecordView>;

    closed spec fn view(&self) -> Seq<RecordView> {
        records_view(self.records@)
    }
}

impl WriteBatch {
    pub fn new() -> (r: WriteBatch)
        ensures
            r@ == Seq::<RecordView>::empty(),
    {
        let r = WriteBatch { records: Vec::new() };
        assert(r@ =~= Seq::<RecordView>::empty());
        r
    }

    pub fn len(&self) -> (r: usize)
        ensures
            r == self@.len(),
    {
        self.records.len()
    }

    /// The record at `i`, in order of appending.
    pub fn record(&self, i: usize) -> (r: &WriteRecord)
        requires
            i < self@.len(),
        ensures
            r@ == self@[i as int],
    {
        &self.records[i]
    }

    /// Appends a put of `value` at `key` and timestamp `ts` in `cf`.
    pub fn put_cf_with_ts(&mut self, cf: &ColumnFamily, key: &[u8], ts: &[u8], value: &[u8])
        ensures
            final(self)@ == old(self)@.push(RecordView { cf: cf.id, key: key@, ts: ts@, value: Some(value@) }),
    {
        let r = WriteRecord::put(cf.id, key, ts, value);
        proof {
            lemma_records_view_push(self.records@, r);
        }
        self.records.push(r);
    }

    /// Appends a delete of `key` at timestamp `ts` in `cf`.
    pub fn delete_cf_with_ts(&mut self, cf: &ColumnFamily, key: &[u8], ts: &[u8])
        ensures
            final(self)@ == old(self)@.push(RecordView { cf: cf.id, key: key@, ts: ts@, value: None }),
    {
        let r = WriteRecord::delete(cf.id, key, ts);
        proof {
            lemma_records_view_push(self.records@, r);
        }
        self.records.push(r);
    }

    /// Hands the records over, in order.
    pub fn into_records(self) -> (r: Vec<WriteRecord>)
        ensures
            records_view(r@) == self@,
    {
        self.records
    }
}

impl Default for WriteBatch {
    fn default() -> (r: WriteBatch)
        ensures
            r@ == Seq::<RecordView>::empty(),
    {
        WriteBatch::new()
    }
}

} // verus!
