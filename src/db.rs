//! An in-memory multi-version store: a log of timestamped records, read as
//! of a timestamp. Versions of a key are ordered by the bytewise timestamp
//! order `ts_cmp`, the one that `bytewise_compare_ts` computes.

use vstd::prelude::*;
use vstd::slice::slice_to_vec;
use crate::order::{compare_bytes, lemma_lex_eq, lemma_lex_antisymmetric, lemma_lex_transitive_strict};
use crate::comparator::ts_cmp;
use crate::options::{Options, ReadOptions};
use crate::write_batch::{
    ColumnFamily, RecordView, WriteBatch, WriteRecord, DEFAULT_CF, records_view,
    lemma_records_view_push,
};

verus! {

#[derive(PartialEq, Eq, Structural, Debug, Clone, Copy)]
pub enum DbError {
    /// The options hold no timestamped comparator.
    NoComparator,
    /// A timestamp's length differs from the comparator's timestamp size.
    InvalidTimestampSize,
    /// A read was issued without a read timestamp.
    MissingReadTimestamp,
}

/// Whether a record is a version of `key` in `cf` that a read at `rts` sees.
pub open spec fn visible_at(r: RecordView, cf: u32, key: Seq<u8>, rts: Seq<u8>) -> bool {
    r.cf == cf && r.key == key && ts_cmp(r.ts, rts) <= 0
}

/// The version of `key` in `cf` that a read at `rts` selects: the one with
/// the largest timestamp not after `rts`; of two with one timestamp, the
/// one written last.
pub open spec fn latest_visible(log: Seq<RecordView>, cf: u32, key: Seq<u8>, rts: Seq<u8>) -> Option<RecordView>
    decreases log.len(),
{
    if log.len() == 0 {
        None
    } else {
        let rest = latest_visible(log.drop_last(), cf, key, rts);
        let r = log.last();
        if visible_at(r, cf, key, rts) && (rest is None || ts_cmp(rest->0.ts, r.ts) <= 0) {
            Some(r)
        } else {
            rest
        }
    }
}

/// The value a read of `key` in `cf` at `rts` returns; absent when no
/// version is visible or the selected one is a delete.
pub open spec fn read_at(log: Seq<RecordView>, cf: u32, key: Seq<u8>, rts: Seq<u8>) -> Option<Seq<u8>> {
    match latest_visible(log, cf, key, rts) {
        Some(r) => r.value,
        None => None,
    }
}

pub open spec fn opt_bytes(o: Option<Vec<u8>>) -> Option<Seq<u8>> {
    match o {
        Some(v) => Some(v@),
        None => None,
    }
}

/// Whether every record's timestamp is `ts_size` bytes long.
pub open spec fn ts_sizes_match(rs: Seq<RecordView>, ts_size: nat) -> bool {
    forall|i: int| 0 <= i < rs.len() ==> #[trigger] rs[i].ts.len() == ts_size
}

pub struct Db {
    name: String,
    timestamp_size: usize,
    log: Vec<WriteRecord>,
}

impl Db {
    /// Every record written, in order.
    pub closed spec fn log_view(&self) -> Seq<RecordView> {
        records_view(self.log@)
    }

    /// The timestamp size of the comparator the store was opened with.
    pub closed spec fn ts_size(&self) -> nat {
        self.timestamp_size as nat
    }

    pub closed spec fn name_view(&self) -> Seq<char> {
        self.name@
    }

    /// Opens an empty store with the timestamp size of the comparator that
    /// `opts` holds. Whatever comparisons that comparator carries, the store
    /// orders the versions of a key by the bytewise timestamp order
    /// `ts_cmp`, as `read_at` states.
    pub fn open<F, G, H>(opts: &Options<F, G, H>, name: &str) -> (r: Result<Db, DbError>)
        ensures
            match r {
                Ok(db) => {
                    &&& opts.comparator is Some
                    &&& db.ts_size() == opts.comparator->0.timestamp_size
                    &&& db.log_view() == Seq::<RecordView>::empty()
                    &&& db.name_view() == name@
                },
                Err(e) => opts.comparator is None && e == DbError::NoComparator,
            },
    {
        match &opts.comparator {
            Some(c) => {
                let db = Db { name: name.to_owned(), timestamp_size: c.timestamp_size, log: Vec::new() };
                assert(db.log_view() =~= Seq::<RecordView>::empty());
                Ok(db)
            },
            None => Err(DbError::NoComparator),
        }
    }

    pub fn name(&self) -> (r: &str)
        ensures
            r@ == self.name_view(),
    {
        self.name.as_str()
    }

    pub fn timestamp_size(&self) -> (r: usize)
        ensures
            r == self.ts_size(),
    {
        self.timestamp_size
    }

    fn append(&mut self, rec: WriteRecord) -> (r: Result<(), DbError>)
        ensures
            final(self).ts_size() == old(self).ts_size(),
            final(self).name_view() == old(self).name_view(),
            rec@.ts.len() == old(self).ts_size() ==> r is Ok && final(self).log_view() == old(
                self,
            ).log_view().push(rec@),
            rec@.ts.len() != old(self).ts_size() ==> r == Err::<(), DbError>(
                DbError::InvalidTimestampSize,
            ) && final(self).log_view() == old(self).log_view(),
    {
        if rec.ts.len() != self.timestamp_size {
            return Err(DbError::InvalidTimestampSize);
        }
        proof {
            lemma_records_view_push(self.log@, rec);
        }
        self.log.push(rec);
        Ok(())
    }

    /// Writes `value` at `key` and timestamp `ts` in `cf`; fails, changing
    /// nothing, when `ts` is not of the comparator's timestamp size.
    pub fn put_cf_with_ts(&mut self, cf: &ColumnFamily, key: &[u8], ts: &[u8], value: &[u8]) -> (r:
        Result<(), DbError>)
        ensures
            final(self).ts_size() == old(self).ts_size(),
            final(self).name_view() == old(self).name_view(),
            ts@.len() == old(self).ts_size() ==> r is Ok && final(self).log_view() == old(
                self,
            ).log_view().push(RecordView { cf: cf.id, key: key@, ts: ts@, value: Some(value@) }),
            ts@.len() != old(self).ts_size() ==> r == Err::<(), DbError>(
                DbError::InvalidTimestampSize,
            ) && final(self).log_view() == old(self).log_view(),
    {
        self.append(WriteRecord::put(cf.id, key, ts, value))
    }

    /// Deletes `key` in `cf` as of timestamp `ts`; fails, changing nothing,
    /// when `ts` is not of the comparator's timestamp size.
    pub fn delete_cf_with_ts(&mut self, cf: &ColumnFamily, key: &[u8], ts: &[u8]) -> (r: Result<
        (),
        DbError,
    >)
        ensures
            final(self).ts_size() == old(self).ts_size(),
            final(self).name_view() == old(self).name_view(),
            ts@.len() == old(self).ts_size() ==> r is Ok && final(self).log_view() == old(
                self,
            ).log_view().push(RecordView { cf: cf.id, key: key@, ts: ts@, value: None }),
            ts@.len() != old(self).ts_size() ==> r == Err::<(), DbError>(
                DbError::InvalidTimestampSize,
            ) && final(self).log_view() == old(self).log_view(),
    {
        self.append(WriteRecord::delete(cf.id, key, ts))
    }

    /// `put_cf_with_ts` in the default column family.
    pub fn put_with_ts(&mut self, key: &[u8], ts: &[u8], value: &[u8]) -> (r: Result<(), DbError>)
        ensures
            final(self).ts_size() == old(self).ts_size(),
            final(self).name_view() == old(self).name_view(),
            ts@.len() == old(self).ts_size() ==> r is Ok && final(self).log_view() == old(
                self,
            ).log_view().push(RecordView { cf: DEFAULT_CF, key: key@, ts: ts@, value: Some(value@) }),
            ts@.len() != old(self).ts_size() ==> r == Err::<(), DbError>(
                DbError::InvalidTimestampSize,
            ) && final(self).log_view() == old(self).log_view(),
    {
        self.append(WriteRecord::put(DEFAULT_CF, key, ts, value))
    }

    /// `delete_cf_with_ts` in the default column family.
    pub fn delete_with_ts(&mut self, key: &[u8], ts: &[u8]) -> (r: Result<(), DbError>)
        ensures
            final(self).ts_size() == old(self).ts_size(),
            final(self).name_view() == old(self).name_view(),
            ts@.len() == old(self).ts_size() ==> r is Ok && final(self).log_view() == old(
                self,
            ).log_view().push(RecordView { cf: DEFAULT_CF, key: key@, ts: ts@, value: None }),
            ts@.len() != old(self).ts_size() ==> r == Err::<(), DbError>(
                DbError::InvalidTimestampSize,
            ) && final(self).log_view() == old(self).log_view(),
    {
        self.append(WriteRecord::delete(DEFAULT_CF, key, ts))
    }

    /// Applies a batch atomically: all its records in order, or, when one
    /// of its timestamps is not of the comparator's size, none.
    pub fn write(&mut self, batch: WriteBatch) -> (r: Result<(), DbError>)
        ensures
            final(self).ts_size() == old(self).ts_size(),
            final(self).name_view() == old(self).name_view(),
            ts_sizes_match(batch@, old(self).ts_size()) ==> r is Ok && final(self).log_view()
                == old(self).log_view() + batch@,
            !ts_sizes_match(batch@, old(self).ts_size()) ==> r == Err::<(), DbError>(
                DbError::InvalidTimestampSize,
            ) && final(self).log_view() == old(self).log_view(),
    {
        let mut recs = batch.into_records();
        let ghost bv = records_view(recs@);
        let mut i: usize = 0;
        while i < recs.len()
            invariant
                i <= recs@.len(),
                bv == records_view(recs@),
                bv == batch@,
                forall|j: int| 0 <= j < i ==> #[trigger] bv[j].ts.len() == self.timestamp_size,
            decreases recs.len() - i,
        {
            if recs[i].ts.len() != self.timestamp_size {
                assert(bv[i as int].ts.len() != self.timestamp_size);
                return Err(DbError::InvalidTimestampSize);
            }
            i = i + 1;
        }
        let ghost old_recs = self.log@;
        let ghost moved = recs@;
        self.log.append(&mut recs);
        proof {
            assert(records_view(old_recs + moved) =~= records_view(old_recs) + records_view(moved));
        }
        Ok(())
    }

    /// Reads `key` in `cf` as of the timestamp in `ro`: the value of the
    /// version that `read_at` selects, or none.
    pub fn get_cf_opt(&self, cf: &ColumnFamily, key: &[u8], ro: &ReadOptions) -> (r: Result<
        Option<Vec<u8>>,
        DbError,
    >)
        ensures
            ro.timestamp_view() is None ==> r == Err::<Option<Vec<u8>>, DbError>(
                DbError::MissingReadTimestamp,
            ),
            ro.timestamp_view() is Some && ro.timestamp_view()->0.len() != self.ts_size() ==> r
                == Err::<Option<Vec<u8>>, DbError>(DbError::InvalidTimestampSize),
            ro.timestamp_view() is Some && ro.timestamp_view()->0.len() == self.ts_size() ==> r is Ok
                && opt_bytes(r->Ok_0) == read_at(
                self.log_view(),
                cf.id,
                key@,
                ro.timestamp_view()->0,
            ),
    {
        let t = match ro.timestamp() {
            Some(t) => t,
            None => {
                return Err(DbError::MissingReadTimestamp);
            },
        };
        if t.len() != self.timestamp_size {
            return Err(DbError::InvalidTimestampSize);
        }
        let ghost log = self.log_view();
        let mut best: Option<usize> = None;
        let mut i: usize = 0;
        while i < self.log.len()
            invariant
                i <= self.log@.len(),
                log == records_view(self.log@),
                latest_visible(log.take(i as int), cf.id, key@, t@) == match best {
                    Some(j) => Some(log[j as int]),
                    None => None::<RecordView>,
                },
                best matches Some(j) ==> j < i,
            decreases self.log.len() - i,
        {
            let r = &self.log[i];
            proof {
                assert(log.take(i + 1).drop_last() =~= log.take(i as int));
                assert(log.take(i + 1).last() == r@);
                lemma_lex_eq(r.key@, key@);
            }
            if r.cf == cf.id && compare_bytes(r.key.as_slice(), key) == 0 && compare_bytes(
                r.ts.as_slice(),
                t,
            ) <= 0 {
                let newer = match best {
                    None => true,
                    Some(j) => compare_bytes(self.log[j].ts.as_slice(), r.ts.as_slice()) <= 0,
                };
                if newer {
                    best = Some(i);
                }
            }
            i = i + 1;
        }
        assert(log.take(self.log@.len() as int) =~= log);
        match best {
            Some(j) => match &self.log[j].value {
                Some(v) => Ok(Some(slice_to_vec(v.as_slice()))),
                None => Ok(None),
            },
            None => Ok(None),
        }
    }

    /// `get_cf_opt` in the default column family.
    pub fn get_opt(&self, key: &[u8], ro: &ReadOptions) -> (r: Result<Option<Vec<u8>>, DbError>)
        ensures
            ro.timestamp_view() is None ==> r == Err::<Option<Vec<u8>>, DbError>(
                DbError::MissingReadTimestamp,
            ),
            ro.timestamp_view() is Some && ro.timestamp_view()->0.len() != self.ts_size() ==> r
                == Err::<Option<Vec<u8>>, DbError>(DbError::InvalidTimestampSize),
            ro.timestamp_view() is Some && ro.timestamp_view()->0.len() == self.ts_size() ==> r is Ok
                && opt_bytes(r->Ok_0) == read_at(
                self.log_view(),
                DEFAULT_CF,
                key@,
                ro.timestamp_view()->0,
            ),
    {
        self.get_cf_opt(&ColumnFamily { id: DEFAULT_CF }, key, ro)
    }
}

/// What a read selects, stated directly: when some version of `key` in `cf`
/// is visible at `rts`, the selected record is a visible record of the log,
/// and every other visible version has an earlier timestamp, or the same
/// one and was written before it; when none is visible, none is selected.
pub proof fn lemma_latest_visible_selects(log: Seq<RecordView>, cf: u32, key: Seq<u8>, rts: Seq<u8>)
    ensures
        match latest_visible(log, cf, key, rts) {
            Some(r) => exists|i: int|
                0 <= i < log.len() && log[i] == r && visible_at(r, cf, key, rts) && forall|j: int|
                    0 <= j < log.len() && j != i && visible_at(#[trigger] log[j], cf, key, rts) ==> ts_cmp(
                        log[j].ts,
                        r.ts,
                    ) < 0 || (log[j].ts == r.ts && j < i),
            None => forall|j: int| 0 <= j < log.len() ==> !visible_at(#[trigger] log[j], cf, key, rts),
        },
    decreases log.len(),
{
    if log.len() > 0 {
        let n = log.len() - 1;
        let init = log.drop_last();
        let x = log.last();
        lemma_latest_visible_selects(init, cf, key, rts);
        assert(forall|j: int| 0 <= j < n ==> log[j] == init[j]);
        let rest = latest_visible(init, cf, key, rts);
        if visible_at(x, cf, key, rts) && (rest is None || ts_cmp(rest->0.ts, x.ts) <= 0) {
            assert forall|j: int|
                0 <= j < log.len() && j != n && visible_at(#[trigger] log[j], cf, key, rts) implies ts_cmp(
                    log[j].ts,
                    x.ts,
                ) < 0 || (log[j].ts == x.ts && j < n) by {
                assert(init[j] == log[j]);
                let r0 = rest->0;
                let i0 = choose|i: int|
                    0 <= i < init.len() && init[i] == r0 && visible_at(r0, cf, key, rts) && forall|k: int|
                        0 <= k < init.len() && k != i && visible_at(#[trigger] init[k], cf, key, rts)
                            ==> ts_cmp(init[k].ts, r0.ts) < 0 || (init[k].ts == r0.ts && k < i);
                lemma_lex_eq(r0.ts, x.ts);
                if j != i0 {
                    lemma_lex_eq(log[j].ts, r0.ts);
                    if ts_cmp(log[j].ts, r0.ts) < 0 {
                        lemma_lex_transitive_strict(log[j].ts, r0.ts, x.ts);
                    }
                }
            }
        } else if rest is Some {
            let r0 = rest->0;
            let i0 = choose|i: int|
                0 <= i < init.len() && init[i] == r0 && visible_at(r0, cf, key, rts) && forall|k: int|
                    0 <= k < init.len() && k != i && visible_at(#[trigger] init[k], cf, key, rts)
                        ==> ts_cmp(init[k].ts, r0.ts) < 0 || (init[k].ts == r0.ts && k < i);
            lemma_lex_antisymmetric(x.ts, r0.ts);
            assert(log[i0] == r0);
            assert forall|j: int|
                0 <= j < log.len() && j != i0 && visible_at(#[trigger] log[j], cf, key, rts) implies ts_cmp(
                    log[j].ts,
                    r0.ts,
                ) < 0 || (log[j].ts == r0.ts && j < i0) by {
                if j < n {
                    assert(init[j] == log[j]);
                }
            }
        } else {
            assert forall|j: int| 0 <= j < log.len() implies !visible_at(#[trigger] log[j], cf, key, rts) by {
                if j < n {
                    assert(init[j] == log[j]);
                }
            }
        }
    }
}

/// The selected version is a visible record of the log.
proof fn lemma_latest_in_log(log: Seq<RecordView>, cf: u32, key: Seq<u8>, rts: Seq<u8>)
    ensures
        latest_visible(log, cf, key, rts) matches Some(r) ==> visible_at(r, cf, key, rts) && exists|i: int|
            0 <= i < log.len() && log[i] == r,
    decreases log.len(),
{
    if log.len() > 0 {
        let init = log.drop_last();
        lemma_latest_in_log(init, cf, key, rts);
        if latest_visible(log, cf, key, rts) != Some(log.last()) {
            if let Some(r) = latest_visible(init, cf, key, rts) {
                let i = choose|i: int| 0 <= i < init.len() && init[i] == r;
                assert(log[i] == r);
            }
        } else {
            assert(log[log.len() - 1] == log.last());
        }
    }
}

/// Records that a read at `rts` of `key` in `cf` does not see change
/// nothing it returns.
proof fn lemma_invisible_suffix(log: Seq<RecordView>, later: Seq<RecordView>, cf: u32, key: Seq<u8>, rts: Seq<u8>)
    requires
        forall|i: int| 0 <= i < later.len() ==> !visible_at(#[trigger] later[i], cf, key, rts),
    ensures
        latest_visible(log + later, cf, key, rts) == latest_visible(log, cf, key, rts),
    decreases later.len(),
{
    if later.len() == 0 {
        assert(log + later =~= log);
    } else {
        let init = later.drop_last();
        assert((log + later).drop_last() =~= log + init);
        assert((log + later).last() == later[later.len() - 1]);
        lemma_invisible_suffix(log, init, cf, key, rts);
    }
}

/// A record appended after every other version of its key with a timestamp
/// not before theirs is what a read at or after its timestamp selects.
proof fn lemma_newest_selected(log: Seq<RecordView>, rec: RecordView, rts: Seq<u8>)
    requires
        forall|i: int| 0 <= i < log.len() && (#[trigger] log[i]).cf == rec.cf && log[i].key == rec.key
            ==> ts_cmp(log[i].ts, rec.ts) <= 0,
        ts_cmp(rec.ts, rts) <= 0,
    ensures
        latest_visible(log.push(rec), rec.cf, rec.key, rts) == Some(rec),
{
    lemma_latest_in_log(log, rec.cf, rec.key, rts);
    assert(log.push(rec).drop_last() =~= log);
}

/// A value written at timestamp `t1` after every earlier version of its key
/// is what a read at any `rts` from `t1` on returns, until a later write of
/// that key with a timestamp not after `rts`.
pub proof fn lemma_read_your_write(
    log: Seq<RecordView>,
    later: Seq<RecordView>,
    cf: u32,
    key: Seq<u8>,
    t1: Seq<u8>,
    v1: Seq<u8>,
    rts: Seq<u8>,
)
    requires
        forall|i: int| 0 <= i < log.len() && (#[trigger] log[i]).cf == cf && log[i].key == key
            ==> ts_cmp(log[i].ts, t1) <= 0,
        ts_cmp(t1, rts) <= 0,
        forall|i: int| 0 <= i < later.len() && (#[trigger] later[i]).cf == cf && later[i].key == key
            ==> ts_cmp(rts, later[i].ts) < 0,
    ensures
        read_at(
            log.push(RecordView { cf, key, ts: t1, value: Some(v1) }) + later,
            cf,
            key,
            rts,
        ) == Some(v1),
{
    let rec = RecordView { cf, key, ts: t1, value: Some(v1) };
    lemma_newest_selected(log, rec, rts);
    assert forall|i: int| 0 <= i < later.len() implies !visible_at(#[trigger] later[i], cf, key, rts) by {
        if later[i].cf == cf && later[i].key == key {
            lemma_lex_antisymmetric(rts, later[i].ts);
        }
    }
    lemma_invisible_suffix(log.push(rec), later, cf, key, rts);
}

/// A delete at timestamp `t2` after every earlier version of its key hides
/// the key from reads at `t2` or later, until a later write of that key
/// with a timestamp not after the read's; reads before `t2` return what
/// they returned before the delete.
pub proof fn lemma_delete_hides(
    log: Seq<RecordView>,
    later: Seq<RecordView>,
    cf: u32,
    key: Seq<u8>,
    t2: Seq<u8>,
    rts: Seq<u8>,
)
    requires
        forall|i: int| 0 <= i < log.len() && (#[trigger] log[i]).cf == cf && log[i].key == key
            ==> ts_cmp(log[i].ts, t2) <= 0,
        forall|i: int| 0 <= i < later.len() && (#[trigger] later[i]).cf == cf && later[i].key == key
            ==> ts_cmp(rts, later[i].ts) < 0,
    ensures
        ts_cmp(t2, rts) <= 0 ==> read_at(
            log.push(RecordView { cf, key, ts: t2, value: None }) + later,
            cf,
            key,
            rts,
        ) is None,
        ts_cmp(rts, t2) < 0 ==> read_at(
            log.push(RecordView { cf, key, ts: t2, value: None }) + later,
            cf,
            key,
            rts,
        ) == read_at(log, cf, key, rts),
{
    let rec = RecordView { cf, key, ts: t2, value: None };
    assert forall|i: int| 0 <= i < later.len() implies !visible_at(#[trigger] later[i], cf, key, rts) by {
        if later[i].cf == cf && later[i].key == key {
            lemma_lex_antisymmetric(rts, later[i].ts);
        }
    }
    lemma_invisible_suffix(log.push(rec), later, cf, key, rts);
    lemma_lex_antisymmetric(rts, t2);
    if ts_cmp(t2, rts) <= 0 {
        lemma_newest_selected(log, rec, rts);
    } else {
        assert(log.push(rec).drop_last() =~= log);
    }
}

} // verus!
