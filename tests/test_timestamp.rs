use rocksdb_ts::comparator::{
    bytewise_compare, bytewise_compare_ts, bytewise_compare_without_ts, ComparatorWithTs,
};
use rocksdb_ts::db::{Db, DbError};
use rocksdb_ts::options::{Options, ReadOptions};
use rocksdb_ts::order::compare_bytes;
use rocksdb_ts::timestamp::{encode_timestamp, TIMESTAMP_SIZE};
use rocksdb_ts::write_batch::{ColumnFamily, WriteBatch, DEFAULT_CF};

type CompareFn = fn(&[u8], &[u8]) -> i32;
type CompareWithoutTsFn = fn(&[u8], bool, &[u8], bool) -> i32;

fn full8(a: &[u8], b: &[u8]) -> i32 {
    bytewise_compare(TIMESTAMP_SIZE, a, b)
}

fn without8(a: &[u8], a_has_ts: bool, b: &[u8], b_has_ts: bool) -> i32 {
    bytewise_compare_without_ts(TIMESTAMP_SIZE, a, a_has_ts, b, b_has_ts)
}

fn bytewise(name: &str, ts_size: usize) -> ComparatorWithTs<
    impl Fn(&[u8], &[u8]) -> i32,
    impl Fn(&[u8], &[u8]) -> i32,
    impl Fn(&[u8], bool, &[u8], bool) -> i32,
> {
    ComparatorWithTs::new(
        name,
        ts_size,
        move |a: &[u8], b: &[u8]| bytewise_compare(ts_size, a, b),
        |a: &[u8], b: &[u8]| bytewise_compare_ts(a, b),
        move |a: &[u8], ah: bool, b: &[u8], bh: bool| bytewise_compare_without_ts(ts_size, a, ah, b, bh),
    )
}

fn open_db(name: &str) -> Db {
    let mut opts: Options<CompareFn, CompareFn, CompareWithoutTsFn> = Options::default();
    opts.set_comparator_with_ts("cname", TIMESTAMP_SIZE, full8, bytewise_compare_ts, without8);
    Db::open(&opts, name).unwrap()
}

fn read(db: &Db, key: &str, ts: u64) -> Option<Vec<u8>> {
    let mut ro = ReadOptions::default();
    ro.set_timestamp(&encode_timestamp(ts));
    db.get_opt(key.as_bytes(), &ro).unwrap()
}

fn key_at(prefix: &[u8], ts: u64) -> Vec<u8> {
    let mut k = prefix.to_vec();
    k.extend_from_slice(&ts.to_be_bytes());
    k
}

#[test]
fn timestamping_works() {
    let path = "_rust_rocksdb_timestamping_works";

    let mut db_opts = Options::default();
    db_opts.set_comparator_with_ts(
        "cname",
        8,
        |a: &[u8], b: &[u8]| bytewise_compare(8, a, b),
        |a: &[u8], b: &[u8]| bytewise_compare_ts(a, b),
        |a: &[u8], ah: bool, b: &[u8], bh: bool| bytewise_compare_without_ts(8, a, ah, b, bh),
    );

    let mut db = Db::open(&db_opts, path).unwrap();

    // Write a batch at timestamp 1
    let ts1 = 1_u64.to_be_bytes();
    db.put_with_ts(b"fish", &ts1, b"tuna").unwrap();

    // Write a batch at timestamp 2
    let ts2 = 2_u64.to_be_bytes();
    db.put_with_ts(b"fish", &ts2, b"sardine").unwrap();

    // Read at timestamp 1
    let mut read_opts = ReadOptions::default();
    read_opts.set_timestamp(&ts1);

    let value = String::from_utf8(db.get_opt(b"fish", &read_opts).unwrap().unwrap()).unwrap();
    assert_eq!(value, "tuna");
}

#[test]
fn end_to_end_versions_and_tombstone() {
    let mut db = open_db("e2e");
    db.put_with_ts(b"donald", &encode_timestamp(1), b"trump").unwrap();
    db.put_with_ts(b"donald", &encode_timestamp(2), b"duck").unwrap();
    assert_eq!(read(&db, "donald", 1), Some(b"trump".to_vec()));
    assert_eq!(read(&db, "donald", 2), Some(b"duck".to_vec()));

    db.put_with_ts(b"joe", &encode_timestamp(1), b"biden").unwrap();
    db.delete_with_ts(b"joe", &encode_timestamp(2)).unwrap();
    assert_eq!(read(&db, "joe", 1), Some(b"biden".to_vec()));
    assert_eq!(read(&db, "joe", 2), None);
}

#[test]
fn round_trip_between_writes() {
    let mut db = open_db("rt");
    db.put_with_ts(b"k", &encode_timestamp(10), b"v1").unwrap();
    db.put_with_ts(b"k", &encode_timestamp(20), b"v2").unwrap();
    assert_eq!(read(&db, "k", 9), None);
    assert_eq!(read(&db, "k", 10), Some(b"v1".to_vec()));
    assert_eq!(read(&db, "k", 19), Some(b"v1".to_vec()));
    assert_eq!(read(&db, "k", 20), Some(b"v2".to_vec()));
    assert_eq!(read(&db, "k", u64::MAX), Some(b"v2".to_vec()));
    assert_eq!(read(&db, "other", 20), None);
}

#[test]
fn tombstone_hides_later_reads_only() {
    let mut db = open_db("tomb");
    db.put_with_ts(b"k", &encode_timestamp(5), b"v").unwrap();
    db.delete_with_ts(b"k", &encode_timestamp(7)).unwrap();
    assert_eq!(read(&db, "k", 6), Some(b"v".to_vec()));
    assert_eq!(read(&db, "k", 7), None);
    assert_eq!(read(&db, "k", 100), None);
}

#[test]
fn out_of_order_writes_select_largest_timestamp() {
    let mut db = open_db("ooo");
    db.put_with_ts(b"k", &encode_timestamp(3), b"three").unwrap();
    db.put_with_ts(b"k", &encode_timestamp(1), b"one").unwrap();
    assert_eq!(read(&db, "k", 2), Some(b"one".to_vec()));
    assert_eq!(read(&db, "k", 5), Some(b"three".to_vec()));
    // Same timestamp written twice: the later write wins.
    db.put_with_ts(b"k", &encode_timestamp(3), b"again").unwrap();
    assert_eq!(read(&db, "k", 3), Some(b"again".to_vec()));
}

#[test]
fn open_without_comparator_fails() {
    let opts: Options<CompareFn, CompareFn, CompareWithoutTsFn> = Options::default();
    assert_eq!(Db::open(&opts, "none").err(), Some(DbError::NoComparator));
}

#[test]
fn wrong_timestamp_size_is_rejected() {
    let mut db = open_db("size");
    assert_eq!(db.put_with_ts(b"k", &[1, 2, 3], b"v"), Err(DbError::InvalidTimestampSize));
    assert_eq!(db.delete_with_ts(b"k", &[]), Err(DbError::InvalidTimestampSize));
    let mut ro = ReadOptions::default();
    ro.set_timestamp(&[0, 1]);
    assert_eq!(db.get_opt(b"k", &ro), Err(DbError::InvalidTimestampSize));
    assert_eq!(read(&db, "k", 1), None);
}

#[test]
fn read_without_timestamp_fails() {
    let db = open_db("nots");
    let ro = ReadOptions::default();
    assert_eq!(db.get_opt(b"k", &ro), Err(DbError::MissingReadTimestamp));
}

#[test]
fn set_timestamp_copies_and_replaces() {
    let mut ro = ReadOptions::new();
    assert_eq!(ro.timestamp(), None);
    let mut buf = vec![1u8, 2, 3];
    ro.set_timestamp(&buf);
    buf[0] = 9;
    assert_eq!(ro.timestamp(), Some(&[1u8, 2, 3][..]));
    ro.set_timestamp(&[4, 5]);
    assert_eq!(ro.timestamp(), Some(&[4u8, 5][..]));
}

#[test]
fn write_batch_records_in_order() {
    let cf = ColumnFamily { id: 3 };
    let mut batch = WriteBatch::default();
    batch.put_cf_with_ts(&cf, b"a", &encode_timestamp(1), b"x");
    batch.delete_cf_with_ts(&cf, b"a", &encode_timestamp(2));
    assert_eq!(batch.len(), 2);
    let r0 = batch.record(0);
    assert_eq!((r0.cf, r0.key.clone(), r0.ts.clone(), r0.value.clone()), (3, b"a".to_vec(), 1u64.to_be_bytes().to_vec(), Some(b"x".to_vec())));
    let r1 = batch.record(1);
    assert_eq!((r1.cf, r1.key.clone(), r1.value.clone()), (3, b"a".to_vec(), None));
    assert_eq!(r1.ts, 2u64.to_be_bytes().to_vec());
}

#[test]
fn write_batch_applies_to_its_column_family() {
    let mut db = open_db("batch");
    let cf = ColumnFamily { id: 1 };
    let mut batch = WriteBatch::new();
    batch.put_cf_with_ts(&cf, b"a", &encode_timestamp(1), b"x");
    batch.delete_cf_with_ts(&cf, b"a", &encode_timestamp(3));
    db.write(batch).unwrap();
    let mut ro = ReadOptions::new();
    ro.set_timestamp(&encode_timestamp(2));
    assert_eq!(db.get_cf_opt(&cf, b"a", &ro), Ok(Some(b"x".to_vec())));
    assert_eq!(db.get_opt(b"a", &ro), Ok(None));
    ro.set_timestamp(&encode_timestamp(3));
    assert_eq!(db.get_cf_opt(&cf, b"a", &ro), Ok(None));
    let default_cf = ColumnFamily { id: DEFAULT_CF };
    assert_eq!(db.get_cf_opt(&default_cf, b"a", &ro), Ok(None));
}

#[test]
fn write_batch_is_atomic_on_bad_timestamp() {
    let mut db = open_db("atomic");
    let cf = ColumnFamily { id: DEFAULT_CF };
    let mut batch = WriteBatch::new();
    batch.put_cf_with_ts(&cf, b"a", &encode_timestamp(1), b"x");
    batch.put_cf_with_ts(&cf, b"b", &[1], b"y");
    assert_eq!(db.write(batch), Err(DbError::InvalidTimestampSize));
    assert_eq!(read(&db, "a", 5), None);
}

#[test]
fn comparator_orders_prefix_then_newest_first() {
    let c = bytewise("cmp", 8);
    assert_eq!(c.compare_callback(&key_at(b"a", 5), &key_at(b"b", 1)), -1);
    assert_eq!(c.compare_callback(&key_at(b"b", 1), &key_at(b"a", 5)), 1);
    assert_eq!(c.compare_callback(&key_at(b"a", 2), &key_at(b"a", 1)), -1);
    assert_eq!(c.compare_callback(&key_at(b"a", 1), &key_at(b"a", 2)), 1);
    assert_eq!(c.compare_callback(&key_at(b"a", 7), &key_at(b"a", 7)), 0);
    assert_eq!(c.compare_callback(&key_at(b"a", 300), &key_at(b"a", 256)), -1);
    assert_eq!(c.compare_callback(&key_at(b"", 1), &key_at(b"a", 1)), -1);
}

#[test]
fn comparisons_are_consistent() {
    let c = bytewise("cmp", 8);
    let a = key_at(b"same", 4);
    let b = key_at(b"same", 9);
    assert_eq!(c.compare_without_ts_callback(&a, true, &b, true), 0);
    let t = c.compare_ts_callback(&4u64.to_be_bytes(), &9u64.to_be_bytes());
    assert_eq!(t, -1);
    assert_eq!(c.compare_callback(&a, &b), -t);
    let d = key_at(b"samf", 1);
    assert_eq!(c.compare_without_ts_callback(&a, true, &d, true), -1);
    assert_eq!(c.compare_callback(&a, &d), -1);
}

#[test]
fn compare_without_ts_honours_flags() {
    let c = bytewise("cmp", 2);
    assert_eq!(c.compare_without_ts_callback(b"abXY", true, b"ab", false), 0);
    assert_eq!(c.compare_without_ts_callback(b"abXY", false, b"ab", false), 1);
    assert_eq!(c.compare_without_ts_callback(b"ab", false, b"abcZZ", true), -1);
    assert_eq!(c.compare_without_ts_callback(b"XY", true, b"", false), 0);
}

#[test]
fn total_order_on_a_set_of_keys() {
    let c = bytewise("cmp", 8);
    let keys = vec![
        key_at(b"", 0),
        key_at(b"a", u64::MAX),
        key_at(b"a", 3),
        key_at(b"a", 0),
        key_at(b"ab", 1),
        key_at(b"b", 2),
    ];
    for (i, x) in keys.iter().enumerate() {
        for (j, y) in keys.iter().enumerate() {
            let r = c.compare_callback(x, y);
            assert_eq!(r, -c.compare_callback(y, x));
            assert_eq!(r, (i as i64 - j as i64).signum() as i32);
            for z in keys.iter() {
                if r <= 0 && c.compare_callback(y, z) <= 0 {
                    assert!(c.compare_callback(x, z) <= 0);
                }
            }
        }
    }
}

#[test]
fn names_and_replacement() {
    let c = bytewise("first", 8);
    assert_eq!(c.name_callback(), "first");
    c.destructor_callback();
    let mut opts: Options<CompareFn, CompareFn, CompareWithoutTsFn> = Options::new();
    opts.set_comparator_with_ts("first", 8, full8, bytewise_compare_ts, without8);
    opts.set_comparator_with_ts("second", 4, |a, b| bytewise_compare(4, a, b), bytewise_compare_ts, |a, ah, b, bh| {
        bytewise_compare_without_ts(4, a, ah, b, bh)
    });
    let installed = opts.comparator.as_ref().unwrap();
    assert_eq!(installed.name_callback(), "second");
    assert_eq!(installed.timestamp_size, 4);
    let db = Db::open(&opts, "named").unwrap();
    assert_eq!(db.name(), "named");
    assert_eq!(db.timestamp_size(), 4);
}

#[test]
fn timestamp_encoding_is_big_endian() {
    for t in [0u64, 1, 255, 256, 0x0102_0304_0506_0708, u64::MAX] {
        assert_eq!(encode_timestamp(t), t.to_be_bytes().to_vec());
    }
    assert_eq!(TIMESTAMP_SIZE, 8);
}

#[test]
fn bytewise_compare_values() {
    assert_eq!(compare_bytes(b"", b""), 0);
    assert_eq!(compare_bytes(b"", b"a"), -1);
    assert_eq!(compare_bytes(b"ab", b"a"), 1);
    assert_eq!(compare_bytes(b"abc", b"abd"), -1);
    assert_eq!(compare_bytes(&[0, 255], &[1]), -1);
    assert_eq!(compare_bytes(b"same", b"same"), 0);
}

#[test]
fn callbacks_call_the_callers_functions() {
    let c = ComparatorWithTs::new(
        "custom",
        1,
        |a: &[u8], b: &[u8]| if a.len() < b.len() { -1 } else if a.len() > b.len() { 1 } else { 0 },
        |_a: &[u8], _b: &[u8]| 1,
        |_a: &[u8], _ah: bool, _b: &[u8], bh: bool| if bh { -1 } else { 1 },
    );
    assert_eq!(c.compare_callback(b"zz", b"aaa"), -1);
    assert_eq!(c.compare_callback(b"aaa", b"zz"), 1);
    assert_eq!(c.compare_ts_callback(b"a", b"b"), 1);
    assert_eq!(c.compare_without_ts_callback(b"a", false, b"b", true), -1);
    assert_eq!(c.compare_without_ts_callback(b"a", true, b"b", false), 1);
    assert_eq!(c.name_callback(), "custom");
}
