//! Engine configuration that holds the registered comparator, and per-read
//! options that hold the read timestamp.

use vstd::prelude::*;
use vstd::slice::slice_to_vec;
use crate::comparator::{ComparatorWithTs, valid_name};

verus! {

/// Engine configuration; `F`, `G` and `H` are the types of the installed
/// comparator's full-key, timestamp and without-timestamp comparisons.
pub struct Options<F, G, H> {
    pub comparator: Option<ComparatorWithTs<F, G, H>>,
}

impl<F, G, H> Options<F, G, H> where
    F: Fn(&[u8], &[u8]) -> libc::c_int,
    G: Fn(&[u8], &[u8]) -> libc::c_int,
    H: Fn(&[u8], bool, &[u8], bool) -> libc::c_int,
 {
    pub fn new() -> (r: Options<F, G, H>)
        ensures
            r.comparator is None,
    {
        Options { comparator: None }
    }

    /// Installs the caller's comparison policy as a timestamped comparator.
    /// A comparator installed before is released first, so the
    /// configuration holds exactly the new one.
    pub fn set_comparator_with_ts(
        &mut self,
        name: &str,
        timestamp_size: usize,
        compare_fn: F,
        compare_ts_fn: G,
        compare_without_ts_fn: H,
    )
        requires
            valid_name(name@),
        ensures
            final(self).comparator is Some,
            final(self).comparator->0.name@ == name@,
            final(self).comparator->0.timestamp_size == timestamp_size,
            final(self).comparator->0.compare_fn == compare_fn,
            final(self).comparator->0.compare_ts_fn == compare_ts_fn,
            final(self).comparator->0.compare_without_ts_fn == compare_without_ts_fn,
    {
        let cb = ComparatorWithTs::new(
            name,
            timestamp_size,
            compare_fn,
            compare_ts_fn,
            compare_without_ts_fn,
        );
        let prev = self.comparator.take();
        if let Some(p) = prev {
            p.destructor_callback();
        }
        self.comparator = Some(cb);
    }
}

impl<F, G, H> Default for Options<F, G, H> where
    F: Fn(&[u8], &[u8]) -> libc::c_int,
    G: Fn(&[u8], &[u8]) -> libc::c_int,
    H: Fn(&[u8], bool, &[u8], bool) -> libc::c_int,
 {
    fn default() -> (r: Options<F, G, H>)
        ensures
            r.comparator is None,
    {
        Options::new()
    }
}

/// Options of one read; the timestamp selects which version is visible.
pub struct ReadOptions {
    timestamp: Option<Vec<u8>>,
}

impl ReadOptions {
    /// The read timestamp, if one was set.
    pub closed spec fn timestamp_view(&self) -> Option<Seq<u8>> {
        match &self.timestamp {
            Some(t) => Some(t@),
            None => None,
        }
    }

    pub fn new() -> (r: ReadOptions)
        ensures
            r.timestamp_view() is None,
    {
        ReadOptions { timestamp: None }
    }

    /// Sets the read timestamp to a copy of `ts` owned by these options;
    /// a later call replaces it.
    pub fn set_timestamp(&mut self, ts: &[u8])
        ensures
            final(self).timestamp_view() == Some(ts@),
    {
        let owned = slice_to_vec(ts);
        self.timestamp = Some(owned);
    }

    /// The read timestamp, if one was set.
    pub fn timestamp(&self) -> (r: Option<&[u8]>)
        ensures
            match r {
                Some(t) => self.timestamp_view() == Some(t@),
                None => self.timestamp_view() is None,
            },
    {
        match &self.timestamp {
            Some(t) => Some(t.as_slice()),
            None => None,
        }
    }
}

impl Default for ReadOptions {
    fn default() -> (r: ReadOptions)
        ensures
            r.timestamp_view() is None,
    {
        ReadOptions::new()
    }
}

} // verus!
