//! The cache operations, as plans of file steps over the cache directory.
//!
//! The directory is modelled as a map from file names to contents. Each
//! operation returns the steps that carry it out, which the caller performs
//! in order; a removal of a file that is not there does nothing.
use crate::decimal::{format_timestamp, parse_timestamp, parsed_timestamp, signed_text};
use crate::naming::{
    entry_name, expiry_file_name, entry_file_name, expiry_name, expiry_stem, fingerprint,
    key_fingerprint, stem_of,
};
use vstd::prelude::*;

verus! {

/// The earliest second that chrono's `DateTime<Utc>` holds (January 1, 262143 BCE).
pub open spec fn earliest_instant() -> int {
    -8334601228800
}

/// The latest second that chrono's `DateTime<Utc>` holds (December 31, 262142 CE).
pub open spec fn latest_instant() -> int {
    8210266876799
}

/// Relies on chrono's `DateTime::from_timestamp(secs, 0)`, which returns `None`
/// exactly when the second lies outside the dates that chrono can hold.
#[verifier::external_body]
fn representable(secs: i64) -> (r: bool)
    ensures
        r == (earliest_instant() <= secs <= latest_instant()),
{
    chrono::DateTime::from_timestamp(secs, 0).is_some()
}

/// A file step, in the model of the directory.
pub enum FileOp {
    Write(Seq<u8>, Seq<u8>),
    Remove(Seq<u8>),
}

/// A file step: write a whole file, or remove one if it is there.
#[derive(Debug, Clone, PartialEq, Eq)]
pub enum Step {
    Write { name: Vec<u8>, contents: Vec<u8> },
    Remove { name: Vec<u8> },
}

impl View for Step {
    type V = FileOp;

    open spec fn view(&self) -> FileOp {
        match self {
            Step::Write { name, contents } => FileOp::Write(name@, contents@),
            Step::Remove { name } => FileOp::Remove(name@),
        }
    }
}

pub open spec fn ops_of(steps: Seq<Step>) -> Seq<FileOp> {
    steps.map_values(|s: Step| s@)
}

pub open spec fn apply(d: Map<Seq<u8>, Seq<u8>>, op: FileOp) -> Map<Seq<u8>, Seq<u8>> {
    match op {
        FileOp::Write(name, contents) => d.insert(name, contents),
        FileOp::Remove(name) => d.remove(name),
    }
}

/// The directory after the steps `ops`, in order.
pub open spec fn apply_all(d: Map<Seq<u8>, Seq<u8>>, ops: Seq<FileOp>) -> Map<Seq<u8>, Seq<u8>>
    decreases ops.len(),
{
    if ops.len() == 0 {
        d
    } else {
        apply(apply_all(d, ops.drop_last()), ops.last())
    }
}

/// Failures that the cache's own rules give; failures of storage are the caller's.
#[derive(PartialEq, Eq, Structural, Debug, Clone, Copy)]
pub enum CacheError {
    /// The expiry instant of a write lies outside the dates that can be held.
    ExpiryOutOfRange,
    /// An expiry record does not hold a timestamp.
    CorruptExpiry,
}

/// Whether an entry is to be read, or reads as absent.
#[derive(PartialEq, Eq, Structural, Debug, Clone, Copy)]
pub enum Freshness {
    Live,
    Expired,
}

/// The instant at which a write with time-to-live `ttl` seconds expires.
pub open spec fn expiry_of(now: i64, ttl: Option<u64>) -> Option<int> {
    match ttl {
        Some(t) => Some(now + t),
        None => None,
    }
}

/// A write at `now` with this time-to-live can record its expiry.
pub open spec fn expiry_in_range(now: i64, ttl: Option<u64>) -> bool {
    match ttl {
        Some(t) => earliest_instant() <= now + t <= latest_instant(),
        None => true,
    }
}

/// What a write does: the entry file is replaced by the value; the expiry
/// record holds the expiry instant, or is removed where there is none.
pub open spec fn set_plan(h: u64, value: Seq<u8>, expiry: Option<int>) -> Seq<FileOp> {
    let base = seq![FileOp::Remove(entry_name(h)), FileOp::Write(entry_name(h), value)];
    match expiry {
        Some(e) => base.push(FileOp::Write(expiry_name(h), signed_text(e))),
        None => base.push(FileOp::Remove(expiry_name(h))),
    }
}

/// What an invalidation does: the expiry record holds the epoch.
pub open spec fn invalidate_plan(h: u64) -> Seq<FileOp> {
    seq![FileOp::Write(expiry_name(h), signed_text(0))]
}

/// Whether an entry whose expiry record holds `record` (if any) reads as live at `now`.
pub open spec fn expiry_verdict(record: Option<Seq<u8>>, now: i64) -> Result<Freshness, CacheError> {
    match record {
        None => Ok(Freshness::Live),
        Some(r) => match parsed_timestamp(r) {
            None => Err(CacheError::CorruptExpiry),
            Some(e) => if e <= now {
                Ok(Freshness::Expired)
            } else {
                Ok(Freshness::Live)
            },
        },
    }
}

pub open spec fn file(d: Map<Seq<u8>, Seq<u8>>, name: Seq<u8>) -> Option<Seq<u8>> {
    if d.contains_key(name) {
        Some(d[name])
    } else {
        None
    }
}

/// What a read of fingerprint `h` gives at `now` in directory `d`: the entry's
/// bytes where it is there and not expired, `None` where it is missing or expired.
pub open spec fn lookup(d: Map<Seq<u8>, Seq<u8>>, h: u64, now: i64) -> Result<Option<Seq<u8>>, CacheError> {
    match expiry_verdict(file(d, expiry_name(h)), now) {
        Err(e) => Err(e),
        Ok(Freshness::Expired) => Ok(None),
        Ok(Freshness::Live) => Ok(file(d, entry_name(h))),
    }
}

/// A record of the directory for a sweep: a file's name and its contents.
pub open spec fn record_view(r: (Vec<u8>, Vec<u8>)) -> (Seq<u8>, Seq<u8>) {
    (r.0@, r.1@)
}

/// An expiry record whose instant has come.
pub open spec fn is_due(name: Seq<u8>, contents: Seq<u8>, now: i64) -> bool {
    &&& stem_of(name) is Some
    &&& parsed_timestamp(contents) is Some
    &&& parsed_timestamp(contents).unwrap() <= now
}

/// An expiry record that does not hold a timestamp.
pub open spec fn is_corrupt(name: Seq<u8>, contents: Seq<u8>) -> bool {
    stem_of(name) is Some && parsed_timestamp(contents) is None
}

/// The steps of a sweep for one record: a due expiry record goes, with its entry file.
pub open spec fn sweep_one(name: Seq<u8>, contents: Seq<u8>, now: i64) -> Seq<FileOp> {
    if is_due(name, contents, now) {
        seq![FileOp::Remove(stem_of(name).unwrap()), FileOp::Remove(name)]
    } else {
        seq![]
    }
}

pub open spec fn sweep_plan(records: Seq<(Seq<u8>, Seq<u8>)>, now: i64) -> Seq<FileOp>
    decreases records.len(),
{
    if records.len() == 0 {
        seq![]
    } else {
        sweep_plan(records.drop_last(), now) + sweep_one(records.last().0, records.last().1, now)
    }
}

/// The names of the corrupt expiry records, in order.
pub open spec fn corrupt_names(records: Seq<(Seq<u8>, Seq<u8>)>) -> Seq<Seq<u8>>
    decreases records.len(),
{
    if records.len() == 0 {
        seq![]
    } else if is_corrupt(records.last().0, records.last().1) {
        corrupt_names(records.drop_last()).push(records.last().0)
    } else {
        corrupt_names(records.drop_last())
    }
}

/// The outcome of a sweep: the steps that reclaim due entries, and the
/// expiry records that could not be read, which the sweep leaves in place.
#[derive(Debug, Clone, PartialEq, Eq)]
pub struct Sweep {
    pub steps: Vec<Step>,
    pub corrupt: Vec<Vec<u8>>,
}

/// A cache held in one directory.
#[derive(Debug, Clone)]
pub struct FsCache {
    cache_dir: String,
}

impl FsCache {
    pub closed spec fn dir(&self) -> Seq<char> {
        self.cache_dir@
    }

    /// A cache over the directory `cache_dir`, which the caller creates.
    pub fn new(cache_dir: String) -> (r: FsCache)
        ensures
            r.dir() == cache_dir@,
    {
        FsCache { cache_dir }
    }

    pub fn cache_dir(&self) -> (r: &String)
        ensures
            r@ == self.dir(),
    {
        &self.cache_dir
    }

    /// The name of the entry file of `key`.
    pub fn entry_file(&self, key: &[u8]) -> (r: Vec<u8>)
        ensures
            r@ == entry_name(key_fingerprint(key@)),
    {
        entry_file_name(fingerprint(key))
    }

    /// The name of the expiry record of `key`.
    pub fn expiry_file(&self, key: &[u8]) -> (r: Vec<u8>)
        ensures
            r@ == expiry_name(key_fingerprint(key@)),
    {
        expiry_file_name(fingerprint(key))
    }

    /// The steps that store `value` (its encoded bytes) under `key` at `now`,
    /// expiring `ttl` seconds later where a time-to-live is given.
    pub fn set(&self, key: &[u8], value: Vec<u8>, ttl: Option<u64>, now: i64) -> (r: Result<
        Vec<Step>,
        CacheError,
    >)
        ensures
            r is Ok <==> expiry_in_range(now, ttl),
            r is Err ==> r == Err::<Vec<Step>, CacheError>(CacheError::ExpiryOutOfRange),
            r is Ok ==> ops_of(r.unwrap()@) == set_plan(
                key_fingerprint(key@),
                value@,
                expiry_of(now, ttl),
            ),
    {
        let h = fingerprint(key);
        let last = match ttl {
            Some(t) => {
                let at = now as i128 + t as i128;
                if at > i64::MAX as i128 {
                    return Err(CacheError::ExpiryOutOfRange);
                }
                let at = at as i64;
                if !representable(at) {
                    return Err(CacheError::ExpiryOutOfRange);
                }
                Step::Write { name: expiry_file_name(h), contents: format_timestamp(at) }
            },
            None => Step::Remove { name: expiry_file_name(h) },
        };
        let mut steps: Vec<Step> = Vec::new();
        steps.push(Step::Remove { name: entry_file_name(h) });
        steps.push(Step::Write { name: entry_file_name(h), contents: value });
        steps.push(last);
        assert(ops_of(steps@) =~= set_plan(h, value@, expiry_of(now, ttl)));
        Ok(steps)
    }

    /// Whether the entry governed by the expiry record `record` (where there is
    /// one) reads as live at `now`.
    pub fn check_expiry(&self, record: Option<Vec<u8>>, now: i64) -> (r: Result<Freshness, CacheError>)
        ensures
            r == expiry_verdict(
                match record {
                    Some(b) => Some(b@),
                    None => None,
                },
                now,
            ),
    {
        match record {
            None => Ok(Freshness::Live),
            Some(bytes) => match parse_timestamp(bytes.as_slice()) {
                None => Err(CacheError::CorruptExpiry),
                Some(e) => if e <= now {
                    Ok(Freshness::Expired)
                } else {
                    Ok(Freshness::Live)
                },
            },
        }
    }

    /// The steps that make `key` read as expired from now on.
    pub fn invalidate(&self, key: &[u8]) -> (r: Vec<Step>)
        ensures
            ops_of(r@) == invalidate_plan(key_fingerprint(key@)),
    {
        let h = fingerprint(key);
        let mut steps: Vec<Step> = Vec::new();
        steps.push(Step::Write { name: expiry_file_name(h), contents: format_timestamp(0) });
        assert(ops_of(steps@) =~= invalidate_plan(h));
        steps
    }

    /// A sweep at `now` over `records`, the expiry records of the directory with
    /// their contents. Each due record is removed with its entry file; a corrupt
    /// record is reported and does not stop the sweep.
    pub fn collect_garbage(&self, records: &Vec<(Vec<u8>, Vec<u8>)>, now: i64) -> (r: Sweep)
        ensures
            ops_of(r.steps@) == sweep_plan(records@.map_values(|x| record_view(x)), now),
            r.corrupt@.map_values(|n: Vec<u8>| n@) == corrupt_names(
                records@.map_values(|x| record_view(x)),
            ),
    {
        let ghost recs = records@.map_values(|x| record_view(x));
        let mut steps: Vec<Step> = Vec::new();
        let mut corrupt: Vec<Vec<u8>> = Vec::new();
        let mut i: usize = 0;
        while i < records.len()
            invariant
                i <= records@.len(),
                recs == records@.map_values(|x| record_view(x)),
                ops_of(steps@) == sweep_plan(recs.subrange(0, i as int), now),
                corrupt@.map_values(|n: Vec<u8>| n@) == corrupt_names(recs.subrange(0, i as int)),
            decreases records@.len() - i,
        {
            let ghost before = recs.subrange(0, i as int);
            let ghost after = recs.subrange(0, i + 1);
            assert(after.drop_last() =~= before);
            let name = &records[i].0;
            let contents = &records[i].1;
            let ghost old_steps = steps@;
            let ghost old_corrupt = corrupt@;
            match expiry_stem(name.as_slice()) {
                None => {
                    assert(ops_of(steps@) =~= sweep_plan(after, now));
                },
                Some(stem) => match parse_timestamp(contents.as_slice()) {
                    None => {
                        corrupt.push(name.clone());
                        assert(corrupt@.map_values(|n: Vec<u8>| n@) =~= corrupt_names(after));
                        assert(ops_of(steps@) =~= sweep_plan(after, now));
                    },
                    Some(e) => {
                        if e <= now {
                            steps.push(Step::Remove { name: stem });
                            steps.push(Step::Remove { name: name.clone() });
                        }
                        assert(ops_of(steps@) =~= sweep_plan(after, now));
                    },
                },
            }
            i = i + 1;
        }
        assert(recs.subrange(0, records@.len() as int) =~= recs);
        Sweep { steps, corrupt }
    }
}

} // verus!
