use fs_cache::decimal::{format_timestamp, format_u64, parse_timestamp};
use fs_cache::fs_cache::{CacheError, Freshness, FsCache, Step};
use fs_cache::naming::{entry_file_name, expiry_file_name, expiry_stem, fingerprint};
use std::collections::hash_map::DefaultHasher;
use std::collections::HashMap;
use std::hash::Hasher;

type Dir = HashMap<Vec<u8>, Vec<u8>>;

const NOW: i64 = 1_700_000_000;

fn run(dir: &mut Dir, steps: Vec<Step>) {
    for step in steps {
        match step {
            Step::Write { name, contents } => {
                dir.insert(name, contents);
            }
            Step::Remove { name } => {
                dir.remove(&name);
            }
        }
    }
}

fn get(cache: &FsCache, dir: &Dir, key: &[u8], now: i64) -> Result<Option<Vec<u8>>, CacheError> {
    let record = dir.get(&cache.expiry_file(key)).cloned();
    match cache.check_expiry(record, now)? {
        Freshness::Expired => Ok(None),
        Freshness::Live => Ok(dir.get(&cache.entry_file(key)).cloned()),
    }
}

fn sweep(cache: &FsCache, dir: &mut Dir, now: i64) -> Vec<Vec<u8>> {
    let mut records: Vec<(Vec<u8>, Vec<u8>)> = Vec::new();
    for (name, contents) in dir.iter() {
        if expiry_stem(name).is_some() {
            records.push((name.clone(), contents.clone()));
        }
    }
    let result = cache.collect_garbage(&records, now);
    run(dir, result.steps);
    result.corrupt
}

fn set(cache: &FsCache, dir: &mut Dir, key: &[u8], value: &[u8], ttl: Option<u64>, now: i64) {
    let steps = cache.set(key, value.to_vec(), ttl, now).unwrap();
    run(dir, steps);
}

fn cache() -> FsCache {
    FsCache::new("cache".to_string())
}

#[test]
fn digits_of_integers() {
    assert_eq!(format_u64(0), b"0".to_vec());
    assert_eq!(format_u64(1234567890), b"1234567890".to_vec());
    assert_eq!(format_u64(u64::MAX), b"18446744073709551615".to_vec());
    assert_eq!(format_timestamp(-42), b"-42".to_vec());
    assert_eq!(format_timestamp(i64::MIN), b"-9223372036854775808".to_vec());
    assert_eq!(format_timestamp(i64::MAX), b"9223372036854775807".to_vec());
}

#[test]
fn timestamps_parse() {
    assert_eq!(parse_timestamp(b"0"), Some(0));
    assert_eq!(parse_timestamp(b"1700000000"), Some(1_700_000_000));
    assert_eq!(parse_timestamp(b"+17"), Some(17));
    assert_eq!(parse_timestamp(b"-17"), Some(-17));
    assert_eq!(parse_timestamp(b"007"), Some(7));
    assert_eq!(parse_timestamp(b"9223372036854775807"), Some(i64::MAX));
    assert_eq!(parse_timestamp(b"-9223372036854775808"), Some(i64::MIN));
}

#[test]
fn malformed_timestamps_are_refused() {
    assert_eq!(parse_timestamp(b""), None);
    assert_eq!(parse_timestamp(b"-"), None);
    assert_eq!(parse_timestamp(b"+"), None);
    assert_eq!(parse_timestamp(b"12a"), None);
    assert_eq!(parse_timestamp(b" 12"), None);
    assert_eq!(parse_timestamp(b"--1"), None);
    assert_eq!(parse_timestamp(b"9223372036854775808"), None);
    assert_eq!(parse_timestamp(b"-9223372036854775809"), None);
    assert_eq!(parse_timestamp(b"99999999999999999999999999999999"), None);
}

#[test]
fn timestamps_round_trip() {
    for t in [0i64, 1, -1, 59, 1_700_000_000, -86_400, i64::MAX, i64::MIN] {
        assert_eq!(parse_timestamp(&format_timestamp(t)), Some(t));
    }
}

#[test]
fn file_names() {
    assert_eq!(entry_file_name(123), b"123".to_vec());
    assert_eq!(expiry_file_name(123), b"123.expiry".to_vec());
    assert_eq!(expiry_stem(b"123.expiry"), Some(b"123".to_vec()));
    assert_eq!(expiry_stem(b"a.b.expiry"), Some(b"a.b".to_vec()));
    assert_eq!(expiry_stem(b".expiry"), None);
    assert_eq!(expiry_stem(b"123"), None);
    assert_eq!(expiry_stem(b"123.expirx"), None);
}

#[test]
fn fingerprint_is_default_hasher() {
    let mut hasher = DefaultHasher::new();
    hasher.write(b"user:42");
    assert_eq!(fingerprint(b"user:42"), hasher.finish());
    assert_eq!(fingerprint(b"user:42"), fingerprint(b"user:42"));
    assert_ne!(fingerprint(b"user:42"), fingerprint(b"user:43"));
    let c = cache();
    let h = fingerprint(b"user:42");
    assert_eq!(c.entry_file(b"user:42"), h.to_string().into_bytes());
    assert_eq!(c.expiry_file(b"user:42"), format!("{}.expiry", h).into_bytes());
}

#[test]
fn set_steps_without_ttl() {
    let c = cache();
    let steps = c.set(b"k", b"v".to_vec(), None, NOW).unwrap();
    assert_eq!(
        steps,
        vec![
            Step::Remove { name: c.entry_file(b"k") },
            Step::Write { name: c.entry_file(b"k"), contents: b"v".to_vec() },
            Step::Remove { name: c.expiry_file(b"k") },
        ]
    );
}

#[test]
fn set_steps_with_ttl() {
    let c = cache();
    let steps = c.set(b"k", b"v".to_vec(), Some(3600), NOW).unwrap();
    assert_eq!(
        steps[2],
        Step::Write { name: c.expiry_file(b"k"), contents: b"1700003600".to_vec() }
    );
}

#[test]
fn expiry_beyond_representable_dates_is_refused() {
    let c = cache();
    assert!(c.set(b"k", b"v".to_vec(), Some(0), 8_210_266_876_799).is_ok());
    assert_eq!(
        c.set(b"k", b"v".to_vec(), Some(1), 8_210_266_876_799),
        Err(CacheError::ExpiryOutOfRange)
    );
    assert_eq!(c.set(b"k", b"v".to_vec(), Some(u64::MAX), NOW), Err(CacheError::ExpiryOutOfRange));
    assert!(c.set(b"k", b"v".to_vec(), Some(0), -8_334_601_228_800).is_ok());
    assert_eq!(
        c.set(b"k", b"v".to_vec(), Some(0), -8_334_601_228_801),
        Err(CacheError::ExpiryOutOfRange)
    );
    assert!(c.set(b"k", b"v".to_vec(), None, i64::MAX).is_ok());
}

#[test]
fn round_trip_without_ttl() {
    let c = cache();
    let mut dir = Dir::new();
    set(&c, &mut dir, b"k", b"{\"a\":1}", None, NOW);
    assert_eq!(get(&c, &dir, b"k", NOW), Ok(Some(b"{\"a\":1}".to_vec())));
    assert_eq!(get(&c, &dir, b"k", i64::MAX), Ok(Some(b"{\"a\":1}".to_vec())));
}

#[test]
fn ttl_expiry() {
    let c = cache();
    let mut dir = Dir::new();
    set(&c, &mut dir, b"k", b"v", Some(10), NOW);
    assert_eq!(get(&c, &dir, b"k", NOW), Ok(Some(b"v".to_vec())));
    assert_eq!(get(&c, &dir, b"k", NOW + 9), Ok(Some(b"v".to_vec())));
    assert_eq!(get(&c, &dir, b"k", NOW + 10), Ok(None));
    assert_eq!(get(&c, &dir, b"k", NOW + 1000), Ok(None));
}

#[test]
fn invalidate_is_idempotent() {
    let c = cache();
    let mut dir = Dir::new();
    set(&c, &mut dir, b"k", b"v", None, NOW);
    run(&mut dir, c.invalidate(b"k"));
    let once = dir.clone();
    assert_eq!(get(&c, &dir, b"k", NOW), Ok(None));
    run(&mut dir, c.invalidate(b"k"));
    run(&mut dir, c.invalidate(b"k"));
    assert_eq!(dir, once);
    assert_eq!(get(&c, &dir, b"k", NOW), Ok(None));
    assert_eq!(dir.get(&c.entry_file(b"k")), Some(&b"v".to_vec()));
}

#[test]
fn invalidate_never_set_key() {
    let c = cache();
    let mut dir = Dir::new();
    let steps = c.invalidate(b"never");
    assert_eq!(steps, vec![Step::Write { name: c.expiry_file(b"never"), contents: b"0".to_vec() }]);
    run(&mut dir, steps);
    assert_eq!(get(&c, &dir, b"never", NOW), Ok(None));
}

#[test]
fn overwrite_replaces_value() {
    let c = cache();
    let mut dir = Dir::new();
    set(&c, &mut dir, b"k", b"one", None, NOW);
    set(&c, &mut dir, b"k", b"two", None, NOW);
    assert_eq!(get(&c, &dir, b"k", NOW), Ok(Some(b"two".to_vec())));
}

#[test]
fn write_without_ttl_clears_earlier_expiry() {
    let c = cache();
    let mut dir = Dir::new();
    set(&c, &mut dir, b"k", b"one", Some(5), NOW);
    set(&c, &mut dir, b"k", b"two", None, NOW);
    assert!(!dir.contains_key(&c.expiry_file(b"k")));
    assert_eq!(get(&c, &dir, b"k", NOW + 100), Ok(Some(b"two".to_vec())));
    run(&mut dir, c.invalidate(b"k"));
    set(&c, &mut dir, b"k", b"three", None, NOW);
    assert_eq!(get(&c, &dir, b"k", NOW), Ok(Some(b"three".to_vec())));
}

#[test]
fn write_with_ttl_replaces_earlier_expiry() {
    let c = cache();
    let mut dir = Dir::new();
    set(&c, &mut dir, b"k", b"one", Some(5), NOW);
    set(&c, &mut dir, b"k", b"two", Some(100), NOW);
    assert_eq!(get(&c, &dir, b"k", NOW + 50), Ok(Some(b"two".to_vec())));
}

#[test]
fn sweep_reclaims_due_entries_only() {
    let c = cache();
    let mut dir = Dir::new();
    set(&c, &mut dir, b"due", b"1", Some(10), NOW);
    set(&c, &mut dir, b"later", b"2", Some(1000), NOW);
    set(&c, &mut dir, b"forever", b"3", None, NOW);
    let corrupt = sweep(&c, &mut dir, NOW + 10);
    assert!(corrupt.is_empty());
    assert!(!dir.contains_key(&c.entry_file(b"due")));
    assert!(!dir.contains_key(&c.expiry_file(b"due")));
    assert_eq!(dir.get(&c.entry_file(b"later")), Some(&b"2".to_vec()));
    assert!(dir.contains_key(&c.expiry_file(b"later")));
    assert_eq!(dir.get(&c.entry_file(b"forever")), Some(&b"3".to_vec()));
    assert_eq!(dir.len(), 3);
}

#[test]
fn sweep_reports_corrupt_record_and_goes_on() {
    let c = cache();
    let mut dir = Dir::new();
    set(&c, &mut dir, b"bad", b"1", None, NOW);
    dir.insert(c.expiry_file(b"bad"), b"soon".to_vec());
    set(&c, &mut dir, b"due", b"2", Some(0), NOW);
    let corrupt = sweep(&c, &mut dir, NOW);
    assert_eq!(corrupt, vec![c.expiry_file(b"bad")]);
    assert!(!dir.contains_key(&c.entry_file(b"due")));
    assert!(dir.contains_key(&c.entry_file(b"bad")));
    assert!(dir.contains_key(&c.expiry_file(b"bad")));
}

#[test]
fn sweep_steps_for_one_record() {
    let c = cache();
    let records = vec![
        (b"7.expiry".to_vec(), b"5".to_vec()),
        (b"8.expiry".to_vec(), b"50".to_vec()),
        (b"9".to_vec(), b"1".to_vec()),
    ];
    let result = c.collect_garbage(&records, 10);
    assert_eq!(
        result.steps,
        vec![Step::Remove { name: b"7".to_vec() }, Step::Remove { name: b"7.expiry".to_vec() }]
    );
    assert!(result.corrupt.is_empty());
}

#[test]
fn absence_is_not_failure() {
    let c = cache();
    let mut dir = Dir::new();
    assert_eq!(get(&c, &dir, b"never", NOW), Ok(None));
    set(&c, &mut dir, b"k", b"v", None, NOW);
    dir.insert(c.expiry_file(b"k"), b"not a time".to_vec());
    assert_eq!(get(&c, &dir, b"k", NOW), Err(CacheError::CorruptExpiry));
    assert_eq!(c.check_expiry(None, NOW), Ok(Freshness::Live));
    assert_eq!(c.check_expiry(Some(b"x".to_vec()), NOW), Err(CacheError::CorruptExpiry));
}

#[test]
fn stored_bytes_that_do_not_decode_are_an_error() {
    let c = cache();
    let mut dir = Dir::new();
    set(&c, &mut dir, b"k", b"{not json", None, NOW);
    let bytes = get(&c, &dir, b"k", NOW).unwrap().unwrap();
    assert!(serde_json::from_slice::<serde_json::Value>(&bytes).is_err());
}

#[test]
fn user_scenario() {
    let c = cache();
    let mut dir = Dir::new();
    let key = b"user:42";
    let a = serde_json::to_vec(&serde_json::from_str::<serde_json::Value>("{\"name\":\"A\"}").unwrap())
        .unwrap();
    set(&c, &mut dir, key, &a, Some(0), NOW);
    assert_eq!(get(&c, &dir, key, NOW), Ok(None));

    let b_value = serde_json::from_str::<serde_json::Value>("{\"name\":\"B\"}").unwrap();
    let b = serde_json::to_vec(&b_value).unwrap();
    set(&c, &mut dir, key, &b, Some(3600), NOW);
    let got = get(&c, &dir, key, NOW).unwrap().unwrap();
    assert_eq!(serde_json::from_slice::<serde_json::Value>(&got).unwrap(), b_value);

    run(&mut dir, c.invalidate(key));
    assert_eq!(get(&c, &dir, key, NOW), Ok(None));

    let corrupt = sweep(&c, &mut dir, NOW);
    assert!(corrupt.is_empty());
    assert!(!dir.contains_key(&c.entry_file(key)));
    assert!(!dir.contains_key(&c.expiry_file(key)));
    assert!(dir.is_empty());
}
