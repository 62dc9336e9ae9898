//! What holds of the cache operations together, over the directory model.
use crate::decimal::{lemma_timestamp_round_trip, parsed_timestamp, signed_text};
use crate::fs_cache::{
    apply, apply_all, expiry_in_range, expiry_of, file, invalidate_plan, is_due, lookup,
    set_plan, sweep_one, sweep_plan, CacheError, FileOp,
};
use crate::naming::{
    entry_name, expiry_name, is_cache_name, key_fingerprint, lemma_entry_name_is_not_expiry_name,
    lemma_stem_is_not_expiry_name, lemma_stem_of_expiry_name, stem_of,
};
use vstd::prelude::*;

verus! {

proof fn lemma_apply_push(d: Map<Seq<u8>, Seq<u8>>, ops: Seq<FileOp>, op: FileOp)
    ensures
        apply_all(d, ops.push(op)) == apply(apply_all(d, ops), op),
{
    assert(ops.push(op).drop_last() =~= ops);
}

proof fn lemma_apply_one(d: Map<Seq<u8>, Seq<u8>>, op: FileOp)
    ensures
        apply_all(d, seq![op]) == apply(d, op),
{
    assert(seq![op] =~= Seq::<FileOp>::empty().push(op));
    lemma_apply_push(d, Seq::<FileOp>::empty(), op);
}

proof fn lemma_apply_concat(d: Map<Seq<u8>, Seq<u8>>, a: Seq<FileOp>, b: Seq<FileOp>)
    ensures
        apply_all(d, a + b) == apply_all(apply_all(d, a), b),
    decreases b.len(),
{
    if b.len() == 0 {
        assert(a + b =~= a);
    } else {
        assert((a + b).drop_last() =~= a + b.drop_last());
        lemma_apply_concat(d, a, b.drop_last());
    }
}

/// The directory after a write.
proof fn lemma_apply_set(d: Map<Seq<u8>, Seq<u8>>, h: u64, value: Seq<u8>, expiry: Option<int>)
    ensures
        apply_all(d, set_plan(h, value, expiry)) == (match expiry {
            Some(e) => d.remove(entry_name(h)).insert(entry_name(h), value).insert(
                expiry_name(h),
                signed_text(e),
            ),
            None => d.remove(entry_name(h)).insert(entry_name(h), value).remove(expiry_name(h)),
        }),
{
    let a = FileOp::Remove(entry_name(h));
    let b = FileOp::Write(entry_name(h), value);
    let c = match expiry {
        Some(e) => FileOp::Write(expiry_name(h), signed_text(e)),
        None => FileOp::Remove(expiry_name(h)),
    };
    assert(set_plan(h, value, expiry) =~= seq![a].push(b).push(c));
    lemma_apply_one(d, a);
    lemma_apply_push(d, seq![a], b);
    lemma_apply_push(d, seq![a].push(b), c);
}

/// A value written with no time-to-live reads back unchanged, at any time.
pub proof fn lemma_round_trip(d: Map<Seq<u8>, Seq<u8>>, key: Seq<u8>, value: Seq<u8>, at: i64)
    ensures
        lookup(apply_all(d, set_plan(key_fingerprint(key), value, None)), key_fingerprint(key), at)
            == Ok::<Option<Seq<u8>>, CacheError>(Some(value)),
{
    let h = key_fingerprint(key);
    lemma_apply_set(d, h, value, None);
    lemma_entry_name_is_not_expiry_name(h, h);
}

/// A value written at `now` with time-to-live `ttl` reads back before `now + ttl`,
/// and reads as absent from then on.
pub proof fn lemma_ttl_expiry(
    d: Map<Seq<u8>, Seq<u8>>,
    key: Seq<u8>,
    value: Seq<u8>,
    now: i64,
    ttl: u64,
    at: i64,
)
    requires
        expiry_in_range(now, Some(ttl)),
    ensures
        at < now + ttl ==> lookup(
            apply_all(d, set_plan(key_fingerprint(key), value, expiry_of(now, Some(ttl)))),
            key_fingerprint(key),
            at,
        ) == Ok::<Option<Seq<u8>>, CacheError>(Some(value)),
        at >= now + ttl ==> lookup(
            apply_all(d, set_plan(key_fingerprint(key), value, expiry_of(now, Some(ttl)))),
            key_fingerprint(key),
            at,
        ) == Ok::<Option<Seq<u8>>, CacheError>(None),
{
    let h = key_fingerprint(key);
    let e = (now + ttl) as i64;
    lemma_apply_set(d, h, value, Some(now + ttl));
    lemma_entry_name_is_not_expiry_name(h, h);
    lemma_timestamp_round_trip(e);
}

/// The directory after `n` invalidations of fingerprint `h` in a row.
pub open spec fn invalidated(d: Map<Seq<u8>, Seq<u8>>, h: u64, n: nat) -> Map<Seq<u8>, Seq<u8>>
    decreases n,
{
    if n == 0 {
        d
    } else {
        apply_all(invalidated(d, h, (n - 1) as nat), invalidate_plan(h))
    }
}

/// Invalidating a key once or many times in a row leaves the same directory,
/// in which the key reads as absent at any time since the epoch, whether or
/// not it was ever written.
pub proof fn lemma_invalidate_idempotent(d: Map<Seq<u8>, Seq<u8>>, key: Seq<u8>, n: nat, at: i64)
    requires
        n >= 1,
        at >= 0,
    ensures
        invalidated(d, key_fingerprint(key), n) == invalidated(d, key_fingerprint(key), 1),
        lookup(invalidated(d, key_fingerprint(key), n), key_fingerprint(key), at)
            == Ok::<Option<Seq<u8>>, CacheError>(None),
    decreases n,
{
    let h = key_fingerprint(key);
    let op = FileOp::Write(expiry_name(h), signed_text(0));
    lemma_apply_one(invalidated(d, h, (n - 1) as nat), op);
    lemma_apply_one(d, op);
    assert(invalidated(d, h, 0) == d);
    if n > 1 {
        lemma_invalidate_idempotent(d, key, (n - 1) as nat, at);
        assert(invalidated(d, h, n) =~= invalidated(d, h, 1));
    }
    lemma_timestamp_round_trip(0);
}

/// A second write of a key, with no time-to-live, replaces the first, whatever
/// time-to-live the first had.
pub proof fn lemma_overwrite(
    d: Map<Seq<u8>, Seq<u8>>,
    key: Seq<u8>,
    first: Seq<u8>,
    first_expiry: Option<int>,
    second: Seq<u8>,
    at: i64,
)
    ensures
        lookup(
            apply_all(
                apply_all(d, set_plan(key_fingerprint(key), first, first_expiry)),
                set_plan(key_fingerprint(key), second, None),
            ),
            key_fingerprint(key),
            at,
        ) == Ok::<Option<Seq<u8>>, CacheError>(Some(second)),
{
    lemma_round_trip(apply_all(d, set_plan(key_fingerprint(key), first, first_expiry)), key, second, at);
}

/// A key that has no files reads as absent, which is no failure; a key whose
/// expiry record holds no timestamp reads as a failure.
pub proof fn lemma_absence_is_not_failure(d: Map<Seq<u8>, Seq<u8>>, key: Seq<u8>, at: i64)
    ensures
        !d.contains_key(entry_name(key_fingerprint(key))) && !d.contains_key(
            expiry_name(key_fingerprint(key)),
        ) ==> lookup(d, key_fingerprint(key), at) == Ok::<Option<Seq<u8>>, CacheError>(None),
        d.contains_key(expiry_name(key_fingerprint(key))) && parsed_timestamp(
            d[expiry_name(key_fingerprint(key))],
        ) is None ==> lookup(d, key_fingerprint(key), at) == Err::<Option<Seq<u8>>, CacheError>(
            CacheError::CorruptExpiry,
        ),
{
}

/// A name that a sweep over `records` at `now` removes.
pub open spec fn swept(records: Seq<(Seq<u8>, Seq<u8>)>, now: i64, name: Seq<u8>) -> bool {
    exists|i: int|
        0 <= i < records.len() && is_due(#[trigger] records[i].0, records[i].1, now) && (name
            == records[i].0 || name == stem_of(records[i].0).unwrap())
}

proof fn lemma_sweep_effect(d: Map<Seq<u8>, Seq<u8>>, records: Seq<(Seq<u8>, Seq<u8>)>, now: i64)
    ensures
        forall|name: Seq<u8>|
            #[trigger] apply_all(d, sweep_plan(records, now)).contains_key(name) <==> (
            d.contains_key(name) && !swept(records, now, name)),
        forall|name: Seq<u8>|
            #[trigger] apply_all(d, sweep_plan(records, now)).contains_key(name) ==> apply_all(
                d,
                sweep_plan(records, now),
            )[name] == d[name],
    decreases records.len(),
{
    if records.len() > 0 {
        let r = records.drop_last();
        let last = records.last();
        lemma_sweep_effect(d, r, now);
        let s = sweep_one(last.0, last.1, now);
        lemma_apply_concat(d, sweep_plan(r, now), s);
        let d1 = apply_all(d, sweep_plan(r, now));
        if is_due(last.0, last.1, now) {
            let x = FileOp::Remove(stem_of(last.0).unwrap());
            let y = FileOp::Remove(last.0);
            assert(s =~= seq![x].push(y));
            lemma_apply_one(d1, x);
            lemma_apply_push(d1, seq![x], y);
        } else {
            assert(s =~= Seq::<FileOp>::empty());
        }
        assert forall|name: Seq<u8>|
            swept(records, now, name) <==> (swept(r, now, name) || (is_due(last.0, last.1, now) && (
            name == last.0 || name == stem_of(last.0).unwrap()))) by {
            if swept(records, now, name) {
                let i = choose|i: int|
                    0 <= i < records.len() && is_due(#[trigger] records[i].0, records[i].1, now)
                        && (name == records[i].0 || name == stem_of(records[i].0).unwrap());
                if i < r.len() {
                    assert(r[i] == records[i]);
                }
            }
            if swept(r, now, name) {
                let i = choose|i: int|
                    0 <= i < r.len() && is_due(#[trigger] r[i].0, r[i].1, now) && (name == r[i].0
                        || name == stem_of(r[i].0).unwrap());
                assert(records[i] == r[i]);
            }
            if is_due(last.0, last.1, now) && (name == last.0 || name == stem_of(last.0).unwrap()) {
                assert(records[records.len() - 1] == last);
            }
        }
    }
}

/// The directory holds only files that the cache names.
pub open spec fn holds_cache_files(d: Map<Seq<u8>, Seq<u8>>) -> bool {
    forall|name: Seq<u8>| d.contains_key(name) ==> is_cache_name(name)
}

/// `records` lists the expiry records of `d`, each with its contents.
pub open spec fn lists_expiry_records(d: Map<Seq<u8>, Seq<u8>>, records: Seq<(Seq<u8>, Seq<u8>)>) -> bool {
    &&& forall|i: int|
        0 <= i < records.len() ==> stem_of(#[trigger] records[i].0) is Some && d.contains_key(
            records[i].0,
        ) && d[records[i].0] == records[i].1
    &&& forall|name: Seq<u8>|
        d.contains_key(name) && stem_of(name) is Some ==> exists|i: int|
            0 <= i < records.len() && #[trigger] records[i].0 == name
}

/// A sweep removes the entry file and expiry record of a key whose expiry has
/// come, and leaves both files of every other key as they were.
pub proof fn lemma_sweep_reclaims(
    d: Map<Seq<u8>, Seq<u8>>,
    records: Seq<(Seq<u8>, Seq<u8>)>,
    now: i64,
    key: Seq<u8>,
)
    requires
        holds_cache_files(d),
        lists_expiry_records(d, records),
    ensures
        d.contains_key(expiry_name(key_fingerprint(key))) && is_due(
            expiry_name(key_fingerprint(key)),
            d[expiry_name(key_fingerprint(key))],
            now,
        ) ==> !apply_all(d, sweep_plan(records, now)).contains_key(entry_name(key_fingerprint(key)))
            && !apply_all(d, sweep_plan(records, now)).contains_key(
            expiry_name(key_fingerprint(key)),
        ),
        !(d.contains_key(expiry_name(key_fingerprint(key))) && is_due(
            expiry_name(key_fingerprint(key)),
            d[expiry_name(key_fingerprint(key))],
            now,
        )) ==> file(apply_all(d, sweep_plan(records, now)), entry_name(key_fingerprint(key)))
            == file(d, entry_name(key_fingerprint(key))) && file(
            apply_all(d, sweep_plan(records, now)),
            expiry_name(key_fingerprint(key)),
        ) == file(d, expiry_name(key_fingerprint(key))),
{
    let h = key_fingerprint(key);
    let en = entry_name(h);
    let xn = expiry_name(h);
    let d2 = apply_all(d, sweep_plan(records, now));
    lemma_sweep_effect(d, records, now);
    lemma_stem_of_expiry_name(h);
    if d.contains_key(xn) && is_due(xn, d[xn], now) {
        let i = choose|i: int| 0 <= i < records.len() && #[trigger] records[i].0 == xn;
        assert(is_due(records[i].0, records[i].1, now));
        assert(swept(records, now, xn));
        assert(swept(records, now, en));
        assert(!d2.contains_key(en));
        assert(!d2.contains_key(xn));
    } else {
        assert forall|i: int|
            0 <= i < records.len() && is_due(#[trigger] records[i].0, records[i].1, now) implies (en
            != records[i].0 && en != stem_of(records[i].0).unwrap() && xn != records[i].0 && xn
            != stem_of(records[i].0).unwrap()) by {
            let name = records[i].0;
            assert(is_cache_name(name));
            let g = choose|g: u64| name == entry_name(g) || name == expiry_name(g);
            lemma_stem_of_expiry_name(g);
            lemma_entry_name_is_not_expiry_name(h, g);
            lemma_stem_is_not_expiry_name(name, h);
            assert(name == expiry_name(g));
            if en == stem_of(name).unwrap() {
                assert(name =~= xn);
            }
        }
        assert(!swept(records, now, en));
        assert(!swept(records, now, xn));
    }
}

} // verus!
