//! How keys become file names in the cache directory.
//!
//! A key is fingerprinted with std's `DefaultHasher`; its entry file is named
//! by the decimal digits of the fingerprint, and its expiry record by the same
//! digits followed by `.expiry`.
use crate::decimal::{digits_of, format_u64, is_digit, lemma_digits_of};
use std::collections::hash_map::DefaultHasher;
use std::hash::Hasher;
use vstd::prelude::*;
use vstd::std_specs::hash::DefaultHasherAdditionalSpecFns;

verus! {

/// The bytes of `.expiry`.
pub open spec fn expiry_suffix() -> Seq<u8> {
    seq![46u8, 101u8, 120u8, 112u8, 105u8, 114u8, 121u8]
}

/// The fingerprint of a key given as bytes: `DefaultHasher` after one write of them.
pub open spec fn key_fingerprint(key: Seq<u8>) -> u64 {
    DefaultHasher::spec_finish(seq![key])
}

pub open spec fn entry_name(h: u64) -> Seq<u8> {
    digits_of(h as nat)
}

pub open spec fn expiry_name(h: u64) -> Seq<u8> {
    digits_of(h as nat) + expiry_suffix()
}

/// The name of the file that an expiry record named `name` governs: `name`
/// without its `.expiry` suffix, where it has one and something precedes it.
pub open spec fn stem_of(name: Seq<u8>) -> Option<Seq<u8>> {
    if name.len() > 7 && name.subrange(name.len() - 7, name.len() as int) == expiry_suffix() {
        Some(name.subrange(0, name.len() - 7))
    } else {
        None
    }
}

/// A name that the cache gives to one of its files.
pub open spec fn is_cache_name(name: Seq<u8>) -> bool {
    exists|h: u64| name == entry_name(h) || name == expiry_name(h)
}

/// The expiry record of a fingerprint governs its entry file.
pub proof fn lemma_stem_of_expiry_name(h: u64)
    ensures
        stem_of(expiry_name(h)) == Some(entry_name(h)),
        stem_of(entry_name(h)) is None,
{
    lemma_digits_of(h as nat);
    let d = digits_of(h as nat);
    let e = expiry_name(h);
    assert(e.subrange(e.len() - 7, e.len() as int) =~= expiry_suffix());
    assert(e.subrange(0, e.len() - 7) =~= d);
    if d.len() > 7 {
        let tail = d.subrange(d.len() - 7, d.len() as int);
        assert(is_digit(d[d.len() - 7]));
        assert(tail[0] == d[d.len() - 7]);
        assert(tail != expiry_suffix());
    }
}

/// An entry name is never an expiry name.
pub proof fn lemma_entry_name_is_not_expiry_name(a: u64, b: u64)
    ensures
        entry_name(a) != expiry_name(b),
{
    lemma_digits_of(a as nat);
    lemma_digits_of(b as nat);
    let d = digits_of(b as nat);
    let e = expiry_name(b);
    assert(e[d.len() as int] == 46u8);
    if entry_name(a) == e {
        assert(is_digit(entry_name(a)[d.len() as int]));
    }
}

/// The stem of a cache file's name is never an expiry name.
pub proof fn lemma_stem_is_not_expiry_name(name: Seq<u8>, h: u64)
    requires
        is_cache_name(name),
        stem_of(name) is Some,
    ensures
        stem_of(name).unwrap() != expiry_name(h),
{
    let g = choose|g: u64| name == entry_name(g) || name == expiry_name(g);
    lemma_stem_of_expiry_name(g);
    lemma_entry_name_is_not_expiry_name(g, h);
}

/// The fingerprint of a key.
pub fn fingerprint(key: &[u8]) -> (r: u64)
    ensures
        r == key_fingerprint(key@),
{
    let mut hasher = DefaultHasher::new();
    hasher.write(key);
    proof {
        assert(hasher@ =~= seq![key@]);
    }
    hasher.finish()
}

/// The name of the entry file for a fingerprint.
pub fn entry_file_name(h: u64) -> (r: Vec<u8>)
    ensures
        r@ == entry_name(h),
{
    format_u64(h)
}

/// The name of the expiry record for a fingerprint.
pub fn expiry_file_name(h: u64) -> (r: Vec<u8>)
    ensures
        r@ == expiry_name(h),
{
    let mut v = format_u64(h);
    v.push(46u8);
    v.push(101u8);
    v.push(120u8);
    v.push(112u8);
    v.push(105u8);
    v.push(114u8);
    v.push(121u8);
    assert(v@ =~= expiry_name(h));
    v
}

/// The entry file that the file named `name` governs, where it is an expiry record.
pub fn expiry_stem(name: &[u8]) -> (r: Option<Vec<u8>>)
    ensures
        r.is_some() == stem_of(name@).is_some(),
        r.is_some() ==> r.unwrap()@ == stem_of(name@).unwrap(),
{
    let n = name.len();
    if n <= 7 {
        return None;
    }
    let k = n - 7;
    if !(name[k] == 46u8 && name[k + 1] == 101u8 && name[k + 2] == 120u8 && name[k + 3] == 112u8
        && name[k + 4] == 105u8 && name[k + 5] == 114u8 && name[k + 6] == 121u8) {
        proof {
            let tail = name@.subrange(k as int, n as int);
            if tail == expiry_suffix() {
                assert(tail[0] == name@[k as int]);
                assert(tail[1] == name@[k + 1]);
                assert(tail[2] == name@[k + 2]);
                assert(tail[3] == name@[k + 3]);
                assert(tail[4] == name@[k + 4]);
                assert(tail[5] == name@[k + 5]);
                assert(tail[6] == name@[k + 6]);
            }
        }
        return None;
    }
    assert(name@.subrange(k as int, n as int) =~= expiry_suffix());
    let mut stem: Vec<u8> = Vec::new();
    let mut i: usize = 0;
    while i < k
        invariant
            k < name@.len(),
            i <= k,
            stem@ =~= name@.subrange(0, i as int),
        decreases k - i,
    {
        stem.push(name[i]);
        i = i + 1;
    }
    Some(stem)
}

} // verus!
