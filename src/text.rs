//! Line cleaning and keyword search over lines held as bytes. Each byte stands
//! for the character of the same value (Latin-1): multi-byte encodings are not
//! decoded.

use vstd::prelude::*;
use vstd::string::StringSliceAdditionalSpecFns;

verus! {

/// A byte that survives cleaning: a tab, or any byte from the space upward.
pub open spec fn is_kept_byte(b: u8) -> bool {
    b == 9 || b >= 32
}

/// A byte that counts as white space at either end of a line: the white-space
/// characters below 256, that is tab, line feed to carriage return, space,
/// next line (0x85) and no-break space (0xA0).
pub open spec fn is_blank_byte(b: u8) -> bool {
    (9 <= b <= 13) || b == 32 || b == 0x85 || b == 0xA0
}

/// The kept bytes of `s`, in their order.
pub open spec fn kept_bytes(s: Seq<u8>) -> Seq<u8>
    decreases s.len(),
{
    if s.len() == 0 {
        s
    } else if is_kept_byte(s.last()) {
        kept_bytes(s.drop_last()).push(s.last())
    } else {
        kept_bytes(s.drop_last())
    }
}

/// `s` without its leading blanks.
pub open spec fn trim_start(s: Seq<u8>) -> Seq<u8>
    decreases s.len(),
{
    if s.len() > 0 && is_blank_byte(s[0]) {
        trim_start(s.drop_first())
    } else {
        s
    }
}

/// `s` without its trailing blanks.
pub open spec fn trim_end(s: Seq<u8>) -> Seq<u8>
    decreases s.len(),
{
    if s.len() > 0 && is_blank_byte(s.last()) {
        trim_end(s.drop_last())
    } else {
        s
    }
}

/// A raw line once cleaned: control bytes other than tab dropped, then blanks
/// trimmed from both ends.
pub open spec fn clean_line(raw: Seq<u8>) -> Seq<u8> {
    trim_end(trim_start(kept_bytes(raw)))
}

fn is_blank(b: u8) -> (r: bool)
    ensures
        r == is_blank_byte(b),
{
    (9 <= b && b <= 13) || b == 32 || b == 0x85 || b == 0xA0
}

fn keep_printable(raw: &[u8]) -> (kept: Vec<u8>)
    ensures
        kept@ == kept_bytes(raw@),
{
    let mut kept: Vec<u8> = Vec::with_capacity(raw.len());
    let mut i: usize = 0;
    while i < raw.len()
        invariant
            i <= raw@.len(),
            kept@ == kept_bytes(raw@.subrange(0, i as int)),
        decreases raw@.len() - i,
    {
        let b = raw[i];
        proof {
            assert(raw@.subrange(0, i + 1).drop_last() =~= raw@.subrange(0, i as int));
        }
        if b == 9 || b >= 32 {
            kept.push(b);
        }
        i += 1;
    }
    proof {
        assert(raw@.subrange(0, raw@.len() as int) =~= raw@);
    }
    kept
}

fn trim_blanks(kept: Vec<u8>) -> (r: Vec<u8>)
    ensures
        r@ == trim_end(trim_start(kept@)),
{
    let mut kept = kept;
    let n = kept.len();
    let mut lo: usize = 0;
    proof {
        assert(kept@.subrange(0, n as int) =~= kept@);
    }
    while lo < n && is_blank(kept[lo])
        invariant
            n == kept@.len(),
            lo <= n,
            trim_start(kept@) == trim_start(kept@.subrange(lo as int, n as int)),
        decreases n - lo,
    {
        proof {
            assert(kept@.subrange(lo as int, n as int).drop_first() =~= kept@.subrange(
                lo + 1,
                n as int,
            ));
        }
        lo += 1;
    }
    let mut hi: usize = n;
    while hi > lo && is_blank(kept[hi - 1])
        invariant
            n == kept@.len(),
            lo <= hi <= n,
            trim_start(kept@) == kept@.subrange(lo as int, n as int),
            trim_end(trim_start(kept@)) == trim_end(kept@.subrange(lo as int, hi as int)),
        decreases hi - lo,
    {
        proof {
            assert(kept@.subrange(lo as int, hi as int).drop_last() =~= kept@.subrange(
                lo as int,
                hi - 1,
            ));
        }
        hi -= 1;
    }
    kept.truncate(hi);
    let r = kept.split_off(lo);
    r
}

/// `v` without its trailing blanks.
pub fn trim_end_bytes(v: Vec<u8>) -> (r: Vec<u8>)
    ensures
        r@ == trim_end(v@),
{
    let mut v = v;
    let n = v.len();
    let mut hi: usize = n;
    proof {
        assert(v@.subrange(0, n as int) =~= v@);
    }
    while hi > 0 && is_blank(v[hi - 1])
        invariant
            n == v@.len(),
            hi <= n,
            trim_end(v@) == trim_end(v@.subrange(0, hi as int)),
        decreases hi,
    {
        proof {
            assert(v@.subrange(0, hi as int).drop_last() =~= v@.subrange(0, hi - 1));
        }
        hi -= 1;
    }
    v.truncate(hi);
    v
}

/// Cleans the bytes of a raw line.
pub fn clean_bytes(raw: &[u8]) -> (r: Vec<u8>)
    ensures
        r@ == clean_line(raw@),
{
    trim_blanks(keep_printable(raw))
}

/// Cleans a raw line: the bytes of its text, with control bytes other than tab
/// dropped and blanks trimmed from both ends.
pub fn sanitize_line(raw: &str) -> (r: Vec<u8>)
    ensures
        r@ == clean_line(raw.spec_bytes()),
{
    clean_bytes(raw.as_bytes())
}

/// Whether `key` stands in `s` at index `i`.
pub open spec fn occurs_at(s: Seq<u8>, key: Seq<u8>, i: int) -> bool {
    0 <= i && i + key.len() <= s.len() && s.subrange(i, i + key.len()) == key
}

/// The first index at or after `i` where `key` stands in `s`, if any.
pub open spec fn find_from(s: Seq<u8>, key: Seq<u8>, i: int) -> Option<int>
    decreases s.len() + 1 - i,
{
    if i < 0 || i + key.len() > s.len() {
        None
    } else if occurs_at(s, key, i) {
        Some(i)
    } else {
        find_from(s, key, i + 1)
    }
}

/// The index of the first occurrence of `key` in `s`, if any.
pub open spec fn first_occurrence(s: Seq<u8>, key: Seq<u8>) -> Option<int> {
    find_from(s, key, 0)
}

/// Whether `key` occurs anywhere in `s`.
pub open spec fn contains_key(s: Seq<u8>, key: Seq<u8>) -> bool {
    first_occurrence(s, key) is Some
}

fn key_at(s: &[u8], key: &[u8], i: usize) -> (r: bool)
    requires
        i + key@.len() <= s@.len(),
    ensures
        r == occurs_at(s@, key@, i as int),
{
    let n = s.len();
    let mut j: usize = 0;
    while j < key.len()
        invariant
            n == s@.len(),
            i + key@.len() <= s@.len(),
            j <= key@.len(),
            forall|m: int| 0 <= m < j ==> s@[i + m] == key@[m],
        decreases key@.len() - j,
    {
        if s[i + j] != key[j] {
            proof {
                assert(s@.subrange(i as int, i + key@.len())[j as int] != key@[j as int]);
            }
            return false;
        }
        j += 1;
    }
    proof {
        assert(s@.subrange(i as int, i + key@.len()) =~= key@);
    }
    true
}

/// The index of the first occurrence of `key` in `s`.
pub fn find_key(s: &[u8], key: &[u8]) -> (r: Option<usize>)
    ensures
        match r {
            Some(i) => first_occurrence(s@, key@) == Some(i as int) && i + key@.len() <= s@.len(),
            None => first_occurrence(s@, key@) is None,
        },
{
    if key.len() > s.len() {
        return None;
    }
    let last = s.len() - key.len();
    let mut i: usize = 0;
    while i <= last
        invariant
            last + key@.len() == s@.len(),
            find_from(s@, key@, 0) == find_from(s@, key@, i as int),
        decreases last + 1 - i,
    {
        if key_at(s, key, i) {
            return Some(i);
        }
        if i == last {
            proof {
                assert(find_from(s@, key@, i + 1) is None);
            }
            return None;
        }
        i += 1;
    }
    None
}

/// Whether `s` starts with `key`.
pub fn starts_with_key(s: &[u8], key: &[u8]) -> (r: bool)
    ensures
        r == occurs_at(s@, key@, 0),
{
    key.len() <= s.len() && key_at(s, key, 0)
}

/// Whether `key` occurs in `s`.
pub fn contains(s: &[u8], key: &[u8]) -> (r: bool)
    ensures
        r == contains_key(s@, key@),
{
    find_key(s, key).is_some()
}

/// A key that cleaning cannot break apart: all its bytes are kept and it
/// neither starts nor ends with a blank.
pub open spec fn survives_cleaning(key: Seq<u8>) -> bool {
    &&& key.len() > 0
    &&& forall|i: int| 0 <= i < key.len() ==> is_kept_byte(#[trigger] key[i])
    &&& !is_blank_byte(key[0])
    &&& !is_blank_byte(key.last())
}

proof fn lemma_occurs_found(s: Seq<u8>, key: Seq<u8>, j: int, i: int)
    requires
        0 <= j <= i,
        occurs_at(s, key, i),
    ensures
        find_from(s, key, j) is Some,
    decreases i - j,
{
    if !occurs_at(s, key, j) {
        lemma_occurs_found(s, key, j + 1, i);
    }
}

proof fn lemma_found_occurs(s: Seq<u8>, key: Seq<u8>, j: int)
    requires
        find_from(s, key, j) is Some,
    ensures
        occurs_at(s, key, find_from(s, key, j)->Some_0),
    decreases s.len() + 1 - j,
{
    if !(j < 0 || j + key.len() > s.len()) && !occurs_at(s, key, j) {
        lemma_found_occurs(s, key, j + 1);
    }
}

proof fn lemma_kept_concat(a: Seq<u8>, b: Seq<u8>)
    ensures
        kept_bytes(a + b) == kept_bytes(a) + kept_bytes(b),
    decreases b.len(),
{
    if b.len() == 0 {
        assert(a + b =~= a);
        assert(kept_bytes(a) + kept_bytes(b) =~= kept_bytes(a));
    } else {
        assert((a + b).drop_last() =~= a + b.drop_last());
        lemma_kept_concat(a, b.drop_last());
        if is_kept_byte(b.last()) {
            assert(kept_bytes(a) + kept_bytes(b) =~= (kept_bytes(a) + kept_bytes(b.drop_last())).push(
                b.last(),
            ));
        }
    }
}

proof fn lemma_kept_all(key: Seq<u8>)
    requires
        forall|i: int| 0 <= i < key.len() ==> is_kept_byte(#[trigger] key[i]),
    ensures
        kept_bytes(key) == key,
    decreases key.len(),
{
    if key.len() > 0 {
        assert(is_kept_byte(key[key.len() - 1]));
        lemma_kept_all(key.drop_last());
        assert(key.drop_last().push(key.last()) =~= key);
    }
}

proof fn lemma_trim_start_suffix(s: Seq<u8>, i: int)
    requires
        0 <= i < s.len(),
        !is_blank_byte(s[i]),
    ensures
        exists|j: int| 0 <= j <= i && trim_start(s) == #[trigger] s.subrange(j, s.len() as int),
    decreases s.len(),
{
    if is_blank_byte(s[0]) {
        lemma_trim_start_suffix(s.drop_first(), i - 1);
        let j = choose|j: int|
            0 <= j <= i - 1 && trim_start(s.drop_first()) == #[trigger] s.drop_first().subrange(
                j,
                s.drop_first().len() as int,
            );
        assert(s.drop_first().subrange(j, s.drop_first().len() as int) =~= s.subrange(
            j + 1,
            s.len() as int,
        ));
    } else {
        assert(s.subrange(0, s.len() as int) =~= s);
    }
}

proof fn lemma_trim_end_prefix(s: Seq<u8>, i: int)
    requires
        0 <= i < s.len(),
        !is_blank_byte(s[i]),
    ensures
        exists|e: int| i < e <= s.len() && trim_end(s) == #[trigger] s.subrange(0, e),
    decreases s.len(),
{
    if is_blank_byte(s.last()) {
        lemma_trim_end_prefix(s.drop_last(), i);
        let e = choose|e: int| i < e <= s.drop_last().len() && trim_end(s.drop_last()) == #[trigger] s.drop_last().subrange(0, e);
        assert(s.drop_last().subrange(0, e) =~= s.subrange(0, e));
    } else {
        assert(s.subrange(0, s.len() as int) =~= s);
    }
}

/// Cleaning keeps every key that it cannot break apart: where such a key
/// occurs in a raw line, it occurs in the cleaned line.
pub proof fn lemma_cleaning_keeps_key(raw: Seq<u8>, key: Seq<u8>)
    requires
        survives_cleaning(key),
        contains_key(raw, key),
    ensures
        contains_key(clean_line(raw), key),
{
    lemma_found_occurs(raw, key, 0);
    let i = first_occurrence(raw, key)->Some_0;
    let n = key.len();
    let before = raw.subrange(0, i);
    let after = raw.subrange(i + n, raw.len() as int);
    assert(raw =~= before + key + after);
    lemma_kept_concat(before + key, after);
    lemma_kept_concat(before, key);
    lemma_kept_all(key);
    let k = kept_bytes(raw);
    let at = kept_bytes(before).len() as int;
    assert(k.subrange(at, at + n) =~= key);
    assert(k[at] == key[0]);
    lemma_trim_start_suffix(k, at);
    let j = choose|j: int| 0 <= j <= at && trim_start(k) == #[trigger] k.subrange(j, k.len() as int);
    let t = trim_start(k);
    assert(t.subrange(at - j, at - j + n) =~= key);
    assert(t[at - j + n - 1] == key.last());
    lemma_trim_end_prefix(t, at - j + n - 1);
    let e = choose|e: int| at - j + n - 1 < e <= t.len() && trim_end(t) == #[trigger] t.subrange(0, e);
    assert(trim_end(t).subrange(at - j, at - j + n) =~= key);
    lemma_occurs_found(clean_line(raw), key, 0, at - j);
}

} // verus!
