//! Identifier and address syntax: ids are kebab-case, addresses are `type/id`.
use vstd::prelude::*;
use crate::text::{chars_of, find_from, has_prefix, is_first_occurrence, occurs_at};

verus! {

/// A character allowed in an id: a lower-case ASCII letter, an ASCII digit or `-`.
pub open spec fn is_id_char(c: char) -> bool {
    ('a' <= c && c <= 'z') || ('0' <= c && c <= '9') || c == '-'
}

/// An id: non-empty, kebab-case `[a-z0-9-]`, not starting with `-`.
pub open spec fn is_valid_id(s: Seq<char>) -> bool {
    &&& s.len() > 0
    &&& forall|i: int| 0 <= i < s.len() ==> #[trigger] is_id_char(s[i])
    &&& s[0] != '-'
}

/// The type part of an address: an id, or `x-` followed by an id (extension namespace).
pub open spec fn is_valid_kind(k: Seq<char>) -> bool {
    is_valid_id(k) || (has_prefix(k, seq!['x', '-']) && is_valid_id(k.skip(2)))
}

/// An address `type/id`: split at the first `/`, a valid type and a valid id.
pub open spec fn is_valid_addr(s: Seq<char>) -> bool {
    exists|i: int|
        0 <= i < s.len() && #[trigger] s[i] == '/' && (forall|j: int| 0 <= j < i ==> s[j] != '/')
            && is_valid_kind(s.take(i)) && is_valid_id(s.skip(i + 1))
}

fn is_id_char_exec(c: char) -> (b: bool)
    ensures
        b == is_id_char(c),
{
    ('a' <= c && c <= 'z') || ('0' <= c && c <= '9') || c == '-'
}

/// Whether `v[lo..hi]` is a valid id.
fn valid_id_range(v: &Vec<char>, lo: usize, hi: usize) -> (b: bool)
    requires
        lo <= hi <= v@.len(),
    ensures
        b == is_valid_id(v@.subrange(lo as int, hi as int)),
{
    let ghost s = v@.subrange(lo as int, hi as int);
    if lo == hi {
        return false;
    }
    if v[lo] == '-' {
        assert(s[0] == '-');
        return false;
    }
    let mut i = lo;
    while i < hi
        invariant
            lo <= i <= hi <= v@.len(),
            s == v@.subrange(lo as int, hi as int),
            forall|j: int| 0 <= j < i - lo ==> #[trigger] is_id_char(s[j]),
        decreases hi - i,
    {
        if !is_id_char_exec(v[i]) {
            assert(!is_id_char(s[i - lo]));
            return false;
        }
        i = i + 1;
    }
    true
}

/// Whether `s` is a valid id (non-empty kebab-case, not starting with `-`).
pub fn valid_id(s: &str) -> (b: bool)
    ensures
        b == is_valid_id(s@),
{
    let v = chars_of(s);
    let n = v.len();
    let b = valid_id_range(&v, 0, n);
    assert(v@.subrange(0, n as int) =~= s@);
    b
}

/// Whether `v[lo..hi]` is a valid type (an id, or `x-` and an id).
fn valid_kind_range(v: &Vec<char>, lo: usize, hi: usize) -> (b: bool)
    requires
        lo <= hi <= v@.len(),
    ensures
        b == is_valid_kind(v@.subrange(lo as int, hi as int)),
{
    let ghost k = v@.subrange(lo as int, hi as int);
    if valid_id_range(v, lo, hi) {
        return true;
    }
    if hi - lo >= 2 && v[lo] == 'x' && v[lo + 1] == '-' {
        assert(k.take(2) =~= seq!['x', '-']);
        assert(k.skip(2) =~= v@.subrange(lo + 2, hi as int));
        valid_id_range(v, lo + 2, hi)
    } else {
        proof {
            if has_prefix(k, seq!['x', '-']) {
                assert(k.take(2)[0] == 'x' && k.take(2)[1] == '-');
            }
        }
        false
    }
}

/// Whether `s` is a `type/id` reference.
pub fn valid_addr(s: &str) -> (b: bool)
    ensures
        b == is_valid_addr(s@),
{
    let v = chars_of(s);
    let slash = vec!['/'];
    match find_from(&v, &slash, 0) {
        None => {
            proof {
                assert(v@.skip(0) =~= v@);
                if is_valid_addr(s@) {
                    let i = choose|i: int|
                        0 <= i < s@.len() && #[trigger] s@[i] == '/' && (forall|j: int|
                            0 <= j < i ==> s@[j] != '/') && is_valid_kind(s@.take(i))
                            && is_valid_id(s@.skip(i + 1));
                    assert(v@.subrange(i, i + 1) =~= slash@);
                    assert(occurs_at(v@, slash@, i));
                    assert(forall|j: int| 0 <= j < i ==> !occurs_at(v@, slash@, j)) by {
                        assert forall|j: int| 0 <= j < i implies !occurs_at(v@, slash@, j) by {
                            if occurs_at(v@, slash@, j) {
                                assert(v@.subrange(j, j + 1)[0] == v@[j]);
                            }
                        }
                    }
                    assert(is_first_occurrence(v@, slash@, i));
                }
            }
            false
        },
        Some(i) => {
            assert(v@.skip(0) =~= v@);
            assert(is_first_occurrence(v@, slash@, i as int));
            assert(v@.subrange(i as int, i + 1)[0] == v@[i as int]);
            assert forall|j: int| 0 <= j < i implies v@[j] != '/' by {
                if v@[j] == '/' {
                    assert(v@.subrange(j, j + 1) =~= slash@);
                    assert(occurs_at(v@, slash@, j));
                }
            }
            let n = v.len();
            let b = valid_kind_range(&v, 0, i) && valid_id_range(&v, i + 1, n);
            assert(v@.subrange(0, i as int) =~= s@.take(i as int));
            assert(v@.subrange(i + 1, n as int) =~= s@.skip(i + 1));
            proof {
                if is_valid_addr(s@) {
                    let k = choose|k: int|
                        0 <= k < s@.len() && #[trigger] s@[k] == '/' && (forall|j: int|
                            0 <= j < k ==> s@[j] != '/') && is_valid_kind(s@.take(k))
                            && is_valid_id(s@.skip(k + 1));
                    assert(k == i);
                }
            }
            b
        },
    }
}

} // verus!
