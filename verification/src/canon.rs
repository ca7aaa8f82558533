use vstd::prelude::*;

use crate::json::{Json, JsonV, jview, jview_arr, lemma_jview_arr_index, lemma_jview_arr_len};
use vstd::multiset::Multiset;
use vstd::utf8::encode_utf8;

verus! {

broadcast use
    vstd::std_specs::vec::group_vec_axioms,
    vstd::seq::group_seq_axioms,
    vstd::std_specs::slice::group_slice_axioms,
    lemma_jview_arr_len,
    lemma_jview_arr_index;

/// Lexicographic order on byte sequences: `a` sorts at or before `b`.
pub open spec fn bytes_le(a: Seq<u8>, b: Seq<u8>) -> bool
    decreases a.len(),
{
    if a.len() == 0 {
        true
    } else if b.len() == 0 {
        false
    } else if a[0] < b[0] {
        true
    } else if a[0] > b[0] {
        false
    } else {
        bytes_le(a.drop_first(), b.drop_first())
    }
}

/// The comparison key of an array element: the UTF-8 bytes of a string,
/// and the empty key for any element that is not a string.
pub open spec fn json_key(v: JsonV) -> Seq<u8> {
    match v {
        JsonV::Str(s) => encode_utf8(s),
        _ => Seq::empty(),
    }
}

/// Order of two array elements: by their comparison keys.
pub open spec fn key_le(a: JsonV, b: JsonV) -> bool {
    bytes_le(json_key(a), json_key(b))
}

/// The equality used for collapsing neighbours: two strings with equal
/// content, or any two non-strings (both contribute "no value").
pub open spec fn dedup_eq(a: JsonV, b: JsonV) -> bool {
    match (a, b) {
        (JsonV::Str(x), JsonV::Str(y)) => x == y,
        (JsonV::Str(_), _) => false,
        (_, JsonV::Str(_)) => false,
        _ => true,
    }
}

/// Weakly ascending by comparison key.
pub open spec fn sorted_by_key(s: Seq<JsonV>) -> bool {
    forall|i: int, j: int| 0 <= i < j < s.len() ==> key_le(s[i], s[j])
}

/// No element repeats its immediate predecessor under `dedup_eq`.
pub open spec fn no_adjacent_dups(s: Seq<JsonV>) -> bool {
    forall|i: int| 1 <= i < s.len() ==> !dedup_eq(#[trigger] s[i], s[i - 1])
}

/// Place `x` into the already sorted `s`, before the run of elements of
/// equal key, as a stable sort does with an element drawn earlier.
pub open spec fn insert_sorted(x: JsonV, s: Seq<JsonV>) -> Seq<JsonV>
    decreases s.len(),
{
    if s.len() == 0 {
        seq![x]
    } else if key_le(x, s[0]) {
        seq![x] + s
    } else {
        seq![s[0]] + insert_sorted(x, s.drop_first())
    }
}

/// Stable sort by comparison key.
pub open spec fn sort_by_key(s: Seq<JsonV>) -> Seq<JsonV>
    decreases s.len(),
{
    if s.len() == 0 {
        s
    } else {
        insert_sorted(s[0], sort_by_key(s.drop_first()))
    }
}

/// Walk `s` keeping each element unless it matches the last element
/// kept so far (`prev`).
pub open spec fn dedup_from(prev: JsonV, s: Seq<JsonV>) -> Seq<JsonV>
    decreases s.len(),
{
    if s.len() == 0 {
        s
    } else if dedup_eq(s[0], prev) {
        dedup_from(prev, s.drop_first())
    } else {
        seq![s[0]] + dedup_from(s[0], s.drop_first())
    }
}

/// Collapse adjacent matching elements, keeping the first of each run.
pub open spec fn dedup_adjacent(s: Seq<JsonV>) -> Seq<JsonV> {
    if s.len() == 0 {
        s
    } else {
        seq![s[0]] + dedup_from(s[0], s.drop_first())
    }
}

/// The canonical form of a permission array: stable-sorted by key, then
/// collapsed.
pub open spec fn canon_elems(s: Seq<JsonV>) -> Seq<JsonV> {
    dedup_adjacent(sort_by_key(s))
}

/// The byte order is total.
pub proof fn lemma_bytes_le_total(a: Seq<u8>, b: Seq<u8>)
    ensures
        bytes_le(a, b) || bytes_le(b, a),
    decreases a.len(),
{
    if a.len() == 0 || b.len() == 0 {
    } else if a[0] == b[0] {
        lemma_bytes_le_total(a.drop_first(), b.drop_first());
    }
}

/// The byte order is transitive.
pub proof fn lemma_bytes_le_trans(a: Seq<u8>, b: Seq<u8>, c: Seq<u8>)
    requires
        bytes_le(a, b),
        bytes_le(b, c),
    ensures
        bytes_le(a, c),
    decreases a.len(),
{
    if a.len() == 0 {
    } else if b.len() == 0 {
    } else if c.len() == 0 {
    } else {
        if a[0] == b[0] && b[0] == c[0] {
            lemma_bytes_le_trans(a.drop_first(), b.drop_first(), c.drop_first());
        }
    }
}

/// The byte order is antisymmetric.
pub proof fn lemma_bytes_le_antisym(a: Seq<u8>, b: Seq<u8>)
    requires
        bytes_le(a, b),
        bytes_le(b, a),
    ensures
        a == b,
    decreases a.len(),
{
    if a.len() == 0 {
        assert(b.len() == 0);
        assert(a =~= b);
    } else {
        lemma_bytes_le_antisym(a.drop_first(), b.drop_first());
        assert(a =~= seq![a[0]] + a.drop_first());
        assert(b =~= seq![b[0]] + b.drop_first());
    }
}

/// Two strings with the same UTF-8 bytes hold the same characters.
proof fn lemma_encode_utf8_injective(a: Seq<char>, b: Seq<char>)
    requires
        encode_utf8(a) == encode_utf8(b),
    ensures
        a == b,
{
    vstd::utf8::encode_utf8_decode_utf8(a);
    vstd::utf8::encode_utf8_decode_utf8(b);
}

/// Inserting into a sorted sequence keeps it sorted and adds exactly
/// the new element.
pub proof fn lemma_insert_sorted(x: JsonV, s: Seq<JsonV>)
    requires
        sorted_by_key(s),
    ensures
        sorted_by_key(insert_sorted(x, s)),
        insert_sorted(x, s).to_multiset() == s.to_multiset().insert(x),
        insert_sorted(x, s).len() == s.len() + 1,
    decreases s.len(),
{
    broadcast use vstd::seq_lib::group_to_multiset_ensures, vstd::seq_lib::lemma_multiset_commutative;

    if s.len() == 0 {
        assert(seq![x] =~= Seq::empty().push(x));
        assert(insert_sorted(x, s).to_multiset() =~= s.to_multiset().insert(x));
    } else if key_le(x, s[0]) {
        let r = seq![x] + s;
        assert forall|i: int, j: int| 0 <= i < j < r.len() implies key_le(r[i], r[j]) by {
            if i == 0 {
                if j > 1 {
                    assert(key_le(s[0], s[j - 1]));
                    lemma_bytes_le_trans(json_key(x), json_key(s[0]), json_key(s[j - 1]));
                }
            }
        }
        assert(seq![x].to_multiset() =~= Multiset::empty().insert(x));
        assert(r.to_multiset() =~= s.to_multiset().insert(x));
    } else {
        let rest = s.drop_first();
        assert(sorted_by_key(rest)) by {
            assert forall|i: int, j: int| 0 <= i < j < rest.len() implies key_le(
                rest[i],
                rest[j],
            ) by {
                assert(rest[i] == s[i + 1] && rest[j] == s[j + 1]);
            }
        }
        lemma_insert_sorted(x, rest);
        let t = insert_sorted(x, rest);
        let r = seq![s[0]] + t;
        assert(key_le(s[0], x)) by {
            lemma_bytes_le_total(json_key(x), json_key(s[0]));
        }
        assert forall|i: int, j: int| 0 <= i < j < r.len() implies key_le(r[i], r[j]) by {
            if i == 0 {
                let y = t[j - 1];
                assert(t.to_multiset().count(y) > 0);
                if y == x {
                } else {
                    assert(rest.to_multiset().count(y) > 0);
                    assert(rest.contains(y));
                    let k = choose|k: int| 0 <= k < rest.len() && rest[k] == y;
                    assert(s[k + 1] == y);
                }
            }
        }
        assert(seq![s[0]].to_multiset() =~= Multiset::empty().insert(s[0]));
        assert(seq![s[0]] + rest =~= s);
        assert(r.to_multiset() =~= s.to_multiset().insert(x));
    }
}

/// Stable sorting sorts, and neither loses nor invents elements.
pub proof fn lemma_sort_by_key(s: Seq<JsonV>)
    ensures
        sorted_by_key(sort_by_key(s)),
        sort_by_key(s).to_multiset() == s.to_multiset(),
        sort_by_key(s).len() == s.len(),
    decreases s.len(),
{
    broadcast use vstd::seq_lib::group_to_multiset_ensures, vstd::seq_lib::lemma_multiset_commutative;

    if s.len() == 0 {
    } else {
        let rest = s.drop_first();
        lemma_sort_by_key(rest);
        lemma_insert_sorted(s[0], sort_by_key(rest));
        assert(seq![s[0]] + rest =~= s);
        assert(s.to_multiset() =~= rest.to_multiset().insert(s[0]));
    }
}

/// A sorted sequence is its own stable sort.
pub proof fn lemma_sorted_identity(s: Seq<JsonV>)
    requires
        sorted_by_key(s),
    ensures
        sort_by_key(s) == s,
    decreases s.len(),
{
    if s.len() == 0 {
    } else {
        let rest = s.drop_first();
        assert(sorted_by_key(rest)) by {
            assert forall|i: int, j: int| 0 <= i < j < rest.len() implies key_le(
                rest[i],
                rest[j],
            ) by {
                assert(rest[i] == s[i + 1] && rest[j] == s[j + 1]);
                assert(key_le(s[i + 1], s[j + 1]));
            }
        }
        lemma_sorted_identity(rest);
        if rest.len() == 0 {
            assert(sort_by_key(s) =~= s);
        } else {
            assert(rest[0] == s[1]);
            assert(key_le(s[0], s[1]));
            assert(sort_by_key(s) == seq![s[0]] + rest);
            assert(seq![s[0]] + rest =~= s);
        }
    }
}

/// Collapsing drops nothing that was not already present.
pub proof fn lemma_dedup_from_subset(prev: JsonV, s: Seq<JsonV>)
    ensures
        forall|y: JsonV| #[trigger] dedup_from(prev, s).contains(y) ==> s.contains(y),
    decreases s.len(),
{
    if s.len() == 0 {
    } else if dedup_eq(s[0], prev) {
        lemma_dedup_from_subset(prev, s.drop_first());
        assert forall|y: JsonV| #[trigger] dedup_from(prev, s).contains(y) implies s.contains(
            y,
        ) by {
            assert(dedup_from(prev, s.drop_first()).contains(y));
            assert(s.drop_first().contains(y));
            let k = choose|k: int| 0 <= k < s.drop_first().len() && s.drop_first()[k] == y;
            assert(s[k + 1] == y);
        }
    } else {
        lemma_dedup_from_subset(s[0], s.drop_first());
        assert forall|y: JsonV| #[trigger] dedup_from(prev, s).contains(y) implies s.contains(
            y,
        ) by {
            let r = seq![s[0]] + dedup_from(s[0], s.drop_first());
            let k = choose|k: int| 0 <= k < r.len() && r[k] == y;
            if k == 0 {
                assert(s[0] == y);
            } else {
                assert(dedup_from(s[0], s.drop_first()).contains(y));
                assert(s.drop_first().contains(y));
                let m = choose|m: int| 0 <= m < s.drop_first().len() && s.drop_first()[m] == y;
                assert(s[m + 1] == y);
            }
        }
    }
}

/// Collapsing keeps the order of what it keeps.
pub proof fn lemma_dedup_from_sorted(prev: JsonV, s: Seq<JsonV>)
    requires
        sorted_by_key(seq![prev] + s),
    ensures
        sorted_by_key(seq![prev] + dedup_from(prev, s)),
    decreases s.len(),
{
    if s.len() == 0 {
    } else {
        let rest = s.drop_first();
        if dedup_eq(s[0], prev) {
            assert(sorted_by_key(seq![prev] + rest)) by {
                let a = seq![prev] + s;
                let b = seq![prev] + rest;
                assert forall|i: int, j: int| 0 <= i < j < b.len() implies key_le(
                    b[i],
                    b[j],
                ) by {
                    if i == 0 {
                        assert(b[j] == a[j + 1]);
                        assert(key_le(a[0], a[j + 1]));
                    } else {
                        assert(b[i] == a[i + 1] && b[j] == a[j + 1]);
                        assert(key_le(a[i + 1], a[j + 1]));
                    }
                }
            }
            lemma_dedup_from_sorted(prev, rest);
        } else {
            assert(sorted_by_key(seq![s[0]] + rest)) by {
                let a = seq![prev] + s;
                let b = seq![s[0]] + rest;
                assert forall|i: int, j: int| 0 <= i < j < b.len() implies key_le(
                    b[i],
                    b[j],
                ) by {
                    assert(b[i] == a[i + 1] && b[j] == a[j + 1]);
                    assert(key_le(a[i + 1], a[j + 1]));
                }
            }
            lemma_dedup_from_sorted(s[0], rest);
            lemma_dedup_from_subset(s[0], rest);
            let d = dedup_from(s[0], rest);
            let r = seq![prev] + (seq![s[0]] + d);
            assert(dedup_from(prev, s) == seq![s[0]] + d);
            assert forall|i: int, j: int| 0 <= i < j < r.len() implies key_le(r[i], r[j]) by {
                let a = seq![prev] + s;
                let c = seq![s[0]] + d;
                if i == 0 {
                    if j == 1 {
                        assert(key_le(a[0], a[1]));
                    } else {
                        assert(d.contains(r[j])) by {
                            assert(c[j - 1] == d[j - 2]);
                        }
                        assert(rest.contains(r[j]));
                        let m = choose|m: int| 0 <= m < rest.len() && rest[m] == r[j];
                        assert(a[m + 2] == r[j]);
                        assert(key_le(a[0], a[m + 2]));
                    }
                } else {
                    let c2 = seq![s[0]] + dedup_from(s[0], rest);
                    assert(r[i] == c2[i - 1] && r[j] == c2[j - 1]);
                    assert(key_le(c2[i - 1], c2[j - 1]));
                }
            }
        }
    }
}

/// After collapsing, no element matches its neighbour.
pub proof fn lemma_dedup_from_no_adjacent(prev: JsonV, s: Seq<JsonV>)
    ensures
        no_adjacent_dups(seq![prev] + dedup_from(prev, s)),
    decreases s.len(),
{
    if s.len() == 0 {
        let r = seq![prev] + dedup_from(prev, s);
        assert(r.len() == 1);
    } else if dedup_eq(s[0], prev) {
        lemma_dedup_from_no_adjacent(prev, s.drop_first());
    } else {
        lemma_dedup_from_no_adjacent(s[0], s.drop_first());
        let d = dedup_from(s[0], s.drop_first());
        let inner = seq![s[0]] + d;
        let r = seq![prev] + (seq![s[0]] + d);
        assert(dedup_from(prev, s) == seq![s[0]] + d);
        assert forall|i: int| 1 <= i < r.len() implies !dedup_eq(#[trigger] r[i], r[i - 1]) by {
            if i == 1 {
                assert(r[1] == s[0] && r[0] == prev);
            } else {
                assert(r[i] == inner[i - 1] && r[i - 1] == inner[i - 2]);
                assert(!dedup_eq(inner[i - 1], inner[i - 2]));
            }
        }
    }
}

/// No string value is lost: each one survives, either in the collapsed
/// sequence or as the element it was collapsed into.
pub proof fn lemma_dedup_from_complete(prev: JsonV, s: Seq<JsonV>)
    ensures
        forall|x: JsonV|
            s.contains(x) && x is Str ==> #[trigger] dedup_from(prev, s).contains(x) || x == prev,
    decreases s.len(),
{
    if s.len() == 0 {
    } else {
        let rest = s.drop_first();
        if dedup_eq(s[0], prev) {
            lemma_dedup_from_complete(prev, rest);
            assert forall|x: JsonV| s.contains(x) && x is Str implies #[trigger] dedup_from(
                prev,
                s,
            ).contains(x) || x == prev by {
                let k = choose|k: int| 0 <= k < s.len() && s[k] == x;
                if k == 0 {
                    assert(dedup_eq(x, prev));
                    assert(x == prev);
                } else {
                    assert(rest[k - 1] == x);
                    assert(rest.contains(x));
                    assert(dedup_from(prev, rest).contains(x) || x == prev);
                    assert(dedup_from(prev, s) == dedup_from(prev, rest));
                }
            }
        } else {
            lemma_dedup_from_complete(s[0], rest);
            let d = dedup_from(s[0], rest);
            assert forall|x: JsonV| s.contains(x) && x is Str implies #[trigger] dedup_from(
                prev,
                s,
            ).contains(x) || x == prev by {
                let k = choose|k: int| 0 <= k < s.len() && s[k] == x;
                if k == 0 {
                    assert((seq![s[0]] + d)[0] == x);
                    assert((seq![s[0]] + d).contains(x));
                } else {
                    assert(rest[k - 1] == x);
                    assert(rest.contains(x));
                    assert(d.contains(x) || x == s[0]);
                    if d.contains(x) {
                        let m = choose|m: int| 0 <= m < d.len() && d[m] == x;
                        assert((seq![s[0]] + d)[m + 1] == x);
                        assert((seq![s[0]] + d).contains(x));
                    } else {
                        assert((seq![s[0]] + d)[0] == x);
                        assert((seq![s[0]] + d).contains(x));
                    }
                }
            }
        }
    }
}

/// Collapsing a sequence with no adjacent matches changes nothing.
pub proof fn lemma_dedup_from_identity(prev: JsonV, s: Seq<JsonV>)
    requires
        no_adjacent_dups(seq![prev] + s),
    ensures
        dedup_from(prev, s) == s,
    decreases s.len(),
{
    if s.len() == 0 {
    } else {
        let a = seq![prev] + s;
        assert(a[1] == s[0] && a[0] == prev);
        assert(!dedup_eq(s[0], prev));
        let rest = s.drop_first();
        assert(no_adjacent_dups(seq![s[0]] + rest)) by {
            let b = seq![s[0]] + rest;
            assert forall|i: int| 1 <= i < b.len() implies !dedup_eq(
                #[trigger] b[i],
                b[i - 1],
            ) by {
                assert(b[i] == a[i + 1] && b[i - 1] == a[i]);
                assert(!dedup_eq(a[i + 1], a[i]));
            }
        }
        lemma_dedup_from_identity(s[0], rest);
        assert(dedup_from(prev, s) == seq![s[0]] + rest);
        assert(seq![s[0]] + rest =~= s);
    }
}

/// The canonical form of an array is ascending by comparison key, has
/// no element matching its neighbour, invents no element, and keeps
/// every distinct string value.
pub proof fn lemma_canon_elems(s: Seq<JsonV>)
    ensures
        sorted_by_key(canon_elems(s)),
        no_adjacent_dups(canon_elems(s)),
        forall|y: JsonV| #[trigger] canon_elems(s).contains(y) ==> s.contains(y),
        forall|x: JsonV| s.contains(x) && x is Str ==> #[trigger] canon_elems(s).contains(x),
{
    broadcast use vstd::seq_lib::group_to_multiset_ensures;

    lemma_sort_by_key(s);
    let t = sort_by_key(s);
    let c = canon_elems(s);
    if t.len() == 0 {
        assert(c == t);
        assert forall|x: JsonV| s.contains(x) && x is Str implies #[trigger] canon_elems(
            s,
        ).contains(x) by {
            assert(s.to_multiset().count(x) > 0);
            assert(t.to_multiset().count(x) > 0);
        }
    } else {
        let t0 = t[0];
        let rest = t.drop_first();
        assert(seq![t0] + rest =~= t);
        lemma_dedup_from_sorted(t0, rest);
        lemma_dedup_from_no_adjacent(t0, rest);
        lemma_dedup_from_subset(t0, rest);
        lemma_dedup_from_complete(t0, rest);
        let d = dedup_from(t0, rest);
        assert(c == seq![t0] + d);
        assert(sorted_by_key(c));
        assert(no_adjacent_dups(c));
        assert forall|y: JsonV| #[trigger] c.contains(y) implies s.contains(y) by {
            let k = choose|k: int| 0 <= k < c.len() && c[k] == y;
            if k == 0 {
                assert(t.contains(y)) by {
                    assert(t[0] == y);
                }
            } else {
                assert(d.contains(y)) by {
                    assert(d[k - 1] == y);
                }
                assert(rest.contains(y));
                let m = choose|m: int| 0 <= m < rest.len() && rest[m] == y;
                assert(t.contains(y)) by {
                    assert(t[m + 1] == y);
                }
            }
            assert(t.to_multiset().count(y) > 0);
            assert(s.to_multiset().count(y) > 0);
        }
        assert forall|x: JsonV| s.contains(x) && x is Str implies #[trigger] c.contains(x) by {
            assert(s.to_multiset().count(x) > 0);
            assert(t.to_multiset().count(x) > 0);
            assert(t.contains(x));
            let k = choose|k: int| 0 <= k < t.len() && t[k] == x;
            if k == 0 {
                assert(c[0] == x);
            } else {
                assert(rest[k - 1] == x);
                assert(rest.contains(x));
                assert(d.contains(x) || x == t0);
                if d.contains(x) {
                    let m = choose|m: int| 0 <= m < d.len() && d[m] == x;
                    assert(c[m + 1] == x);
                } else {
                    assert(c[0] == x);
                }
            }
        }
    }
}

/// For an array of strings the canonical form is duplicate-free: no
/// value survives twice, however far apart.
pub proof fn lemma_canon_strings_distinct(s: Seq<JsonV>)
    requires
        forall|i: int| 0 <= i < s.len() ==> (#[trigger] s[i]) is Str,
    ensures
        forall|i: int, j: int|
            0 <= i < j < canon_elems(s).len() ==> canon_elems(s)[i] != canon_elems(s)[j],
{
    lemma_canon_elems(s);
    let c = canon_elems(s);
    assert forall|i: int, j: int| 0 <= i < j < c.len() implies c[i] != c[j] by {
        if c[i] == c[j] {
            let a = c[i];
            let b = c[i + 1];
            assert(c.contains(b));
            assert(s.contains(b));
            let kn = choose|k: int| 0 <= k < s.len() && s[k] == b;
            assert(b is Str);
            assert(c.contains(a));
            assert(s.contains(a));
            let ki = choose|k: int| 0 <= k < s.len() && s[k] == a;
            assert(a is Str);
            assert(bytes_le(json_key(a), json_key(b))) by {
                assert(key_le(c[i], c[i + 1]));
            }
            assert(bytes_le(json_key(b), json_key(a))) by {
                if i + 1 == j {
                    lemma_bytes_le_total(json_key(b), json_key(b));
                } else {
                    assert(key_le(c[i + 1], c[j]));
                    assert(json_key(c[j]) == json_key(a));
                }
            }
            lemma_bytes_le_antisym(json_key(a), json_key(b));
            match (a, b) {
                (JsonV::Str(x), JsonV::Str(y)) => {
                    lemma_encode_utf8_injective(x, y);
                    assert(dedup_eq(c[i + 1], c[i]));
                    assert(!dedup_eq(c[i + 1], c[i + 1 - 1]));
                },
                _ => {},
            }
        }
    }
}

/// Canonicalizing twice is the same as canonicalizing once.
pub proof fn lemma_canon_idempotent(s: Seq<JsonV>)
    ensures
        canon_elems(canon_elems(s)) == canon_elems(s),
{
    lemma_canon_elems(s);
    let c = canon_elems(s);
    lemma_sorted_identity(c);
    if c.len() == 0 {
    } else {
        let rest = c.drop_first();
        assert(no_adjacent_dups(seq![c[0]] + rest)) by {
            assert(seq![c[0]] + rest =~= c);
        }
        lemma_dedup_from_identity(c[0], rest);
        assert(canon_elems(c) == seq![c[0]] + rest);
        assert(seq![c[0]] + rest =~= c);
    }
}

/// Decide `bytes_le` on two byte slices.
fn bytes_le_exec(a: &[u8], b: &[u8]) -> (r: bool)
    ensures
        r == bytes_le(a@, b@),
{
    let alen = a.len();
    let blen = b.len();
    let mut i: usize = 0;
    proof {
        assert(a@.subrange(0, alen as int) =~= a@);
        assert(b@.subrange(0, blen as int) =~= b@);
    }
    loop
        invariant
            i <= alen,
            i <= blen,
            alen == a@.len(),
            blen == b@.len(),
            bytes_le(a@, b@) == bytes_le(
                a@.subrange(i as int, alen as int),
                b@.subrange(i as int, blen as int),
            ),
        decreases alen - i,
    {
        if i == alen {
            proof {
                assert(a@.subrange(i as int, alen as int).len() == 0);
            }
            return true;
        }
        if i == blen {
            proof {
                assert(b@.subrange(i as int, blen as int).len() == 0);
                assert(a@.subrange(i as int, alen as int).len() > 0);
            }
            return false;
        }
        let x = a[i];
        let y = b[i];
        proof {
            let sa = a@.subrange(i as int, alen as int);
            let sb = b@.subrange(i as int, blen as int);
            assert(sa[0] == x && sb[0] == y);
            assert(sa.drop_first() =~= a@.subrange(i as int + 1, alen as int));
            assert(sb.drop_first() =~= b@.subrange(i as int + 1, blen as int));
        }
        if x < y {
            return true;
        }
        if x > y {
            return false;
        }
        i = i + 1;
    }
}

/// The comparison key of an element, as bytes.
fn key_bytes(v: &Json) -> (r: &[u8])
    ensures
        r@ == json_key(v@),
{
    match v {
        Json::Str(s) => s.as_str().as_bytes(),
        _ => {
            let e = "".as_bytes();
            proof {
                reveal_strlit("");
                assert(encode_utf8(""@) =~= Seq::<u8>::empty());
            }
            e
        },
    }
}

/// Decide the key order of two elements.
fn key_le_exec(a: &Json, b: &Json) -> (r: bool)
    ensures
        r == key_le(a@, b@),
{
    bytes_le_exec(key_bytes(a), key_bytes(b))
}

/// Decide the collapsing equality of two elements.
fn dedup_eq_exec(a: &Json, b: &Json) -> (r: bool)
    ensures
        r == dedup_eq(a@, b@),
{
    match (a, b) {
        (Json::Str(x), Json::Str(y)) => x.eq(y),
        (Json::Str(_), _) => false,
        (_, Json::Str(_)) => false,
        _ => true,
    }
}

/// Place one element into an already sorted vector.
fn insert_exec(x: Json, s: Vec<Json>) -> (r: Vec<Json>)
    ensures
        jview_arr(r@) == insert_sorted(x@, jview_arr(s@)),
    decreases s@.len(),
{
    let ghost sv = s@;
    let mut s = s;
    if s.len() == 0 {
        s.push(x);
        proof {
            assert(jview_arr(s@) =~= seq![x@]);
            assert(insert_sorted(x@, jview_arr(sv)) == seq![x@]);
        }
        s
    } else if key_le_exec(&x, &s[0]) {
        proof {
            assert(jview_arr(sv)[0] == jview(sv[0]));
            assert(key_le(x@, jview_arr(sv)[0]));
        }
        s.insert(0, x);
        proof {
            assert(jview_arr(s@) =~= seq![x@] + jview_arr(sv));
            assert(insert_sorted(x@, jview_arr(sv)) == seq![x@] + jview_arr(sv));
        }
        s
    } else {
        proof {
            assert(jview_arr(sv)[0] == jview(sv[0]));
            assert(!key_le(x@, jview_arr(sv)[0]));
        }
        let head = s.remove(0);
        proof {
            assert(s@ =~= sv.drop_first());
            assert(jview_arr(sv).drop_first() =~= jview_arr(sv.drop_first()));
        }
        let mut t = insert_exec(x, s);
        t.insert(0, head);
        proof {
            assert(jview_arr(t@) =~= seq![jview_arr(sv)[0]] + insert_sorted(
                x@,
                jview_arr(sv).drop_first(),
            ));
        }
        t
    }
}

/// Stable sort of a vector of elements by comparison key.
fn sort_exec(s: Vec<Json>) -> (r: Vec<Json>)
    ensures
        jview_arr(r@) == sort_by_key(jview_arr(s@)),
    decreases s@.len(),
{
    let ghost sv = s@;
    let mut s = s;
    if s.len() == 0 {
        proof {
            assert(jview_arr(sv).len() == 0);
        }
        s
    } else {
        let head = s.remove(0);
        proof {
            assert(s@ =~= sv.drop_first());
            assert(jview_arr(sv).drop_first() =~= jview_arr(sv.drop_first()));
            assert(jview_arr(sv)[0] == head@);
        }
        let t = sort_exec(s);
        insert_exec(head, t)
    }
}

/// Walk the vector, dropping each element that matches the last one kept.
fn dedup_from_exec(prev: &Json, s: Vec<Json>) -> (r: Vec<Json>)
    ensures
        jview_arr(r@) == dedup_from(prev@, jview_arr(s@)),
    decreases s@.len(),
{
    let ghost sv = s@;
    let mut s = s;
    if s.len() == 0 {
        proof {
            assert(jview_arr(sv).len() == 0);
        }
        s
    } else {
        let head = s.remove(0);
        proof {
            assert(s@ =~= sv.drop_first());
            assert(jview_arr(sv).drop_first() =~= jview_arr(sv.drop_first()));
            assert(jview_arr(sv)[0] == head@);
        }
        if dedup_eq_exec(&head, prev) {
            dedup_from_exec(prev, s)
        } else {
            let mut t = dedup_from_exec(&head, s);
            t.insert(0, head);
            proof {
                assert(jview_arr(t@) =~= seq![jview_arr(sv)[0]] + dedup_from(
                    jview_arr(sv)[0],
                    jview_arr(sv).drop_first(),
                ));
            }
            t
        }
    }
}

/// Sort a permission array by the string content of its elements and
/// collapse elements that repeat their predecessor, as the canonical
/// form demands.
pub fn sort_and_dedup_string_array(arr: Vec<Json>) -> (r: Vec<Json>)
    ensures
        jview_arr(r@) == canon_elems(jview_arr(arr@)),
{
    let ghost av = arr@;
    let mut sorted = sort_exec(arr);
    let ghost tv = jview_arr(sorted@);
    if sorted.len() == 0 {
        proof {
            assert(tv.len() == 0);
        }
        sorted
    } else {
        let head = sorted.remove(0);
        proof {
            assert(jview_arr(sorted@) =~= tv.drop_first());
            assert(tv[0] == head@);
        }
        let mut t = dedup_from_exec(&head, sorted);
        t.insert(0, head);
        proof {
            assert(jview_arr(t@) =~= seq![tv[0]] + dedup_from(tv[0], tv.drop_first()));
        }
        t
    }
}

} // verus!
