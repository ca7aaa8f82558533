use vstd::prelude::*;

use crate::canon::{canon_elems, sort_and_dedup_string_array};
use crate::json::{
    Json, JsonV, jview, jview_arr, jview_obj, lemma_jview_arr_index, lemma_jview_arr_len,
    lemma_jview_obj_index, lemma_jview_obj_len,
};

verus! {

broadcast use
    vstd::std_specs::vec::group_vec_axioms,
    vstd::seq::group_seq_axioms,
    lemma_jview_arr_len,
    lemma_jview_arr_index,
    lemma_jview_obj_len,
    lemma_jview_obj_index;

/// The three permission fields whose arrays are canonicalized.
pub open spec fn is_perm_field(k: Seq<char>) -> bool {
    k == "allow"@ || k == "ask"@ || k == "deny"@
}

/// Canonicalize a field value: arrays are sorted and collapsed, any
/// other value is left alone.
pub open spec fn canon_value(v: JsonV) -> JsonV {
    match v {
        JsonV::Arr(elems) => JsonV::Arr(canon_elems(elems)),
        _ => v,
    }
}

/// One entry of the `permissions` object after formatting.
pub open spec fn transform_perm_entry(e: (Seq<char>, JsonV)) -> (Seq<char>, JsonV) {
    if is_perm_field(e.0) {
        (e.0, canon_value(e.1))
    } else {
        e
    }
}

/// The `permissions` value after formatting: each of the three fields
/// canonicalized, everything else untouched.
pub open spec fn transform_permissions(v: JsonV) -> JsonV {
    match v {
        JsonV::Obj(entries) => JsonV::Obj(entries.map_values(|e| transform_perm_entry(e))),
        _ => v,
    }
}

/// One top-level entry after formatting.
pub open spec fn transform_top_entry(e: (Seq<char>, JsonV)) -> (Seq<char>, JsonV) {
    if e.0 == "permissions"@ {
        (e.0, transform_permissions(e.1))
    } else {
        e
    }
}

/// The whole document after formatting: only the permission arrays
/// under a top-level `permissions` object change.
pub open spec fn transform(v: JsonV) -> JsonV {
    match v {
        JsonV::Obj(entries) => JsonV::Obj(entries.map_values(|e| transform_top_entry(e))),
        _ => v,
    }
}

/// Object keys are distinct throughout the tree, as they are in any
/// value a JSON parser produces.
pub open spec fn wf_json(v: JsonV) -> bool
    decreases v,
{
    match v {
        JsonV::Arr(elems) => forall|i: int|
            0 <= i < elems.len() ==> wf_json(#[trigger] elems[i]),
        JsonV::Obj(entries) => {
            &&& forall|i: int, j: int|
                0 <= i < j < entries.len() ==> (#[trigger] entries[i].0) != (
                #[trigger] entries[j].0)
            &&& forall|i: int| 0 <= i < entries.len() ==> wf_json(#[trigger] entries[i].1)
        },
        _ => true,
    }
}

/// Canonicalizing a field value twice is the same as doing it once.
pub proof fn lemma_canon_value_idempotent(v: JsonV)
    ensures
        canon_value(canon_value(v)) == canon_value(v),
{
    match v {
        JsonV::Arr(elems) => {
            crate::canon::lemma_canon_idempotent(elems);
        },
        _ => {},
    }
}

/// Transforming the `permissions` value twice is the same as doing it
/// once.
pub proof fn lemma_transform_permissions_idempotent(v: JsonV)
    ensures
        transform_permissions(transform_permissions(v)) == transform_permissions(v),
{
    match v {
        JsonV::Obj(entries) => {
            let f = |e: (Seq<char>, JsonV)| transform_perm_entry(e);
            let m1 = entries.map_values(f);
            assert forall|i: int| 0 <= i < m1.len() implies #[trigger] m1.map_values(f)[i]
                == m1[i] by {
                lemma_canon_value_idempotent(entries[i].1);
            }
            assert(m1.map_values(f) =~= m1);
        },
        _ => {},
    }
}

/// Formatting a document twice is the same as formatting it once.
pub proof fn lemma_transform_idempotent(v: JsonV)
    ensures
        transform(transform(v)) == transform(v),
{
    match v {
        JsonV::Obj(entries) => {
            let f = |e: (Seq<char>, JsonV)| transform_top_entry(e);
            let m1 = entries.map_values(f);
            assert forall|i: int| 0 <= i < m1.len() implies #[trigger] m1.map_values(f)[i]
                == m1[i] by {
                lemma_transform_permissions_idempotent(entries[i].1);
            }
            assert(m1.map_values(f) =~= m1);
        },
        _ => {},
    }
}

/// Does the document carry an array under one of the three permission
/// fields of a top-level `permissions` object?
pub open spec fn has_permission_arrays(v: JsonV) -> bool {
    match v {
        JsonV::Obj(entries) => exists|i: int|
            0 <= i < entries.len() && (#[trigger] entries[i]).0 == "permissions"@
                && (match entries[i].1 {
                JsonV::Obj(p) => exists|j: int|
                    0 <= j < p.len() && is_perm_field((#[trigger] p[j]).0) && p[j].1 is Arr,
                _ => false,
            }),
        _ => false,
    }
}

/// A document with no permission array to canonicalize keeps its exact
/// abstract value: only the serialized spacing can differ.
pub proof fn lemma_transform_without_permissions(v: JsonV)
    requires
        !has_permission_arrays(v),
    ensures
        transform(v) == v,
{
    match v {
        JsonV::Obj(entries) => {
            let f = |e: (Seq<char>, JsonV)| transform_top_entry(e);
            assert forall|i: int| 0 <= i < entries.len() implies #[trigger] entries.map_values(f)[i]
                == entries[i] by {
                let e = entries[i];
                if e.0 == "permissions"@ {
                    match e.1 {
                        JsonV::Obj(p) => {
                            let g = |pe: (Seq<char>, JsonV)| transform_perm_entry(pe);
                            assert forall|j: int| 0 <= j < p.len() implies #[trigger] p.map_values(
                                g,
                            )[j] == p[j] by {
                                assert(!(is_perm_field(p[j].0) && p[j].1 is Arr));
                            }
                            assert(p.map_values(g) =~= p);
                        },
                        _ => {},
                    }
                }
            }
            assert(entries.map_values(f) =~= entries);
        },
        _ => {},
    }
}

/// Formatting never disturbs the keys of any object, so a
/// well-formed document stays well formed.
pub proof fn lemma_transform_preserves_wf(v: JsonV)
    requires
        wf_json(v),
    ensures
        wf_json(transform(v)),
{
    match v {
        JsonV::Obj(entries) => {
            let f = |e: (Seq<char>, JsonV)| transform_top_entry(e);
            let m1 = entries.map_values(f);
            assert forall|i: int| 0 <= i < m1.len() implies wf_json(#[trigger] m1[i].1) by {
                let e = entries[i];
                assert(wf_json(e.1));
                if e.0 == "permissions"@ {
                    lemma_transform_permissions_preserves_wf(e.1);
                }
            }
            assert forall|i: int, j: int| 0 <= i < j < m1.len() implies (#[trigger] m1[i].0) != (
            #[trigger] m1[j].0) by {
                assert(entries[i].0 != entries[j].0);
            }
        },
        _ => {},
    }
}

/// The same, one level down, for the `permissions` object.
pub proof fn lemma_transform_permissions_preserves_wf(v: JsonV)
    requires
        wf_json(v),
    ensures
        wf_json(transform_permissions(v)),
{
    match v {
        JsonV::Obj(p) => {
            let g = |pe: (Seq<char>, JsonV)| transform_perm_entry(pe);
            let m = p.map_values(g);
            assert forall|j: int| 0 <= j < m.len() implies wf_json(#[trigger] m[j].1) by {
                let e = p[j];
                assert(wf_json(e.1));
                if is_perm_field(e.0) {
                    lemma_canon_value_preserves_wf(e.1);
                }
            }
            assert forall|i: int, j: int| 0 <= i < j < m.len() implies (#[trigger] m[i].0) != (
            #[trigger] m[j].0) by {
                assert(p[i].0 != p[j].0);
            }
        },
        _ => {},
    }
}

/// Canonicalizing an array keeps only elements that were already
/// there, so well-formedness survives.
pub proof fn lemma_canon_value_preserves_wf(v: JsonV)
    requires
        wf_json(v),
    ensures
        wf_json(canon_value(v)),
{
    match v {
        JsonV::Arr(elems) => {
            crate::canon::lemma_canon_elems(elems);
            let c = canon_elems(elems);
            assert forall|i: int| 0 <= i < c.len() implies wf_json(#[trigger] c[i]) by {
                assert(c.contains(c[i]));
                assert(elems.contains(c[i]));
                let k = choose|k: int| 0 <= k < elems.len() && elems[k] == c[i];
                assert(wf_json(elems[k]));
            }
        },
        _ => {},
    }
}

/// Decide whether a key equals a fixed name.
fn string_eq_lit(k: &String, lit: &str) -> (r: bool)
    ensures
        r == (k@ == lit@),
{
    let s = String::from_str(lit);
    k.eq(&s)
}

/// Apply the formatting transform to the value of the `permissions`
/// field.
fn transform_permissions_value(v: Json) -> (r: Json)
    ensures
        r@ == transform_permissions(v@),
{
    match v {
        Json::Obj(entries) => {
            let ghost ev = entries@;
            let mut rest = entries;
            let mut out: Vec<(String, Json)> = Vec::new();
            proof {
                assert(rest@ =~= ev.subrange(0, ev.len() as int));
            }
            while rest.len() > 0
                invariant
                    out@.len() + rest@.len() == ev.len(),
                    rest@ == ev.subrange(out@.len() as int, ev.len() as int),
                    forall|i: int|
                        0 <= i < out@.len() ==> jview_obj(out@)[i] == transform_perm_entry(
                            #[trigger] jview_obj(ev)[i],
                        ),
                decreases rest@.len(),
            {
                let ghost done = out@.len() as int;
                let (k, val) = rest.remove(0);
                proof {
                    assert(ev[done] == (k, val));
                    assert(rest@ =~= ev.subrange(done + 1, ev.len() as int));
                }
                let is_perm = string_eq_lit(&k, "allow") || string_eq_lit(&k, "ask")
                    || string_eq_lit(&k, "deny");
                let nv = if is_perm {
                    match val {
                        Json::Arr(a) => {
                            let ghost elems = jview_arr(a@);
                            let ca = sort_and_dedup_string_array(a);
                            proof {
                                assert(jview(Json::Arr(ca)) == JsonV::Arr(canon_elems(elems)));
                            }
                            Json::Arr(ca)
                        },
                        other => other,
                    }
                } else {
                    val
                };
                out.push((k, nv));
                proof {
                    assert(jview_obj(out@)[done] == (k@, jview(nv)));
                    assert(jview_obj(ev)[done] == (k@, jview(val)));
                }
            }
            proof {
                assert(out@.len() == ev.len());
                assert(jview_obj(out@) =~= jview_obj(ev).map_values(
                    |e: (Seq<char>, JsonV)| transform_perm_entry(e),
                ));
            }
            Json::Obj(out)
        },
        other => other,
    }
}

/// Apply the formatting transform to a whole parsed document.
pub fn transform_value(j: Json) -> (r: Json)
    ensures
        r@ == transform(j@),
{
    match j {
        Json::Obj(entries) => {
            let ghost ev = entries@;
            let mut rest = entries;
            let mut out: Vec<(String, Json)> = Vec::new();
            proof {
                assert(rest@ =~= ev.subrange(0, ev.len() as int));
            }
            while rest.len() > 0
                invariant
                    out@.len() + rest@.len() == ev.len(),
                    rest@ == ev.subrange(out@.len() as int, ev.len() as int),
                    forall|i: int|
                        0 <= i < out@.len() ==> jview_obj(out@)[i] == transform_top_entry(
                            #[trigger] jview_obj(ev)[i],
                        ),
                decreases rest@.len(),
            {
                let ghost done = out@.len() as int;
                let (k, val) = rest.remove(0);
                proof {
                    assert(ev[done] == (k, val));
                    assert(rest@ =~= ev.subrange(done + 1, ev.len() as int));
                }
                let nv = if string_eq_lit(&k, "permissions") {
                    transform_permissions_value(val)
                } else {
                    val
                };
                out.push((k, nv));
                proof {
                    assert(jview_obj(out@)[done] == (k@, jview(nv)));
                    assert(jview_obj(ev)[done] == (k@, jview(val)));
                }
            }
            proof {
                assert(out@.len() == ev.len());
                assert(jview_obj(out@) =~= jview_obj(ev).map_values(
                    |e: (Seq<char>, JsonV)| transform_top_entry(e),
                ));
            }
            Json::Obj(out)
        },
        other => other,
    }
}

} // verus!
