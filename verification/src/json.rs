use vstd::prelude::*;

verus! {

broadcast use vstd::std_specs::vec::group_vec_axioms, vstd::seq::group_seq_axioms;

/// `serde_json::Number` carried through the formatter untouched; its
/// numeric content is never inspected by the library.
#[verifier::external_type_specification]
#[verifier::external_body]
pub struct ExNumber(serde_json::Number);

/// A JSON document as the library holds it. Object entries keep their
/// textual order; numbers stay opaque.
pub enum Json {
    Null,
    Bool(bool),
    Num(serde_json::Number),
    Str(String),
    Arr(Vec<Json>),
    Obj(Vec<(String, Json)>),
}

/// The mathematical shape of a JSON document: strings are character
/// sequences, arrays and objects are sequences.
pub enum JsonV {
    Null,
    Bool(bool),
    Num(serde_json::Number),
    Str(Seq<char>),
    Arr(Seq<JsonV>),
    Obj(Seq<(Seq<char>, JsonV)>),
}

/// The abstract value of a document tree.
pub open spec fn jview(j: Json) -> JsonV
    decreases j,
{
    match j {
        Json::Null => JsonV::Null,
        Json::Bool(b) => JsonV::Bool(b),
        Json::Num(n) => JsonV::Num(n),
        Json::Str(s) => JsonV::Str(s@),
        Json::Arr(v) => JsonV::Arr(jview_arr(v@)),
        Json::Obj(v) => JsonV::Obj(jview_obj(v@)),
    }
}

/// The abstract values of the elements of an array.
pub open spec fn jview_arr(s: Seq<Json>) -> Seq<JsonV>
    decreases s,
{
    if s.len() == 0 {
        Seq::empty()
    } else {
        seq![jview(s[0])] + jview_arr(s.drop_first())
    }
}

/// The abstract values of the entries of an object.
pub open spec fn jview_obj(s: Seq<(String, Json)>) -> Seq<(Seq<char>, JsonV)>
    decreases s,
{
    if s.len() == 0 {
        Seq::empty()
    } else {
        seq![(s[0].0@, jview(s[0].1))] + jview_obj(s.drop_first())
    }
}

impl View for Json {
    type V = JsonV;

    open spec fn view(&self) -> JsonV {
        jview(*self)
    }
}

/// An array view has one abstract element per concrete element.
pub broadcast proof fn lemma_jview_arr_len(s: Seq<Json>)
    ensures
        (#[trigger] jview_arr(s)).len() == s.len(),
    decreases s.len(),
{
    if s.len() > 0 {
        lemma_jview_arr_len(s.drop_first());
    }
}

/// Each element of an array view is the view of the element.
pub broadcast proof fn lemma_jview_arr_index(s: Seq<Json>, i: int)
    requires
        0 <= i < s.len(),
    ensures
        #[trigger] jview_arr(s)[i] == jview(s[i]),
    decreases s.len(),
{
    lemma_jview_arr_len(s);
    if i > 0 {
        lemma_jview_arr_index(s.drop_first(), i - 1);
    }
}

/// An object view has one abstract entry per concrete entry.
pub broadcast proof fn lemma_jview_obj_len(s: Seq<(String, Json)>)
    ensures
        (#[trigger] jview_obj(s)).len() == s.len(),
    decreases s.len(),
{
    if s.len() > 0 {
        lemma_jview_obj_len(s.drop_first());
    }
}

/// Each entry of an object view keeps its key and the view of its value.
pub broadcast proof fn lemma_jview_obj_index(s: Seq<(String, Json)>, i: int)
    requires
        0 <= i < s.len(),
    ensures
        #[trigger] jview_obj(s)[i] == (s[i].0@, jview(s[i].1)),
    decreases s.len(),
{
    lemma_jview_obj_len(s);
    if i > 0 {
        lemma_jview_obj_index(s.drop_first(), i - 1);
    }
}

} // verus!
