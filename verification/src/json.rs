//! The document model: a tree of tagged JSON values, with a mathematical view
//! used by every contract of the engine.

use vstd::prelude::*;

verus! {

broadcast use vstd::seq::axiom_seq_index_decreases, vstd::std_specs::vec::axiom_vec_decreases_to_view, vstd::std_specs::vec::axiom_vec_index_decreases;

/// A JSON-like document value. Objects keep their entries in insertion
/// order; lookups take the first entry with a matching key.
#[derive(Debug, PartialEq)]
pub enum Json {
    Null,
    Bool(bool),
    Num(serde_json::Number),
    Text(String),
    Arr(Vec<Json>),
    Obj(Vec<(String, Json)>),
}

/// The mathematical shape of a document value: strings become character
/// sequences, vectors become sequences. Numbers stay the opaque scalar.
pub enum JsonV {
    Null,
    Bool(bool),
    Num(serde_json::Number),
    Text(Seq<char>),
    Arr(Seq<JsonV>),
    Obj(Seq<(Seq<char>, JsonV)>),
}

/// The views of the elements of an array.
pub open spec fn arr_view(a: Seq<Json>) -> Seq<JsonV>
    decreases a,
{
    Seq::new(
        a.len(),
        |i: int|
            if 0 <= i < a.len() {
                a[i].view()
            } else {
                JsonV::Null
            },
    )
}

/// The views of the entries of an object.
pub open spec fn entries_view(o: Seq<(String, Json)>) -> Seq<(Seq<char>, JsonV)>
    decreases o,
{
    Seq::new(
        o.len(),
        |i: int|
            if 0 <= i < o.len() {
                (o[i].0@, o[i].1.view())
            } else {
                (Seq::empty(), JsonV::Null)
            },
    )
}

impl View for Json {
    type V = JsonV;

    open spec fn view(&self) -> JsonV
        decreases self,
    {
        match self {
            Json::Null => JsonV::Null,
            Json::Bool(b) => JsonV::Bool(*b),
            Json::Num(n) => JsonV::Num(*n),
            Json::Text(s) => JsonV::Text(s@),
            Json::Arr(a) => JsonV::Arr(arr_view(a@)),
            Json::Obj(o) => JsonV::Obj(entries_view(o@)),
        }
    }
}

/// The value under the first entry of `entries` whose key is `key`, if any.
pub open spec fn obj_lookup(entries: Seq<(Seq<char>, JsonV)>, key: Seq<char>) -> Option<JsonV>
    decreases entries.len(),
{
    if entries.len() == 0 {
        None
    } else if entries[0].0 == key {
        Some(entries[0].1)
    } else {
        obj_lookup(entries.skip(1), key)
    }
}

/// `entries` with the first entry under `key` replaced by `val`, or with
/// `(key, val)` appended when no entry has that key.
pub open spec fn obj_store(
    entries: Seq<(Seq<char>, JsonV)>,
    key: Seq<char>,
    val: JsonV,
) -> Seq<(Seq<char>, JsonV)>
    decreases entries.len(),
{
    if entries.len() == 0 {
        seq![(key, val)]
    } else if entries[0].0 == key {
        seq![(entries[0].0, val)].add(entries.skip(1))
    } else {
        seq![entries[0]].add(obj_store(entries.skip(1), key, val))
    }
}

impl Json {
    /// An exact copy: the copy has the same view as the original.
    pub fn deep_copy(&self) -> (r: Json)
        ensures
            r@ == self@,
        decreases self,
    {
        match self {
            Json::Null => Json::Null,
            Json::Bool(b) => Json::Bool(*b),
            Json::Num(n) => Json::Num(n.clone()),
            Json::Text(s) => Json::Text(s.clone()),
            Json::Arr(a) => {
                let mut out: Vec<Json> = Vec::new();
                let mut i: usize = 0;
                while i < a.len()
                    invariant
                        *self == Json::Arr(*a),
                        i <= a.len(),
                        out@.len() == i as int,
                        forall|j: int| 0 <= j < i as int ==> out@[j]@ == a@[j]@,
                    decreases a.len() - i,
                {
                    proof {
                        assert(decreases_to!(*self => self->Arr_0));
                        assert(self->Arr_0 == *a);
                        assert(decreases_to!(*a => a@));
                        assert(decreases_to!(a@ => a@[i as int]));
                    }
                    out.push(a[i].deep_copy());
                    i += 1;
                }
                proof {
                    assert(arr_view(out@) =~= arr_view(a@));
                }
                Json::Arr(out)
            },
            Json::Obj(o) => {
                let mut out: Vec<(String, Json)> = Vec::new();
                let mut i: usize = 0;
                while i < o.len()
                    invariant
                        *self == Json::Obj(*o),
                        i <= o.len(),
                        out@.len() == i as int,
                        forall|j: int|
                            0 <= j < i as int ==> out@[j].0@ == o@[j].0@ && out@[j].1@ == o@[j].1@,
                    decreases o.len() - i,
                {
                    proof {
                        assert(decreases_to!(*self => self->Obj_0));
                        assert(self->Obj_0 == *o);
                        assert(decreases_to!(*o => o@));
                        assert(decreases_to!(o@ => o@[i as int]));
                    }
                    let (k, v) = &o[i];
                    out.push((k.clone(), v.deep_copy()));
                    i += 1;
                }
                proof {
                    assert(entries_view(out@) =~= entries_view(o@));
                }
                Json::Obj(out)
            },
        }
    }

    /// The index of the first entry of an object with the given key.
    pub fn find_key(entries: &Vec<(String, Json)>, key: &String) -> (r: Option<usize>)
        ensures
            match r {
                Some(i) => i < entries@.len() && entries@[i as int].0@ == key@ && (forall|j: int|
                    0 <= j < i as int ==> entries@[j].0@ != key@),
                None => forall|j: int| 0 <= j < entries@.len() ==> entries@[j].0@ != key@,
            },
    {
        let mut i: usize = 0;
        while i < entries.len()
            invariant
                i <= entries.len(),
                forall|j: int| 0 <= j < i as int ==> entries@[j].0@ != key@,
            decreases entries.len() - i,
        {
            if entries[i].0 == *key {
                return Some(i);
            }
            i += 1;
        }
        None
    }
}

impl Clone for Json {
    /// A clone is a deep copy: it has the same view.
    fn clone(&self) -> (res: Self)
        ensures
            res@ == self@,
    {
        self.deep_copy()
    }
}

/// Relates `obj_lookup` to the index of the first matching entry.
pub proof fn lemma_obj_lookup_at(entries: Seq<(Seq<char>, JsonV)>, key: Seq<char>, i: int)
    requires
        0 <= i < entries.len(),
        entries[i].0 == key,
        forall|j: int| 0 <= j < i ==> entries[j].0 != key,
    ensures
        obj_lookup(entries, key) == Some(entries[i].1),
    decreases i,
{
    if i > 0 {
        lemma_obj_lookup_at(entries.skip(1), key, i - 1);
    }
}

/// When no entry matches, `obj_lookup` finds nothing.
pub proof fn lemma_obj_lookup_none(entries: Seq<(Seq<char>, JsonV)>, key: Seq<char>)
    requires
        forall|j: int| 0 <= j < entries.len() ==> entries[j].0 != key,
    ensures
        obj_lookup(entries, key) == None::<JsonV>,
    decreases entries.len(),
{
    if entries.len() > 0 {
        lemma_obj_lookup_none(entries.skip(1), key);
    }
}

} // verus!
