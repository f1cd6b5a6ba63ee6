//! The state store: a mutable document with path-addressed reads and writes.
//!
//! Reads that miss fall back into the `inputs` section; writes that miss
//! auto-create at most one intermediate level. This asymmetry is part of the
//! store's contract and decides which programs run without structural errors.

use crate::json::Json;
use crate::json::JsonV;
use crate::json::entries_view;
use crate::json::lemma_obj_lookup_at;
use crate::json::lemma_obj_lookup_none;
use crate::json::obj_lookup;
use crate::json::obj_store;
use crate::path::json_at;
use crate::path::json_at_exec;
use crate::path::json_replace;
use crate::path::json_replace_exec;
use crate::path::lemma_obj_store_at;
use crate::path::path_tokens;
use crate::path::split_path;
use vstd::prelude::*;

verus! {

/// What a mismatched operand was required to be.
#[derive(Debug, PartialEq, Eq, Structural, Clone, Copy)]
pub enum TypeWant {
    Number,
    Array,
}

/// A failure of the engine, with the data a caller needs to diagnose it.
#[derive(Debug, PartialEq)]
pub enum EngineError {
    /// Read resolution exhausted; carries the available keys as hints.
    PathNotFound { path: String, root_keys: Vec<String>, input_keys: Option<Vec<String>> },
    /// A write targeted a new path deeper than the auto-create rules allow,
    /// or a segment collided with a non-object value.
    InvalidWritePath { path: String },
    /// An operand required to be numeric or an array was something else.
    TypeMismatch { path: String, wanted: TypeWant },
    /// The scalar divide step resolved a zero denominator.
    DivisionByZero,
}

/// The mathematical shape of an engine failure.
pub enum ErrV {
    PathNotFound { path: Seq<char>, root_keys: Seq<Seq<char>>, input_keys: Option<Seq<Seq<char>>> },
    InvalidWritePath { path: Seq<char> },
    TypeMismatch { path: Seq<char>, wanted: TypeWant },
    DivisionByZero,
}

impl View for EngineError {
    type V = ErrV;

    open spec fn view(&self) -> ErrV {
        match self {
            EngineError::PathNotFound { path, root_keys, input_keys } => ErrV::PathNotFound {
                path: path@,
                root_keys: root_keys.deep_view(),
                input_keys: match input_keys {
                    Some(v) => Some(v.deep_view()),
                    None => None,
                },
            },
            EngineError::InvalidWritePath { path } => ErrV::InvalidWritePath { path: path@ },
            EngineError::TypeMismatch { path, wanted } => ErrV::TypeMismatch {
                path: path@,
                wanted: *wanted,
            },
            EngineError::DivisionByZero => ErrV::DivisionByZero,
        }
    }
}

/// The key of the section the caller's input data is seeded under.
pub open spec fn inputs_key() -> Seq<char> {
    "inputs"@
}

/// The key of the scratch section.
pub open spec fn temp_key() -> Seq<char> {
    "temp"@
}

/// The document a fresh execution starts from.
pub open spec fn initial_doc(inputs: JsonV) -> JsonV {
    JsonV::Obj(seq![(inputs_key(), inputs), (temp_key(), JsonV::Obj(Seq::empty()))])
}

/// The root keys of the document, as the not-found hint reports them.
pub open spec fn root_keys_of(doc: JsonV) -> Seq<Seq<char>> {
    match doc {
        JsonV::Obj(es) => Seq::new(es.len(), |i: int| es[i].0),
        _ => Seq::empty(),
    }
}

/// The keys of the `inputs` section, when it exists and is an object.
pub open spec fn input_keys_of(doc: JsonV) -> Option<Seq<Seq<char>>> {
    match json_at(doc, seq![inputs_key()]) {
        Some(JsonV::Obj(es)) => Some(Seq::new(es.len(), |i: int| es[i].0)),
        _ => None,
    }
}

/// What reading `path` from `doc` returns: the exact location first, then the
/// same path under `inputs`, else the not-found error with key hints.
pub open spec fn spec_get(doc: JsonV, path: Seq<char>) -> Result<JsonV, ErrV> {
    let exact = match path_tokens(path) {
        Some(t) => json_at(doc, t),
        None => None,
    };
    match exact {
        Some(v) => Ok(v),
        None => {
            let fb = match path_tokens(path) {
                Some(t) => if path.len() > 0 {
                    json_at(doc, seq![inputs_key()] + t)
                } else {
                    None
                },
                None => None,
            };
            match fb {
                Some(v) => Ok(v),
                None => Err(
                    ErrV::PathNotFound {
                        path: path,
                        root_keys: root_keys_of(doc),
                        input_keys: input_keys_of(doc),
                    },
                ),
            }
        },
    }
}

/// The auto-create rules for a write whose path did not resolve: one new
/// segment makes a root key, two make one intermediate section; anything
/// else, or a collision with a non-object, is an invalid write.
pub open spec fn spec_autocreate(doc: JsonV, path: Seq<char>, toks: Seq<Seq<char>>, val: JsonV) -> Result<
    JsonV,
    ErrV,
> {
    if toks.len() == 1 && toks[0].len() > 0 {
        match doc {
            JsonV::Obj(es) => Ok(JsonV::Obj(obj_store(es, toks[0], val))),
            _ => Err(ErrV::InvalidWritePath { path: path }),
        }
    } else if toks.len() == 2 {
        match doc {
            JsonV::Obj(es) => match obj_lookup(es, toks[0]) {
                None => Ok(
                    JsonV::Obj(obj_store(es, toks[0], JsonV::Obj(seq![(toks[1], val)]))),
                ),
                Some(JsonV::Obj(es2)) => Ok(
                    JsonV::Obj(obj_store(es, toks[0], JsonV::Obj(obj_store(es2, toks[1], val)))),
                ),
                Some(_) => Err(ErrV::InvalidWritePath { path: path }),
            },
            _ => Err(ErrV::InvalidWritePath { path: path }),
        }
    } else {
        Err(ErrV::InvalidWritePath { path: path })
    }
}

/// What writing `val` at `path` does to `doc`: replace in place when the path
/// resolves, else auto-create as `spec_autocreate` says.
pub open spec fn spec_set(doc: JsonV, path: Seq<char>, val: JsonV) -> Result<JsonV, ErrV> {
    match path_tokens(path) {
        Some(toks) => match json_replace(doc, toks, val) {
            Some(d) => Ok(d),
            None => spec_autocreate(doc, path, toks, val),
        },
        None => Err(ErrV::InvalidWritePath { path: path }),
    }
}

/// The execution-time document of one run.
#[derive(Debug)]
pub struct RuntimeState {
    pub data: Json,
}

impl View for RuntimeState {
    type V = JsonV;

    open spec fn view(&self) -> JsonV {
        self.data@
    }
}

/// `obj_store` when no entry matches: the new entry goes at the end.
pub proof fn lemma_obj_store_append(
    entries: Seq<(Seq<char>, JsonV)>,
    key: Seq<char>,
    val: JsonV,
)
    requires
        forall|j: int| 0 <= j < entries.len() ==> entries[j].0 != key,
    ensures
        obj_store(entries, key, val) == entries.push((key, val)),
    decreases entries.len(),
{
    if entries.len() == 0 {
        assert(obj_store(entries, key, val) =~= entries.push((key, val)));
    } else {
        lemma_obj_store_append(entries.skip(1), key, val);
        assert(obj_store(entries, key, val) =~= entries.push((key, val)));
    }
}

/// `es` with `val` stored under `key`, as `obj_store` describes it.
pub(crate) fn obj_store_exec(es: &Vec<(String, Json)>, key: &String, val: Json) -> (out: Vec<(String, Json)>)
    ensures
        entries_view(out@) == obj_store(entries_view(es@), key@, val@),
{
    let ghost valv = val@;
    match Json::find_key(es, key) {
        Some(i) => {
            proof {
                lemma_obj_store_at(entries_view(es@), key@, i as int, valv);
            }
            crate::path::obj_update_entry(es, i, val)
        },
        None => {
            proof {
                lemma_obj_store_append(entries_view(es@), key@, valv);
            }
            let n = es.len();
            let mut out: Vec<(String, Json)> = Vec::new();
            let mut m: usize = 0;
            while m < n
                invariant
                    n == es@.len(),
                    m <= n,
                    out@.len() == m as int,
                    forall|q: int|
                        0 <= q < m as int ==> out@[q].0@ == es@[q].0@ && out@[q].1@ == es@[q].1@,
                decreases n - m,
            {
                let (kk, vv) = &es[m];
                out.push((kk.clone(), vv.deep_copy()));
                m += 1;
            }
            out.push((key.clone(), val));
            proof {
                assert(entries_view(out@) =~~= entries_view(es@).push((key@, valv)));
            }
            out
        },
    }
}

impl RuntimeState {
    /// A fresh document: the caller's data under `inputs`, an empty `temp`.
    pub fn new(inputs: Json) -> (r: RuntimeState)
        ensures
            r@ == initial_doc(inputs@),
    {
        let mut entries: Vec<(String, Json)> = Vec::new();
        entries.push((String::from_str("inputs"), inputs));
        entries.push((String::from_str("temp"), Json::Obj(Vec::new())));
        proof {
            assert(entries_view(Seq::<(String, Json)>::empty()) =~= Seq::<(
                Seq<char>,
                JsonV,
            )>::empty());
            assert(entries_view(entries@) =~~= seq![
                (inputs_key(), inputs@),
                (temp_key(), JsonV::Obj(Seq::empty())),
            ]);
        }
        RuntimeState { data: Json::Obj(entries) }
    }

    /// The not-found error for `path`, with the current key hints.
    fn not_found(&self, path: &str) -> (r: EngineError)
        ensures
            r@ == (ErrV::PathNotFound {
                path: path@,
                root_keys: root_keys_of(self@),
                input_keys: input_keys_of(self@),
            }),
    {
        let root_keys: Vec<String> = match &self.data {
            Json::Obj(es) => {
                let n = es.len();
                let mut ks: Vec<String> = Vec::new();
                let mut m: usize = 0;
                while m < n
                    invariant
                        n == es@.len(),
                        m <= n,
                        ks@.len() == m as int,
                        forall|q: int| 0 <= q < m as int ==> ks@[q]@ == es@[q].0@,
                    decreases n - m,
                {
                    ks.push(es[m].0.clone());
                    m += 1;
                }
                proof {
                    assert(self@ == JsonV::Obj(entries_view(es@)));
                    assert(ks.deep_view().len() == root_keys_of(self@).len());
                    assert forall|q: int| 0 <= q < n as int implies ks.deep_view()[q]
                        == root_keys_of(self@)[q] by {
                        assert(ks.deep_view()[q] == ks@[q]@);
                        assert(entries_view(es@)[q].0 == es@[q].0@);
                    }
                    assert(ks.deep_view() =~~= root_keys_of(self@));
                }
                ks
            },
            _ => {
                let ks: Vec<String> = Vec::new();
                proof {
                    assert(ks.deep_view() =~~= root_keys_of(self@));
                }
                ks
            },
        };
        let mut inputs_path: Vec<String> = Vec::new();
        inputs_path.push(String::from_str("inputs"));
        proof {
            assert(inputs_path.deep_view() =~~= seq![inputs_key()]);
            assert(inputs_path.deep_view().skip(0) =~= inputs_path.deep_view());
        }
        let input_keys: Option<Vec<String>> = match json_at_exec(&self.data, &inputs_path, 0) {
            Some(x) => match x {
                Json::Obj(es) => {
                    let n = es.len();
                    let mut ks: Vec<String> = Vec::new();
                    let mut m: usize = 0;
                    while m < n
                        invariant
                            n == es@.len(),
                            m <= n,
                            ks@.len() == m as int,
                            forall|q: int| 0 <= q < m as int ==> ks@[q]@ == es@[q].0@,
                        decreases n - m,
                    {
                        ks.push(es[m].0.clone());
                        m += 1;
                    }
                    proof {
                        assert(json_at(self@, seq![inputs_key()]) == Some(x@));
                        assert(x@ == JsonV::Obj(entries_view(es@)));
                        let skeys = Seq::new(
                            entries_view(es@).len(),
                            |i: int| entries_view(es@)[i].0,
                        );
                        assert(input_keys_of(self@) == Some(skeys));
                        assert forall|q: int| 0 <= q < n as int implies ks.deep_view()[q]
                            == skeys[q] by {
                            assert(ks.deep_view()[q] == ks@[q]@);
                            assert(entries_view(es@)[q].0 == es@[q].0@);
                        }
                        assert(ks.deep_view() =~~= skeys);
                    }
                    Some(ks)
                },
                _ => None,
            },
            None => None,
        };
        EngineError::PathNotFound { path: String::from_str(path), root_keys, input_keys }
    }

    /// Reads `path`, falling back under `inputs` as `spec_get` says.
    pub fn get(&self, path: &str) -> (r: Result<Json, EngineError>)
        ensures
            match r {
                Ok(v) => spec_get(self@, path@) == Ok::<JsonV, ErrV>(v@),
                Err(e) => spec_get(self@, path@) == Err::<JsonV, ErrV>(e@),
            },
    {
        match split_path(path) {
            Some(toks) => {
                proof {
                    assert(toks.deep_view().skip(0) =~= toks.deep_view());
                }
                match json_at_exec(&self.data, &toks, 0) {
                    Some(v) => Ok(v.deep_copy()),
                    None => {
                        if path.unicode_len() > 0 {
                            let mut toks2: Vec<String> = Vec::new();
                            toks2.push(String::from_str("inputs"));
                            let n = toks.len();
                            let mut m: usize = 0;
                            while m < n
                                invariant
                                    n == toks@.len(),
                                    m <= n,
                                    toks2@.len() == m as int + 1,
                                    toks2.deep_view()[0] == inputs_key(),
                                    forall|q: int|
                                        0 <= q < m as int ==> toks2.deep_view()[q + 1]
                                            == toks.deep_view()[q],
                                decreases n - m,
                            {
                                toks2.push(toks[m].clone());
                                m += 1;
                            }
                            proof {
                                assert(toks2.deep_view() =~~= seq![inputs_key()]
                                    + toks.deep_view());
                                assert(toks2.deep_view().skip(0) =~= toks2.deep_view());
                            }
                            match json_at_exec(&self.data, &toks2, 0) {
                                Some(v) => Ok(v.deep_copy()),
                                None => Err(self.not_found(path)),
                            }
                        } else {
                            // the empty path always resolves to the whole
                            // document, so an unresolved empty path cannot
                            // happen
                            proof {
                                assert(false);
                            }
                            Err(self.not_found(path))
                        }
                    },
                }
            },
            None => Err(self.not_found(path)),
        }
    }

    /// Writes `value` at `path`: replaces in place when the path resolves,
    /// else auto-creates as `spec_set` says. On failure the document is
    /// unchanged.
    pub fn set(&mut self, path: &str, value: Json) -> (r: Result<(), EngineError>)
        ensures
            match r {
                Ok(_) => spec_set(old(self)@, path@, value@) == Ok::<JsonV, ErrV>(final(self)@),
                Err(e) => spec_set(old(self)@, path@, value@) == Err::<JsonV, ErrV>(e@)
                    && final(self)@ == old(self)@,
            },
    {
        match split_path(path) {
            Some(toks) => {
                proof {
                    assert(toks.deep_view().skip(0) =~= toks.deep_view());
                }
                match json_replace_exec(&self.data, &toks, 0, value) {
                    Ok(d) => {
                        self.data = d;
                        Ok(())
                    },
                    Err(value_back) => self.autocreate(path, &toks, value_back),
                }
            },
            None => Err(EngineError::InvalidWritePath { path: String::from_str(path) }),
        }
    }

    /// The auto-create arm of a write, for a path that did not resolve.
    fn autocreate(&mut self, path: &str, toks: &Vec<String>, val: Json) -> (r: Result<
        (),
        EngineError,
    >)
        ensures
            match r {
                Ok(_) => spec_autocreate(old(self)@, path@, toks.deep_view(), val@)
                    == Ok::<JsonV, ErrV>(final(self)@),
                Err(e) => spec_autocreate(old(self)@, path@, toks.deep_view(), val@) == Err::<
                    JsonV,
                    ErrV,
                >(e@) && final(self)@ == old(self)@,
            },
    {
        let ghost toksv = toks.deep_view();
        let ghost valv = val@;
        let step: Result<Json, EngineError> = if toks.len() == 1 && !toks[0].as_str().is_empty() {
            match &self.data {
                Json::Obj(es) => Ok(Json::Obj(obj_store_exec(es, &toks[0], val))),
                _ => Err(EngineError::InvalidWritePath { path: String::from_str(path) }),
            }
        } else if toks.len() == 2 {
            match &self.data {
                Json::Obj(es) => match Json::find_key(es, &toks[0]) {
                    Some(i) => {
                        proof {
                            assert(entries_view(es@)[i as int].1 == es@[i as int].1@);
                            lemma_obj_lookup_at(entries_view(es@), toksv[0], i as int);
                        }
                        match &es[i].1 {
                            Json::Obj(es2) => {
                                let inner = obj_store_exec(es2, &toks[1], val);
                                proof {
                                    lemma_obj_store_at(
                                        entries_view(es@),
                                        toksv[0],
                                        i as int,
                                        JsonV::Obj(entries_view(inner@)),
                                    );
                                }
                                Ok(Json::Obj(crate::path::obj_update_entry(es, i, Json::Obj(inner))))
                            },
                            _ => Err(
                                EngineError::InvalidWritePath { path: String::from_str(path) },
                            ),
                        }
                    },
                    None => {
                        proof {
                            lemma_obj_lookup_none(entries_view(es@), toksv[0]);
                        }
                        let mut inner_entries: Vec<(String, Json)> = Vec::new();
                        inner_entries.push((toks[1].clone(), val));
                        proof {
                            assert(entries_view(inner_entries@) =~~= seq![(toksv[1], valv)]);
                        }
                        Ok(Json::Obj(obj_store_exec(es, &toks[0], Json::Obj(inner_entries))))
                    },
                },
                _ => Err(EngineError::InvalidWritePath { path: String::from_str(path) }),
            }
        } else {
            Err(EngineError::InvalidWritePath { path: String::from_str(path) })
        };
        match step {
            Ok(d) => {
                self.data = d;
                Ok(())
            },
            Err(e) => Err(e),
        }
    }
}

} // verus!
