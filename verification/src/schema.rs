//! Cleaning a JSON-Schema-shaped tree for a strict consumer: references are
//! resolved in place, bookkeeping keys dropped, boolean schemas and nullable
//! type pairs rewritten, recursively through properties, items and the
//! combinators, to a bounded depth.

use crate::json::Json;
use crate::json::JsonV;
use crate::json::arr_view;
use crate::json::entries_view;
use crate::json::lemma_obj_lookup_at;
use crate::json::lemma_obj_lookup_none;
use crate::json::obj_lookup;
use crate::json::obj_store;
use crate::path::lemma_obj_store_at;
use crate::state::obj_store_exec;
use crate::textio::rfind_sub;
use vstd::prelude::*;

verus! {

/// `es` without its entry under `key`, when it has one.
pub open spec fn obj_remove(es: Seq<(Seq<char>, JsonV)>, key: Seq<char>) -> Seq<
    (Seq<char>, JsonV),
>
    decreases es.len(),
{
    if es.len() == 0 {
        Seq::empty()
    } else if es[0].0 == key {
        es.skip(1)
    } else {
        seq![es[0]] + obj_remove(es.skip(1), key)
    }
}

/// The bookkeeping keys dropped from every schema node.
pub open spec fn strip_keys(es: Seq<(Seq<char>, JsonV)>) -> Seq<(Seq<char>, JsonV)> {
    obj_remove(
        obj_remove(
            obj_remove(
                obj_remove(
                    obj_remove(
                        obj_remove(obj_remove(es, "$ref"@), "additionalProperties"@),
                        "$schema"@,
                    ),
                    "$id"@,
                ),
                "title"@,
            ),
            "default"@,
        ),
        "examples"@,
    )
}

/// The name a reference points at: the text after its last separator.
pub open spec fn ref_name(r: Seq<char>) -> Seq<char> {
    match rfind_sub(r, seq!['/']) {
        Some(i) => r.skip(i + 1),
        None => r,
    }
}

/// The replacement for a reference nobody defines.
pub open spec fn unresolvable_node() -> JsonV {
    JsonV::Obj(
        seq![
            ("type"@, JsonV::Text("object"@)),
            ("description"@, JsonV::Text("Unresolvable reference"@)),
        ],
    )
}

/// The typed form of the permissive boolean schema.
pub open spec fn any_type_node() -> JsonV {
    JsonV::Obj(
        seq![
            (
                "type"@,
                JsonV::Arr(
                    seq![
                        JsonV::Text("string"@),
                        JsonV::Text("number"@),
                        JsonV::Text("boolean"@),
                        JsonV::Text("null"@),
                    ],
                ),
            ),
        ],
    )
}

/// The typed form of the rejecting boolean schema.
pub open spec fn nothing_node() -> JsonV {
    JsonV::Obj(seq![("not"@, JsonV::Obj(Seq::empty()))])
}

/// What a node too deep to process collapses to.
pub open spec fn depth_capped_node() -> JsonV {
    JsonV::Obj(seq![("type"@, JsonV::Text("object"@)), ("nullable"@, JsonV::Bool(true))])
}

/// Follows `$ref` entries through the definitions, spending one unit of
/// budget per replacement; an unknown name becomes the unresolvable marker,
/// and an exhausted budget leaves the node as it stands.
pub open spec fn resolve_refs(node: JsonV, defs: Seq<(Seq<char>, JsonV)>, budget: int) -> JsonV
    decreases budget,
{
    match node {
        JsonV::Obj(es) => match obj_lookup(es, "$ref"@) {
            Some(JsonV::Text(r)) => if budget <= 0 {
                node
            } else {
                match obj_lookup(defs, ref_name(r)) {
                    Some(d) => resolve_refs(d, defs, budget - 1),
                    None => unresolvable_node(),
                }
            },
            _ => node,
        },
        _ => node,
    }
}

/// The first listed type that is not the null type.
pub open spec fn first_non_null(ts: Seq<JsonV>) -> Option<JsonV>
    decreases ts.len(),
{
    if ts.len() == 0 {
        None
    } else if ts[0] != JsonV::Text("null"@) {
        Some(ts[0])
    } else {
        first_non_null(ts.skip(1))
    }
}

/// Rewrites a `type` list: a pair with null becomes the other type marked
/// nullable, any other non-empty list collapses to its first entry.
pub open spec fn fix_type(es: Seq<(Seq<char>, JsonV)>) -> Seq<(Seq<char>, JsonV)> {
    match obj_lookup(es, "type"@) {
        Some(JsonV::Arr(ts)) => if ts.len() == 2 && ts.contains(JsonV::Text("null"@)) {
            match first_non_null(ts) {
                Some(t) => obj_store(obj_store(es, "type"@, t), "nullable"@, JsonV::Bool(true)),
                None => es,
            }
        } else if ts.len() > 0 {
            obj_store(es, "type"@, ts[0])
        } else {
            es
        },
        _ => es,
    }
}

/// Each element processed one level deeper; past the depth bound the
/// elements stand as they are (the caller has already collapsed the node).
pub open spec fn process_arr(a: Seq<JsonV>, defs: Seq<(Seq<char>, JsonV)>, depth: int) -> Seq<
    JsonV,
>
    decreases 21 - depth, 0int,
{
    if depth > 20 {
        a
    } else {
        Seq::new(a.len(), |i: int| process_node(a[i], defs, depth + 1))
    }
}

/// Each entry's value processed one level deeper.
pub open spec fn process_entries(
    ps: Seq<(Seq<char>, JsonV)>,
    defs: Seq<(Seq<char>, JsonV)>,
    depth: int,
) -> Seq<(Seq<char>, JsonV)>
    decreases 21 - depth, 0int,
{
    if depth > 20 {
        ps
    } else {
        Seq::new(ps.len(), |i: int| (ps[i].0, process_node(ps[i].1, defs, depth + 1)))
    }
}

/// Rewrites the array under one combinator key, processing each branch.
pub open spec fn rewrite_combinator(
    es: Seq<(Seq<char>, JsonV)>,
    key: Seq<char>,
    defs: Seq<(Seq<char>, JsonV)>,
    depth: int,
) -> Seq<(Seq<char>, JsonV)>
    decreases 21 - depth, 1int,
{
    if depth > 20 {
        es
    } else {
        match obj_lookup(es, key) {
            Some(JsonV::Arr(a)) => obj_store(es, key, JsonV::Arr(process_arr(a, defs, depth))),
            _ => es,
        }
    }
}

/// One pass of schema cleaning over a node: resolve references, type the
/// boolean schemas, strip bookkeeping keys, rewrite the type list, and
/// recurse into properties, items, the combinators and array elements. Past
/// the depth bound a node collapses to a permissive object.
pub open spec fn process_node(node: JsonV, defs: Seq<(Seq<char>, JsonV)>, depth: int) -> JsonV
    decreases 21 - depth, 2int,
{
    if depth > 20 {
        depth_capped_node()
    } else {
        let r = resolve_refs(node, defs, 10);
        let r2 = match r {
            JsonV::Bool(b) => if b {
                any_type_node()
            } else {
                nothing_node()
            },
            _ => r,
        };
        match r2 {
            JsonV::Obj(es0) => {
                let es1 = fix_type(strip_keys(es0));
                let es2 = match obj_lookup(es1, "properties"@) {
                    Some(JsonV::Obj(ps)) => obj_store(
                        es1,
                        "properties"@,
                        JsonV::Obj(process_entries(ps, defs, depth)),
                    ),
                    _ => es1,
                };
                let es3 = match obj_lookup(es2, "items"@) {
                    Some(v) => obj_store(es2, "items"@, process_node(v, defs, depth + 1)),
                    None => es2,
                };
                let es4 = rewrite_combinator(es3, "allOf"@, defs, depth);
                let es5 = rewrite_combinator(es4, "anyOf"@, defs, depth);
                let es6 = rewrite_combinator(es5, "oneOf"@, defs, depth);
                JsonV::Obj(es6)
            },
            JsonV::Arr(a) => JsonV::Arr(process_arr(a, defs, depth)),
            _ => r2,
        }
    }
}

/// The definition table a schema carries, under `definitions` or `$defs`.
pub open spec fn defs_of(root: JsonV) -> Seq<(Seq<char>, JsonV)> {
    let d = match root {
        JsonV::Obj(es) => match obj_lookup(es, "definitions"@) {
            Some(v) => v,
            None => match obj_lookup(es, "$defs"@) {
                Some(v) => v,
                None => JsonV::Obj(Seq::empty()),
            },
        },
        _ => JsonV::Obj(Seq::empty()),
    };
    match d {
        JsonV::Obj(ds) => ds,
        _ => Seq::empty(),
    }
}

/// What cleaning a whole schema yields: the processed tree with the root's
/// own bookkeeping keys dropped.
pub open spec fn spec_clean_schema(root: JsonV) -> JsonV {
    let processed = process_node(root, defs_of(root), 0);
    match processed {
        JsonV::Obj(es) => JsonV::Obj(
            obj_remove(
                obj_remove(
                    obj_remove(obj_remove(obj_remove(es, "$schema"@), "title"@), "definitions"@),
                    "$defs"@,
                ),
                "$id"@,
            ),
        ),
        _ => processed,
    }
}

/// An exact copy of an entry list.
fn clone_entries(es: &Vec<(String, Json)>) -> (out: Vec<(String, Json)>)
    ensures
        entries_view(out@) == entries_view(es@),
{
    let n = es.len();
    let mut out: Vec<(String, Json)> = Vec::new();
    let mut m: usize = 0;
    while m < n
        invariant
            n == es@.len(),
            m <= n,
            out@.len() == m as int,
            forall|q: int| 0 <= q < m as int ==> out@[q].0@ == es@[q].0@ && out@[q].1@ == es@[q].1@,
        decreases n - m,
    {
        let (kk, vv) = &es[m];
        out.push((kk.clone(), vv.deep_copy()));
        m += 1;
    }
    proof {
        assert(entries_view(out@) =~~= entries_view(es@));
    }
    out
}

/// Removing the first matching entry takes out exactly that index.
proof fn lemma_obj_remove_at(es: Seq<(Seq<char>, JsonV)>, key: Seq<char>, i: int)
    requires
        0 <= i < es.len(),
        es[i].0 == key,
        forall|j: int| 0 <= j < i ==> es[j].0 != key,
    ensures
        obj_remove(es, key) == es.take(i) + es.skip(i + 1),
    decreases i,
{
    if i == 0 {
        assert(obj_remove(es, key) =~= es.take(0) + es.skip(1));
    } else {
        lemma_obj_remove_at(es.skip(1), key, i - 1);
        assert(es.skip(1).take(i - 1) =~= es.take(i).skip(1));
        assert(es.skip(1).skip(i) =~= es.skip(i + 1));
        assert(obj_remove(es, key) =~= es.take(i) + es.skip(i + 1));
    }
}

/// Removing an absent key changes nothing.
proof fn lemma_obj_remove_none(es: Seq<(Seq<char>, JsonV)>, key: Seq<char>)
    requires
        forall|j: int| 0 <= j < es.len() ==> es[j].0 != key,
    ensures
        obj_remove(es, key) == es,
    decreases es.len(),
{
    if es.len() > 0 {
        lemma_obj_remove_none(es.skip(1), key);
        assert(obj_remove(es, key) =~= es);
    } else {
        assert(obj_remove(es, key) =~= es);
    }
}

/// `es` without its entry under `key`, as `obj_remove` has it.
fn obj_remove_exec(es: &Vec<(String, Json)>, key: &String) -> (out: Vec<(String, Json)>)
    ensures
        entries_view(out@) == obj_remove(entries_view(es@), key@),
{
    match Json::find_key(es, key) {
        Some(i) => {
            proof {
                lemma_obj_remove_at(entries_view(es@), key@, i as int);
            }
            let n = es.len();
            let mut out: Vec<(String, Json)> = Vec::new();
            let mut m: usize = 0;
            while m < n
                invariant
                    n == es@.len(),
                    i < n,
                    m <= n,
                    out@.len() == (if m <= i {
                        m as int
                    } else {
                        m as int - 1
                    }),
                    forall|q: int|
                        0 <= q < m as int && q < i as int ==> out@[q].0@ == es@[q].0@
                            && out@[q].1@ == es@[q].1@,
                    forall|q: int|
                        (i as int) < q < (m as int) ==> out@[q - 1].0@ == es@[q].0@ && out@[q
                            - 1].1@ == es@[q].1@,
                decreases n - m,
            {
                if m != i {
                    let (kk, vv) = &es[m];
                    out.push((kk.clone(), vv.deep_copy()));
                }
                m += 1;
            }
            proof {
                assert(entries_view(out@) =~~= entries_view(es@).take(i as int) + entries_view(
                    es@,
                ).skip(i as int + 1));
            }
            out
        },
        None => {
            proof {
                lemma_obj_remove_none(entries_view(es@), key@);
            }
            clone_entries(es)
        },
    }
}

/// Drops the bookkeeping keys, as `strip_keys` has them.
fn strip_keys_exec(es: &Vec<(String, Json)>) -> (out: Vec<(String, Json)>)
    ensures
        entries_view(out@) == strip_keys(entries_view(es@)),
{
    let s1 = obj_remove_exec(es, &String::from_str("$ref"));
    let s2 = obj_remove_exec(&s1, &String::from_str("additionalProperties"));
    let s3 = obj_remove_exec(&s2, &String::from_str("$schema"));
    let s4 = obj_remove_exec(&s3, &String::from_str("$id"));
    let s5 = obj_remove_exec(&s4, &String::from_str("title"));
    let s6 = obj_remove_exec(&s5, &String::from_str("default"));
    obj_remove_exec(&s6, &String::from_str("examples"))
}

/// The name after the last separator of a reference, as `ref_name` has it.
fn ref_name_exec(r: &String) -> (out: String)
    ensures
        out@ == ref_name(r@),
{
    let cs = crate::text::chars_of(r.as_str());
    let slash: Vec<char> = vec!['/'];
    proof {
        assert(slash@ =~= seq!['/']);
    }
    match crate::textio::rfind_exec(&cs, &slash) {
        Some(i) => {
            let n = cs.len();
            let mut out: Vec<char> = Vec::new();
            let mut m: usize = i + 1;
            proof {
                assert(cs@.subrange(i as int + 1, i as int + 1) =~= Seq::<char>::empty());
            }
            while m < n
                invariant
                    n == cs@.len(),
                    i + 1 <= m <= n,
                    out@ == cs@.subrange(i as int + 1, m as int),
                decreases n - m,
            {
                out.push(cs[m]);
                proof {
                    assert(cs@.subrange(i as int + 1, m as int + 1) =~= cs@.subrange(
                        i as int + 1,
                        m as int,
                    ).push(cs@[m as int]));
                }
                m += 1;
            }
            proof {
                assert(out@ =~= r@.skip(i as int + 1));
            }
            crate::text::string_from_chars(&out)
        },
        None => r.clone(),
    }
}

/// The first listed type that is not the null type, as `first_non_null` has
/// it.
fn first_non_null_exec(ts: &Vec<Json>) -> (r: Option<Json>)
    ensures
        match r {
            Some(t) => first_non_null(arr_view(ts@)) == Some(t@),
            None => first_non_null(arr_view(ts@)) == None::<JsonV>,
        },
{
    let ghost av = arr_view(ts@);
    let nullstr = String::from_str("null");
    let n = ts.len();
    let mut m: usize = 0;
    proof {
        assert(av.skip(0) =~= av);
    }
    while m < n
        invariant
            av == arr_view(ts@),
            n == ts@.len(),
            av.len() == ts@.len(),
            m <= n,
            nullstr@ == "null"@,
            first_non_null(av) == first_non_null(av.skip(m as int)),
        decreases n - m,
    {
        proof {
            assert(av.skip(m as int)[0] == av[m as int]);
            assert(av[m as int] == ts@[m as int]@);
            assert(av.skip(m as int).skip(1) =~= av.skip(m as int + 1));
        }
        let is_null_text: bool = match &ts[m] {
            Json::Text(s) => *s == nullstr,
            _ => false,
        };
        if !is_null_text {
            return Some(ts[m].deep_copy());
        }
        m += 1;
    }
    proof {
        assert(av.skip(av.len() as int) =~= Seq::<JsonV>::empty());
    }
    None
}

/// Whether the list contains the null type.
fn contains_null_exec(ts: &Vec<Json>) -> (r: bool)
    ensures
        r == arr_view(ts@).contains(JsonV::Text("null"@)),
{
    let ghost av = arr_view(ts@);
    let nullstr = String::from_str("null");
    let n = ts.len();
    let mut m: usize = 0;
    while m < n
        invariant
            av == arr_view(ts@),
            n == ts@.len(),
            av.len() == ts@.len(),
            m <= n,
            nullstr@ == "null"@,
            forall|q: int| 0 <= q < m as int ==> av[q] != JsonV::Text("null"@),
        decreases n - m,
    {
        proof {
            assert(av[m as int] == ts@[m as int]@);
        }
        let is_null_text: bool = match &ts[m] {
            Json::Text(s) => *s == nullstr,
            _ => false,
        };
        if is_null_text {
            return true;
        }
        m += 1;
    }
    proof {
        assert(!av.contains(JsonV::Text("null"@)));
    }
    false
}

/// Rewrites a `type` list, as `fix_type` has it.
fn fix_type_exec(es: &Vec<(String, Json)>) -> (out: Vec<(String, Json)>)
    ensures
        entries_view(out@) == fix_type(entries_view(es@)),
{
    let tkey = String::from_str("type");
    match Json::find_key(es, &tkey) {
        Some(i) => {
            proof {
                assert(entries_view(es@)[i as int].1 == es@[i as int].1@);
                lemma_obj_lookup_at(entries_view(es@), "type"@, i as int);
            }
            match &es[i].1 {
                Json::Arr(ts) => {
                    if ts.len() == 2 && contains_null_exec(ts) {
                        match first_non_null_exec(ts) {
                            Some(t) => {
                                let s1 = obj_store_exec(es, &tkey, t);
                                obj_store_exec(&s1, &String::from_str("nullable"), Json::Bool(true))
                            },
                            None => clone_entries(es),
                        }
                    } else if ts.len() > 0 {
                        proof {
                            assert(arr_view(ts@)[0] == ts@[0]@);
                        }
                        obj_store_exec(es, &tkey, ts[0].deep_copy())
                    } else {
                        clone_entries(es)
                    }
                },
                _ => clone_entries(es),
            }
        },
        None => {
            proof {
                lemma_obj_lookup_none(entries_view(es@), "type"@);
            }
            clone_entries(es)
        },
    }
}

/// Follows `$ref` entries, as `resolve_refs` has it.
fn resolve_refs_exec(node: &Json, defs: &Vec<(String, Json)>, budget: u64) -> (r: Json)
    ensures
        r@ == resolve_refs(node@, entries_view(defs@), budget as int),
    decreases budget,
{
    match node {
        Json::Obj(es) => match Json::find_key(es, &String::from_str("$ref")) {
            Some(i) => {
                proof {
                    assert(entries_view(es@)[i as int].1 == es@[i as int].1@);
                    lemma_obj_lookup_at(entries_view(es@), "$ref"@, i as int);
                }
                match &es[i].1 {
                    Json::Text(rstr) => {
                        if budget == 0 {
                            node.deep_copy()
                        } else {
                            let name = ref_name_exec(rstr);
                            match Json::find_key(defs, &name) {
                                Some(j) => {
                                    proof {
                                        assert(entries_view(defs@)[j as int].1 == defs@[j as int].1@);
                                        lemma_obj_lookup_at(
                                            entries_view(defs@),
                                            name@,
                                            j as int,
                                        );
                                    }
                                    resolve_refs_exec(&defs[j].1, defs, budget - 1)
                                },
                                None => {
                                    proof {
                                        lemma_obj_lookup_none(entries_view(defs@), name@);
                                    }
                                    let mut out: Vec<(String, Json)> = Vec::new();
                                    out.push(
                                        (String::from_str("type"), Json::Text(String::from_str("object"))),
                                    );
                                    out.push(
                                        (
                                            String::from_str("description"),
                                            Json::Text(String::from_str("Unresolvable reference")),
                                        ),
                                    );
                                    proof {
                                        assert(entries_view(out@) =~~= seq![
                                            ("type"@, JsonV::Text("object"@)),
                                            ("description"@, JsonV::Text("Unresolvable reference"@)),
                                        ]);
                                    }
                                    Json::Obj(out)
                                },
                            }
                        }
                    },
                    _ => node.deep_copy(),
                }
            },
            None => {
                proof {
                    lemma_obj_lookup_none(entries_view(es@), "$ref"@);
                }
                node.deep_copy()
            },
        },
        _ => node.deep_copy(),
    }
}

/// Rewrites one combinator's branches, as `rewrite_combinator` has it.
fn rewrite_combinator_exec(
    es: &Vec<(String, Json)>,
    key: &String,
    defs: &Vec<(String, Json)>,
    depth: u64,
) -> (out: Vec<(String, Json)>)
    requires
        depth <= 20,
    ensures
        entries_view(out@) == rewrite_combinator(
            entries_view(es@),
            key@,
            entries_view(defs@),
            depth as int,
        ),
    decreases 21 - depth, 0int,
{
    match Json::find_key(es, key) {
        Some(i) => {
            proof {
                assert(entries_view(es@)[i as int].1 == es@[i as int].1@);
                lemma_obj_lookup_at(entries_view(es@), key@, i as int);
            }
            match &es[i].1 {
                Json::Arr(a) => {
                    let n = a.len();
                    let mut branches: Vec<Json> = Vec::new();
                    let mut m: usize = 0;
                    while m < n
                        invariant
                            depth <= 20,
                            n == a@.len(),
                            m <= n,
                            branches@.len() == m as int,
                            forall|q: int|
                                0 <= q < m as int ==> branches@[q]@ == process_node(
                                    arr_view(a@)[q],
                                    entries_view(defs@),
                                    depth as int + 1,
                                ),
                        decreases n - m,
                    {
                        proof {
                            assert(arr_view(a@)[m as int] == a@[m as int]@);
                        }
                        branches.push(process_exec(&a[m], defs, depth + 1));
                        m += 1;
                    }
                    let ghost bseq = arr_view(branches@);
                    proof {
                        assert(bseq =~= process_arr(
                            arr_view(a@),
                            entries_view(defs@),
                            depth as int,
                        ));
                        lemma_obj_store_at(entries_view(es@), key@, i as int, JsonV::Arr(bseq));
                        assert(entries_view(es@)[i as int].0 == es@[i as int].0@);
                    }
                    let out = crate::path::obj_update_entry(es, i, Json::Arr(branches));
                    proof {
                        assert(entries_view(es@)[i as int].1 == es@[i as int].1@);
                        lemma_obj_lookup_at(entries_view(es@), key@, i as int);
                        assert(entries_view(out@) == obj_store(
                            entries_view(es@),
                            key@,
                            JsonV::Arr(bseq),
                        ));
                    }
                    out
                },
                _ => clone_entries(es),
            }
        },
        None => {
            proof {
                lemma_obj_lookup_none(entries_view(es@), key@);
            }
            clone_entries(es)
        },
    }
}

/// One pass of schema cleaning over a node, as `process_node` has it.
fn process_exec(node: &Json, defs: &Vec<(String, Json)>, depth: u64) -> (r: Json)
    ensures
        r@ == process_node(node@, entries_view(defs@), depth as int),
    decreases 21 - depth, 1int,
{
    if depth > 20 {
        let mut out: Vec<(String, Json)> = Vec::new();
        out.push((String::from_str("type"), Json::Text(String::from_str("object"))));
        out.push((String::from_str("nullable"), Json::Bool(true)));
        proof {
            assert(entries_view(out@) =~~= seq![
                ("type"@, JsonV::Text("object"@)),
                ("nullable"@, JsonV::Bool(true)),
            ]);
        }
        return Json::Obj(out);
    }
    let resolved = resolve_refs_exec(node, defs, 10);
    let r2: Json = match resolved {
        Json::Bool(b) => {
            if b {
                let mut tys: Vec<Json> = Vec::new();
                tys.push(Json::Text(String::from_str("string")));
                tys.push(Json::Text(String::from_str("number")));
                tys.push(Json::Text(String::from_str("boolean")));
                tys.push(Json::Text(String::from_str("null")));
                proof {
                    assert(arr_view(tys@) =~~= seq![
                        JsonV::Text("string"@),
                        JsonV::Text("number"@),
                        JsonV::Text("boolean"@),
                        JsonV::Text("null"@),
                    ]);
                }
                let mut out: Vec<(String, Json)> = Vec::new();
                out.push((String::from_str("type"), Json::Arr(tys)));
                proof {
                    assert(entries_view(out@).len() == 1);
                    assert(entries_view(out@)[0].0 =~= "type"@);
                    assert(entries_view(out@) =~= match any_type_node() {
                        JsonV::Obj(es) => es,
                        _ => Seq::empty(),
                    });
                }
                Json::Obj(out)
            } else {
                let inner: Vec<(String, Json)> = Vec::new();
                proof {
                    assert(entries_view(inner@) =~= Seq::<(Seq<char>, JsonV)>::empty());
                }
                let mut out: Vec<(String, Json)> = Vec::new();
                out.push((String::from_str("not"), Json::Obj(inner)));
                proof {
                    assert(entries_view(out@).len() == 1);
                    assert(entries_view(out@)[0].0 =~= "not"@);
                    assert(entries_view(out@) =~= match nothing_node() {
                        JsonV::Obj(es) => es,
                        _ => Seq::empty(),
                    });
                }
                Json::Obj(out)
            }
        },
        other => other,
    };
    match r2 {
        Json::Obj(es0) => {
            let es1 = fix_type_exec(&strip_keys_exec(&es0));
            let es2: Vec<(String, Json)> = match Json::find_key(&es1, &String::from_str("properties")) {
                Some(i) => {
                    proof {
                        assert(entries_view(es1@)[i as int].1 == es1@[i as int].1@);
                        lemma_obj_lookup_at(entries_view(es1@), "properties"@, i as int);
                    }
                    match &es1[i].1 {
                        Json::Obj(ps) => {
                            let n = ps.len();
                            let mut nps: Vec<(String, Json)> = Vec::new();
                            let mut m: usize = 0;
                            while m < n
                                invariant
                                    depth <= 20,
                                    n == ps@.len(),
                                    m <= n,
                                    nps@.len() == m as int,
                                    forall|q: int|
                                        0 <= q < m as int ==> nps@[q].0@ == ps@[q].0@
                                            && nps@[q].1@ == process_node(
                                            entries_view(ps@)[q].1,
                                            entries_view(defs@),
                                            depth as int + 1,
                                        ),
                                decreases n - m,
                            {
                                proof {
                                    assert(entries_view(ps@)[m as int].1 == ps@[m as int].1@);
                                }
                                let (kk, vv) = &ps[m];
                                nps.push((kk.clone(), process_exec(vv, defs, depth + 1)));
                                m += 1;
                            }
                            let ghost npsv = entries_view(nps@);
                            proof {
                                assert(entries_view(es1@)[i as int].1 == es1@[i as int].1@);
                                lemma_obj_lookup_at(entries_view(es1@), "properties"@, i as int);
                                assert(npsv =~~= process_entries(
                                    entries_view(ps@),
                                    entries_view(defs@),
                                    depth as int,
                                ));
                                lemma_obj_store_at(
                                    entries_view(es1@),
                                    "properties"@,
                                    i as int,
                                    JsonV::Obj(npsv),
                                );
                                assert(entries_view(es1@)[i as int].0 == es1@[i as int].0@);
                            }
                            let out2 = crate::path::obj_update_entry(&es1, i, Json::Obj(nps));
                            proof {
                                assert(entries_view(out2@) == obj_store(
                                    entries_view(es1@),
                                    "properties"@,
                                    JsonV::Obj(npsv),
                                ));
                            }
                            out2
                        },
                        _ => es1,
                    }
                },
                None => {
                    proof {
                        lemma_obj_lookup_none(entries_view(es1@), "properties"@);
                    }
                    es1
                },
            };
            let es3: Vec<(String, Json)> = match Json::find_key(&es2, &String::from_str("items")) {
                Some(i) => {
                    proof {
                        assert(entries_view(es2@)[i as int].1 == es2@[i as int].1@);
                        lemma_obj_lookup_at(entries_view(es2@), "items"@, i as int);
                    }
                    let newv = process_exec(&es2[i].1, defs, depth + 1);
                    let ghost newvv = newv@;
                    proof {
                        lemma_obj_store_at(entries_view(es2@), "items"@, i as int, newvv);
                        assert(entries_view(es2@)[i as int].0 == es2@[i as int].0@);
                    }
                    let out3 = crate::path::obj_update_entry(&es2, i, newv);
                    proof {
                        assert(entries_view(out3@) == obj_store(entries_view(es2@), "items"@, newvv));
                    }
                    out3
                },
                None => {
                    proof {
                        lemma_obj_lookup_none(entries_view(es2@), "items"@);
                    }
                    es2
                },
            };
            let es4 = rewrite_combinator_exec(&es3, &String::from_str("allOf"), defs, depth);
            let es5 = rewrite_combinator_exec(&es4, &String::from_str("anyOf"), defs, depth);
            let es6 = rewrite_combinator_exec(&es5, &String::from_str("oneOf"), defs, depth);
            Json::Obj(es6)
        },
        Json::Arr(a) => {
            let n = a.len();
            let mut out: Vec<Json> = Vec::new();
            let mut m: usize = 0;
            while m < n
                invariant
                    depth <= 20,
                    n == a@.len(),
                    m <= n,
                    out@.len() == m as int,
                    forall|q: int|
                        0 <= q < m as int ==> out@[q]@ == process_node(
                            arr_view(a@)[q],
                            entries_view(defs@),
                            depth as int + 1,
                        ),
                decreases n - m,
            {
                proof {
                    assert(arr_view(a@)[m as int] == a@[m as int]@);
                }
                out.push(process_exec(&a[m], defs, depth + 1));
                m += 1;
            }
            proof {
                assert(arr_view(out@) =~= process_arr(
                    arr_view(a@),
                    entries_view(defs@),
                    depth as int,
                ));
            }
            Json::Arr(out)
        },
        other => other,
    }
}

/// Cleans a whole schema tree, as `spec_clean_schema` has it: the processed
/// tree with the root's own bookkeeping keys dropped.
pub fn clean_schema(root: &Json) -> (r: Json)
    ensures
        r@ == spec_clean_schema(root@),
{
    let defs: Vec<(String, Json)> = match root {
        Json::Obj(es) => {
            let d: Option<&Json> = match Json::find_key(es, &String::from_str("definitions")) {
                Some(i) => {
                    proof {
                        assert(entries_view(es@)[i as int].1 == es@[i as int].1@);
                        lemma_obj_lookup_at(entries_view(es@), "definitions"@, i as int);
                    }
                    Some(&es[i].1)
                },
                None => {
                    proof {
                        lemma_obj_lookup_none(entries_view(es@), "definitions"@);
                    }
                    match Json::find_key(es, &String::from_str("$defs")) {
                        Some(i) => {
                            proof {
                                assert(entries_view(es@)[i as int].1 == es@[i as int].1@);
                                lemma_obj_lookup_at(entries_view(es@), "$defs"@, i as int);
                            }
                            Some(&es[i].1)
                        },
                        None => {
                            proof {
                                lemma_obj_lookup_none(entries_view(es@), "$defs"@);
                            }
                            None
                        },
                    }
                },
            };
            match d {
                Some(v) => match v {
                    Json::Obj(ds) => clone_entries(ds),
                    _ => Vec::new(),
                },
                None => Vec::new(),
            }
        },
        _ => Vec::new(),
    };
    proof {
        assert(entries_view(Seq::<(String, Json)>::empty()) =~= Seq::<(Seq<char>, JsonV)>::empty());
        assert(entries_view(defs@) == defs_of(root@));
    }
    let processed = process_exec(root, &defs, 0);
    match processed {
        Json::Obj(es) => {
            let s1 = obj_remove_exec(&es, &String::from_str("$schema"));
            let s2 = obj_remove_exec(&s1, &String::from_str("title"));
            let s3 = obj_remove_exec(&s2, &String::from_str("definitions"));
            let s4 = obj_remove_exec(&s3, &String::from_str("$defs"));
            let s5 = obj_remove_exec(&s4, &String::from_str("$id"));
            Json::Obj(s5)
        },
        other => other,
    }
}

} // verus!
