//! The engine's laws: properties that hold of every program, document and
//! input, proved from the specification functions the contracts use.

use crate::dsl::AppProgram;
use crate::dsl::LogicOp;
use crate::dsl::MathOp;
use crate::eval::calc_elem;
use crate::eval::fmt_fold;
use crate::eval::insert_sorted;
use crate::eval::sort_arr;
use crate::eval::sort_key_rank;
use crate::eval::operand_num;
use crate::eval::spec_eval;
use crate::eval::spec_get_num;
use crate::eval::zero_float;
use crate::json::JsonV;
use crate::json::obj_lookup;
use crate::json::obj_store;
use crate::num::num_rank;
use crate::path::json_at;
use crate::path::path_tokens;
use crate::path::seg_unescape;
use crate::path::split_segs;
use crate::runtime::spec_execute;
use crate::state::ErrV;
use crate::state::inputs_key;
use crate::state::initial_doc;
use crate::state::spec_get;
use crate::state::spec_set;
use crate::state::temp_key;
use crate::text::replace_all;
use vstd::prelude::*;

verus! {

/// Determinism: the engine's result is a function of the program and the
/// inputs alone, so repeated runs return identical output or identical error.
pub proof fn lemma_execute_deterministic(
    program: AppProgram,
    inputs: JsonV,
    r1: Result<JsonV, ErrV>,
    r2: Result<JsonV, ErrV>,
)
    requires
        r1 == spec_execute(program, inputs),
        r2 == spec_execute(program, inputs),
    ensures
        r1 == r2,
{
}

/// A text without the pattern's first character is left unchanged by
/// replacement.
pub proof fn lemma_replace_absent(t: Seq<char>, pat: Seq<char>, rep: Seq<char>)
    requires
        pat.len() > 0,
        forall|i: int| 0 <= i < t.len() ==> t[i] != pat[0],
    ensures
        replace_all(t, pat, rep) == t,
    decreases t.len(),
{
    if t.len() >= pat.len() {
        assert(t.take(pat.len() as int)[0] == t[0]);
        assert(t.take(pat.len() as int) != pat);
        lemma_replace_absent(t.skip(1), pat, rep);
        assert(seq![t[0]] + t.skip(1) =~= t);
    }
}

/// A segment without a tilde decodes to itself.
pub proof fn lemma_unescape_plain(t: Seq<char>)
    requires
        forall|i: int| 0 <= i < t.len() ==> t[i] != '~',
    ensures
        seg_unescape(t) == t,
{
    lemma_replace_absent(t, seq!['~', '1'], seq!['/']);
    lemma_replace_absent(t, seq!['~', '0'], seq!['~']);
}

/// A text without a slash splits into itself alone.
pub proof fn lemma_split_single(t: Seq<char>)
    requires
        forall|i: int| 0 <= i < t.len() ==> t[i] != '/',
    ensures
        split_segs(t) == seq![t],
    decreases t.len(),
{
    if t.len() == 0 {
        assert(split_segs(t) =~~= seq![t]);
    } else {
        lemma_split_single(t.skip(1));
        assert(split_segs(t) =~~= seq![seq![t[0]] + t.skip(1)]);
        assert(seq![t[0]] + t.skip(1) =~= t);
        assert(split_segs(t) =~~= seq![t]);
    }
}

/// Splitting at the first separator: a slash-free head becomes the first
/// token, the tail splits on its own.
pub proof fn lemma_split_concat(a: Seq<char>, rest: Seq<char>)
    requires
        forall|i: int| 0 <= i < a.len() ==> a[i] != '/',
    ensures
        split_segs(a + seq!['/'] + rest) == seq![a] + split_segs(rest),
    decreases a.len(),
{
    let whole = a + seq!['/'] + rest;
    if a.len() == 0 {
        assert(whole[0] == '/');
        assert(whole.skip(1) =~= rest);
        assert(split_segs(whole) =~~= seq![Seq::<char>::empty()] + split_segs(rest));
        assert(seq![a] + split_segs(rest) =~~= seq![Seq::<char>::empty()] + split_segs(rest));
    } else {
        lemma_split_concat(a.skip(1), rest);
        assert(whole[0] == a[0]);
        assert(whole[0] != '/');
        assert(whole.skip(1) =~= a.skip(1) + seq!['/'] + rest);
        let rest2 = split_segs(whole.skip(1));
        assert(rest2 == seq![a.skip(1)] + split_segs(rest));
        assert(rest2[0] == a.skip(1));
        assert(split_segs(whole) == seq![seq![whole[0]] + rest2[0]] + rest2.skip(1));
        assert(seq![a[0]] + a.skip(1) =~= a);
        assert(rest2.skip(1) =~= split_segs(rest));
        assert(split_segs(whole) =~~= seq![a] + split_segs(rest));
    }
}

/// A plain segment: non-empty, and free of separators and escapes.
pub open spec fn plain_seg(k: Seq<char>) -> bool {
    k.len() > 0 && forall|i: int| 0 <= i < k.len() ==> k[i] != '/' && #[trigger] k[i] != '~'
}

/// The decoded tokens of the one-segment path `/k`, for a plain `k`.
pub proof fn lemma_tokens_one_seg(k: Seq<char>)
    requires
        plain_seg(k),
    ensures
        path_tokens(seq!['/'] + k) == Some(seq![k]),
{
    let p = seq!['/'] + k;
    assert(p[0] == '/');
    assert(p.skip(1) =~= k);
    lemma_split_single(k);
    lemma_unescape_plain(k);
    assert(split_segs(k).map_values(|t: Seq<char>| seg_unescape(t)) =~~= seq![k]);
}

/// The decoded tokens of the two-segment path `/a/b`, for plain `a` and a
/// slash- and tilde-free `b`.
pub proof fn lemma_tokens_two_seg(a: Seq<char>, b: Seq<char>)
    requires
        plain_seg(a),
        forall|i: int| 0 <= i < b.len() ==> b[i] != '/' && #[trigger] b[i] != '~',
    ensures
        path_tokens(seq!['/'] + a + seq!['/'] + b) == Some(seq![a, b]),
{
    let p = seq!['/'] + a + seq!['/'] + b;
    assert(p[0] == '/');
    assert(p.skip(1) =~= a + seq!['/'] + b);
    lemma_split_concat(a, b);
    lemma_split_single(b);
    lemma_unescape_plain(a);
    lemma_unescape_plain(b);
    assert(split_segs(a + seq!['/'] + b) =~~= seq![a, b]);
    assert(seq![a, b].map_values(|t: Seq<char>| seg_unescape(t)) =~~= seq![a, b]);
}

/// The characters of the `inputs` section key are plain.
pub proof fn lemma_inputs_key_plain()
    ensures
        plain_seg(inputs_key()),
{
    reveal_strlit("inputs");
    assert forall|i: int| 0 <= i < inputs_key().len() implies inputs_key()[i] != '/'
        && #[trigger] inputs_key()[i] != '~' by {
        assert(inputs_key().len() == 6);
        assert(inputs_key()[0] == 'i');
        assert(inputs_key()[1] == 'n');
        assert(inputs_key()[2] == 'p');
        assert(inputs_key()[3] == 'u');
        assert(inputs_key()[4] == 't');
        assert(inputs_key()[5] == 's');
    }
}

/// Read fallback: while the document's root has no entry `k`, a root-level
/// read of `/k` and an explicit read of `/inputs/k` return the same value.
pub proof fn lemma_read_fallback(doc: JsonV, k: Seq<char>, v: JsonV)
    requires
        plain_seg(k),
        doc matches JsonV::Obj(es) && obj_lookup(es, k) == None::<JsonV>,
        json_at(doc, seq![inputs_key(), k]) == Some(v),
    ensures
        spec_get(doc, seq!['/'] + k) == Ok::<JsonV, ErrV>(v),
        spec_get(doc, seq!['/'] + inputs_key() + seq!['/'] + k) == Ok::<JsonV, ErrV>(v),
{
    let p1 = seq!['/'] + k;
    lemma_tokens_one_seg(k);
    assert(json_at(doc, seq![k]) == None::<JsonV>) by {
        assert(seq![k][0] == k);
        assert(seq![k].skip(1) =~= Seq::<Seq<char>>::empty());
    }
    assert(seq![inputs_key()] + seq![k] =~= seq![inputs_key(), k]);
    assert(p1.len() > 0);
    lemma_inputs_key_plain();
    lemma_tokens_two_seg(inputs_key(), k);
    assert(spec_get(doc, seq!['/'] + inputs_key() + seq!['/'] + k) == Ok::<JsonV, ErrV>(v));
}

/// Looking up the key just stored finds the stored value.
pub proof fn lemma_obj_store_lookup(es: Seq<(Seq<char>, JsonV)>, key: Seq<char>, val: JsonV)
    ensures
        obj_lookup(obj_store(es, key, val), key) == Some(val),
    decreases es.len(),
{
    if es.len() == 0 {
    } else if es[0].0 == key {
        assert(obj_store(es, key, val)[0] == (es[0].0, val));
    } else {
        lemma_obj_store_lookup(es.skip(1), key, val);
        assert(obj_store(es, key, val)[0] == es[0]);
        assert(obj_store(es, key, val).skip(1) =~= obj_store(es.skip(1), key, val));
    }
}

/// Storing under one key leaves every other key's lookup unchanged.
pub proof fn lemma_obj_store_lookup_other(
    es: Seq<(Seq<char>, JsonV)>,
    key: Seq<char>,
    val: JsonV,
    k2: Seq<char>,
)
    requires
        k2 != key,
    ensures
        obj_lookup(obj_store(es, key, val), k2) == obj_lookup(es, k2),
    decreases es.len(),
{
    if es.len() == 0 {
        let st = obj_store(es, key, val);
        assert(st =~= seq![(key, val)]);
        assert(st[0].0 == key);
        assert(st.skip(1) =~= Seq::<(Seq<char>, JsonV)>::empty());
        assert(obj_lookup(st.skip(1), k2) == None::<JsonV>);
        assert(obj_lookup(st, k2) == None::<JsonV>);
        assert(obj_lookup(es, k2) == None::<JsonV>);
    } else if es[0].0 == key {
        assert(obj_store(es, key, val)[0] == (es[0].0, val));
        assert(obj_store(es, key, val).skip(1) =~= es.skip(1));
    } else {
        lemma_obj_store_lookup_other(es.skip(1), key, val, k2);
        assert(obj_store(es, key, val)[0] == es[0]);
        assert(obj_store(es, key, val).skip(1) =~= obj_store(es.skip(1), key, val));
    }
}

/// Write auto-create, one segment: on a fresh state, writing any value at
/// `/k` for a new plain key succeeds, and reading `/k` afterwards returns
/// exactly that value.
pub proof fn lemma_write_root_then_read(inputs: JsonV, k: Seq<char>, v: JsonV)
    requires
        plain_seg(k),
        k != inputs_key(),
        k != temp_key(),
    ensures
        spec_set(initial_doc(inputs), seq!['/'] + k, v) matches Ok(d) && spec_get(
            d,
            seq!['/'] + k,
        ) == Ok::<JsonV, ErrV>(v),
{
    let doc = initial_doc(inputs);
    let es = seq![(inputs_key(), inputs), (temp_key(), JsonV::Obj(Seq::empty()))];
    lemma_tokens_one_seg(k);
    assert(seq![k][0] == k);
    assert(seq![k].skip(1) =~= Seq::<Seq<char>>::empty());
    assert(obj_lookup(es, k) == None::<JsonV>) by {
        assert(es[0].0 == inputs_key());
        assert(es.skip(1) =~= seq![(temp_key(), JsonV::Obj(Seq::empty()))]);
        assert(es.skip(1)[0].0 == temp_key());
        assert(es.skip(1).skip(1) =~= Seq::<(Seq<char>, JsonV)>::empty());
        assert(obj_lookup(es.skip(1).skip(1), k) == None::<JsonV>);
        assert(obj_lookup(es.skip(1), k) == None::<JsonV>);
    }
    let d = JsonV::Obj(obj_store(es, k, v));
    assert(spec_set(doc, seq!['/'] + k, v) == Ok::<JsonV, ErrV>(d));
    lemma_obj_store_lookup(es, k, v);
    assert(json_at(v, Seq::<Seq<char>>::empty()) == Some(v));
    assert(json_at(d, seq![k]) == Some(v));
    assert(spec_get(d, seq!['/'] + k) == Ok::<JsonV, ErrV>(v));
}

/// Write auto-create, two segments: on a fresh state, writing at `/a/b` for a
/// new plain section `a` creates the one intermediate object, and reading
/// `/a/b` afterwards returns the written value.
pub proof fn lemma_write_section_then_read(inputs: JsonV, a: Seq<char>, b: Seq<char>, v: JsonV)
    requires
        plain_seg(a),
        a != inputs_key(),
        a != temp_key(),
        forall|i: int| 0 <= i < b.len() ==> b[i] != '/' && #[trigger] b[i] != '~',
    ensures
        spec_set(initial_doc(inputs), seq!['/'] + a + seq!['/'] + b, v) matches Ok(d) && d
            == JsonV::Obj(
            seq![
                (inputs_key(), inputs),
                (temp_key(), JsonV::Obj(Seq::empty())),
                (a, JsonV::Obj(seq![(b, v)])),
            ],
        ) && spec_get(d, seq!['/'] + a + seq!['/'] + b) == Ok::<JsonV, ErrV>(v),
{
    let doc = initial_doc(inputs);
    let es = seq![(inputs_key(), inputs), (temp_key(), JsonV::Obj(Seq::empty()))];
    lemma_tokens_two_seg(a, b);
    let toks = seq![a, b];
    assert(toks[0] == a);
    assert(toks.skip(1) =~= seq![b]);
    assert(seq![b].skip(1) =~= Seq::<Seq<char>>::empty());
    assert(obj_lookup(es, a) == None::<JsonV>) by {
        assert(es[0].0 == inputs_key());
        assert(es.skip(1) =~= seq![(temp_key(), JsonV::Obj(Seq::empty()))]);
        assert(es.skip(1)[0].0 == temp_key());
        assert(es.skip(1).skip(1) =~= Seq::<(Seq<char>, JsonV)>::empty());
        assert(obj_lookup(es.skip(1).skip(1), a) == None::<JsonV>);
        assert(obj_lookup(es.skip(1), a) == None::<JsonV>);
    }
    let inner = JsonV::Obj(seq![(b, v)]);
    let d = JsonV::Obj(obj_store(es, a, inner));
    assert(spec_set(doc, seq!['/'] + a + seq!['/'] + b, v) == Ok::<JsonV, ErrV>(d));
    assert(obj_store(es, a, inner) =~= es.push((a, inner))) by {
        crate::state::lemma_obj_store_append(es, a, inner);
    }
    assert(d == JsonV::Obj(
        seq![
            (inputs_key(), inputs),
            (temp_key(), JsonV::Obj(Seq::empty())),
            (a, JsonV::Obj(seq![(b, v)])),
        ],
    )) by {
        assert(es.push((a, inner)) =~= seq![
            (inputs_key(), inputs),
            (temp_key(), JsonV::Obj(Seq::empty())),
            (a, inner),
        ]);
    }
    lemma_obj_store_lookup(es, a, inner);
    assert(obj_lookup(seq![(b, v)], b) == Some(v)) by {
        assert(seq![(b, v)][0].0 == b);
    }
    assert(json_at(v, Seq::<Seq<char>>::empty()) == Some(v));
    assert(json_at(inner, seq![b]) == Some(v)) by {
        assert(seq![b][0] == b);
        assert(seq![b].skip(1) =~= Seq::<Seq<char>>::empty());
    }
    assert(json_at(d, toks) == Some(v));
    assert(spec_get(d, seq!['/'] + a + seq!['/'] + b) == Ok::<JsonV, ErrV>(v));
}

/// Write auto-create, three segments: on a fresh state, a previously
/// unresolved write deeper than two segments fails as an invalid write path,
/// and no other error.
pub proof fn lemma_write_three_segments_fails(
    inputs: JsonV,
    a: Seq<char>,
    b: Seq<char>,
    c: Seq<char>,
    v: JsonV,
)
    requires
        plain_seg(a),
        a != inputs_key(),
        a != temp_key(),
        forall|i: int| 0 <= i < b.len() ==> b[i] != '/' && #[trigger] b[i] != '~',
        forall|i: int| 0 <= i < c.len() ==> c[i] != '/' && #[trigger] c[i] != '~',
    ensures
        spec_set(initial_doc(inputs), seq!['/'] + a + seq!['/'] + b + seq!['/'] + c, v) == Err::<
            JsonV,
            ErrV,
        >(ErrV::InvalidWritePath { path: seq!['/'] + a + seq!['/'] + b + seq!['/'] + c }),
{
    let doc = initial_doc(inputs);
    let es = seq![(inputs_key(), inputs), (temp_key(), JsonV::Obj(Seq::empty()))];
    let p = seq!['/'] + a + seq!['/'] + b + seq!['/'] + c;
    assert(p[0] == '/');
    assert(p.skip(1) =~= a + seq!['/'] + (b + seq!['/'] + c));
    lemma_split_concat(a, b + seq!['/'] + c);
    lemma_split_concat(b, c);
    lemma_split_single(c);
    lemma_unescape_plain(a);
    lemma_unescape_plain(b);
    lemma_unescape_plain(c);
    assert(split_segs(a + seq!['/'] + (b + seq!['/'] + c)) =~~= seq![a, b, c]) by {
        assert(b + seq!['/'] + c =~= b + seq!['/'] + c);
        assert(seq![a] + (seq![b] + seq![c]) =~~= seq![a, b, c]);
        assert(split_segs(b + seq!['/'] + c) =~~= seq![b] + seq![c]);
    }
    let toks = seq![a, b, c].map_values(|t: Seq<char>| seg_unescape(t));
    assert(toks =~~= seq![a, b, c]);
    assert(path_tokens(p) == Some(seq![a, b, c]));
    assert(obj_lookup(es, a) == None::<JsonV>) by {
        assert(es[0].0 == inputs_key());
        assert(es.skip(1) =~= seq![(temp_key(), JsonV::Obj(Seq::empty()))]);
        assert(es.skip(1)[0].0 == temp_key());
        assert(es.skip(1).skip(1) =~= Seq::<(Seq<char>, JsonV)>::empty());
        assert(obj_lookup(es.skip(1).skip(1), a) == None::<JsonV>);
        assert(obj_lookup(es.skip(1), a) == None::<JsonV>);
    }
    let toks3 = seq![a, b, c];
    assert(toks3[0] == a);
    assert(toks3.skip(1) =~= seq![b, c]);
    assert(json_at(doc, toks3) == None::<JsonV>);
    assert(crate::path::json_replace(doc, toks3, v) == None::<JsonV>);
    assert(toks3.len() == 3);
}

/// The scalar divide step fails with the division-by-zero error exactly when
/// its denominator resolves to a numeric zero, whatever the numerator is.
pub proof fn lemma_divide_by_zero(doc: JsonV, a: String, b: String, n: serde_json::Number)
    requires
        spec_get_num(doc, b@) == Ok::<serde_json::Number, ErrV>(n),
        num_rank(n) == 0,
    ensures
        spec_eval(LogicOp::Divide { a, b }, doc) == Err::<JsonV, ErrV>(ErrV::DivisionByZero),
{
}

/// The calculate step's per-element division by zero degrades to the float
/// zero for that element instead of failing the step.
pub proof fn lemma_calculate_zero_divisor(
    doc: JsonV,
    es: Seq<(Seq<char>, JsonV)>,
    a_field: Seq<char>,
    b_field: Seq<char>,
    out_field: Seq<char>,
)
    requires
        num_rank(operand_num(doc, es, b_field)) == 0,
    ensures
        calc_elem(doc, JsonV::Obj(es), MathOp::Divide, a_field, b_field, out_field) == JsonV::Obj(
            obj_store(es, out_field, JsonV::Num(zero_float())),
        ),
{
}

/// A template variable whose path does not resolve leaves the template
/// untouched; substitution goes on with the remaining variables.
pub proof fn lemma_format_unresolved(
    doc: JsonV,
    tpl: Seq<char>,
    vars: Seq<crate::dsl::FormatVariable>,
)
    requires
        vars.len() > 0,
        spec_get(doc, vars[0].path@) is Err,
    ensures
        fmt_fold(doc, tpl, vars) == fmt_fold(doc, tpl, vars.skip(1)),
{
}

/// Nondecreasing order of the sort keys.
pub open spec fn sorted_by_key(s: Seq<JsonV>, f: Seq<char>) -> bool {
    forall|i: int, j: int|
        0 <= i < j < s.len() ==> sort_key_rank(#[trigger] s[i], f) <= sort_key_rank(
            #[trigger] s[j],
            f,
        )
}

/// Stable insertion keeps the order and adds exactly the new element.
pub proof fn lemma_insert_sorted_keeps(acc: Seq<JsonV>, x: JsonV, f: Seq<char>)
    requires
        sorted_by_key(acc, f),
    ensures
        sorted_by_key(insert_sorted(acc, x, f), f),
        insert_sorted(acc, x, f).to_multiset() == acc.to_multiset().insert(x),
    decreases acc.len(),
{
    broadcast use vstd::seq_lib::group_to_multiset_ensures;

    if acc.len() > 0 && sort_key_rank(acc.last(), f) > sort_key_rank(x, f) {
        let dl = acc.drop_last();
        let last = acc.last();
        assert(sorted_by_key(dl, f)) by {
            assert forall|i: int, j: int| 0 <= i < j < dl.len() implies sort_key_rank(
                #[trigger] dl[i],
                f,
            ) <= sort_key_rank(#[trigger] dl[j], f) by {
                assert(dl[i] == acc[i]);
                assert(dl[j] == acc[j]);
            }
        }
        lemma_insert_sorted_keeps(dl, x, f);
        let r0 = insert_sorted(dl, x, f);
        let r = r0.push(last);
        assert(r.to_multiset() =~= r0.to_multiset().insert(last));
        assert(acc =~= dl.push(last));
        assert(acc.to_multiset() =~= dl.to_multiset().insert(last));
        assert(r.to_multiset() =~= acc.to_multiset().insert(x)) by {
            assert(r0.to_multiset() =~= dl.to_multiset().insert(x));
            assert(dl.to_multiset().insert(x).insert(last) =~= dl.to_multiset().insert(
                last,
            ).insert(x));
        }
        // every element of the inserted prefix has a key at or below the last
        assert forall|i: int| 0 <= i < r0.len() implies sort_key_rank(
            #[trigger] r0[i],
            f,
        ) <= sort_key_rank(last, f) by {
            assert(r0.contains(r0[i]));
            assert(r0.to_multiset().count(r0[i]) > 0);
            assert(dl.to_multiset().insert(x).count(r0[i]) > 0);
            if r0[i] != x {
                assert(dl.to_multiset().count(r0[i]) > 0);
                assert(dl.contains(r0[i]));
                let k = choose|k: int| 0 <= k < dl.len() && dl[k] == r0[i];
                assert(acc[k] == dl[k]);
                if k < acc.len() - 1 {
                    assert(sort_key_rank(acc[k], f) <= sort_key_rank(
                        acc[acc.len() - 1],
                        f,
                    ));
                }
            }
        }
        assert forall|i: int, j: int| 0 <= i < j < r.len() implies sort_key_rank(
            #[trigger] r[i],
            f,
        ) <= sort_key_rank(#[trigger] r[j], f) by {
            if j < r.len() - 1 {
                assert(r[i] == r0[i]);
                assert(r[j] == r0[j]);
            } else {
                assert(r[j] == last);
                assert(r[i] == r0[i]);
            }
        }
    } else {
        let r = acc.push(x);
        assert(r.to_multiset() =~= acc.to_multiset().insert(x));
        assert forall|i: int, j: int| 0 <= i < j < r.len() implies sort_key_rank(
            #[trigger] r[i],
            f,
        ) <= sort_key_rank(#[trigger] r[j], f) by {
            if j < r.len() - 1 {
                assert(r[i] == acc[i]);
                assert(r[j] == acc[j]);
            } else {
                assert(r[j] == x);
                assert(r[i] == acc[i]);
                if acc.len() > 0 && i < acc.len() - 1 {
                    assert(sort_key_rank(acc[i], f) <= sort_key_rank(acc[acc.len() - 1], f));
                }
            }
        }
    }
}

/// The sort step's order: sorting yields a permutation of the input whose
/// sort keys are in nondecreasing order (reversed afterwards when the step
/// asks for descending order).
pub proof fn lemma_sort_arr_sorted(a: Seq<JsonV>, f: Seq<char>)
    ensures
        sorted_by_key(sort_arr(a, f), f),
        sort_arr(a, f).to_multiset() == a.to_multiset(),
    decreases a.len(),
{
    broadcast use vstd::seq_lib::group_to_multiset_ensures;

    if a.len() == 0 {
        assert(sort_arr(a, f).to_multiset() =~= a.to_multiset());
    } else {
        let dl = a.drop_last();
        lemma_sort_arr_sorted(dl, f);
        lemma_insert_sorted_keeps(sort_arr(dl, f), a.last(), f);
        assert(a =~= dl.push(a.last()));
        assert(a.to_multiset() =~= dl.to_multiset().insert(a.last()));
        assert(sort_arr(a, f).to_multiset() =~= a.to_multiset());
    }
}

} // verus!
