//! Evaluation of one operation as a pure function of the current document.

use crate::dsl::CmpOp;
use crate::dsl::ConstantValue;
use crate::dsl::FormatVariable;
use crate::dsl::LogicOp;
use crate::dsl::MathOp;
use crate::json::Json;
use crate::json::JsonV;
use crate::json::arr_view;
use crate::json::entries_view;
use crate::json::lemma_obj_lookup_at;
use crate::json::lemma_obj_lookup_none;
use crate::json::obj_lookup;
use crate::json::obj_store;
use crate::num::num_add;
use crate::num::num_add_exec;
use crate::num::num_canon;
use crate::num::num_canon_exec;
use crate::num::num_close;
use crate::num::num_close_exec;
use crate::num::num_div;
use crate::num::num_div_exec;
use crate::num::num_from_u64;
use crate::num::num_is_zero;
use crate::num::num_le;
use crate::num::num_max2;
use crate::num::num_max_exec;
use crate::num::num_min2;
use crate::num::num_min_exec;
use crate::num::num_mul;
use crate::num::num_mul_exec;
use crate::num::num_of_u64;
use crate::num::num_rank;
use crate::num::num_sub;
use crate::num::num_sub_exec;
use crate::render::render_val;
use crate::render::render_exec;
use crate::render::push_all;
use crate::state::EngineError;
use crate::state::ErrV;
use crate::state::RuntimeState;
use crate::state::TypeWant;
use crate::state::spec_get;
use crate::text::chars_of;
use crate::text::replace_all;
use crate::text::replace_all_chars;
use crate::text::string_from_chars;
use vstd::prelude::*;

verus! {

/// The numeric operand at `path`, or the type-mismatch error.
pub open spec fn spec_get_num(doc: JsonV, path: Seq<char>) -> Result<serde_json::Number, ErrV> {
    match spec_get(doc, path) {
        Ok(JsonV::Num(n)) => Ok(n),
        Ok(_) => Err(ErrV::TypeMismatch { path: path, wanted: TypeWant::Number }),
        Err(e) => Err(e),
    }
}

/// The array at `path`, or the type-mismatch error.
pub open spec fn spec_get_arr(doc: JsonV, path: Seq<char>) -> Result<Seq<JsonV>, ErrV> {
    match spec_get(doc, path) {
        Ok(JsonV::Arr(a)) => Ok(a),
        Ok(_) => Err(ErrV::TypeMismatch { path: path, wanted: TypeWant::Array }),
        Err(e) => Err(e),
    }
}

/// The integer-encoded number zero: the default operand.
pub open spec fn zero_num() -> serde_json::Number {
    num_of_u64(0)
}

/// The float-encoded number zero: what a computed zero is stored as.
pub open spec fn zero_float() -> serde_json::Number {
    num_canon(num_of_u64(0))
}

/// The JSON value of a computed number: null when the float was not finite.
pub open spec fn opt_num_json(o: Option<serde_json::Number>) -> JsonV {
    match o {
        Some(n) => JsonV::Num(n),
        None => JsonV::Null,
    }
}

/// The JSON value of a literal.
pub open spec fn const_json(value: ConstantValue) -> JsonV {
    match value {
        ConstantValue::Text(s) => JsonV::Text(s@),
        ConstantValue::Number(n) => JsonV::Num(n),
        ConstantValue::Bool(b) => JsonV::Bool(b),
        ConstantValue::Null => JsonV::Null,
    }
}

/// The numeric value of an aggregate element: the named field when one is
/// given, else the element itself; nothing when it is not a number.
pub open spec fn elem_num(e: JsonV, field: Option<String>) -> Option<serde_json::Number> {
    match field {
        Some(f) => match e {
            JsonV::Obj(es) => match obj_lookup(es, f@) {
                Some(JsonV::Num(n)) => Some(n),
                _ => None,
            },
            _ => None,
        },
        None => match e {
            JsonV::Num(n) => Some(n),
            _ => None,
        },
    }
}

/// The numeric values of an array's elements, in order, the rest excluded.
pub open spec fn nums_of(a: Seq<JsonV>, field: Option<String>) -> Seq<serde_json::Number>
    decreases a.len(),
{
    if a.len() == 0 {
        Seq::empty()
    } else {
        (match elem_num(a[0], field) {
            Some(n) => seq![n],
            None => Seq::empty(),
        }) + nums_of(a.skip(1), field)
    }
}

/// Left fold of float addition; nothing once a sum leaves the finite range.
pub open spec fn sum_fold(vals: Seq<serde_json::Number>, acc: serde_json::Number) -> Option<
    serde_json::Number,
>
    decreases vals.len(),
{
    if vals.len() == 0 {
        Some(acc)
    } else {
        match num_add(acc, vals[0]) {
            Some(a2) => sum_fold(vals.skip(1), a2),
            None => None,
        }
    }
}

/// Left fold of the float minimum.
pub open spec fn min_fold(vals: Seq<serde_json::Number>, acc: serde_json::Number) -> serde_json::Number
    decreases vals.len(),
{
    if vals.len() == 0 {
        acc
    } else {
        min_fold(vals.skip(1), num_min2(acc, vals[0]))
    }
}

/// Left fold of the float maximum.
pub open spec fn max_fold(vals: Seq<serde_json::Number>, acc: serde_json::Number) -> serde_json::Number
    decreases vals.len(),
{
    if vals.len() == 0 {
        acc
    } else {
        max_fold(vals.skip(1), num_max2(acc, vals[0]))
    }
}

/// An element-wise operand: a global path when it is written as one, else a
/// property of the element; zero when it is missing or not numeric.
pub open spec fn operand_num(
    doc: JsonV,
    es: Seq<(Seq<char>, JsonV)>,
    target: Seq<char>,
) -> serde_json::Number {
    if target.len() > 0 && target[0] == '/' {
        match spec_get(doc, target) {
            Ok(JsonV::Num(n)) => n,
            _ => zero_num(),
        }
    } else {
        match obj_lookup(es, target) {
            Some(JsonV::Num(n)) => n,
            _ => zero_num(),
        }
    }
}

/// One element-wise arithmetic result; division by zero degrades to zero
/// here, unlike the scalar divide step.
pub open spec fn calc_value(op: MathOp, a: serde_json::Number, b: serde_json::Number) -> JsonV {
    match op {
        MathOp::Add => opt_num_json(num_add(a, b)),
        MathOp::Subtract => opt_num_json(num_sub(a, b)),
        MathOp::Multiply => opt_num_json(num_mul(a, b)),
        MathOp::Divide => if num_rank(b) == 0 {
            JsonV::Num(zero_float())
        } else {
            opt_num_json(num_div(a, b))
        },
    }
}

/// One element of the calculate step: objects get the computed value under
/// the output field, anything else passes through untouched.
pub open spec fn calc_elem(
    doc: JsonV,
    e: JsonV,
    op: MathOp,
    a_field: Seq<char>,
    b_field: Seq<char>,
    out_field: Seq<char>,
) -> JsonV {
    match e {
        JsonV::Obj(es) => {
            let a = operand_num(doc, es, a_field);
            let b = operand_num(doc, es, b_field);
            JsonV::Obj(obj_store(es, out_field, calc_value(op, a, b)))
        },
        _ => e,
    }
}

/// The whole array transformed by the calculate step.
pub open spec fn calc_map(
    doc: JsonV,
    a: Seq<JsonV>,
    op: MathOp,
    a_field: Seq<char>,
    b_field: Seq<char>,
    out_field: Seq<char>,
) -> Seq<JsonV> {
    Seq::new(a.len(), |i: int| calc_elem(doc, a[i], op, a_field, b_field, out_field))
}

/// One plucked element: the named field, null when there is none.
pub open spec fn pluck_one(e: JsonV, key: Seq<char>) -> JsonV {
    match e {
        JsonV::Obj(es) => match obj_lookup(es, key) {
            Some(v) => v,
            None => JsonV::Null,
        },
        _ => JsonV::Null,
    }
}

/// The plucked array.
pub open spec fn pluck_arr(a: Seq<JsonV>, key: Seq<char>) -> Seq<JsonV> {
    Seq::new(a.len(), |i: int| pluck_one(a[i], key))
}

/// Whether a numeric value passes the filter's comparison.
pub open spec fn cmp_num(op: CmpOp, n: serde_json::Number, t: serde_json::Number) -> bool {
    match op {
        CmpOp::Gt => num_rank(n) > num_rank(t),
        CmpOp::Lt => num_rank(n) < num_rank(t),
        CmpOp::Eq => num_close(n, t),
        CmpOp::Gte => num_rank(n) >= num_rank(t),
        CmpOp::Lte => num_rank(n) <= num_rank(t),
    }
}

/// The elements that pass the numeric filter, in order; elements without a
/// numeric value are dropped.
pub open spec fn filter_arr(
    a: Seq<JsonV>,
    field: Option<String>,
    op: CmpOp,
    t: serde_json::Number,
) -> Seq<JsonV>
    decreases a.len(),
{
    if a.len() == 0 {
        Seq::empty()
    } else {
        (match elem_num(a[0], field) {
            Some(n) => if cmp_num(op, n, t) {
                seq![a[0]]
            } else {
                Seq::empty()
            },
            None => Seq::empty(),
        }) + filter_arr(a.skip(1), field, op, t)
    }
}

/// The sort key of an element: the field's numeric rank, zero when the field
/// is missing or not numeric.
pub open spec fn sort_key_rank(e: JsonV, f: Seq<char>) -> int {
    match e {
        JsonV::Obj(es) => match obj_lookup(es, f) {
            Some(JsonV::Num(n)) => num_rank(n),
            _ => 0,
        },
        _ => 0,
    }
}

/// Stable insertion: `x` goes after every element whose key is not above its
/// own.
pub open spec fn insert_sorted(acc: Seq<JsonV>, x: JsonV, f: Seq<char>) -> Seq<JsonV>
    decreases acc.len(),
{
    if acc.len() > 0 && sort_key_rank(acc.last(), f) > sort_key_rank(x, f) {
        insert_sorted(acc.drop_last(), x, f).push(acc.last())
    } else {
        acc.push(x)
    }
}

/// Stable ascending sort by the field's numeric value.
pub open spec fn sort_arr(a: Seq<JsonV>, f: Seq<char>) -> Seq<JsonV>
    decreases a.len(),
{
    if a.len() == 0 {
        Seq::empty()
    } else {
        insert_sorted(sort_arr(a.drop_last(), f), a.last(), f)
    }
}

/// Template substitution: each variable in turn resolves its path, and every
/// literal occurrence of its braced key is replaced by the rendered value; an
/// unresolved path leaves the template untouched.
pub open spec fn fmt_fold(doc: JsonV, tpl: Seq<char>, vars: Seq<FormatVariable>) -> Seq<char>
    decreases vars.len(),
{
    if vars.len() == 0 {
        tpl
    } else {
        let t2 = match spec_get(doc, vars[0].path@) {
            Ok(v) => replace_all(tpl, seq!['{'] + vars[0].key@ + seq!['}'], render_val(v)),
            Err(_) => tpl,
        };
        fmt_fold(doc, t2, vars.skip(1))
    }
}

/// What evaluating one operation against the document returns, for every
/// operation and every document: the single semantics every step follows.
pub open spec fn spec_eval(op: LogicOp, doc: JsonV) -> Result<JsonV, ErrV> {
    match op {
        LogicOp::Get { path } => spec_get(doc, path@),
        LogicOp::Constant { value } => Ok(const_json(value)),
        LogicOp::Pluck { path, key } => match spec_get_arr(doc, path@) {
            Ok(a) => Ok(JsonV::Arr(pluck_arr(a, key@))),
            Err(e) => Err(e),
        },
        LogicOp::Add { a, b } => match (spec_get_num(doc, a@), spec_get_num(doc, b@)) {
            (Ok(x), Ok(y)) => Ok(opt_num_json(num_add(x, y))),
            (Err(e), _) => Err(e),
            (_, Err(e)) => Err(e),
        },
        LogicOp::Subtract { a, b } => match (spec_get_num(doc, a@), spec_get_num(doc, b@)) {
            (Ok(x), Ok(y)) => Ok(opt_num_json(num_sub(x, y))),
            (Err(e), _) => Err(e),
            (_, Err(e)) => Err(e),
        },
        LogicOp::Multiply { a, b } => match (spec_get_num(doc, a@), spec_get_num(doc, b@)) {
            (Ok(x), Ok(y)) => Ok(opt_num_json(num_mul(x, y))),
            (Err(e), _) => Err(e),
            (_, Err(e)) => Err(e),
        },
        LogicOp::Divide { a, b } => match spec_get_num(doc, b@) {
            Ok(y) => if num_rank(y) == 0 {
                Err(ErrV::DivisionByZero)
            } else {
                match spec_get_num(doc, a@) {
                    Ok(x) => Ok(opt_num_json(num_div(x, y))),
                    Err(e) => Err(e),
                }
            },
            Err(e) => Err(e),
        },
        LogicOp::Calculate { list_path, output_field, operator, a_field, b_field } => match spec_get_arr(
            doc,
            list_path@,
        ) {
            Ok(a) => Ok(
                JsonV::Arr(calc_map(doc, a, operator, a_field@, b_field@, output_field@)),
            ),
            Err(e) => Err(e),
        },
        LogicOp::Sum { list_path, field } => match spec_get_arr(doc, list_path@) {
            Ok(a) => Ok(
                match sum_fold(nums_of(a, field), zero_num()) {
                    Some(s) => JsonV::Num(num_canon(s)),
                    None => JsonV::Null,
                },
            ),
            Err(e) => Err(e),
        },
        LogicOp::Count { list_path } => match spec_get_arr(doc, list_path@) {
            Ok(a) => Ok(JsonV::Num(num_of_u64(a.len() as u64))),
            Err(e) => Err(e),
        },
        LogicOp::Min { list_path, field } => match spec_get_arr(doc, list_path@) {
            Ok(a) => {
                let ns = nums_of(a, field);
                Ok(
                    if ns.len() == 0 {
                        JsonV::Null
                    } else {
                        JsonV::Num(min_fold(ns.skip(1), num_canon(ns[0])))
                    },
                )
            },
            Err(e) => Err(e),
        },
        LogicOp::Max { list_path, field } => match spec_get_arr(doc, list_path@) {
            Ok(a) => {
                let ns = nums_of(a, field);
                Ok(
                    if ns.len() == 0 {
                        JsonV::Null
                    } else {
                        JsonV::Num(max_fold(ns.skip(1), num_canon(ns[0])))
                    },
                )
            },
            Err(e) => Err(e),
        },
        LogicOp::FilterNumeric { list_path, field, operator, value } => match spec_get_arr(
            doc,
            list_path@,
        ) {
            Ok(a) => Ok(JsonV::Arr(filter_arr(a, field, operator, value))),
            Err(e) => Err(e),
        },
        LogicOp::Sort { list_path, field, descending } => match spec_get_arr(doc, list_path@) {
            Ok(a) => Ok(
                JsonV::Arr(
                    if descending {
                        sort_arr(a, field@).reverse()
                    } else {
                        sort_arr(a, field@)
                    },
                ),
            ),
            Err(e) => Err(e),
        },
        LogicOp::FormatString { template, variables } => Ok(
            JsonV::Text(fmt_fold(doc, template@, variables@)),
        ),
    }
}

/// Reads a numeric operand, as `spec_get_num` has it.
fn get_num(state: &RuntimeState, path: &str) -> (r: Result<serde_json::Number, EngineError>)
    ensures
        match r {
            Ok(n) => spec_get_num(state@, path@) == Ok::<serde_json::Number, ErrV>(n),
            Err(e) => spec_get_num(state@, path@) == Err::<serde_json::Number, ErrV>(e@),
        },
{
    match state.get(path) {
        Ok(v) => match v {
            Json::Num(n) => Ok(n),
            _ => Err(
                EngineError::TypeMismatch {
                    path: String::from_str(path),
                    wanted: TypeWant::Number,
                },
            ),
        },
        Err(e) => Err(e),
    }
}

/// Reads an array operand, as `spec_get_arr` has it.
fn get_arr(state: &RuntimeState, path: &str) -> (r: Result<Vec<Json>, EngineError>)
    ensures
        match r {
            Ok(a) => spec_get_arr(state@, path@) == Ok::<Seq<JsonV>, ErrV>(arr_view(a@)),
            Err(e) => spec_get_arr(state@, path@) == Err::<Seq<JsonV>, ErrV>(e@),
        },
{
    match state.get(path) {
        Ok(v) => match v {
            Json::Arr(a) => Ok(a),
            _ => Err(
                EngineError::TypeMismatch {
                    path: String::from_str(path),
                    wanted: TypeWant::Array,
                },
            ),
        },
        Err(e) => Err(e),
    }
}

/// The value the element contributes to an aggregate, as `elem_num` has it.
fn elem_num_exec(e: &Json, field: &Option<String>) -> (r: Option<serde_json::Number>)
    ensures
        r == elem_num(e@, *field),
{
    match field {
        Some(f) => match e {
            Json::Obj(es) => match Json::find_key(es, f) {
                Some(i) => {
                    proof {
                        assert(entries_view(es@)[i as int].1 == es@[i as int].1@);
                        lemma_obj_lookup_at(entries_view(es@), f@, i as int);
                    }
                    match &es[i].1 {
                        Json::Num(n) => Some(n.clone()),
                        _ => None,
                    }
                },
                None => {
                    proof {
                        lemma_obj_lookup_none(entries_view(es@), f@);
                    }
                    None
                },
            },
            _ => None,
        },
        None => match e {
            Json::Num(n) => Some(n.clone()),
            _ => None,
        },
    }
}

/// The numeric values of the array's elements, as `nums_of` has them.
fn nums_of_exec(a: &Vec<Json>, field: &Option<String>) -> (r: Vec<serde_json::Number>)
    ensures
        r@ == nums_of(arr_view(a@), *field),
{
    let ghost av = arr_view(a@);
    let mut out: Vec<serde_json::Number> = Vec::new();
    let mut i: usize = 0;
    proof {
        assert(av.skip(0) =~= av);
        assert(out@ + nums_of(av, *field) =~= nums_of(av, *field));
    }
    while i < a.len()
        invariant
            av == arr_view(a@),
            i <= a@.len(),
            av.len() == a@.len(),
            nums_of(av, *field) == out@ + nums_of(av.skip(i as int), *field),
        decreases a@.len() - i,
    {
        proof {
            assert(av.skip(i as int)[0] == av[i as int]);
            assert(av[i as int] == a@[i as int]@);
            assert(av.skip(i as int).skip(1) =~= av.skip(i as int + 1));
        }
        let ghost out0 = out@;
        match elem_num_exec(&a[i], field) {
            Some(n) => {
                out.push(n);
                proof {
                    assert(out@ =~= out0 + seq![out@[out@.len() - 1]]);
                    assert((out0 + seq![out@[out@.len() - 1]]) + nums_of(
                        av.skip(i as int + 1),
                        *field,
                    ) =~= out0 + (seq![out@[out@.len() - 1]] + nums_of(
                        av.skip(i as int + 1),
                        *field,
                    )));
                }
            },
            None => {
                proof {
                    assert(Seq::<serde_json::Number>::empty() + nums_of(
                        av.skip(i as int + 1),
                        *field,
                    ) =~= nums_of(av.skip(i as int + 1), *field));
                }
            },
        }
        i += 1;
    }
    proof {
        assert(av.skip(av.len() as int) =~= Seq::<JsonV>::empty());
        assert(out@ + Seq::<serde_json::Number>::empty() =~= out@);
    }
    out
}

/// An element-wise operand, as `operand_num` has it.
fn operand_exec(state: &RuntimeState, es: &Vec<(String, Json)>, target: &String) -> (r:
    serde_json::Number)
    ensures
        r == operand_num(state@, entries_view(es@), target@),
{
    let t = target.as_str();
    if t.unicode_len() > 0 && t.get_char(0) == '/' {
        match state.get(t) {
            Ok(v) => match v {
                Json::Num(n) => n,
                _ => num_from_u64(0),
            },
            Err(_) => num_from_u64(0),
        }
    } else {
        match Json::find_key(es, target) {
            Some(i) => {
                proof {
                    assert(entries_view(es@)[i as int].1 == es@[i as int].1@);
                    lemma_obj_lookup_at(entries_view(es@), target@, i as int);
                }
                match &es[i].1 {
                    Json::Num(n) => n.clone(),
                    _ => num_from_u64(0),
                }
            },
            None => {
                proof {
                    lemma_obj_lookup_none(entries_view(es@), target@);
                }
                num_from_u64(0)
            },
        }
    }
}

/// A computed number as a JSON value, as `opt_num_json` has it.
fn opt_num_exec(o: Option<serde_json::Number>) -> (r: Json)
    ensures
        r@ == opt_num_json(o),
{
    match o {
        Some(n) => Json::Num(n),
        None => Json::Null,
    }
}

/// One element-wise arithmetic result, as `calc_value` has it.
fn calc_value_exec(op: MathOp, a: &serde_json::Number, b: &serde_json::Number) -> (r: Json)
    ensures
        r@ == calc_value(op, *a, *b),
{
    match op {
        MathOp::Add => opt_num_exec(num_add_exec(a, b)),
        MathOp::Subtract => opt_num_exec(num_sub_exec(a, b)),
        MathOp::Multiply => opt_num_exec(num_mul_exec(a, b)),
        MathOp::Divide => {
            if num_is_zero(b) {
                let z = num_from_u64(0);
                Json::Num(num_canon_exec(&z))
            } else {
                opt_num_exec(num_div_exec(a, b))
            }
        },
    }
}

/// Whether the sort key of `e` is above the sort key of `x`.
fn key_gt(e: &Json, x: &Json, f: &String) -> (r: bool)
    ensures
        r == (sort_key_rank(e@, f@) > sort_key_rank(x@, f@)),
{
    let ke = key_num(e, f);
    let kx = key_num(x, f);
    let z = num_from_u64(0);
    match (ke, kx) {
        (Some(a), Some(b)) => !num_le(&a, &b),
        (Some(a), None) => !num_le(&a, &z),
        (None, Some(b)) => !num_le(&z, &b),
        (None, None) => false,
    }
}

/// The field's number under the sort key, when the element has one.
fn key_num(e: &Json, f: &String) -> (r: Option<serde_json::Number>)
    ensures
        match r {
            Some(n) => sort_key_rank(e@, f@) == num_rank(n),
            None => sort_key_rank(e@, f@) == 0,
        },
{
    match e {
        Json::Obj(es) => match Json::find_key(es, f) {
            Some(i) => {
                proof {
                    assert(entries_view(es@)[i as int].1 == es@[i as int].1@);
                    lemma_obj_lookup_at(entries_view(es@), f@, i as int);
                }
                match &es[i].1 {
                    Json::Num(n) => Some(n.clone()),
                    _ => None,
                }
            },
            None => {
                proof {
                    lemma_obj_lookup_none(entries_view(es@), f@);
                }
                None
            },
        },
        _ => None,
    }
}

/// Where stable insertion puts `x`: before exactly the trailing run of
/// elements whose key is above its own.
pub proof fn lemma_insert_sorted_at(s: Seq<JsonV>, x: JsonV, f: Seq<char>, j: int)
    requires
        0 <= j <= s.len(),
        forall|q: int| j <= q < s.len() ==> sort_key_rank(#[trigger] s[q], f) > sort_key_rank(x, f),
        j > 0 ==> sort_key_rank(s[j - 1], f) <= sort_key_rank(x, f),
    ensures
        insert_sorted(s, x, f) == s.take(j) + seq![x] + s.skip(j),
    decreases s.len(),
{
    if j == s.len() {
        assert(insert_sorted(s, x, f) =~= s.take(j) + seq![x] + s.skip(j));
    } else {
        assert(sort_key_rank(s[s.len() - 1], f) > sort_key_rank(x, f));
        lemma_insert_sorted_at(s.drop_last(), x, f, j);
        assert(s.drop_last().take(j) =~= s.take(j));
        assert(s.drop_last().skip(j) =~= s.skip(j).drop_last());
        assert((s.take(j) + seq![x] + s.skip(j).drop_last()).push(s.last()) =~= s.take(j) + seq![x]
            + s.skip(j));
    }
}

/// Evaluates one operation as a pure function of the current document, as
/// `spec_eval` has it. Evaluation never changes the state; the engine writes
/// the result afterwards.
pub fn eval_op(op: &LogicOp, state: &RuntimeState) -> (r: Result<Json, EngineError>)
    ensures
        match r {
            Ok(v) => spec_eval(*op, state@) == Ok::<JsonV, ErrV>(v@),
            Err(e) => spec_eval(*op, state@) == Err::<JsonV, ErrV>(e@),
        },
{
    match op {
        LogicOp::Get { path } => state.get(path.as_str()),
        LogicOp::Constant { value } => Ok(
            match value {
                ConstantValue::Text(s) => Json::Text(s.clone()),
                ConstantValue::Number(n) => Json::Num(n.clone()),
                ConstantValue::Bool(b) => Json::Bool(*b),
                ConstantValue::Null => Json::Null,
            },
        ),
        LogicOp::Pluck { path, key } => match get_arr(state, path.as_str()) {
            Ok(a) => {
                let mut out: Vec<Json> = Vec::new();
                let n = a.len();
                let mut i: usize = 0;
                while i < n
                    invariant
                        n == a@.len(),
                        i <= n,
                        out@.len() == i as int,
                        forall|q: int|
                            0 <= q < i as int ==> out@[q]@ == pluck_one(arr_view(a@)[q], key@),
                    decreases n - i,
                {
                    proof {
                        assert(arr_view(a@)[i as int] == a@[i as int]@);
                    }
                    let picked: Json = match &a[i] {
                        Json::Obj(es) => match Json::find_key(es, key) {
                            Some(j) => {
                                proof {
                                    assert(entries_view(es@)[j as int].1 == es@[j as int].1@);
                                    lemma_obj_lookup_at(entries_view(es@), key@, j as int);
                                }
                                es[j].1.deep_copy()
                            },
                            None => {
                                proof {
                                    lemma_obj_lookup_none(entries_view(es@), key@);
                                }
                                Json::Null
                            },
                        },
                        _ => Json::Null,
                    };
                    out.push(picked);
                    i += 1;
                }
                proof {
                    assert(arr_view(out@) =~= pluck_arr(arr_view(a@), key@));
                }
                Ok(Json::Arr(out))
            },
            Err(e) => Err(e),
        },
        LogicOp::Add { a, b } => match get_num(state, a.as_str()) {
            Ok(x) => match get_num(state, b.as_str()) {
                Ok(y) => Ok(opt_num_exec(num_add_exec(&x, &y))),
                Err(e) => Err(e),
            },
            Err(e) => Err(e),
        },
        LogicOp::Subtract { a, b } => match get_num(state, a.as_str()) {
            Ok(x) => match get_num(state, b.as_str()) {
                Ok(y) => Ok(opt_num_exec(num_sub_exec(&x, &y))),
                Err(e) => Err(e),
            },
            Err(e) => Err(e),
        },
        LogicOp::Multiply { a, b } => match get_num(state, a.as_str()) {
            Ok(x) => match get_num(state, b.as_str()) {
                Ok(y) => Ok(opt_num_exec(num_mul_exec(&x, &y))),
                Err(e) => Err(e),
            },
            Err(e) => Err(e),
        },
        LogicOp::Divide { a, b } => match get_num(state, b.as_str()) {
            Ok(y) => {
                if num_is_zero(&y) {
                    Err(EngineError::DivisionByZero)
                } else {
                    match get_num(state, a.as_str()) {
                        Ok(x) => Ok(opt_num_exec(num_div_exec(&x, &y))),
                        Err(e) => Err(e),
                    }
                }
            },
            Err(e) => Err(e),
        },
        LogicOp::Calculate { list_path, output_field, operator, a_field, b_field } => match get_arr(
            state,
            list_path.as_str(),
        ) {
            Ok(a) => {
                let mut out: Vec<Json> = Vec::new();
                let n = a.len();
                let mut i: usize = 0;
                while i < n
                    invariant
                        n == a@.len(),
                        i <= n,
                        out@.len() == i as int,
                        forall|q: int|
                            0 <= q < i as int ==> out@[q]@ == calc_elem(
                                state@,
                                arr_view(a@)[q],
                                *operator,
                                a_field@,
                                b_field@,
                                output_field@,
                            ),
                    decreases n - i,
                {
                    proof {
                        assert(arr_view(a@)[i as int] == a@[i as int]@);
                    }
                    let newe: Json = match &a[i] {
                        Json::Obj(es) => {
                            let av = operand_exec(state, es, a_field);
                            let bv = operand_exec(state, es, b_field);
                            let value = calc_value_exec(*operator, &av, &bv);
                            Json::Obj(crate::state::obj_store_exec(es, output_field, value))
                        },
                        other => other.deep_copy(),
                    };
                    out.push(newe);
                    i += 1;
                }
                proof {
                    assert(arr_view(out@) =~= calc_map(
                        state@,
                        arr_view(a@),
                        *operator,
                        a_field@,
                        b_field@,
                        output_field@,
                    ));
                }
                Ok(Json::Arr(out))
            },
            Err(e) => Err(e),
        },
        LogicOp::Sum { list_path, field } => match get_arr(state, list_path.as_str()) {
            Ok(a) => {
                let vals = nums_of_exec(&a, field);
                let ghost valsv = vals@;
                let mut acc: serde_json::Number = num_from_u64(0);
                let mut overflowed = false;
                let mut i: usize = 0;
                proof {
                    assert(valsv.skip(0) =~= valsv);
                }
                while i < vals.len()
                    invariant
                        valsv == vals@,
                        i <= vals@.len(),
                        !overflowed ==> sum_fold(valsv, zero_num()) == sum_fold(
                            valsv.skip(i as int),
                            acc,
                        ),
                        overflowed ==> sum_fold(valsv, zero_num()) == None::<serde_json::Number>,
                    decreases vals@.len() - i,
                {
                    proof {
                        assert(valsv.skip(i as int)[0] == valsv[i as int]);
                        assert(valsv.skip(i as int).skip(1) =~= valsv.skip(i as int + 1));
                    }
                    if !overflowed {
                        match num_add_exec(&acc, &vals[i]) {
                            Some(a2) => {
                                acc = a2;
                            },
                            None => {
                                overflowed = true;
                            },
                        }
                    }
                    i += 1;
                }
                proof {
                    assert(valsv.skip(valsv.len() as int) =~= Seq::<serde_json::Number>::empty());
                }
                if overflowed {
                    Ok(Json::Null)
                } else {
                    Ok(Json::Num(num_canon_exec(&acc)))
                }
            },
            Err(e) => Err(e),
        },
        LogicOp::Count { list_path } => match get_arr(state, list_path.as_str()) {
            Ok(a) => Ok(Json::Num(num_from_u64(a.len() as u64))),
            Err(e) => Err(e),
        },
        LogicOp::Min { list_path, field } => match get_arr(state, list_path.as_str()) {
            Ok(a) => {
                let vals = nums_of_exec(&a, field);
                let ghost valsv = vals@;
                if vals.len() == 0 {
                    Ok(Json::Null)
                } else {
                    let mut acc: serde_json::Number = num_canon_exec(&vals[0]);
                    let mut i: usize = 1;
                    proof {
                        assert(valsv.skip(1).skip(0) =~= valsv.skip(1));
                    }
                    while i < vals.len()
                        invariant
                            valsv == vals@,
                            1 <= i <= vals@.len(),
                            min_fold(valsv.skip(1), num_canon(valsv[0])) == min_fold(
                                valsv.skip(i as int),
                                acc,
                            ),
                        decreases vals@.len() - i,
                    {
                        proof {
                            assert(valsv.skip(i as int)[0] == valsv[i as int]);
                            assert(valsv.skip(i as int).skip(1) =~= valsv.skip(i as int + 1));
                        }
                        acc = num_min_exec(&acc, &vals[i]);
                        i += 1;
                    }
                    proof {
                        assert(valsv.skip(valsv.len() as int) =~= Seq::<
                            serde_json::Number,
                        >::empty());
                    }
                    Ok(Json::Num(acc))
                }
            },
            Err(e) => Err(e),
        },
        LogicOp::Max { list_path, field } => match get_arr(state, list_path.as_str()) {
            Ok(a) => {
                let vals = nums_of_exec(&a, field);
                let ghost valsv = vals@;
                if vals.len() == 0 {
                    Ok(Json::Null)
                } else {
                    let mut acc: serde_json::Number = num_canon_exec(&vals[0]);
                    let mut i: usize = 1;
                    proof {
                        assert(valsv.skip(1).skip(0) =~= valsv.skip(1));
                    }
                    while i < vals.len()
                        invariant
                            valsv == vals@,
                            1 <= i <= vals@.len(),
                            max_fold(valsv.skip(1), num_canon(valsv[0])) == max_fold(
                                valsv.skip(i as int),
                                acc,
                            ),
                        decreases vals@.len() - i,
                    {
                        proof {
                            assert(valsv.skip(i as int)[0] == valsv[i as int]);
                            assert(valsv.skip(i as int).skip(1) =~= valsv.skip(i as int + 1));
                        }
                        acc = num_max_exec(&acc, &vals[i]);
                        i += 1;
                    }
                    proof {
                        assert(valsv.skip(valsv.len() as int) =~= Seq::<
                            serde_json::Number,
                        >::empty());
                    }
                    Ok(Json::Num(acc))
                }
            },
            Err(e) => Err(e),
        },
        LogicOp::FilterNumeric { list_path, field, operator, value } => match get_arr(
            state,
            list_path.as_str(),
        ) {
            Ok(a) => {
                let ghost av = arr_view(a@);
                let mut out: Vec<Json> = Vec::new();
                let n = a.len();
                let mut i: usize = 0;
                proof {
                    assert(av.skip(0) =~= av);
                    assert(arr_view(out@) + filter_arr(av, *field, *operator, *value)
                        =~= filter_arr(av, *field, *operator, *value));
                }
                while i < n
                    invariant
                        av == arr_view(a@),
                        n == a@.len(),
                        av.len() == a@.len(),
                        i <= n,
                        filter_arr(av, *field, *operator, *value) == arr_view(out@) + filter_arr(
                            av.skip(i as int),
                            *field,
                            *operator,
                            *value,
                        ),
                    decreases n - i,
                {
                    proof {
                        assert(av.skip(i as int)[0] == av[i as int]);
                        assert(av[i as int] == a@[i as int]@);
                        assert(av.skip(i as int).skip(1) =~= av.skip(i as int + 1));
                    }
                    let ghost out0 = arr_view(out@);
                    let keep: bool = match elem_num_exec(&a[i], field) {
                        Some(x) => match operator {
                            CmpOp::Gt => !num_le(&x, value),
                            CmpOp::Lt => {
                                let le = num_le(&x, value);
                                let ge = num_le(value, &x);
                                le && !ge
                            },
                            CmpOp::Eq => num_close_exec(&x, value),
                            CmpOp::Gte => num_le(value, &x),
                            CmpOp::Lte => num_le(&x, value),
                        },
                        None => false,
                    };
                    if keep {
                        out.push(a[i].deep_copy());
                        proof {
                            assert(arr_view(out@) =~= out0 + seq![av[i as int]]);
                            assert((out0 + seq![av[i as int]]) + filter_arr(
                                av.skip(i as int + 1),
                                *field,
                                *operator,
                                *value,
                            ) =~= out0 + (seq![av[i as int]] + filter_arr(
                                av.skip(i as int + 1),
                                *field,
                                *operator,
                                *value,
                            )));
                        }
                    } else {
                        proof {
                            assert(Seq::<JsonV>::empty() + filter_arr(
                                av.skip(i as int + 1),
                                *field,
                                *operator,
                                *value,
                            ) =~= filter_arr(av.skip(i as int + 1), *field, *operator, *value));
                        }
                    }
                    i += 1;
                }
                proof {
                    assert(av.skip(av.len() as int) =~= Seq::<JsonV>::empty());
                    assert(arr_view(out@) + Seq::<JsonV>::empty() =~= arr_view(out@));
                }
                Ok(Json::Arr(out))
            },
            Err(e) => Err(e),
        },
        LogicOp::Sort { list_path, field, descending } => match get_arr(state, list_path.as_str()) {
            Ok(a) => {
                let ghost av = arr_view(a@);
                let mut out: Vec<Json> = Vec::new();
                let n = a.len();
                let mut i: usize = 0;
                proof {
                    assert(av.take(0) =~= Seq::<JsonV>::empty());
                    assert(arr_view(out@) =~= sort_arr(av.take(0), field@));
                }
                while i < n
                    invariant
                        av == arr_view(a@),
                        n == a@.len(),
                        av.len() == a@.len(),
                        i <= n,
                        out@.len() == i as int,
                        arr_view(out@) == sort_arr(av.take(i as int), field@),
                    decreases n - i,
                {
                    proof {
                        assert(av[i as int] == a@[i as int]@);
                    }
                    let x = a[i].deep_copy();
                    let ghost sorted0 = arr_view(out@);
                    // find the insertion position: scan back over the
                    // trailing run of strictly greater keys
                    let mut j: usize = out.len();
                    while j > 0 && key_gt(&out[j - 1], &x, field)
                        invariant
                            out@.len() == i as int,
                            j <= i,
                            arr_view(out@) == sorted0,
                            x@ == av[i as int],
                            forall|q: int|
                                j <= q < i as int ==> sort_key_rank(#[trigger] sorted0[q], field@)
                                    > sort_key_rank(av[i as int], field@),
                        decreases j,
                    {
                        proof {
                            assert(arr_view(out@)[j - 1] == out@[j - 1]@);
                        }
                        j -= 1;
                    }
                    proof {
                        if j > 0 {
                            assert(arr_view(out@)[j - 1] == out@[j - 1]@);
                        }
                        lemma_insert_sorted_at(sorted0, av[i as int], field@, j as int);
                    }
                    out.insert(j, x);
                    proof {
                        assert(av.take(i as int + 1).drop_last() =~= av.take(i as int));
                        assert(av.take(i as int + 1).last() == av[i as int]);
                        assert(arr_view(out@) =~= sorted0.take(j as int) + seq![av[i as int]]
                            + sorted0.skip(j as int));
                    }
                    i += 1;
                }
                proof {
                    assert(av.take(av.len() as int) =~= av);
                }
                if *descending {
                    let mut rev: Vec<Json> = Vec::new();
                    let m = out.len();
                    let mut k: usize = 0;
                    while k < m
                        invariant
                            m == out@.len(),
                            k <= m,
                            rev@.len() == k as int,
                            forall|q: int|
                                0 <= q < k as int ==> rev@[q]@ == arr_view(out@)[m - 1 - q],
                        decreases m - k,
                    {
                        proof {
                            assert(arr_view(out@)[m - 1 - k as int] == out@[m - 1 - k as int]@);
                        }
                        rev.push(out[m - 1 - k].deep_copy());
                        k += 1;
                    }
                    proof {
                        assert(arr_view(rev@) =~= sort_arr(av, field@).reverse());
                    }
                    Ok(Json::Arr(rev))
                } else {
                    Ok(Json::Arr(out))
                }
            },
            Err(e) => Err(e),
        },
        LogicOp::FormatString { template, variables } => {
            let mut tcur: Vec<char> = chars_of(template.as_str());
            let ghost varsv = variables@;
            let n = variables.len();
            let mut i: usize = 0;
            proof {
                assert(varsv.skip(0) =~= varsv);
            }
            while i < n
                invariant
                    varsv == variables@,
                    n == variables@.len(),
                    i <= n,
                    fmt_fold(state@, template@, varsv) == fmt_fold(
                        state@,
                        tcur@,
                        varsv.skip(i as int),
                    ),
                decreases n - i,
            {
                proof {
                    assert(varsv.skip(i as int)[0] == varsv[i as int]);
                    assert(varsv.skip(i as int).skip(1) =~= varsv.skip(i as int + 1));
                }
                let var = &variables[i];
                match state.get(var.path.as_str()) {
                    Ok(val) => {
                        let rendered = render_exec(&val);
                        let mut pat: Vec<char> = Vec::new();
                        pat.push('{');
                        let keyc = chars_of(var.key.as_str());
                        push_all(&mut pat, &keyc);
                        pat.push('}');
                        proof {
                            assert(pat@ =~= seq!['{'] + var.key@ + seq!['}']);
                        }
                        tcur = replace_all_chars(&tcur, &pat, &rendered);
                    },
                    Err(_) => {},
                }
                i += 1;
            }
            proof {
                assert(varsv.skip(varsv.len() as int) =~= Seq::<FormatVariable>::empty());
            }
            Ok(Json::Text(string_from_chars(&tcur)))
        },
    }
}

} // verus!
