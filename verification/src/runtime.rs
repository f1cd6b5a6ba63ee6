//! The execution engine: folds a program's steps over a fresh state and
//! extracts the output the schema asks for.

use crate::dsl::AppProgram;
use crate::dsl::LogicStep;
use crate::eval::eval_op;
use crate::eval::spec_eval;
use crate::json::Json;
use crate::json::JsonV;
use crate::json::entries_view;
use crate::json::lemma_obj_lookup_at;
use crate::json::lemma_obj_lookup_none;
use crate::json::obj_lookup;
use crate::path::json_at;
use crate::path::json_at_exec;
use crate::path::path_tokens;
use crate::path::split_path;
use crate::render::push_all;
use crate::state::EngineError;
use crate::state::ErrV;
use crate::state::RuntimeState;
use crate::state::initial_doc;
use crate::state::spec_set;
use crate::text::chars_of;
use crate::text::string_from_chars;
use vstd::prelude::*;

verus! {

/// What folding the remaining steps over the document yields: each step
/// evaluates against the current document and writes its result, and the
/// first failure aborts the whole run.
pub open spec fn spec_run_steps(doc: JsonV, steps: Seq<LogicStep>) -> Result<JsonV, ErrV>
    decreases steps.len(),
{
    if steps.len() == 0 {
        Ok(doc)
    } else {
        match spec_eval(steps[0].operation, doc) {
            Ok(v) => match spec_set(doc, steps[0].output_path@, v) {
                Ok(d2) => spec_run_steps(d2, steps.skip(1)),
                Err(e) => Err(e),
            },
            Err(e) => Err(e),
        }
    }
}

/// The top-level properties of the output schema, when it has any.
pub open spec fn props_of(schema: JsonV) -> Option<Seq<(Seq<char>, JsonV)>> {
    match schema {
        JsonV::Obj(es) => match obj_lookup(es, "properties"@) {
            Some(JsonV::Obj(ps)) => Some(ps),
            _ => None,
        },
        _ => None,
    }
}

/// One extracted output: the property name as a root key first, then as a
/// one-segment path.
pub open spec fn extract_one(doc: JsonV, key: Seq<char>) -> Option<JsonV> {
    let by_pointer = match path_tokens(seq!['/'] + key) {
        Some(t) => json_at(doc, t),
        None => None,
    };
    match doc {
        JsonV::Obj(es) => match obj_lookup(es, key) {
            Some(v) => Some(v),
            None => by_pointer,
        },
        _ => by_pointer,
    }
}

/// Every schema property that matched, in schema order.
pub open spec fn collect_outputs(doc: JsonV, props: Seq<(Seq<char>, JsonV)>) -> Seq<
    (Seq<char>, JsonV),
>
    decreases props.len(),
{
    if props.len() == 0 {
        Seq::empty()
    } else {
        (match extract_one(doc, props[0].0) {
            Some(v) => seq![(props[0].0, v)],
            None => Seq::empty(),
        }) + collect_outputs(doc, props.skip(1))
    }
}

/// Output extraction never fails: the collected map when at least one schema
/// property matched, else the whole working document as a degraded fallback.
pub open spec fn spec_extract(doc: JsonV, schema: JsonV) -> JsonV {
    match props_of(schema) {
        Some(ps) => {
            let outs = collect_outputs(doc, ps);
            if outs.len() > 0 {
                JsonV::Obj(outs)
            } else {
                doc
            }
        },
        None => doc,
    }
}

/// The whole engine as one function: seed the state, fold the steps, extract
/// the output. Every run of `execute` returns exactly this.
pub open spec fn spec_execute(program: AppProgram, inputs: JsonV) -> Result<JsonV, ErrV> {
    match spec_run_steps(initial_doc(inputs), program.steps@) {
        Ok(doc) => Ok(spec_extract(doc, program.definition.output_schema@)),
        Err(e) => Err(e),
    }
}

/// The execution engine.
pub struct Runtime;

/// The schema's property entries, when it has any.
fn props_of_exec(schema: &Json) -> (r: Option<&Vec<(String, Json)>>)
    ensures
        match r {
            Some(ps) => props_of(schema@) == Some(entries_view(ps@)),
            None => props_of(schema@) == None::<Seq<(Seq<char>, JsonV)>>,
        },
{
    let pkey = String::from_str("properties");
    match schema {
        Json::Obj(es) => match Json::find_key(es, &pkey) {
            Some(i) => {
                proof {
                    assert(entries_view(es@)[i as int].1 == es@[i as int].1@);
                    lemma_obj_lookup_at(entries_view(es@), "properties"@, i as int);
                }
                match &es[i].1 {
                    Json::Obj(ps) => Some(ps),
                    _ => None,
                }
            },
            None => {
                proof {
                    lemma_obj_lookup_none(entries_view(es@), "properties"@);
                }
                None
            },
        },
        _ => None,
    }
}

/// One extracted output, as `extract_one` has it.
fn extract_one_exec(doc: &Json, key: &String) -> (r: Option<Json>)
    ensures
        match r {
            Some(v) => extract_one(doc@, key@) == Some(v@),
            None => extract_one(doc@, key@) == None::<JsonV>,
        },
{
    match doc {
        Json::Obj(des) => match Json::find_key(des, key) {
            Some(j) => {
                proof {
                    assert(entries_view(des@)[j as int].1 == des@[j as int].1@);
                    lemma_obj_lookup_at(entries_view(des@), key@, j as int);
                }
                Some(des[j].1.deep_copy())
            },
            None => {
                proof {
                    lemma_obj_lookup_none(entries_view(des@), key@);
                }
                extract_by_pointer(doc, key)
            },
        },
        _ => extract_by_pointer(doc, key),
    }
}

/// The pointer attempt of output extraction: the property name read as a
/// one-segment path.
fn extract_by_pointer(doc: &Json, key: &String) -> (r: Option<Json>)
    ensures
        ({
            let by_pointer = match path_tokens(seq!['/'] + key@) {
                Some(t) => json_at(doc@, t),
                None => None,
            };
            match r {
                Some(v) => by_pointer == Some(v@),
                None => by_pointer == None::<JsonV>,
            }
        }),
{
    let mut pv: Vec<char> = Vec::new();
    pv.push('/');
    let keyc = chars_of(key.as_str());
    push_all(&mut pv, &keyc);
    let pstr = string_from_chars(&pv);
    proof {
        assert(pstr@ =~= seq!['/'] + key@);
    }
    match split_path(pstr.as_str()) {
        Some(toks) => {
            proof {
                assert(toks.deep_view().skip(0) =~= toks.deep_view());
            }
            match json_at_exec(doc, &toks, 0) {
                Some(v) => Some(v.deep_copy()),
                None => None,
            }
        },
        None => None,
    }
}

/// Output extraction, as `spec_extract` has it.
fn extract(doc: Json, schema: &Json) -> (r: Json)
    ensures
        r@ == spec_extract(doc@, schema@),
{
    match props_of_exec(schema) {
        Some(ps) => {
            let ghost psv = entries_view(ps@);
            let ghost docv = doc@;
            let mut outs: Vec<(String, Json)> = Vec::new();
            let n = ps.len();
            let mut m: usize = 0;
            proof {
                assert(psv.skip(0) =~= psv);
                assert(entries_view(outs@) + collect_outputs(docv, psv) =~= collect_outputs(
                    docv,
                    psv,
                ));
            }
            while m < n
                invariant
                    psv == entries_view(ps@),
                    docv == doc@,
                    n == ps@.len(),
                    psv.len() == ps@.len(),
                    m <= n,
                    collect_outputs(docv, psv) == entries_view(outs@) + collect_outputs(
                        docv,
                        psv.skip(m as int),
                    ),
                decreases n - m,
            {
                proof {
                    assert(psv.skip(m as int)[0] == psv[m as int]);
                    assert(psv[m as int].0 == ps@[m as int].0@);
                    assert(psv.skip(m as int).skip(1) =~= psv.skip(m as int + 1));
                }
                let ghost outs0 = entries_view(outs@);
                match extract_one_exec(&doc, &ps[m].0) {
                    Some(v) => {
                        let ghost vv = v@;
                        outs.push((ps[m].0.clone(), v));
                        proof {
                            assert(entries_view(outs@) =~= outs0 + seq![(psv[m as int].0, vv)]);
                            assert((outs0 + seq![(psv[m as int].0, vv)]) + collect_outputs(
                                docv,
                                psv.skip(m as int + 1),
                            ) =~= outs0 + (seq![(psv[m as int].0, vv)] + collect_outputs(
                                docv,
                                psv.skip(m as int + 1),
                            )));
                        }
                    },
                    None => {
                        proof {
                            assert(Seq::<(Seq<char>, JsonV)>::empty() + collect_outputs(
                                docv,
                                psv.skip(m as int + 1),
                            ) =~= collect_outputs(docv, psv.skip(m as int + 1)));
                        }
                    },
                }
                m += 1;
            }
            proof {
                assert(psv.skip(psv.len() as int) =~= Seq::<(Seq<char>, JsonV)>::empty());
                assert(entries_view(outs@) + Seq::<(Seq<char>, JsonV)>::empty() =~= entries_view(
                    outs@,
                ));
            }
            if outs.len() > 0 {
                Json::Obj(outs)
            } else {
                doc
            }
        },
        None => doc,
    }
}

impl Runtime {
    /// Runs the program against the caller's input data: builds one fresh
    /// state, folds the steps in order (each step observes all prior writes),
    /// aborts on the first failure, and extracts the output the schema asks
    /// for. The result is exactly `spec_execute` of the program and inputs,
    /// so repeated runs on the same values return the same thing.
    #[verifier::rlimit(100)]
    pub fn execute(program: &AppProgram, inputs: Json) -> (r: Result<Json, EngineError>)
        ensures
            match r {
                Ok(v) => spec_execute(*program, inputs@) == Ok::<JsonV, ErrV>(v@),
                Err(e) => spec_execute(*program, inputs@) == Err::<JsonV, ErrV>(e@),
            },
    {
        let ghost inputsv = inputs@;
        let mut state = RuntimeState::new(inputs);
        let n = program.steps.len();
        let mut i: usize = 0;
        proof {
            assert(program.steps@.skip(0) =~= program.steps@);
        }
        while i < n
            invariant
                inputsv == inputs@,
                n == program.steps@.len(),
                i <= n,
                spec_run_steps(initial_doc(inputsv), program.steps@) == spec_run_steps(
                    state@,
                    program.steps@.skip(i as int),
                ),
            decreases n - i,
        {
            proof {
                assert(program.steps@.skip(i as int)[0] == program.steps@[i as int]);
                assert(program.steps@.skip(i as int).skip(1) =~= program.steps@.skip(i as int + 1));
            }
            let step = &program.steps[i];
            let ghost doc0 = state@;
            match eval_op(&step.operation, &state) {
                Ok(result) => {
                    let ghost resv = result@;
                    match state.set(step.output_path.as_str(), result) {
                        Ok(_) => {
                            proof {
                                assert(spec_eval(program.steps@[i as int].operation, doc0)
                                    == Ok::<JsonV, ErrV>(resv));
                                assert(spec_set(doc0, program.steps@[i as int].output_path@, resv)
                                    == Ok::<JsonV, ErrV>(state@));
                                assert(spec_run_steps(doc0, program.steps@.skip(i as int))
                                    == spec_run_steps(state@, program.steps@.skip(i as int + 1)));
                            }
                        },
                        Err(e) => {
                            proof {
                                assert(spec_run_steps(doc0, program.steps@.skip(i as int))
                                    == Err::<JsonV, ErrV>(e@));
                            }
                            return Err(e);
                        },
                    }
                },
                Err(e) => {
                    proof {
                        assert(spec_run_steps(doc0, program.steps@.skip(i as int)) == Err::<
                            JsonV,
                            ErrV,
                        >(e@));
                    }
                    return Err(e);
                },
            }
            i += 1;
        }
        proof {
            assert(program.steps@.skip(n as int) =~= Seq::<LogicStep>::empty());
        }
        Ok(extract(state.data, &program.definition.output_schema))
    }
}

} // verus!
