//! Slash-separated, pointer-style path resolution over the document tree:
//! splitting a path into segments, the `~1`/`~0` escapes, array indexing,
//! and reading or functionally replacing the value a path points at.

use crate::json::Json;
use crate::json::JsonV;
use crate::json::arr_view;
use crate::json::entries_view;
use crate::json::lemma_obj_lookup_at;
use crate::json::lemma_obj_lookup_none;
use crate::json::obj_lookup;
use crate::json::obj_store;
use crate::text::chars_of;
use crate::text::replace_all;
use crate::text::replace_all_chars;
use crate::text::string_from_chars;
use vstd::prelude::*;

verus! {

/// A path segment with the pointer escapes decoded: `~1` means `/` and `~0`
/// means `~`.
pub open spec fn seg_unescape(t: Seq<char>) -> Seq<char> {
    replace_all(replace_all(t, seq!['~', '1'], seq!['/']), seq!['~', '0'], seq!['~'])
}

/// The `/`-separated tokens of `p` (before escape decoding); splitting the
/// empty text yields one empty token.
pub open spec fn split_segs(p: Seq<char>) -> Seq<Seq<char>>
    decreases p.len(),
{
    if p.len() == 0 {
        seq![Seq::<char>::empty()]
    } else if p[0] == '/' {
        seq![Seq::<char>::empty()] + split_segs(p.skip(1))
    } else {
        let rest = split_segs(p.skip(1));
        seq![seq![p[0]] + rest[0]] + rest.skip(1)
    }
}

pub proof fn lemma_split_segs_nonempty(p: Seq<char>)
    ensures
        split_segs(p).len() >= 1,
    decreases p.len(),
{
    if p.len() > 0 {
        lemma_split_segs_nonempty(p.skip(1));
    }
}

/// The decoded segments of a path: the empty path addresses the whole
/// document (no segments), any other path must start with `/`.
pub open spec fn path_tokens(p: Seq<char>) -> Option<Seq<Seq<char>>> {
    if p.len() == 0 {
        Some(Seq::empty())
    } else if p[0] != '/' {
        None
    } else {
        Some(split_segs(p.skip(1)).map_values(|t: Seq<char>| seg_unescape(t)))
    }
}

pub open spec fn is_digit(c: char) -> bool {
    '0' <= c && c <= '9'
}

pub open spec fn all_digits(t: Seq<char>) -> bool {
    forall|i: int| 0 <= i < t.len() ==> is_digit(#[trigger] t[i])
}

/// The number a digit string denotes.
pub open spec fn digits_val(t: Seq<char>) -> int
    decreases t.len(),
{
    if t.len() == 0 {
        0
    } else {
        digits_val(t.take(t.len() - 1)) * 10 + (t.last() as int - '0' as int)
    }
}

/// The array index a segment denotes: all digits, no leading zero, and small
/// enough for the machine; anything else is not an index.
pub open spec fn parse_index(t: Seq<char>) -> Option<int> {
    if t.len() > 0 && all_digits(t) && (t.len() == 1 || t[0] != '0') && digits_val(t)
        <= usize::MAX as int {
        Some(digits_val(t))
    } else {
        None
    }
}

pub proof fn lemma_digits_val_nonneg(t: Seq<char>)
    requires
        all_digits(t),
    ensures
        digits_val(t) >= 0,
    decreases t.len(),
{
    if t.len() > 0 {
        assert(all_digits(t.take(t.len() - 1)));
        lemma_digits_val_nonneg(t.take(t.len() - 1));
    }
}

/// A digit string's value only grows as it gets longer.
pub proof fn lemma_digits_val_mono(t: Seq<char>, i: int, j: int)
    requires
        all_digits(t),
        0 <= i <= j <= t.len(),
    ensures
        digits_val(t.take(i)) <= digits_val(t.take(j)),
    decreases j - i,
{
    if i < j {
        lemma_digits_val_mono(t, i, j - 1);
        assert(all_digits(t.take(j)));
        lemma_digits_val_nonneg(t.take(j));
        assert(t.take(j).take(j - 1) =~= t.take(j - 1));
        lemma_digits_val_nonneg(t.take(j - 1));
        assert(digits_val(t.take(j)) == digits_val(t.take(j - 1)) * 10 + (t.take(j).last() as int
            - '0' as int));
        assert(digits_val(t.take(j - 1)) * 10 >= digits_val(t.take(j - 1))) by (nonlinear_arith)
            requires
                digits_val(t.take(j - 1)) >= 0,
        ;
    }
}

/// The value a token chain points at, walking objects by key and arrays by
/// index.
pub open spec fn json_at(v: JsonV, toks: Seq<Seq<char>>) -> Option<JsonV>
    decreases toks.len(),
{
    if toks.len() == 0 {
        Some(v)
    } else {
        match v {
            JsonV::Obj(es) => match obj_lookup(es, toks[0]) {
                Some(child) => json_at(child, toks.skip(1)),
                None => None,
            },
            JsonV::Arr(a) => match parse_index(toks[0]) {
                Some(i) => if i < a.len() {
                    json_at(a[i], toks.skip(1))
                } else {
                    None
                },
                None => None,
            },
            _ => None,
        }
    }
}

/// The document with the value the token chain points at replaced by `nv`;
/// nothing when the chain does not resolve.
pub open spec fn json_replace(v: JsonV, toks: Seq<Seq<char>>, nv: JsonV) -> Option<JsonV>
    decreases toks.len(),
{
    if toks.len() == 0 {
        Some(nv)
    } else {
        match v {
            JsonV::Obj(es) => match obj_lookup(es, toks[0]) {
                Some(child) => match json_replace(child, toks.skip(1), nv) {
                    Some(c2) => Some(JsonV::Obj(obj_store(es, toks[0], c2))),
                    None => None,
                },
                None => None,
            },
            JsonV::Arr(a) => match parse_index(toks[0]) {
                Some(i) => if i < a.len() {
                    match json_replace(a[i], toks.skip(1), nv) {
                        Some(c2) => Some(JsonV::Arr(a.update(i, c2))),
                        None => None,
                    }
                } else {
                    None
                },
                None => None,
            },
            _ => None,
        }
    }
}

/// `segs` with `c` joined onto the front of its first token.
pub open spec fn prepend_first(c: Seq<char>, segs: Seq<Seq<char>>) -> Seq<Seq<char>>
    recommends
        segs.len() >= 1,
{
    seq![c + segs[0]] + segs.skip(1)
}

/// Splits a path into its decoded segments; the empty path has none, and a
/// non-empty path that does not start with `/` has no valid split.
pub fn split_path(p: &str) -> (r: Option<Vec<String>>)
    ensures
        match r {
            Some(v) => path_tokens(p@) == Some(v.deep_view()),
            None => path_tokens(p@) == None::<Seq<Seq<char>>>,
        },
{
    let cs = chars_of(p);
    if cs.len() == 0 {
        let out: Vec<String> = Vec::new();
        proof {
            assert(out.deep_view() =~= Seq::<Seq<char>>::empty());
        }
        return Some(out);
    }
    if cs[0] != '/' {
        return None;
    }
    let mut raw: Vec<Vec<char>> = Vec::new();
    let mut cur: Vec<char> = Vec::new();
    let mut i: usize = 1;
    proof {
        lemma_split_segs_nonempty(p@.skip(1));
        assert(prepend_first(cur@, split_segs(p@.skip(1)))[0] =~= split_segs(p@.skip(1))[0]);
        assert(prepend_first(cur@, split_segs(p@.skip(1))) =~= split_segs(p@.skip(1)));
        assert(raw.deep_view() + prepend_first(cur@, split_segs(p@.skip(1))) =~= split_segs(
            p@.skip(1),
        ));
    }
    while i < cs.len()
        invariant
            cs@ == p@,
            1 <= i <= cs@.len(),
            split_segs(p@.skip(1)) == raw.deep_view() + prepend_first(
                cur@,
                split_segs(p@.skip(i as int)),
            ),
        decreases cs@.len() - i,
    {
        proof {
            lemma_split_segs_nonempty(p@.skip(i as int));
            lemma_split_segs_nonempty(p@.skip(i as int + 1));
            assert(p@.skip(i as int)[0] == p@[i as int]);
            assert(p@.skip(i as int).skip(1) =~= p@.skip(i as int + 1));
        }
        let c = cs[i];
        if c == '/' {
            let ghost rdv = raw.deep_view();
            let ghost cv = cur@;
            raw.push(cur);
            cur = Vec::new();
            proof {
                let s2 = split_segs(p@.skip(i as int + 1));
                assert(split_segs(p@.skip(i as int)) == seq![Seq::<char>::empty()] + s2);
                assert(raw.deep_view() =~~= rdv + seq![cv]);
                assert(prepend_first(cv, seq![Seq::<char>::empty()] + s2) =~~= seq![cv] + s2);
                assert(prepend_first(cur@, s2) =~~= s2);
                assert(rdv + (seq![cv] + s2) =~~= (rdv + seq![cv]) + s2);
            }
        } else {
            proof {
                let rest = split_segs(p@.skip(i as int + 1));
                assert(split_segs(p@.skip(i as int)) == seq![seq![p@[i as int]] + rest[0]]
                    + rest.skip(1));
                assert(prepend_first(cur@, split_segs(p@.skip(i as int)))
                    =~~= prepend_first(cur@.push(p@[i as int]), rest));
            }
            cur.push(c);
        }
        i += 1;
    }
    proof {
        assert(p@.skip(cs@.len() as int) =~= Seq::<char>::empty());
        assert(prepend_first(cur@, split_segs(Seq::<char>::empty())) =~= seq![cur@]);
    }
    let ghost rdv2 = raw.deep_view();
    let ghost cv2 = cur@;
    raw.push(cur);
    proof {
        assert(raw.deep_view() =~~= rdv2 + seq![cv2]);
        assert(raw.deep_view() =~~= split_segs(p@.skip(1)));
    }
    let ghost rawdv = raw.deep_view();
    let pat1: Vec<char> = vec!['~', '1'];
    let rep1: Vec<char> = vec!['/'];
    let pat0: Vec<char> = vec!['~', '0'];
    let rep0: Vec<char> = vec!['~'];
    let mut out: Vec<String> = Vec::new();
    let mut j: usize = 0;
    while j < raw.len()
        invariant
            raw.deep_view() == rawdv,
            rawdv == split_segs(p@.skip(1)),
            j <= raw@.len(),
            raw@.len() == rawdv.len(),
            pat1@ == seq!['~', '1'],
            rep1@ == seq!['/'],
            pat0@ == seq!['~', '0'],
            rep0@ == seq!['~'],
            out.deep_view().len() == j as int,
            forall|m: int| 0 <= m < j as int ==> out.deep_view()[m] == seg_unescape(rawdv[m]),
        decreases raw@.len() - j,
    {
        let t1 = replace_all_chars(&raw[j], &pat1, &rep1);
        let t2 = replace_all_chars(&t1, &pat0, &rep0);
        let st = string_from_chars(&t2);
        proof {
            assert(rawdv[j as int] == raw@[j as int]@);
            assert(st@ == seg_unescape(rawdv[j as int]));
        }
        let ghost odv = out.deep_view();
        out.push(st);
        proof {
            assert(out.deep_view() =~~= odv + seq![st@]);
        }
        j += 1;
    }
    proof {
        assert(out.deep_view() =~~= split_segs(p@.skip(1)).map_values(
            |t: Seq<char>| seg_unescape(t),
        ));
    }
    Some(out)
}

/// Parses a segment as an array index, as `parse_index` describes it.
pub fn parse_index_exec(t: &String) -> (r: Option<usize>)
    ensures
        match r {
            Some(i) => parse_index(t@) == Some(i as int),
            None => parse_index(t@) == None::<int>,
        },
{
    let cs = chars_of(t.as_str());
    if cs.len() == 0 {
        return None;
    }
    if cs.len() > 1 && cs[0] == '0' {
        return None;
    }
    let mut acc: usize = 0;
    let mut i: usize = 0;
    proof {
        assert(t@.take(0) =~= Seq::<char>::empty());
    }
    while i < cs.len()
        invariant
            cs@ == t@,
            i <= cs@.len(),
            all_digits(t@.take(i as int)),
            acc as int == digits_val(t@.take(i as int)),
        decreases cs@.len() - i,
    {
        let c = cs[i];
        if c < '0' || c > '9' {
            proof {
                assert(!is_digit(t@[i as int]));
            }
            return None;
        }
        let d: usize = (c as u32 - 48) as usize;
        proof {
            assert(is_digit(t@[i as int]));
            assert(d as int == t@[i as int] as int - '0' as int);
            assert(t@.take(i as int + 1).take(i as int) =~= t@.take(i as int));
            assert(t@.take(i as int + 1).last() == t@[i as int]);
            assert(all_digits(t@.take(i as int + 1)));
        }
        let next = match acc.checked_mul(10) {
            Some(m) => m.checked_add(d),
            None => None,
        };
        match next {
            Some(s) => {
                acc = s;
            },
            None => {
                proof {
                    lemma_digits_val_nonneg(t@.take(i as int));
                    assert(digits_val(t@.take(i as int + 1)) > usize::MAX as int);
                    if all_digits(t@) {
                        lemma_digits_val_mono(t@, i as int + 1, t@.len() as int);
                        assert(t@.take(t@.len() as int) =~= t@);
                    }
                }
                return None;
            },
        }
        i += 1;
    }
    proof {
        assert(t@.take(t@.len() as int) =~= t@);
    }
    Some(acc)
}

/// Reads the value the token chain from position `k` on points at.
pub fn json_at_exec<'a>(v: &'a Json, toks: &Vec<String>, k: usize) -> (r: Option<&'a Json>)
    requires
        k as int <= toks@.len(),
    ensures
        match r {
            Some(x) => json_at(v@, toks.deep_view().skip(k as int)) == Some(x@),
            None => json_at(v@, toks.deep_view().skip(k as int)) == None::<JsonV>,
        },
    decreases toks@.len() - k,
{
    let ghost rest = toks.deep_view().skip(k as int);
    if k == toks.len() {
        proof {
            assert(rest =~= Seq::<Seq<char>>::empty());
        }
        return Some(v);
    }
    proof {
        assert(rest[0] == toks.deep_view()[k as int]);
        assert(rest.skip(1) =~= toks.deep_view().skip(k as int + 1));
    }
    match v {
        Json::Obj(es) => match Json::find_key(es, &toks[k]) {
            Some(i) => {
                proof {
                    assert(entries_view(es@)[i as int].1 == es@[i as int].1@);
                    lemma_obj_lookup_at(entries_view(es@), rest[0], i as int);
                }
                json_at_exec(&es[i].1, toks, k + 1)
            },
            None => {
                proof {
                    lemma_obj_lookup_none(entries_view(es@), rest[0]);
                }
                None
            },
        },
        Json::Arr(a) => match parse_index_exec(&toks[k]) {
            Some(i) => if i < a.len() {
                proof {
                    assert(arr_view(a@)[i as int] == a@[i as int]@);
                }
                json_at_exec(&a[i], toks, k + 1)
            } else {
                None
            },
            None => None,
        },
        _ => None,
    }
}

/// Relates `obj_store` to replacing the value at the index of the first
/// matching entry.
pub proof fn lemma_obj_store_at(
    entries: Seq<(Seq<char>, JsonV)>,
    key: Seq<char>,
    i: int,
    val: JsonV,
)
    requires
        0 <= i < entries.len(),
        entries[i].0 == key,
        forall|j: int| 0 <= j < i ==> entries[j].0 != key,
    ensures
        obj_store(entries, key, val) == entries.update(i, (entries[i].0, val)),
    decreases i,
{
    if i == 0 {
        assert(obj_store(entries, key, val) =~= entries.update(0, (entries[0].0, val)));
    } else {
        lemma_obj_store_at(entries.skip(1), key, i - 1, val);
        assert(obj_store(entries, key, val) =~= entries.update(i, (entries[i].0, val)));
    }
}

/// `es` with the value of entry `i` replaced.
pub(crate) fn obj_update_entry(es: &Vec<(String, Json)>, i: usize, c2: Json) -> (out: Vec<(String, Json)>)
    requires
        i < es@.len(),
    ensures
        entries_view(out@) == entries_view(es@).update(i as int, (es@[i as int].0@, c2@)),
{
    let ghost c2v = c2@;
    let n = es.len();
    let mut out: Vec<(String, Json)> = Vec::new();
    let mut m: usize = 0;
    while m < i
        invariant
            i < es@.len(),
            m <= i,
            out@.len() == m as int,
            forall|q: int| 0 <= q < m as int ==> out@[q].0@ == es@[q].0@ && out@[q].1@ == es@[q].1@,
        decreases i - m,
    {
        let (kk, vv) = &es[m];
        out.push((kk.clone(), vv.deep_copy()));
        m += 1;
    }
    out.push((es[i].0.clone(), c2));
    let mut m2: usize = i + 1;
    while m2 < n
        invariant
            n == es@.len(),
            i < es@.len(),
            i + 1 <= m2 <= es@.len(),
            out@.len() == m2 as int,
            forall|q: int|
                0 <= q < m2 as int && q != i as int ==> out@[q].0@ == es@[q].0@ && out@[q].1@
                    == es@[q].1@,
            out@[i as int].0@ == es@[i as int].0@,
            out@[i as int].1@ == c2v,
        decreases es@.len() - m2,
    {
        let (kk, vv) = &es[m2];
        out.push((kk.clone(), vv.deep_copy()));
        m2 += 1;
    }
    proof {
        assert(entries_view(out@) =~~= entries_view(es@).update(
            i as int,
            (es@[i as int].0@, c2v),
        ));
    }
    out
}

/// `a` with element `i` replaced.
fn arr_update_elem(a: &Vec<Json>, i: usize, c2: Json) -> (out: Vec<Json>)
    requires
        i < a@.len(),
    ensures
        arr_view(out@) == arr_view(a@).update(i as int, c2@),
{
    let ghost c2v = c2@;
    let n = a.len();
    let mut out: Vec<Json> = Vec::new();
    let mut m: usize = 0;
    while m < i
        invariant
            i < a@.len(),
            m <= i,
            out@.len() == m as int,
            forall|q: int| 0 <= q < m as int ==> out@[q]@ == a@[q]@,
        decreases i - m,
    {
        out.push(a[m].deep_copy());
        m += 1;
    }
    out.push(c2);
    let mut m2: usize = i + 1;
    while m2 < n
        invariant
            n == a@.len(),
            i < a@.len(),
            i + 1 <= m2 <= a@.len(),
            out@.len() == m2 as int,
            forall|q: int| 0 <= q < m2 as int && q != i as int ==> out@[q]@ == a@[q]@,
            out@[i as int]@ == c2v,
        decreases a@.len() - m2,
    {
        out.push(a[m2].deep_copy());
        m2 += 1;
    }
    proof {
        assert(arr_view(out@) =~~= arr_view(a@).update(i as int, c2v));
    }
    out
}

/// Functionally replaces the value the token chain from position `k` on
/// points at; when the chain does not resolve, hands the new value back.
pub fn json_replace_exec(v: &Json, toks: &Vec<String>, k: usize, nv: Json) -> (r: Result<
    Json,
    Json,
>)
    requires
        k as int <= toks@.len(),
    ensures
        match r {
            Ok(d) => json_replace(v@, toks.deep_view().skip(k as int), nv@) == Some(d@),
            Err(back) => json_replace(v@, toks.deep_view().skip(k as int), nv@) == None::<JsonV>
                && back@ == nv@,
        },
    decreases toks@.len() - k,
{
    let ghost rest = toks.deep_view().skip(k as int);
    if k == toks.len() {
        proof {
            assert(rest =~= Seq::<Seq<char>>::empty());
        }
        return Ok(nv);
    }
    proof {
        assert(rest[0] == toks.deep_view()[k as int]);
        assert(rest.skip(1) =~= toks.deep_view().skip(k as int + 1));
    }
    match v {
        Json::Obj(es) => match Json::find_key(es, &toks[k]) {
            Some(i) => {
                proof {
                    assert(entries_view(es@)[i as int].1 == es@[i as int].1@);
                    lemma_obj_lookup_at(entries_view(es@), rest[0], i as int);
                }
                match json_replace_exec(&es[i].1, toks, k + 1, nv) {
                    Ok(c2) => {
                        proof {
                            lemma_obj_store_at(entries_view(es@), rest[0], i as int, c2@);
                        }
                        let out = obj_update_entry(es, i, c2);
                        Ok(Json::Obj(out))
                    },
                    Err(b) => Err(b),
                }
            },
            None => {
                proof {
                    lemma_obj_lookup_none(entries_view(es@), rest[0]);
                }
                Err(nv)
            },
        },
        Json::Arr(a) => match parse_index_exec(&toks[k]) {
            Some(i) => if i < a.len() {
                proof {
                    assert(arr_view(a@)[i as int] == a@[i as int]@);
                }
                match json_replace_exec(&a[i], toks, k + 1, nv) {
                    Ok(c2) => {
                        let out = arr_update_elem(a, i, c2);
                        Ok(Json::Arr(out))
                    },
                    Err(b) => Err(b),
                }
            } else {
                Err(nv)
            },
            None => Err(nv),
        },
        _ => Err(nv),
    }
}

} // verus!
