//! Rendering values as text: the compact JSON form used when a template
//! variable resolves to a structured value, and the natural text form of each
//! scalar.

use crate::json::Json;
use crate::json::JsonV;
use crate::json::arr_view;
use crate::json::entries_view;
use crate::num::num_text;
use crate::num::num_text_exec;
use crate::text::chars_of;
use vstd::prelude::*;

verus! {

broadcast use vstd::seq::axiom_seq_index_decreases, vstd::std_specs::vec::axiom_vec_decreases_to_view, vstd::std_specs::vec::axiom_vec_index_decreases;

pub open spec fn hex_digit(d: int) -> char {
    seq!['0', '1', '2', '3', '4', '5', '6', '7', '8', '9', 'a', 'b', 'c', 'd', 'e', 'f'][d]
}

/// What one character contributes to a JSON string body: quote and backslash
/// escaped, the short control escapes, other control characters as lowercase
/// hexadecimal escapes, everything else verbatim.
pub open spec fn esc_char(c: char) -> Seq<char> {
    if c == '"' {
        seq!['\\', '"']
    } else if c == '\\' {
        seq!['\\', '\\']
    } else if c == '\u{8}' {
        seq!['\\', 'b']
    } else if c == '\t' {
        seq!['\\', 't']
    } else if c == '\n' {
        seq!['\\', 'n']
    } else if c == '\u{c}' {
        seq!['\\', 'f']
    } else if c == '\r' {
        seq!['\\', 'r']
    } else if (c as u32) < 32 {
        seq!['\\', 'u', '0', '0', hex_digit(c as u32 as int / 16), hex_digit(c as u32 as int % 16)]
    } else {
        seq![c]
    }
}

/// The escaped body of a JSON string.
pub open spec fn escape_str(s: Seq<char>) -> Seq<char>
    decreases s.len(),
{
    if s.len() == 0 {
        Seq::empty()
    } else {
        esc_char(s[0]) + escape_str(s.skip(1))
    }
}

pub proof fn lemma_escape_append(a: Seq<char>, b: Seq<char>)
    ensures
        escape_str(a + b) == escape_str(a) + escape_str(b),
    decreases a.len(),
{
    if a.len() == 0 {
        assert(a + b =~= b);
        assert(escape_str(a) + escape_str(b) =~= escape_str(b));
    } else {
        lemma_escape_append(a.skip(1), b);
        assert((a + b).skip(1) =~= a.skip(1) + b);
        assert(esc_char(a[0]) + (escape_str(a.skip(1)) + escape_str(b)) =~= (esc_char(a[0])
            + escape_str(a.skip(1))) + escape_str(b));
        assert((a + b)[0] == a[0]);
    }
}

/// The compact JSON text of a value.
pub open spec fn json_text(v: JsonV) -> Seq<char>
    decreases v,
{
    match v {
        JsonV::Null => "null"@,
        JsonV::Bool(b) => if b {
            "true"@
        } else {
            "false"@
        },
        JsonV::Num(n) => num_text(n),
        JsonV::Text(s) => seq!['"'] + escape_str(s) + seq!['"'],
        JsonV::Arr(a) => seq!['['] + arr_text(a) + seq![']'],
        JsonV::Obj(es) => seq!['{'] + entries_text(es) + seq!['}'],
    }
}

/// The comma-separated JSON texts of an array's elements.
pub open spec fn arr_text(a: Seq<JsonV>) -> Seq<char>
    decreases a,
{
    if a.len() == 0 {
        Seq::empty()
    } else if a.len() == 1 {
        json_text(a[0])
    } else {
        json_text(a[0]) + seq![','] + arr_text(a.skip(1))
    }
}

/// The comma-separated `"key":value` texts of an object's entries.
pub open spec fn entries_text(es: Seq<(Seq<char>, JsonV)>) -> Seq<char>
    decreases es,
{
    if es.len() == 0 {
        Seq::empty()
    } else {
        let entry = seq!['"'] + escape_str(es[0].0) + seq!['"', ':'] + json_text(es[0].1);
        if es.len() == 1 {
            entry
        } else {
            entry + seq![','] + entries_text(es.skip(1))
        }
    }
}

/// The natural text form of a value, as template substitution renders it:
/// text verbatim, numbers and booleans as themselves, anything else as its
/// JSON text.
pub open spec fn render_val(v: JsonV) -> Seq<char> {
    match v {
        JsonV::Text(s) => s,
        JsonV::Num(n) => num_text(n),
        JsonV::Bool(b) => if b {
            "true"@
        } else {
            "false"@
        },
        _ => json_text(v),
    }
}

/// Appends every character of `s` to `out`.
pub fn push_all(out: &mut Vec<char>, s: &Vec<char>)
    ensures
        final(out)@ == old(out)@ + s@,
{
    let ghost base = out@;
    let mut i: usize = 0;
    while i < s.len()
        invariant
            i <= s@.len(),
            out@ == base + s@.take(i as int),
        decreases s@.len() - i,
    {
        out.push(s[i]);
        proof {
            assert(base + s@.take(i as int + 1) =~= (base + s@.take(i as int)).push(s@[i as int]));
        }
        i += 1;
    }
    proof {
        assert(base + s@.take(s@.len() as int) =~= base + s@);
    }
}

/// The escape of one character, as `esc_char` has it.
fn esc_char_exec(c: char) -> (r: Vec<char>)
    ensures
        r@ == esc_char(c),
{
    if c == '"' {
        vec!['\\', '"']
    } else if c == '\\' {
        vec!['\\', '\\']
    } else if c == '\u{8}' {
        vec!['\\', 'b']
    } else if c == '\t' {
        vec!['\\', 't']
    } else if c == '\n' {
        vec!['\\', 'n']
    } else if c == '\u{c}' {
        vec!['\\', 'f']
    } else if c == '\r' {
        vec!['\\', 'r']
    } else if (c as u32) < 32 {
        let table: Vec<char> = vec![
            '0',
            '1',
            '2',
            '3',
            '4',
            '5',
            '6',
            '7',
            '8',
            '9',
            'a',
            'b',
            'c',
            'd',
            'e',
            'f',
        ];
        let u = c as u32;
        let hi = (u / 16) as usize;
        let lo = (u % 16) as usize;
        let r = vec!['\\', 'u', '0', '0', table[hi], table[lo]];
        proof {
            assert(r@ =~= esc_char(c));
        }
        r
    } else {
        vec![c]
    }
}

/// The escaped body of a JSON string, as `escape_str` has it.
fn escape_exec(s: &Vec<char>) -> (r: Vec<char>)
    ensures
        r@ == escape_str(s@),
{
    let mut out: Vec<char> = Vec::new();
    let mut i: usize = 0;
    proof {
        assert(s@.take(0) =~= Seq::<char>::empty());
    }
    while i < s.len()
        invariant
            i <= s@.len(),
            out@ == escape_str(s@.take(i as int)),
        decreases s@.len() - i,
    {
        let e = esc_char_exec(s[i]);
        push_all(&mut out, &e);
        proof {
            assert(s@.take(i as int + 1) =~= s@.take(i as int) + seq![s@[i as int]]);
            lemma_escape_append(s@.take(i as int), seq![s@[i as int]]);
            assert(seq![s@[i as int]].skip(1) =~= Seq::<char>::empty());
            assert(escape_str(Seq::<char>::empty()) =~= Seq::<char>::empty());
            assert(esc_char(s@[i as int]) + Seq::<char>::empty() =~= esc_char(s@[i as int]));
            assert(seq![s@[i as int]][0] == s@[i as int]);
            assert(escape_str(seq![s@[i as int]]) =~= esc_char(s@[i as int]));
        }
        i += 1;
    }
    proof {
        assert(s@.take(s@.len() as int) =~= s@);
    }
    out
}

/// The compact JSON text of a value, as `json_text` has it.
pub fn json_text_chars(v: &Json) -> (r: Vec<char>)
    ensures
        r@ == json_text(v@),
    decreases v,
{
    match v {
        Json::Null => {
            let r = vec!['n', 'u', 'l', 'l'];
            proof {
                reveal_strlit("null");
                assert(r@ =~= "null"@);
            }
            r
        },
        Json::Bool(b) => {
            if *b {
                let r = vec!['t', 'r', 'u', 'e'];
                proof {
                    reveal_strlit("true");
                    assert(r@ =~= "true"@);
                }
                r
            } else {
                let r = vec!['f', 'a', 'l', 's', 'e'];
                proof {
                    reveal_strlit("false");
                    assert(r@ =~= "false"@);
                }
                r
            }
        },
        Json::Num(n) => {
            let s = num_text_exec(n);
            chars_of(s.as_str())
        },
        Json::Text(s) => {
            let cs = chars_of(s.as_str());
            let body = escape_exec(&cs);
            let mut out: Vec<char> = vec!['"'];
            push_all(&mut out, &body);
            out.push('"');
            proof {
                assert(out@ =~= seq!['"'] + escape_str(s@) + seq!['"']);
            }
            out
        },
        Json::Arr(a) => {
            let mut out: Vec<char> = vec!['['];
            let n = a.len();
            let mut i: usize = 0;
            while i < n
                invariant
                    *v == Json::Arr(*a),
                    n == a@.len(),
                    i <= n,
                    out@ == seq!['['] + arr_text(arr_view(a@).take(i as int)),
                decreases n - i,
            {
                if i > 0 {
                    out.push(',');
                }
                proof {
                    assert(decreases_to!(*v => v->Arr_0));
                    assert(v->Arr_0 == *a);
                    assert(decreases_to!(*a => a@));
                    assert(decreases_to!(a@ => a@[i as int]));
                }
                let e = json_text_chars(&a[i]);
                push_all(&mut out, &e);
                proof {
                    assert(arr_view(a@)[i as int] == a@[i as int]@);
                    lemma_arr_text_snoc(arr_view(a@), i as int);
                    if i == 0 {
                        assert(out@ =~= seq!['['] + arr_text(arr_view(a@).take(1)));
                    } else {
                        assert(out@ =~= seq!['['] + arr_text(arr_view(a@).take(i as int + 1)));
                    }
                }
                i += 1;
            }
            out.push(']');
            proof {
                assert(arr_view(a@).take(n as int) =~= arr_view(a@));
                assert(out@ =~= seq!['['] + arr_text(arr_view(a@)) + seq![']']);
            }
            out
        },
        Json::Obj(es) => {
            let mut out: Vec<char> = vec!['{'];
            let n = es.len();
            let mut i: usize = 0;
            while i < n
                invariant
                    *v == Json::Obj(*es),
                    n == es@.len(),
                    i <= n,
                    out@ == seq!['{'] + entries_text(entries_view(es@).take(i as int)),
                decreases n - i,
            {
                if i > 0 {
                    out.push(',');
                }
                proof {
                    assert(decreases_to!(*v => v->Obj_0));
                    assert(v->Obj_0 == *es);
                    assert(decreases_to!(*es => es@));
                    assert(decreases_to!(es@ => es@[i as int]));
                }
                let (k, val) = &es[i];
                out.push('"');
                let kc = chars_of(k.as_str());
                let kbody = escape_exec(&kc);
                push_all(&mut out, &kbody);
                out.push('"');
                out.push(':');
                let e = json_text_chars(val);
                push_all(&mut out, &e);
                proof {
                    assert(entries_view(es@)[i as int].0 == es@[i as int].0@);
                    assert(entries_view(es@)[i as int].1 == es@[i as int].1@);
                    lemma_entries_text_snoc(entries_view(es@), i as int);
                    if i == 0 {
                        assert(out@ =~= seq!['{'] + entries_text(entries_view(es@).take(1)));
                    } else {
                        assert(out@ =~= seq!['{'] + entries_text(
                            entries_view(es@).take(i as int + 1),
                        ));
                    }
                }
                i += 1;
            }
            out.push('}');
            proof {
                assert(entries_view(es@).take(n as int) =~= entries_view(es@));
                assert(out@ =~= seq!['{'] + entries_text(entries_view(es@)) + seq!['}']);
            }
            out
        },
    }
}

/// One step of serialising an array: the text of a longer prefix.
pub proof fn lemma_arr_text_snoc(a: Seq<JsonV>, i: int)
    requires
        0 <= i < a.len(),
    ensures
        arr_text(a.take(i + 1)) == if i == 0 {
            json_text(a[0])
        } else {
            arr_text(a.take(i)) + seq![','] + json_text(a[i])
        },
    decreases i,
{
    if i == 0 {
        assert(a.take(1).len() == 1);
        assert(a.take(1)[0] == a[0]);
    } else {
        lemma_arr_text_snoc(a.skip(1), i - 1);
        assert(a.take(i + 1)[0] == a[0]);
        assert(a.take(i + 1).skip(1) =~= a.skip(1).take(i));
        assert(a.take(i)[0] == a[0]);
        assert(a.take(i).skip(1) =~= a.skip(1).take(i - 1));
        assert(a.skip(1)[i - 1] == a[i]);
        if i == 1 {
            assert(arr_text(a.take(2)) == json_text(a[0]) + seq![','] + arr_text(a.skip(1).take(1)));
            assert(arr_text(a.take(1)) =~= json_text(a[0]));
            assert(arr_text(a.skip(1).take(1)) == json_text(a[1]));
        } else {
            assert(arr_text(a.take(i + 1)) == json_text(a[0]) + seq![','] + arr_text(
                a.skip(1).take(i),
            ));
            assert(arr_text(a.take(i)) == json_text(a[0]) + seq![','] + arr_text(
                a.skip(1).take(i - 1),
            ));
            assert((json_text(a[0]) + seq![','] + (arr_text(a.skip(1).take(i - 1)) + seq![',']
                + json_text(a[i]))) =~= ((json_text(a[0]) + seq![','] + arr_text(
                a.skip(1).take(i - 1),
            )) + seq![','] + json_text(a[i])));
        }
    }
}

/// One step of serialising an object: the text of a longer prefix.
pub proof fn lemma_entries_text_snoc(es: Seq<(Seq<char>, JsonV)>, i: int)
    requires
        0 <= i < es.len(),
    ensures
        entries_text(es.take(i + 1)) == if i == 0 {
            seq!['"'] + escape_str(es[0].0) + seq!['"', ':'] + json_text(es[0].1)
        } else {
            entries_text(es.take(i)) + seq![','] + (seq!['"'] + escape_str(es[i].0) + seq!['"', ':']
                + json_text(es[i].1))
        },
    decreases i,
{
    let entry0 = seq!['"'] + escape_str(es[0].0) + seq!['"', ':'] + json_text(es[0].1);
    if i == 0 {
        assert(es.take(1).len() == 1);
        assert(es.take(1)[0] == es[0]);
    } else {
        lemma_entries_text_snoc(es.skip(1), i - 1);
        assert(es.take(i + 1)[0] == es[0]);
        assert(es.take(i + 1).skip(1) =~= es.skip(1).take(i));
        assert(es.take(i)[0] == es[0]);
        assert(es.take(i).skip(1) =~= es.skip(1).take(i - 1));
        assert(es.skip(1)[i - 1] == es[i]);
        let entryi = seq!['"'] + escape_str(es[i].0) + seq!['"', ':'] + json_text(es[i].1);
        if i == 1 {
            assert(entries_text(es.take(2)) == entry0 + seq![','] + entries_text(
                es.skip(1).take(1),
            ));
            assert(entries_text(es.take(1)) =~= entry0);
            assert(entries_text(es.skip(1).take(1)) == entryi);
        } else {
            assert(entries_text(es.take(i + 1)) == entry0 + seq![','] + entries_text(
                es.skip(1).take(i),
            ));
            assert(entries_text(es.take(i)) == entry0 + seq![','] + entries_text(
                es.skip(1).take(i - 1),
            ));
            assert((entry0 + seq![','] + (entries_text(es.skip(1).take(i - 1)) + seq![','] + entryi))
                =~= ((entry0 + seq![','] + entries_text(es.skip(1).take(i - 1))) + seq![',']
                + entryi));
        }
    }
}

/// The natural text form of a value, as `render_val` has it.
pub fn render_exec(v: &Json) -> (r: Vec<char>)
    ensures
        r@ == render_val(v@),
{
    match v {
        Json::Text(s) => chars_of(s.as_str()),
        Json::Num(n) => {
            let s = num_text_exec(n);
            chars_of(s.as_str())
        },
        Json::Bool(b) => {
            if *b {
                let r = vec!['t', 'r', 'u', 'e'];
                proof {
                    reveal_strlit("true");
                    assert(r@ =~= "true"@);
                }
                r
            } else {
                let r = vec!['f', 'a', 'l', 's', 'e'];
                proof {
                    reveal_strlit("false");
                    assert(r@ =~= "false"@);
                }
                r
            }
        },
        _ => json_text_chars(v),
    }
}

} // verus!
