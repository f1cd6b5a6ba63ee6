//! Character-level text utilities: conversion between strings and character
//! vectors, and literal search-and-replace as the template step uses it.

use vstd::prelude::*;

verus! {

/// `t` with every literal, non-overlapping occurrence of `pat` (scanned left
/// to right) replaced by `rep`.
pub open spec fn replace_all(t: Seq<char>, pat: Seq<char>, rep: Seq<char>) -> Seq<char>
    recommends
        pat.len() > 0,
    decreases t.len(),
    when pat.len() > 0
{
    if t.len() < pat.len() {
        t
    } else if t.take(pat.len() as int) == pat {
        rep + replace_all(t.skip(pat.len() as int), pat, rep)
    } else {
        seq![t[0]] + replace_all(t.skip(1), pat, rep)
    }
}

/// The characters of a string, in order.
pub fn chars_of(s: &str) -> (r: Vec<char>)
    ensures
        r@ == s@,
{
    let n = s.unicode_len();
    let mut out: Vec<char> = Vec::new();
    let mut i: usize = 0;
    while i < n
        invariant
            n == s@.len(),
            i <= n,
            out@ == s@.take(i as int),
        decreases n - i,
    {
        out.push(s.get_char(i));
        proof {
            assert(out@ =~= s@.take(i as int + 1));
        }
        i += 1;
    }
    proof {
        assert(s@.take(n as int) =~= s@);
    }
    out
}

/// Relies on `String: FromIterator<char>` (`collect`): the string made of
/// exactly the given characters, in order.
#[verifier::external_body]
pub(crate) fn string_from_chars(v: &Vec<char>) -> (r: String)
    ensures
        r@ == v@,
{
    v.iter().collect()
}

/// Whether `pat` occurs in `t` starting at position `i`.
pub(crate) fn pat_at(t: &Vec<char>, i: usize, pat: &Vec<char>) -> (r: bool)
    requires
        i <= t@.len(),
    ensures
        r == (i + pat@.len() <= t@.len() && t@.skip(i as int).take(pat@.len() as int) == pat@),
{
    if pat.len() > t.len() - i {
        proof {
            assert(i + pat@.len() > t@.len());
        }
        return false;
    }
    let tlen = t.len();
    let mut j: usize = 0;
    while j < pat.len()
        invariant
            tlen == t@.len(),
            i + pat@.len() <= t@.len(),
            j <= pat@.len(),
            forall|k: int| 0 <= k < j as int ==> t@[i as int + k] == pat@[k],
        decreases pat@.len() - j,
    {
        if t[i + j] != pat[j] {
            proof {
                assert(t@.skip(i as int).take(pat@.len() as int)[j as int] == t@[i as int
                    + j as int]);
            }
            return false;
        }
        j += 1;
    }
    proof {
        assert(t@.skip(i as int).take(pat@.len() as int) =~= pat@);
    }
    true
}

/// Literal, non-overlapping, left-to-right search-and-replace on character
/// vectors.
pub fn replace_all_chars(t: &Vec<char>, pat: &Vec<char>, rep: &Vec<char>) -> (r: Vec<char>)
    requires
        pat@.len() > 0,
    ensures
        r@ == replace_all(t@, pat@, rep@),
{
    let mut out: Vec<char> = Vec::new();
    let mut i: usize = 0;
    proof {
        assert(t@.skip(0) =~= t@);
        assert(out@ + replace_all(t@, pat@, rep@) =~= replace_all(t@, pat@, rep@));
    }
    while i < t.len()
        invariant
            pat@.len() > 0,
            i <= t@.len(),
            replace_all(t@, pat@, rep@) == out@ + replace_all(t@.skip(i as int), pat@, rep@),
        decreases t@.len() - i,
    {
        if pat_at(t, i, pat) {
            let ghost out0 = out@;
            let mut j: usize = 0;
            while j < rep.len()
                invariant
                    j <= rep@.len(),
                    out@ == out0 + rep@.take(j as int),
                decreases rep@.len() - j,
            {
                out.push(rep[j]);
                proof {
                    assert(out0 + rep@.take(j as int + 1) =~= (out0 + rep@.take(j as int)).push(
                        rep@[j as int],
                    ));
                }
                j += 1;
            }
            proof {
                assert(out@ =~= out0 + rep@);
                assert(t@.skip(i as int).skip(pat@.len() as int) =~= t@.skip(
                    i as int + pat@.len() as int,
                ));
                assert(replace_all(t@.skip(i as int), pat@, rep@) == rep@ + replace_all(
                    t@.skip(i as int + pat@.len() as int),
                    pat@,
                    rep@,
                ));
                assert(out0 + (rep@ + replace_all(t@.skip(i as int + pat@.len() as int), pat@, rep@))
                    =~= (out0 + rep@) + replace_all(t@.skip(i as int + pat@.len() as int), pat@, rep@));
            }
            i += pat.len();
        } else {
            proof {
                assert(t@.skip(i as int)[0] == t@[i as int]);
                assert(t@.skip(i as int).skip(1) =~= t@.skip(i as int + 1));
                if t@.skip(i as int).len() >= pat@.len() {
                    assert(replace_all(t@.skip(i as int), pat@, rep@) == seq![t@[i as int]]
                        + replace_all(t@.skip(i as int + 1), pat@, rep@));
                } else {
                    assert(t@.skip(i as int + 1).len() < pat@.len());
                    assert(t@.skip(i as int) =~= seq![t@[i as int]] + t@.skip(i as int + 1));
                }
                assert((out@ + replace_all(t@.skip(i as int), pat@, rep@)) =~= (out@.push(
                    t@[i as int],
                ) + replace_all(t@.skip(i as int + 1), pat@, rep@)));
            }
            out.push(t[i]);
            i += 1;
        }
    }
    proof {
        assert(t@.skip(t@.len() as int) =~= Seq::<char>::empty());
    }
    out
}

} // verus!
