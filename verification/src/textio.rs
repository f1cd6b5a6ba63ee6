//! Text clean-up for generated replies: cutting a fenced JSON block out of
//! surrounding prose.

use crate::text::chars_of;
use crate::text::pat_at;
use crate::text::string_from_chars;
use vstd::prelude::*;

verus! {

/// The opening fence of a JSON code block.
pub open spec fn fence_json() -> Seq<char> {
    seq!['`', '`', '`', 'j', 's', 'o', 'n']
}

/// A bare code fence.
pub open spec fn fence() -> Seq<char> {
    seq!['`', '`', '`']
}

/// Whether `pat` occurs in `t` at position `i`.
pub open spec fn occurs_at(t: Seq<char>, pat: Seq<char>, i: int) -> bool {
    0 <= i && i + pat.len() <= t.len() && t.skip(i).take(pat.len() as int) == pat
}

/// The first position at or after `i` where `pat` occurs.
pub open spec fn find_from(t: Seq<char>, pat: Seq<char>, i: int) -> Option<int>
    recommends
        0 <= i,
        pat.len() > 0,
    decreases t.len() - i,
    when 0 <= i && pat.len() > 0
{
    if i + pat.len() > t.len() {
        None
    } else if occurs_at(t, pat, i) {
        Some(i)
    } else {
        find_from(t, pat, i + 1)
    }
}

/// The last position at or before `i` where `pat` occurs.
pub open spec fn rfind_down(t: Seq<char>, pat: Seq<char>, i: int) -> Option<int>
    recommends
        i + pat.len() <= t.len(),
    decreases i,
    when 0 <= i
{
    if occurs_at(t, pat, i) {
        Some(i)
    } else if i == 0 {
        None
    } else {
        rfind_down(t, pat, i - 1)
    }
}

/// The last position where `pat` occurs in `t`.
pub open spec fn rfind_sub(t: Seq<char>, pat: Seq<char>) -> Option<int> {
    if pat.len() > t.len() {
        None
    } else {
        rfind_down(t, pat, t.len() - pat.len())
    }
}

/// Whether a character counts as whitespace for trimming.
pub uninterp spec fn is_space_char(c: char) -> bool;

/// Relies on char::is_whitespace: a property of the character alone.
#[verifier::external_body]
fn char_is_space(c: char) -> (r: bool)
    ensures
        r == is_space_char(c),
{
    c.is_whitespace()
}

/// `s` without its leading whitespace.
pub open spec fn trim_start_spec(s: Seq<char>) -> Seq<char>
    decreases s.len(),
{
    if s.len() > 0 && is_space_char(s[0]) {
        trim_start_spec(s.skip(1))
    } else {
        s
    }
}

/// `s` without its trailing whitespace.
pub open spec fn trim_end_spec(s: Seq<char>) -> Seq<char>
    decreases s.len(),
{
    if s.len() > 0 && is_space_char(s.last()) {
        trim_end_spec(s.drop_last())
    } else {
        s
    }
}

/// `s` without leading and trailing whitespace.
pub open spec fn trim_spec(s: Seq<char>) -> Seq<char> {
    trim_end_spec(trim_start_spec(s))
}

/// Where the cut-out block starts: just after the first opening fence, or at
/// the front when there is none.
pub open spec fn block_start(t: Seq<char>) -> int {
    match find_from(t, fence_json(), 0) {
        Some(i) => i + 7,
        None => 0,
    }
}

/// Where the cut-out block ends: at the last bare fence, or at the end when
/// there is none.
pub open spec fn block_end(t: Seq<char>) -> int {
    match rfind_sub(t, fence()) {
        Some(i) => i,
        None => t.len() as int,
    }
}

/// What cutting the fenced JSON block out of `t` yields.
pub open spec fn clean_json_block_spec(t: Seq<char>) -> Seq<char>
    recommends
        block_start(t) <= block_end(t),
{
    trim_spec(t.subrange(block_start(t), block_end(t)))
}

/// The first position at or after `from` where `pat` occurs, as `find_from`
/// has it.
fn find_exec(t: &Vec<char>, pat: &Vec<char>, from: usize) -> (r: Option<usize>)
    requires
        from <= t@.len(),
        pat@.len() > 0,
    ensures
        match r {
            Some(i) => find_from(t@, pat@, from as int) == Some(i as int) && i + pat@.len()
                <= t@.len(),
            None => find_from(t@, pat@, from as int) == None::<int>,
        },
{
    if pat.len() > t.len() || from > t.len() - pat.len() {
        return None;
    }
    let tlen = t.len();
    let last = t.len() - pat.len();
    let mut i: usize = from;
    while i <= last
        invariant
            tlen == t@.len(),
            pat@.len() > 0,
            pat@.len() <= t@.len(),
            last == t@.len() - pat@.len(),
            from <= i,
            i <= last + 1,
            find_from(t@, pat@, from as int) == find_from(t@, pat@, i as int),
        decreases last + 1 - i,
    {
        if pat_at(t, i, pat) {
            return Some(i);
        }
        i += 1;
    }
    None
}

/// The last position where `pat` occurs, as `rfind_sub` has it.
pub(crate) fn rfind_exec(t: &Vec<char>, pat: &Vec<char>) -> (r: Option<usize>)
    ensures
        match r {
            Some(i) => rfind_sub(t@, pat@) == Some(i as int) && i + pat@.len() <= t@.len(),
            None => rfind_sub(t@, pat@) == None::<int>,
        },
{
    if pat.len() > t.len() {
        return None;
    }
    let mut i: usize = t.len() - pat.len();
    loop
        invariant
            pat@.len() <= t@.len(),
            i + pat@.len() <= t@.len(),
            rfind_sub(t@, pat@) == rfind_down(t@, pat@, i as int),
        decreases i,
    {
        if pat_at(t, i, pat) {
            return Some(i);
        }
        if i == 0 {
            return None;
        }
        i -= 1;
    }
}

/// Cuts the fenced JSON block out of a generated reply: everything between
/// the first ```` ```json ```` marker and the last bare ```` ``` ```` fence,
/// trimmed; without markers the whole trimmed text. The caller keeps the end
/// of the block after its start.
pub fn clean_json_block(text: &str) -> (r: String)
    requires
        block_start(text@) <= block_end(text@),
    ensures
        r@ == clean_json_block_spec(text@),
{
    let cs = chars_of(text);
    let patj: Vec<char> = vec!['`', '`', '`', 'j', 's', 'o', 'n'];
    let patf: Vec<char> = vec!['`', '`', '`'];
    proof {
        assert(patj@ =~= fence_json());
        assert(patf@ =~= fence());
    }
    let cslen = cs.len();
    let start: usize = match find_exec(&cs, &patj, 0) {
        Some(i) => i + 7,
        None => 0,
    };
    let end: usize = match rfind_exec(&cs, &patf) {
        Some(i) => i,
        None => cslen,
    };
    proof {
        assert(start as int == block_start(text@));
        assert(end as int == block_end(text@));
    }
    let mut mid: Vec<char> = Vec::new();
    let mut i: usize = start;
    proof {
        assert(cs@.subrange(start as int, start as int) =~= Seq::<char>::empty());
    }
    while i < end
        invariant
            start <= i <= end,
            end <= cs@.len(),
            mid@ == cs@.subrange(start as int, i as int),
        decreases end - i,
    {
        mid.push(cs[i]);
        proof {
            assert(cs@.subrange(start as int, i as int + 1) =~= cs@.subrange(
                start as int,
                i as int,
            ).push(cs@[i as int]));
        }
        i += 1;
    }
    // trim the leading whitespace
    let mut lo: usize = 0;
    proof {
        assert(mid@.skip(0) =~= mid@);
    }
    while lo < mid.len() && char_is_space(mid[lo])
        invariant
            lo <= mid@.len(),
            trim_start_spec(mid@) == trim_start_spec(mid@.skip(lo as int)),
        decreases mid@.len() - lo,
    {
        proof {
            assert(mid@.skip(lo as int)[0] == mid@[lo as int]);
            assert(mid@.skip(lo as int).skip(1) =~= mid@.skip(lo as int + 1));
        }
        lo += 1;
    }
    proof {
        if lo < mid@.len() {
            assert(mid@.skip(lo as int)[0] == mid@[lo as int]);
        } else {
            assert(mid@.skip(lo as int) =~= Seq::<char>::empty());
        }
        assert(trim_start_spec(mid@) == mid@.skip(lo as int));
    }
    // trim the trailing whitespace
    let mut hi: usize = mid.len();
    proof {
        assert(mid@.skip(lo as int).take(mid@.len() - lo as int) =~= mid@.skip(lo as int));
    }
    while hi > lo && char_is_space(mid[hi - 1])
        invariant
            lo <= hi <= mid@.len(),
            trim_end_spec(mid@.skip(lo as int)) == trim_end_spec(
                mid@.skip(lo as int).take(hi - lo as int),
            ),
        decreases hi,
    {
        proof {
            let cur = mid@.skip(lo as int).take(hi - lo as int);
            assert(cur.last() == mid@[hi - 1]);
            assert(cur.drop_last() =~= mid@.skip(lo as int).take(hi - 1 - lo as int));
        }
        hi -= 1;
    }
    proof {
        let cur = mid@.skip(lo as int).take(hi - lo as int);
        if hi > lo {
            assert(cur.last() == mid@[hi - 1]);
        }
        assert(trim_end_spec(mid@.skip(lo as int)) == cur);
    }
    let mut out: Vec<char> = Vec::new();
    let mut j: usize = lo;
    proof {
        assert(mid@.subrange(lo as int, lo as int) =~= Seq::<char>::empty());
    }
    while j < hi
        invariant
            lo <= j <= hi,
            hi <= mid@.len(),
            out@ == mid@.subrange(lo as int, j as int),
        decreases hi - j,
    {
        out.push(mid[j]);
        proof {
            assert(mid@.subrange(lo as int, j as int + 1) =~= mid@.subrange(
                lo as int,
                j as int,
            ).push(mid@[j as int]));
        }
        j += 1;
    }
    proof {
        assert(out@ =~= mid@.skip(lo as int).take(hi - lo as int));
        assert(mid@ =~= text@.subrange(block_start(text@), block_end(text@)));
    }
    string_from_chars(&out)
}

/// Whether a character is a control character, as sanitising treats it.
pub uninterp spec fn is_control_char(c: char) -> bool;

/// Relies on char::is_control: a property of the character alone.
#[verifier::external_body]
fn char_is_control(c: char) -> (r: bool)
    ensures
        r == is_control_char(c),
{
    c.is_control()
}

/// `s` with every repetition of the prefix `pat` stripped off the front.
pub open spec fn strip_prefix_all(s: Seq<char>, pat: Seq<char>) -> Seq<char>
    recommends
        pat.len() > 0,
    decreases s.len(),
    when pat.len() > 0
{
    if s.len() >= pat.len() && s.take(pat.len() as int) == pat {
        strip_prefix_all(s.skip(pat.len() as int), pat)
    } else {
        s
    }
}

/// `s` with every repetition of the suffix `pat` stripped off the back.
pub open spec fn strip_suffix_all(s: Seq<char>, pat: Seq<char>) -> Seq<char>
    recommends
        pat.len() > 0,
    decreases s.len(),
    when pat.len() > 0
{
    if s.len() >= pat.len() && s.skip(s.len() - pat.len()) == pat {
        strip_suffix_all(s.take(s.len() - pat.len()), pat)
    } else {
        s
    }
}

/// `s` with every control character replaced by a space.
pub open spec fn sanitize_controls(s: Seq<char>) -> Seq<char> {
    Seq::new(
        s.len(),
        |i: int|
            if is_control_char(s[i]) {
                ' '
            } else {
                s[i]
            },
    )
}

/// What pulling the outermost braced object out of a generated schema string
/// yields: fences and surrounding whitespace dropped, control characters
/// blanked, and, when a brace pair encloses something, just that slice.
pub open spec fn extract_json_object_spec(t: Seq<char>) -> Seq<char> {
    let cleaned = sanitize_controls(
        trim_spec(
            strip_suffix_all(
                strip_prefix_all(strip_prefix_all(trim_spec(t), fence_json()), fence()),
                fence(),
            ),
        ),
    );
    match (find_from(cleaned, seq!['{'], 0), rfind_sub(cleaned, seq!['}'])) {
        (Some(start), Some(end)) => if end > start {
            cleaned.subrange(start, end + 1)
        } else {
            cleaned
        },
        _ => cleaned,
    }
}

/// Trims leading and trailing whitespace off a character vector.
fn trim_exec(v: Vec<char>) -> (r: Vec<char>)
    ensures
        r@ == trim_spec(v@),
{
    let mut lo: usize = 0;
    proof {
        assert(v@.skip(0) =~= v@);
    }
    while lo < v.len() && char_is_space(v[lo])
        invariant
            lo <= v@.len(),
            trim_start_spec(v@) == trim_start_spec(v@.skip(lo as int)),
        decreases v@.len() - lo,
    {
        proof {
            assert(v@.skip(lo as int)[0] == v@[lo as int]);
            assert(v@.skip(lo as int).skip(1) =~= v@.skip(lo as int + 1));
        }
        lo += 1;
    }
    proof {
        if lo < v@.len() {
            assert(v@.skip(lo as int)[0] == v@[lo as int]);
        } else {
            assert(v@.skip(lo as int) =~= Seq::<char>::empty());
        }
        assert(trim_start_spec(v@) == v@.skip(lo as int));
    }
    let mut hi: usize = v.len();
    proof {
        assert(v@.skip(lo as int).take(v@.len() - lo as int) =~= v@.skip(lo as int));
    }
    while hi > lo && char_is_space(v[hi - 1])
        invariant
            lo <= hi <= v@.len(),
            trim_end_spec(v@.skip(lo as int)) == trim_end_spec(
                v@.skip(lo as int).take(hi - lo as int),
            ),
        decreases hi,
    {
        proof {
            let cur = v@.skip(lo as int).take(hi - lo as int);
            assert(cur.last() == v@[hi - 1]);
            assert(cur.drop_last() =~= v@.skip(lo as int).take(hi - 1 - lo as int));
        }
        hi -= 1;
    }
    proof {
        let cur = v@.skip(lo as int).take(hi - lo as int);
        if hi > lo {
            assert(cur.last() == v@[hi - 1]);
        }
        assert(trim_end_spec(v@.skip(lo as int)) == cur);
    }
    let mut out: Vec<char> = Vec::new();
    let mut j: usize = lo;
    proof {
        assert(v@.subrange(lo as int, lo as int) =~= Seq::<char>::empty());
    }
    while j < hi
        invariant
            lo <= j <= hi,
            hi <= v@.len(),
            out@ == v@.subrange(lo as int, j as int),
        decreases hi - j,
    {
        out.push(v[j]);
        proof {
            assert(v@.subrange(lo as int, j as int + 1) =~= v@.subrange(lo as int, j as int).push(
                v@[j as int],
            ));
        }
        j += 1;
    }
    proof {
        assert(out@ =~= v@.skip(lo as int).take(hi - lo as int));
    }
    out
}

/// Strips every repetition of the prefix `pat` off the front.
fn strip_prefix_exec(v: Vec<char>, pat: &Vec<char>) -> (r: Vec<char>)
    requires
        pat@.len() > 0,
    ensures
        r@ == strip_prefix_all(v@, pat@),
{
    let n = v.len();
    let mut lo: usize = 0;
    proof {
        assert(v@.skip(0) =~= v@);
    }
    while pat_at(&v, lo, pat)
        invariant
            n == v@.len(),
            lo <= v@.len(),
            pat@.len() > 0,
            strip_prefix_all(v@, pat@) == strip_prefix_all(v@.skip(lo as int), pat@),
        decreases v@.len() - lo,
    {
        proof {
            assert(v@.skip(lo as int).skip(pat@.len() as int) =~= v@.skip(
                lo as int + pat@.len() as int,
            ));
        }
        lo += pat.len();
    }
    let mut out: Vec<char> = Vec::new();
    let mut j: usize = lo;
    proof {
        assert(v@.subrange(lo as int, lo as int) =~= Seq::<char>::empty());
    }
    while j < v.len()
        invariant
            lo <= j <= v@.len(),
            out@ == v@.subrange(lo as int, j as int),
        decreases v@.len() - j,
    {
        out.push(v[j]);
        proof {
            assert(v@.subrange(lo as int, j as int + 1) =~= v@.subrange(lo as int, j as int).push(
                v@[j as int],
            ));
        }
        j += 1;
    }
    proof {
        assert(out@ =~= v@.skip(lo as int));
    }
    out
}

/// Strips every repetition of the suffix `pat` off the back.
fn strip_suffix_exec(v: Vec<char>, pat: &Vec<char>) -> (r: Vec<char>)
    requires
        pat@.len() > 0,
    ensures
        r@ == strip_suffix_all(v@, pat@),
{
    let mut hi: usize = v.len();
    proof {
        assert(v@.take(v@.len() as int) =~= v@);
    }
    while hi >= pat.len() && pat_at(&v, hi - pat.len(), pat)
        invariant
            hi <= v@.len(),
            pat@.len() > 0,
            strip_suffix_all(v@, pat@) == strip_suffix_all(v@.take(hi as int), pat@),
        decreases hi,
    {
        proof {
            let cur = v@.take(hi as int);
            assert(cur.skip(hi - pat@.len() as int) =~= v@.skip(hi - pat@.len() as int).take(
                pat@.len() as int,
            ));
            assert(cur.take(hi - pat@.len() as int) =~= v@.take(hi - pat@.len() as int));
        }
        hi -= pat.len();
    }
    proof {
        let cur = v@.take(hi as int);
        if hi >= pat@.len() {
            assert(cur.skip(hi - pat@.len() as int) =~= v@.skip(hi - pat@.len() as int).take(
                pat@.len() as int,
            ));
        }
        assert(strip_suffix_all(v@.take(hi as int), pat@) == v@.take(hi as int));
    }
    let mut out: Vec<char> = Vec::new();
    let mut j: usize = 0;
    proof {
        assert(v@.subrange(0, 0) =~= Seq::<char>::empty());
    }
    while j < hi
        invariant
            j <= hi,
            hi <= v@.len(),
            out@ == v@.subrange(0, j as int),
        decreases hi - j,
    {
        out.push(v[j]);
        proof {
            assert(v@.subrange(0, j as int + 1) =~= v@.subrange(0, j as int).push(v@[j as int]));
        }
        j += 1;
    }
    proof {
        assert(out@ =~= v@.take(hi as int));
    }
    out
}

/// Pulls the outermost braced object out of a generated schema string, as
/// `extract_json_object_spec` has it.
pub fn extract_json_object(s: &str) -> (r: String)
    ensures
        r@ == extract_json_object_spec(s@),
{
    let cs = chars_of(s);
    let fj: Vec<char> = vec!['`', '`', '`', 'j', 's', 'o', 'n'];
    let fb: Vec<char> = vec!['`', '`', '`'];
    proof {
        assert(fj@ =~= fence_json());
        assert(fb@ =~= fence());
    }
    let t0 = trim_exec(cs);
    let t1 = strip_prefix_exec(t0, &fj);
    let t2 = strip_prefix_exec(t1, &fb);
    let t3 = strip_suffix_exec(t2, &fb);
    let t4 = trim_exec(t3);
    let mut cleaned: Vec<char> = Vec::new();
    let mut i: usize = 0;
    while i < t4.len()
        invariant
            i <= t4@.len(),
            cleaned@.len() == i as int,
            forall|q: int| 0 <= q < i as int ==> cleaned@[q] == sanitize_controls(t4@)[q],
        decreases t4@.len() - i,
    {
        let c = t4[i];
        if char_is_control(c) {
            cleaned.push(' ');
        } else {
            cleaned.push(c);
        }
        i += 1;
    }
    proof {
        assert(cleaned@ =~= sanitize_controls(t4@));
    }
    let ob: Vec<char> = vec!['{'];
    let cb: Vec<char> = vec!['}'];
    proof {
        assert(ob@ =~= seq!['{']);
        assert(cb@ =~= seq!['}']);
    }
    let start_opt = find_exec(&cleaned, &ob, 0);
    let end_opt = rfind_exec(&cleaned, &cb);
    match (start_opt, end_opt) {
        (Some(start), Some(end)) => {
            if end > start {
                let cl = cleaned.len();
                let mut out: Vec<char> = Vec::new();
                let mut j: usize = start;
                proof {
                    assert(cleaned@.subrange(start as int, start as int) =~= Seq::<char>::empty());
                }
                while j <= end
                    invariant
                        cl == cleaned@.len(),
                        start <= j <= end + 1,
                        end < cleaned@.len(),
                        out@ == cleaned@.subrange(start as int, j as int),
                    decreases end + 1 - j,
                {
                    out.push(cleaned[j]);
                    proof {
                        assert(cleaned@.subrange(start as int, j as int + 1) =~= cleaned@.subrange(
                            start as int,
                            j as int,
                        ).push(cleaned@[j as int]));
                    }
                    j += 1;
                }
                string_from_chars(&out)
            } else {
                string_from_chars(&cleaned)
            }
        },
        _ => string_from_chars(&cleaned),
    }
}

} // verus!
