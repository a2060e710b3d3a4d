//! Character-level string operations with their mathematical meaning.

use vstd::prelude::*;
use vstd::string::*;
use vstd::utf8::*;

verus! {

/// `pat` occurs in `s` starting at character index `i`.
pub open spec fn occurs_at(s: Seq<char>, pat: Seq<char>, i: int) -> bool {
    &&& 0 <= i
    &&& i + pat.len() <= s.len()
    &&& s.subrange(i, i + pat.len()) == pat
}

/// `pat` occurs somewhere in `s` (as `str::contains` answers it).
pub open spec fn contains_seq(s: Seq<char>, pat: Seq<char>) -> bool {
    exists|i: int| occurs_at(s, pat, i)
}

/// `s` ends with `pat` (as `str::ends_with` answers it).
pub open spec fn ends_with_seq(s: Seq<char>, pat: Seq<char>) -> bool {
    pat.len() <= s.len() && s.subrange(s.len() - pat.len(), s.len() as int) == pat
}

/// Every occurrence of `pat` in `s`, taken from left to right without
/// overlap, replaced by `rep` (the meaning of `str::replace`). An empty
/// pattern occurs before every character and at the end.
pub open spec fn replace_all(s: Seq<char>, pat: Seq<char>, rep: Seq<char>) -> Seq<char>
    decreases s.len(),
{
    if pat.len() == 0 {
        if s.len() == 0 {
            rep
        } else {
            rep + seq![s[0]] + replace_all(s.drop_first(), pat, rep)
        }
    } else if s.len() < pat.len() {
        s
    } else if s.subrange(0, pat.len() as int) == pat {
        rep + replace_all(s.subrange(pat.len() as int, s.len() as int), pat, rep)
    } else {
        seq![s[0]] + replace_all(s.drop_first(), pat, rep)
    }
}

/// Replacing a one-character pattern by nothing removes exactly that
/// character: what is left is every other character of `s`, in order.
pub proof fn lemma_replace_char_removes(s: Seq<char>, c: char)
    ensures
        replace_all(s, seq![c], Seq::empty()) == s.filter(|x: char| x != c),
    decreases s.len(),
{
    reveal_with_fuel(Seq::filter, 2);
    if s.len() > 0 {
        let head = seq![s[0]];
        let rest = s.drop_first();
        lemma_replace_char_removes(rest, c);
        assert(s =~= head + rest);
        Seq::filter_distributes_over_add(head, rest, |x: char| x != c);
        assert(head.drop_last() =~= Seq::<char>::empty());
        assert(s.subrange(1, s.len() as int) =~= rest);
        if s[0] == c {
            assert(s.subrange(0, 1) =~= seq![c]);
            assert(head.filter(|x: char| x != c) =~= Seq::<char>::empty());
        } else {
            assert(s.subrange(0, 1) != seq![c]) by {
                assert(s.subrange(0, 1)[0] != seq![c][0]);
            }
            assert(head.filter(|x: char| x != c) =~= head);
        }
    } else {
        assert(s.filter(|x: char| x != c) =~= s);
    }
}

/// Filtering twice keeps what passes both tests.
pub proof fn lemma_filter_twice<A>(s: Seq<A>, p: spec_fn(A) -> bool, q: spec_fn(A) -> bool)
    ensures
        s.filter(p).filter(q) == s.filter(|x: A| p(x) && q(x)),
    decreases s.len(),
{
    reveal(Seq::filter);
    if s.len() > 0 {
        lemma_filter_twice(s.drop_last(), p, q);
        let first = s.drop_last().filter(p);
        if p(s.last()) {
            assert(first.push(s.last()).drop_last() =~= first);
        }
    }
}

/// Length in bytes of the UTF-8 encoding of `s` (what `str::len` returns).
pub open spec fn byte_len(s: Seq<char>) -> nat {
    encode_utf8(s).len()
}

/// `str::len`: the number of bytes of `s`.
pub fn str_byte_len(s: &str) -> (n: usize)
    ensures
        n == byte_len(s@),
{
    broadcast use vstd::slice::group_slice_axioms;

    s.as_bytes().len()
}

/// Appends one character to a string (`String::push`).
///
/// Claimed of the outside code: the string's characters are those before,
/// followed by `c`.
#[verifier::external_body]
pub fn push_char(s: &mut String, c: char)
    ensures
        final(s)@ == old(s)@.push(c),
{
    s.push(c);
}

/// The characters of `s`, one by one.
pub fn chars_of(s: &str) -> (res: Vec<char>)
    ensures
        res@ == s@,
{
    let n = s.unicode_len();
    let mut res: Vec<char> = Vec::new();
    let mut i: usize = 0;
    while i < n
        invariant
            n == s@.len(),
            i <= n,
            res@ == s@.subrange(0, i as int),
        decreases n - i,
    {
        res.push(s.get_char(i));
        i = i + 1;
    }
    res
}

/// Whether `pat` occurs in `s` at index `i`, decided character by character.
pub fn occurs_at_exec(s: &Vec<char>, pat: &Vec<char>, i: usize) -> (res: bool)
    ensures
        res == occurs_at(s@, pat@, i as int),
{
    if i > s.len() || pat.len() > s.len() - i {
        return false;
    }
    let slen = s.len();
    let mut k: usize = 0;
    while k < pat.len()
        invariant
            slen == s@.len(),
            i + pat@.len() <= s@.len(),
            k <= pat@.len(),
            forall|j: int| 0 <= j < k ==> s@[i + j] == pat@[j],
        decreases pat@.len() - k,
    {
        if s[i + k] != pat[k] {
            assert(s@.subrange(i as int, i + pat@.len())[k as int] != pat@[k as int]);
            return false;
        }
        k = k + 1;
    }
    assert(s@.subrange(i as int, i + pat@.len()) =~= pat@);
    true
}

/// `str::contains`.
pub fn contains_str(s: &str, pat: &str) -> (res: bool)
    ensures
        res == contains_seq(s@, pat@),
{
    let sc = chars_of(s);
    let pc = chars_of(pat);
    let mut i: usize = 0;
    while i < sc.len()
        invariant
            sc@ == s@,
            pc@ == pat@,
            i <= sc@.len(),
            forall|j: int| 0 <= j < i ==> !occurs_at(s@, pat@, j),
        decreases sc@.len() - i,
    {
        if occurs_at_exec(&sc, &pc, i) {
            return true;
        }
        i = i + 1;
    }
    if occurs_at_exec(&sc, &pc, i) {
        return true;
    }
    assert forall|j: int| !occurs_at(s@, pat@, j) by {
        if j > i {
            assert(j + pat@.len() > s@.len());
        }
    }
    false
}

/// `str::ends_with`.
pub fn ends_with_str(s: &str, pat: &str) -> (res: bool)
    ensures
        res == ends_with_seq(s@, pat@),
{
    let sc = chars_of(s);
    let pc = chars_of(pat);
    if pc.len() > sc.len() {
        return false;
    }
    let r = occurs_at_exec(&sc, &pc, sc.len() - pc.len());
    r
}

/// `str::replace` with an empty pattern: `rep` before every character and
/// at the end.
fn replace_empty(s: &str, rep: &str) -> (res: String)
    ensures
        res@ == replace_all(s@, Seq::empty(), rep@),
{
    let sc = chars_of(s);
    let mut res = String::new();
    let mut i: usize = 0;
    assert(s@.subrange(0, s@.len() as int) =~= s@);
    while i < sc.len()
        invariant
            sc@ == s@,
            i <= sc@.len(),
            res@ + replace_all(s@.subrange(i as int, s@.len() as int), Seq::empty(), rep@)
                == replace_all(s@, Seq::empty(), rep@),
        decreases sc@.len() - i,
    {
        let ghost rest = s@.subrange(i as int, s@.len() as int);
        let ghost before = res@;
        let c = sc[i];
        assert(rest.drop_first() =~= s@.subrange(i + 1, s@.len() as int));
        res.append(rep);
        push_char(&mut res, c);
        i = i + 1;
        assert(before + replace_all(rest, Seq::empty(), rep@) =~= res@ + replace_all(
            s@.subrange(i as int, s@.len() as int), Seq::empty(), rep@));
    }
    assert(s@.subrange(i as int, s@.len() as int) =~= Seq::<char>::empty());
    let ghost before = res@;
    res.append(rep);
    assert(before + rep@ =~= res@);
    res
}

/// `str::replace`.
pub fn replace_str(s: &str, pat: &str, rep: &str) -> (res: String)
    ensures
        res@ == replace_all(s@, pat@, rep@),
{
    let sc = chars_of(s);
    let pc = chars_of(pat);
    if pc.len() == 0 {
        assert(pat@ =~= Seq::<char>::empty());
        return replace_empty(s, rep);
    }
    let mut res = String::new();
    let mut i: usize = 0;
    assert(s@.subrange(0, s@.len() as int) =~= s@);
    while i < sc.len()
        invariant
            sc@ == s@,
            pc@ == pat@,
            pat@.len() > 0,
            i <= sc@.len(),
            res@ + replace_all(s@.subrange(i as int, s@.len() as int), pat@, rep@)
                == replace_all(s@, pat@, rep@),
        decreases sc@.len() - i,
    {
        let ghost rest = s@.subrange(i as int, s@.len() as int);
        let ghost before = res@;
        if occurs_at_exec(&sc, &pc, i) {
            assert(rest.subrange(0, pat@.len() as int) =~= pat@);
            assert(rest.subrange(pat@.len() as int, rest.len() as int)
                =~= s@.subrange(i + pat@.len(), s@.len() as int));
            res.append(rep);
            i = i + pc.len();
            assert(before + replace_all(rest, pat@, rep@) =~= res@ + replace_all(
                s@.subrange(i as int, s@.len() as int), pat@, rep@));
        } else {
            let c = sc[i];
            assert(rest.drop_first() =~= s@.subrange(i + 1, s@.len() as int));
            if sc.len() - i < pc.len() {
                assert(replace_all(rest, pat@, rep@) == rest);
                assert(replace_all(rest.drop_first(), pat@, rep@) == rest.drop_first());
                assert(rest =~= seq![c] + rest.drop_first());
            } else {
                assert(rest.subrange(0, pat@.len() as int)
                    =~= s@.subrange(i as int, i + pat@.len()));
                assert(replace_all(rest, pat@, rep@) == seq![c] + replace_all(rest.drop_first(), pat@, rep@));
            }
            push_char(&mut res, c);
            i = i + 1;
            assert(before + replace_all(rest, pat@, rep@) =~= res@ + replace_all(
                s@.subrange(i as int, s@.len() as int), pat@, rep@));
        }
    }
    assert(s@.subrange(i as int, s@.len() as int) =~= Seq::<char>::empty());
    res
}

} // verus!
