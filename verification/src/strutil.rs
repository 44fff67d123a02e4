//! Small verified helpers over strings and character sequences: conversion
//! between `String` and `Vec<char>`, searching, and splitting. The parser and
//! serializer are built on these.

use vstd::prelude::*;
use vstd::string::StrSliceExecFns;

verus! {

/// Relies on `str`'s `PartialEq`: two string slices are equal exactly when
/// their character sequences are equal.
#[verifier::external_body]
pub(crate) fn str_eq(a: &str, b: &str) -> (r: bool)
    ensures
        r == (a@ == b@),
{
    a == b
}

/// Relies on `String::push`: appends exactly the given character.
#[verifier::external_body]
pub(crate) fn push_char(s: &mut String, c: char)
    ensures
        final(s)@ == old(s)@.push(c),
{
    s.push(c);
}

/// The characters of a string slice, as a vector.
pub fn str_chars(s: &str) -> (v: Vec<char>)
    ensures
        v@ == s@,
{
    let n = s.unicode_len();
    let mut v: Vec<char> = Vec::new();
    let mut i: usize = 0;
    while i < n
        invariant
            n == s@.len(),
            i <= n,
            v@ == s@.subrange(0, i as int),
        decreases n - i,
    {
        v.push(s.get_char(i));
        i = i + 1;
        proof {
            assert(v@ =~= s@.subrange(0, i as int));
        }
    }
    proof {
        assert(v@ =~= s@);
    }
    v
}

/// A `String` holding exactly the given characters.
pub fn string_from_chars(v: &Vec<char>) -> (s: String)
    ensures
        s@ == v@,
{
    let mut s = String::new();
    let mut i: usize = 0;
    while i < v.len()
        invariant
            i <= v@.len(),
            s@ == v@.subrange(0, i as int),
        decreases v@.len() - i,
    {
        push_char(&mut s, v[i]);
        i = i + 1;
        proof {
            assert(s@ =~= v@.subrange(0, i as int));
        }
    }
    proof {
        assert(s@ =~= v@);
    }
    s
}

/// The one-character wildcard string literal, as a sequence.
pub proof fn lemma_star_lit()
    ensures
        "*"@ == seq!['*'],
{
    reveal_strlit("*");
    assert("*"@ =~= seq!['*']);
}

/// Index of the first occurrence of `c` in `s` at or after `i`, or `s.len()`.
pub open spec fn find_from(s: Seq<char>, i: int, c: char) -> int
    decreases s.len() - i,
{
    if i < 0 || i >= s.len() {
        s.len() as int
    } else if s[i] == c {
        i
    } else {
        find_from(s, i + 1, c)
    }
}

pub proof fn lemma_find_from(s: Seq<char>, i: int, c: char)
    requires
        0 <= i <= s.len(),
    ensures
        i <= find_from(s, i, c) <= s.len(),
        find_from(s, i, c) < s.len() ==> s[find_from(s, i, c)] == c,
        forall|k: int| i <= k < find_from(s, i, c) ==> s[k] != c,
    decreases s.len() - i,
{
    if i < s.len() && s[i] != c {
        lemma_find_from(s, i + 1, c);
    }
}

/// Dropping the first character shifts every later search position by one.
proof fn lemma_find_from_drop(s: Seq<char>, i: int, c: char)
    requires
        1 <= i,
        s.len() >= 1,
    ensures
        find_from(s, i, c) == 1 + find_from(s.drop_first(), i - 1, c),
    decreases s.len() - i,
{
    let d = s.drop_first();
    if i < s.len() {
        if s[i] != c {
            lemma_find_from_drop(s, i + 1, c);
        }
    }
}

/// Searching from `i` equals `i` plus a search of the suffix from its start.
pub proof fn lemma_find_from_offset(s: Seq<char>, i: int, c: char)
    requires
        0 <= i <= s.len(),
    ensures
        find_from(s, i, c) == i + find_from(s.subrange(i, s.len() as int), 0, c),
    decreases i,
{
    if i == 0 {
        assert(s.subrange(0, s.len() as int) =~= s);
    } else {
        lemma_find_from_drop(s, i, c);
        lemma_find_from_offset(s.drop_first(), i - 1, c);
        assert(s.drop_first().subrange(i - 1, s.drop_first().len() as int) =~= s.subrange(
            i,
            s.len() as int,
        ));
    }
}

/// First index at or after `i` whose character is `c1` or `c2`, or `s.len()`.
pub open spec fn find_from2(s: Seq<char>, i: int, c1: char, c2: char) -> int
    decreases s.len() - i,
{
    if i < 0 || i >= s.len() {
        s.len() as int
    } else if s[i] == c1 || s[i] == c2 {
        i
    } else {
        find_from2(s, i + 1, c1, c2)
    }
}

pub proof fn lemma_find_from2(s: Seq<char>, i: int, c1: char, c2: char)
    requires
        0 <= i <= s.len(),
    ensures
        i <= find_from2(s, i, c1, c2) <= s.len(),
        find_from2(s, i, c1, c2) < s.len() ==> (s[find_from2(s, i, c1, c2)] == c1 || s[find_from2(
            s,
            i,
            c1,
            c2,
        )] == c2),
        forall|k: int| i <= k < find_from2(s, i, c1, c2) ==> (s[k] != c1 && s[k] != c2),
    decreases s.len() - i,
{
    if i < s.len() && s[i] != c1 && s[i] != c2 {
        lemma_find_from2(s, i + 1, c1, c2);
    }
}

/// Exec search for `find_from`.
pub fn find_char(v: &Vec<char>, from: usize, c: char) -> (r: usize)
    requires
        from <= v@.len(),
    ensures
        r == find_from(v@, from as int, c),
{
    let mut i: usize = from;
    while i < v.len()
        invariant
            from <= i <= v@.len(),
            find_from(v@, from as int, c) == find_from(v@, i as int, c),
        decreases v@.len() - i,
    {
        if v[i] == c {
            return i;
        }
        i = i + 1;
    }
    i
}

/// Exec search for `find_from2`.
pub fn find_char2(v: &Vec<char>, from: usize, c1: char, c2: char) -> (r: usize)
    requires
        from <= v@.len(),
    ensures
        r == find_from2(v@, from as int, c1, c2),
{
    let mut i: usize = from;
    while i < v.len()
        invariant
            from <= i <= v@.len(),
            find_from2(v@, from as int, c1, c2) == find_from2(v@, i as int, c1, c2),
        decreases v@.len() - i,
    {
        if v[i] == c1 || v[i] == c2 {
            return i;
        }
        i = i + 1;
    }
    i
}

/// A copy of `v[from..to]`.
pub fn subvec(v: &Vec<char>, from: usize, to: usize) -> (r: Vec<char>)
    requires
        from <= to <= v@.len(),
    ensures
        r@ == v@.subrange(from as int, to as int),
{
    let mut r: Vec<char> = Vec::new();
    let mut i: usize = from;
    while i < to
        invariant
            from <= i <= to <= v@.len(),
            r@ == v@.subrange(from as int, i as int),
        decreases to - i,
    {
        r.push(v[i]);
        i = i + 1;
        proof {
            assert(r@ =~= v@.subrange(from as int, i as int));
        }
    }
    proof {
        assert(r@ =~= v@.subrange(from as int, to as int));
    }
    r
}

/// The pieces of `s` split on `sep`, as `str::split` yields them: always at
/// least one piece, empty pieces kept.
pub open spec fn split_on(s: Seq<char>, sep: char) -> Seq<Seq<char>>
    decreases s.len(),
{
    let j = find_from(s, 0, sep);
    if 0 <= j < s.len() {
        seq![s.subrange(0, j)] + split_on(s.subrange(j + 1, s.len() as int), sep)
    } else {
        seq![s]
    }
}

/// Exec split matching `split_on`.
pub fn split_chars(v: &Vec<char>, sep: char) -> (r: Vec<Vec<char>>)
    ensures
        r.deep_view() == split_on(v@, sep),
{
    let mut acc: Vec<Vec<char>> = Vec::new();
    let mut start: usize = 0;
    proof {
        assert(v@.subrange(0, v@.len() as int) =~= v@);
        assert(acc.deep_view() =~= Seq::<Seq<char>>::empty());
        assert(acc.deep_view() + split_on(v@, sep) =~= split_on(v@, sep));
    }
    loop
        invariant
            start <= v@.len(),
            split_on(v@, sep) == acc.deep_view() + split_on(
                v@.subrange(start as int, v@.len() as int),
                sep,
            ),
        decreases v@.len() - start,
    {
        let ghost rest = v@.subrange(start as int, v@.len() as int);
        let j = find_char(v, start, sep);
        proof {
            lemma_find_from(v@, start as int, sep);
            lemma_find_from_offset(v@, start as int, sep);
        }
        let ghost jr = find_from(rest, 0, sep);
        let piece = subvec(v, start, j);
        if j < v.len() {
            proof {
                assert(0 <= jr < rest.len());
                assert(rest.subrange(0, jr) =~= v@.subrange(start as int, j as int));
                assert(rest.subrange(jr + 1, rest.len() as int) =~= v@.subrange(
                    j + 1,
                    v@.len() as int,
                ));
                assert(split_on(rest, sep) == seq![piece@] + split_on(
                    v@.subrange(j + 1, v@.len() as int),
                    sep,
                ));
            }
            let ghost old_dv = acc.deep_view();
            acc.push(piece);
            proof {
                assert(acc.deep_view() =~~= old_dv + seq![rest.subrange(0, jr)]);
                assert(acc.deep_view() + split_on(v@.subrange(j + 1, v@.len() as int), sep) =~~= (
                old_dv + split_on(rest, sep)));
            }
            start = j + 1;
        } else {
            proof {
                assert(jr == rest.len());
                assert(piece@ =~= rest);
                assert(split_on(rest, sep) == seq![piece@]);
            }
            let ghost old_dv = acc.deep_view();
            acc.push(piece);
            proof {
                assert(acc.deep_view() =~~= old_dv + seq![rest]);
                assert(acc.deep_view() =~~= split_on(v@, sep));
            }
            return acc;
        }
    }
}

} // verus!
