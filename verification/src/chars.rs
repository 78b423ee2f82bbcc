//! Small executable helpers over lists of characters: comparison, copying,
//! and the `*` sentinel that the dictionary metadata uses for "not
//! applicable" and "no reading".

use vstd::prelude::*;

verus! {

/// True iff the two character lists hold the same characters in the same
/// order.
pub fn chars_eq(a: &Vec<char>, b: &Vec<char>) -> (r: bool)
    ensures
        r == (a@ == b@),
{
    if a.len() != b.len() {
        return false;
    }
    let mut i: usize = 0;
    while i < a.len()
        invariant
            i <= a@.len(),
            a@.len() == b@.len(),
            forall|k: int| 0 <= k < i ==> a@[k] == b@[k],
        decreases a@.len() - i,
    {
        if a[i] != b[i] {
            return false;
        }
        i += 1;
    }
    proof {
        assert(a@ =~= b@);
    }
    true
}

/// True iff `v` is the sentinel: the single character `*`.
pub fn is_sentinel(v: &Vec<char>) -> (b: bool)
    ensures
        b == (v@ == seq!['*']),
{
    if v.len() == 1 && v[0] == '*' {
        proof {
            assert(v@ =~= seq!['*']);
        }
        true
    } else {
        proof {
            assert(seq!['*'].len() == 1 && seq!['*'][0] == '*');
        }
        false
    }
}

/// A fresh copy of the sentinel value.
pub fn sentinel_field() -> (v: Vec<char>)
    ensures
        v@ == seq!['*'],
{
    let mut v: Vec<char> = Vec::new();
    v.push('*');
    proof {
        assert(v@ =~= seq!['*']);
    }
    v
}

/// The characters of `src` from position `a` up to (excluding) `b`.
pub fn copy_range(src: &Vec<char>, a: usize, b: usize) -> (r: Vec<char>)
    requires
        a <= b <= src@.len(),
    ensures
        r@ == src@.subrange(a as int, b as int),
{
    let mut r: Vec<char> = Vec::new();
    proof {
        assert(r@ =~= src@.subrange(a as int, a as int));
    }
    let mut j: usize = a;
    while j < b
        invariant
            a <= j <= b <= src@.len(),
            r@ == src@.subrange(a as int, j as int),
        decreases b - j,
    {
        r.push(src[j]);
        proof {
            assert(r@ =~= src@.subrange(a as int, j as int + 1));
        }
        j += 1;
    }
    r
}

/// A fresh copy of a whole character list.
pub fn copy_chars(src: &Vec<char>) -> (r: Vec<char>)
    ensures
        r@ == src@,
{
    let r = copy_range(src, 0, src.len());
    proof {
        assert(src@.subrange(0, src@.len() as int) =~= src@);
    }
    r
}

/// A list holding the single character `c`.
pub fn one_char(c: char) -> (v: Vec<char>)
    ensures
        v@ == seq![c],
{
    let mut v: Vec<char> = Vec::new();
    v.push(c);
    proof {
        assert(v@ =~= seq![c]);
    }
    v
}

} // verus!
