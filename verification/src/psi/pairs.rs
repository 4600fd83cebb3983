//! Comparing lists of pairs without regard to their order.

use vstd::prelude::*;

verus! {

/// How often a pair occurs in a list.
pub open spec fn occurrences(s: Seq<(u16, u16)>, x: (u16, u16)) -> nat
    decreases s.len(),
{
    if s.len() == 0 {
        0
    } else {
        occurrences(s.drop_last(), x) + if s.last() == x {
            1nat
        } else {
            0
        }
    }
}

/// Whether two lists hold the same pairs, each as often.
pub open spec fn same_pairs(a: Seq<(u16, u16)>, b: Seq<(u16, u16)>) -> bool {
    forall|x: (u16, u16)| #[trigger] occurrences(a, x) == occurrences(b, x)
}

proof fn lemma_absent(s: Seq<(u16, u16)>, x: (u16, u16))
    ensures
        !s.contains(x) ==> occurrences(s, x) == 0,
        occurrences(s, x) <= s.len(),
    decreases s.len(),
{
    if s.len() > 0 {
        lemma_absent(s.drop_last(), x);
        assert(s.drop_last().contains(x) ==> s.contains(x));
        assert(s.last() == s[s.len() - 1]);
    }
}

fn count(s: &Vec<(u16, u16)>, x: (u16, u16)) -> (r: usize)
    ensures
        r == occurrences(s@, x),
{
    let mut n: usize = 0;
    let mut i: usize = 0;
    assert(s@.take(0) =~= Seq::<(u16, u16)>::empty());
    while i < s.len()
        invariant
            i <= s@.len(),
            n == occurrences(s@.take(i as int), x),
            n <= i,
        decreases s@.len() - i,
    {
        assert(s@.take(i + 1).drop_last() =~= s@.take(i as int));
        if s[i].0 == x.0 && s[i].1 == x.1 {
            n = n + 1;
        }
        i = i + 1;
    }
    assert(s@.take(s@.len() as int) =~= s@);
    n
}

/// Whether each pair of `of` occurs in `a` and in `b` equally often.
fn agree_on(of: &Vec<(u16, u16)>, a: &Vec<(u16, u16)>, b: &Vec<(u16, u16)>) -> (r: bool)
    ensures
        r == forall|k: int|
            0 <= k < of@.len() ==> occurrences(a@, #[trigger] of@[k]) == occurrences(b@, of@[k]),
{
    let mut i: usize = 0;
    while i < of.len()
        invariant
            i <= of@.len(),
            forall|k: int|
                0 <= k < i ==> occurrences(a@, #[trigger] of@[k]) == occurrences(b@, of@[k]),
        decreases of@.len() - i,
    {
        if count(a, of[i]) != count(b, of[i]) {
            return false;
        }
        i = i + 1;
    }
    true
}

/// Whether two lists hold the same pairs, each as often.
pub fn is_same_pairs(a: &Vec<(u16, u16)>, b: &Vec<(u16, u16)>) -> (r: bool)
    ensures
        r == same_pairs(a@, b@),
{
    let r = agree_on(a, a, b) && agree_on(b, a, b);
    proof {
        if r {
            assert forall|x: (u16, u16)| #[trigger]
                occurrences(a@, x) == occurrences(b@, x) by {
                lemma_absent(a@, x);
                lemma_absent(b@, x);
                if a@.contains(x) {
                    let k = choose|k: int| 0 <= k < a@.len() && a@[k] == x;
                    assert(a@[k] == x);
                }
                if b@.contains(x) {
                    let k = choose|k: int| 0 <= k < b@.len() && b@[k] == x;
                    assert(b@[k] == x);
                }
            }
        }
    }
    r
}

} // verus!
