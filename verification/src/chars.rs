//! Strings as sequences of characters, and searching them.

use vstd::prelude::*;

verus! {

/// Whether `c` occurs in `s`.
pub open spec fn holds(s: Seq<char>, c: char) -> bool {
    exists|i: int| 0 <= i < s.len() && s[i] == c
}

/// The index of the last `c` in `s`.
pub open spec fn last_of(s: Seq<char>, c: char) -> Option<int>
    decreases s.len(),
{
    if s.len() == 0 {
        None
    } else if s.last() == c {
        Some(s.len() - 1)
    } else {
        last_of(s.drop_last(), c)
    }
}

/// `last_of` finds an occurrence behind which there is no other, or none
/// where there is none.
pub proof fn lemma_last_of(s: Seq<char>, c: char)
    ensures
        match last_of(s, c) {
            Some(p) => 0 <= p < s.len() && s[p] == c && forall|j: int|
                p < j < s.len() ==> s[j] != c,
            None => !holds(s, c),
        },
    decreases s.len(),
{
    if s.len() > 0 && s.last() != c {
        let front = s.drop_last();
        lemma_last_of(front, c);
        match last_of(front, c) {
            Some(p) => {
                assert(s[p] == front[p]);
                assert forall|j: int| p < j < s.len() implies s[j] != c by {
                    if j < front.len() {
                        assert(s[j] == front[j]);
                    }
                }
            },
            None => {
                if holds(s, c) {
                    let i = choose|i: int| 0 <= i < s.len() && s[i] == c;
                    assert(front[i] == c);
                }
            },
        }
    } else if s.len() > 0 {
        assert(s[s.len() - 1] == c);
    }
}

/// An occurrence behind which there is no other is the last one.
pub proof fn lemma_last_of_is_unique(s: Seq<char>, c: char, p: int)
    requires
        0 <= p < s.len(),
        s[p] == c,
        forall|j: int| p < j < s.len() ==> s[j] != c,
    ensures
        last_of(s, c) == Some(p),
{
    lemma_last_of(s, c);
}

/// The characters of `s`, in order.
pub fn chars_of(s: &str) -> (r: Vec<char>)
    ensures
        r@ == s@,
{
    let mut out: Vec<char> = Vec::new();
    for c in it: s.chars()
        invariant
            out@ == it.seq().take(it.index@),
            it.seq() == s@,
    {
        out.push(c);
    }
    out
}

/// Finds the last `c` in `cs`.
pub fn find_last(cs: &Vec<char>, c: char) -> (r: Option<usize>)
    ensures
        match r {
            Some(p) => p < cs.len() && last_of(cs@, c) == Some(p as int),
            None => last_of(cs@, c) is None,
        },
{
    let n: usize = cs.len();
    let mut i: usize = n;
    while i > 0
        invariant
            i <= n,
            n == cs.len(),
            forall|j: int| i <= j < n ==> cs[j] != c,
        decreases i,
    {
        i -= 1;
        if cs[i] == c {
            proof {
                lemma_last_of_is_unique(cs@, c, i as int);
            }
            return Some(i);
        }
    }
    proof {
        lemma_last_of(cs@, c);
    }
    None
}

} // verus!
