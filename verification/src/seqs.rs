//! Facts about sequences of strings used by several modules.

use vstd::prelude::*;
use vstd::set_lib::lemma_len_subset;

verus! {

/// The character views of a sequence of strings.
pub open spec fn str_views(v: Seq<String>) -> Seq<Seq<char>> {
    Seq::new(v.len(), |i: int| v[i]@)
}

/// Whether some string of `v` has the characters `s`.
pub open spec fn holds_str(v: Seq<String>, s: Seq<char>) -> bool {
    exists|i: int| 0 <= i < v.len() && v[i]@ == s
}

/// A sequence without duplicates whose elements all occur in `u` is no longer
/// than `u`.
pub proof fn lemma_distinct_within<A>(v: Seq<A>, u: Seq<A>)
    requires
        v.no_duplicates(),
        forall|i: int| 0 <= i < v.len() ==> u.contains(#[trigger] v[i]),
    ensures
        v.len() <= u.len(),
{
    broadcast use vstd::seq_lib::seq_to_set_is_finite;

    v.unique_seq_to_set();
    assert(v.to_set().subset_of(u.to_set())) by {
        assert forall|x: A| v.to_set().contains(x) implies u.to_set().contains(x) by {
            let i = choose|i: int| 0 <= i < v.len() && v[i] == x;
            assert(u.contains(v[i]));
        }
    }
    lemma_len_subset(v.to_set(), u.to_set());
    u.lemma_cardinality_of_set();
}

/// Whether `v` holds a string equal to `s`.
pub fn contains_string(v: &Vec<String>, s: &String) -> (b: bool)
    ensures
        b == holds_str(v@, s@),
{
    let mut i: usize = 0;
    while i < v.len()
        invariant
            0 <= i <= v@.len(),
            forall|j: int| 0 <= j < i ==> v@[j]@ != s@,
        decreases v@.len() - i,
    {
        if v[i] == *s {
            return true;
        }
        i = i + 1;
    }
    false
}

/// Whether `v` holds a string with the characters of `s`.
pub fn contains_str(v: &Vec<String>, s: &str) -> (b: bool)
    ensures
        b == holds_str(v@, s@),
{
    let owned: String = s.to_owned();
    contains_string(v, &owned)
}

/// A copy of a vector of strings.
pub fn copy_strings(v: &Vec<String>) -> (r: Vec<String>)
    ensures
        r@ == v@,
{
    let mut r: Vec<String> = Vec::new();
    let mut i: usize = 0;
    while i < v.len()
        invariant
            0 <= i <= v@.len(),
            r@ == v@.subrange(0, i as int),
        decreases v@.len() - i,
    {
        r.push(v[i].clone());
        proof {
            assert(r@ =~= v@.subrange(0, i + 1));
        }
        i = i + 1;
    }
    proof {
        assert(r@ =~= v@);
    }
    r
}

/// `v` without the strings equal to `s`, in order.
pub open spec fn without_str(v: Seq<String>, s: Seq<char>) -> Seq<String>
    decreases v.len(),
{
    if v.len() == 0 {
        v
    } else if v.last()@ == s {
        without_str(v.drop_last(), s)
    } else {
        without_str(v.drop_last(), s).push(v.last())
    }
}

/// Removing every string equal to `s` keeps exactly the other strings.
pub proof fn lemma_without_str(v: Seq<String>, s: Seq<char>)
    ensures
        !holds_str(without_str(v, s), s),
        forall|t: Seq<char>| t != s ==> (#[trigger] holds_str(without_str(v, s), t) == holds_str(v, t)),
        without_str(v, s).len() <= v.len(),
    decreases v.len(),
{
    if v.len() > 0 {
        let d = v.drop_last();
        lemma_without_str(d, s);
        let w = without_str(v, s);
        let wd = without_str(d, s);
        assert forall|t: Seq<char>| holds_str(w, t) implies (t != s && holds_str(v, t)) by {
            let i = choose|i: int| 0 <= i < w.len() && w[i]@ == t;
            if i < wd.len() {
                assert(wd[i] == w[i]);
                assert(holds_str(wd, t));
                let j = choose|j: int| 0 <= j < d.len() && d[j]@ == t;
                assert(v[j] == d[j]);
            } else {
                assert(v.last()@ != s);
                assert(w[i] == v.last());
                assert(v[v.len() - 1] == v.last());
            }
        }
        assert forall|t: Seq<char>| t != s && holds_str(v, t) implies holds_str(w, t) by {
            let j = choose|j: int| 0 <= j < v.len() && v[j]@ == t;
            if j < d.len() {
                assert(d[j] == v[j]);
                assert(holds_str(d, t));
                assert(holds_str(wd, t));
                let i = choose|i: int| 0 <= i < wd.len() && wd[i]@ == t;
                assert(w[i] == wd[i]);
            } else {
                assert(v[j] == v.last());
                assert(w[w.len() - 1] == v.last());
            }
        }
    }
}

/// `v` with every string equal to `s` removed, keeping the others in order.
pub fn remove_all_str(v: &Vec<String>, s: &str) -> (r: Vec<String>)
    ensures
        r@ == without_str(v@, s@),
{
    let owned: String = s.to_owned();
    let mut r: Vec<String> = Vec::new();
    let mut i: usize = 0;
    while i < v.len()
        invariant
            0 <= i <= v@.len(),
            owned@ == s@,
            r@ == without_str(v@.subrange(0, i as int), s@),
        decreases v@.len() - i,
    {
        proof {
            assert(v@.subrange(0, i + 1).drop_last() =~= v@.subrange(0, i as int));
            assert(v@.subrange(0, i + 1).last() == v@[i as int]);
        }
        if v[i] != owned {
            r.push(v[i].clone());
        }
        i = i + 1;
    }
    proof {
        assert(v@.subrange(0, v@.len() as int) =~= v@);
    }
    r
}

} // verus!
