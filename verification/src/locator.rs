//! The locator: where a short sequence occurs in a long one.

use vstd::prelude::*;
use vstd::std_specs::cmp::PartialEqSpec;

use crate::atom::{surface_equal, Atom, ParseStruct};

verus! {

/// The first `k` elements of `needle` equal the elements of `haystack` from
/// offset `o` on, each of which exists.
pub open spec fn prefix_matches<N: PartialEq<H>, H>(
    needle: Seq<N>,
    haystack: Seq<H>,
    o: int,
    k: int,
) -> bool {
    forall|i: int|
        0 <= i < k ==> o + i < haystack.len() && (#[trigger] needle[i]).eq_spec(&haystack[o + i])
}

/// The whole of `needle` stands in `haystack` at offset `o`.
pub open spec fn matches_at<N: PartialEq<H>, H>(needle: Seq<N>, haystack: Seq<H>, o: int) -> bool {
    &&& 0 <= o
    &&& o + needle.len() <= haystack.len()
    &&& prefix_matches(needle, haystack, o, needle.len() as int)
}

/// The number of elements of `needle`, from its first on, that equal the
/// elements of `haystack` from offset `hi` on, up to the first that does not
/// or that `haystack` lacks.
pub fn match_count<N, H>(needle: &[N], haystack: &[H], hi: usize) -> (count: usize) where
    N: PartialEq<H>,

    ensures
        count <= needle@.len(),
        <N as PartialEqSpec<H>>::obeys_eq_spec() ==> {
            &&& prefix_matches(needle@, haystack@, hi as int, count as int)
            &&& count < needle@.len() ==> !(hi + count < haystack@.len() && needle@[count as int].eq_spec(
                &haystack@[hi + count],
            ))
        },
{
    let mut ni: usize = 0;
    while ni < needle.len()
        invariant
            ni <= needle@.len(),
            <N as PartialEqSpec<H>>::obeys_eq_spec() ==> prefix_matches(
                needle@,
                haystack@,
                hi as int,
                ni as int,
            ),
        decreases needle@.len() - ni,
    {
        if hi < haystack.len() && ni < haystack.len() - hi && needle[ni] == haystack[hi + ni] {
            ni = ni + 1;
        } else {
            return ni;
        }
    }
    ni
}

/// The first offset at which the whole of `needle` stands in `haystack`, or
/// `None` where it stands nowhere. An empty needle stands at offset 0, in an
/// empty haystack too.
pub fn find_needle<N, H>(needle: &[N], haystack: &[H]) -> (res: Option<usize>) where
    N: PartialEq<H>,

    ensures
        <N as PartialEqSpec<H>>::obeys_eq_spec() ==> match res {
            Some(o) => {
                &&& matches_at(needle@, haystack@, o as int)
                &&& forall|k: int| 0 <= k < o ==> !matches_at(needle@, haystack@, k)
            },
            None => forall|k: int| !matches_at(needle@, haystack@, k),
        },
        needle@.len() == 0 ==> res == Some(0usize),
{
    if needle.len() == 0 {
        return Some(0);
    }
    let mut hi: usize = 0;
    while hi < haystack.len()
        invariant
            hi <= haystack@.len(),
            needle@.len() > 0,
            <N as PartialEqSpec<H>>::obeys_eq_spec() ==> forall|k: int|
                0 <= k < hi ==> !matches_at(needle@, haystack@, k),
        decreases haystack@.len() - hi,
    {
        let count = match_count(needle, haystack, hi);
        if count == needle.len() {
            proof {
                if <N as PartialEqSpec<H>>::obeys_eq_spec() {
                    assert(needle@[needle@.len() - 1].eq_spec(
                        &haystack@[hi + (needle@.len() - 1)],
                    ));
                }
            }
            return Some(hi);
        }
        proof {
            if <N as PartialEqSpec<H>>::obeys_eq_spec() {
                if matches_at(needle@, haystack@, hi as int) {
                    assert(needle@[count as int].eq_spec(&haystack@[hi + count]));
                }
            }
        }
        hi = hi + 1;
    }
    None
}

/// The whole of `needle` stands in `haystack` at offset `o`, atom by atom
/// surface-equal.
pub open spec fn occurs_at(needle: Seq<Atom>, haystack: Seq<Atom>, o: int) -> bool {
    &&& 0 <= o
    &&& o + needle.len() <= haystack.len()
    &&& forall|i: int|
        0 <= i < needle.len() ==> surface_equal(#[trigger] needle[i], haystack[o + i])
}

/// `o` is the first offset at which `needle` occurs in `haystack`.
pub open spec fn first_occurrence(needle: Seq<Atom>, haystack: Seq<Atom>, o: int) -> bool {
    &&& occurs_at(needle, haystack, o)
    &&& forall|k: int| 0 <= k < o ==> !occurs_at(needle, haystack, k)
}

/// `needle` occurs nowhere in `haystack`.
pub open spec fn occurs_nowhere(needle: Seq<Atom>, haystack: Seq<Atom>) -> bool {
    forall|k: int| !occurs_at(needle, haystack, k)
}

/// Where `needle` occurs in `haystack`: the first offset, if there is one.
pub open spec fn location(needle: Seq<Atom>, haystack: Seq<Atom>) -> Option<int> {
    if exists|o: int| first_occurrence(needle, haystack, o) {
        Some(choose|o: int| first_occurrence(needle, haystack, o))
    } else {
        None
    }
}

/// The first offset at which the atoms of `needle` stand in `haystack`, each
/// surface-equal to the atom there, or `None` where they stand nowhere. An
/// empty needle stands at offset 0, in an empty haystack too.
pub fn locate(needle: &ParseStruct, haystack: &ParseStruct) -> (res: Option<usize>)
    ensures
        match res {
            Some(o) => first_occurrence(needle@, haystack@, o as int) && location(
                needle@,
                haystack@,
            ) == Some(o as int),
            None => occurs_nowhere(needle@, haystack@) && location(needle@, haystack@) is None,
        },
        needle@.len() == 0 ==> res == Some(0usize),
{
    let res = find_needle(needle.atoms.as_slice(), haystack.atoms.as_slice());
    proof {
        lemma_matches_is_occurs(needle, haystack);
        if let Some(o) = res {
            lemma_first_occurrence_unique(
                needle@,
                haystack@,
                o as int,
                choose|x: int| first_occurrence(needle@, haystack@, x),
            );
        }
    }
    res
}

/// On atoms, `==` is surface equality: a needle stands at an offset by `==`
/// exactly where it occurs there.
proof fn lemma_matches_is_occurs(needle: &ParseStruct, haystack: &ParseStruct)
    ensures
        forall|k: int|
            matches_at(needle.atoms@, haystack.atoms@, k) == occurs_at(needle@, haystack@, k),
{
    let n = needle.atoms@;
    let h = haystack.atoms@;
    assert forall|k: int| matches_at(n, h, k) == occurs_at(needle@, haystack@, k) by {
        if matches_at(n, h, k) {
            assert forall|i: int| 0 <= i < needle@.len() implies surface_equal(
                #[trigger] needle@[i],
                haystack@[k + i],
            ) by {
                assert(n[i].eq_spec(&h[k + i]));
            }
        }
        if occurs_at(needle@, haystack@, k) {
            assert forall|i: int| 0 <= i < n.len() implies k + i < h.len() && (#[trigger] n[i]).eq_spec(
                &h[k + i],
            ) by {
                assert(surface_equal(needle@[i], haystack@[k + i]));
            }
        }
    }
}

/// There is one first occurrence at most.
pub proof fn lemma_first_occurrence_unique(needle: Seq<Atom>, haystack: Seq<Atom>, a: int, b: int)
    requires
        first_occurrence(needle, haystack, a),
        first_occurrence(needle, haystack, b),
    ensures
        a == b,
{
}

/// The locator gives the smallest offset at which the needle occurs: no
/// occurrence lies in front of the one it reports, and it reports one
/// whenever there is any.
pub proof fn lemma_location_is_smallest(needle: Seq<Atom>, haystack: Seq<Atom>, o: int)
    requires
        occurs_at(needle, haystack, o),
    ensures
        location(needle, haystack) is Some,
        location(needle, haystack)->0 <= o,
        first_occurrence(needle, haystack, location(needle, haystack)->0),
{
    lemma_some_first_occurrence(needle, haystack, o);
}

/// Below every occurrence there is a first one.
proof fn lemma_some_first_occurrence(needle: Seq<Atom>, haystack: Seq<Atom>, o: int)
    requires
        occurs_at(needle, haystack, o),
    ensures
        exists|f: int| first_occurrence(needle, haystack, f) && f <= o,
    decreases o,
{
    if exists|k: int| 0 <= k < o && occurs_at(needle, haystack, k) {
        let k = choose|k: int| 0 <= k < o && occurs_at(needle, haystack, k);
        lemma_some_first_occurrence(needle, haystack, k);
    } else {
        assert(first_occurrence(needle, haystack, o));
    }
}

/// An empty needle is found at offset 0 in every haystack, the empty one
/// too.
pub proof fn lemma_empty_needle_at_start(haystack: Seq<Atom>)
    ensures
        location(Seq::<Atom>::empty(), haystack) == Some(0int),
{
    let needle = Seq::<Atom>::empty();
    assert(first_occurrence(needle, haystack, 0));
    lemma_first_occurrence_unique(
        needle,
        haystack,
        0,
        choose|o: int| first_occurrence(needle, haystack, o),
    );
}

} // verus!
