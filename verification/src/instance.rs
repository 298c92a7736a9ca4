//! Instance resolution for interfaces and unions: an ordered list of
//! candidate types, each with the answer of its accessor for the instance at
//! hand. The first candidate whose accessor yields a value is the concrete
//! type.

use vstd::prelude::*;
use crate::scalar::same_text;

verus! {

/// A candidate type of an interface or a union, with whether its accessor
/// yields a value for the instance at hand.
#[derive(Debug, PartialEq)]
pub struct Candidate {
    pub name: String,
    pub present: bool,
}

/// The position of the first candidate whose accessor yields a value, or the
/// number of candidates where none does.
pub open spec fn first_present(candidates: Seq<Candidate>) -> int
    decreases candidates.len(),
{
    if candidates.len() == 0 {
        0
    } else if candidates[0].present {
        0
    } else {
        1 + first_present(candidates.drop_first())
    }
}

/// The position of the first candidate called `target`, or the number of
/// candidates where none is.
pub open spec fn first_named(candidates: Seq<Candidate>, target: Seq<char>) -> int
    decreases candidates.len(),
{
    if candidates.len() == 0 {
        0
    } else if candidates[0].name@ == target {
        0
    } else {
        1 + first_named(candidates.drop_first(), target)
    }
}

/// The first candidate whose accessor yields a value is at the first index
/// that is present.
pub proof fn lemma_first_present_is(candidates: Seq<Candidate>, at: int)
    requires
        0 <= at <= candidates.len(),
        forall|i: int| 0 <= i < at ==> !(#[trigger] candidates[i]).present,
        at < candidates.len() ==> candidates[at].present,
    ensures
        first_present(candidates) == at,
    decreases candidates.len(),
{
    if candidates.len() != 0 && at > 0 {
        let rest = candidates.drop_first();
        assert(!candidates[0].present);
        assert forall|i: int| 0 <= i < at - 1 implies !(#[trigger] rest[i]).present by {
            assert(rest[i] == candidates[i + 1]);
        }
        lemma_first_present_is(rest, at - 1);
    }
}

/// The first candidate of a name is at the first index that has the name.
pub proof fn lemma_first_named_is(candidates: Seq<Candidate>, target: Seq<char>, at: int)
    requires
        0 <= at <= candidates.len(),
        forall|i: int| 0 <= i < at ==> (#[trigger] candidates[i]).name@ != target,
        at < candidates.len() ==> candidates[at].name@ == target,
    ensures
        first_named(candidates, target) == at,
    decreases candidates.len(),
{
    if candidates.len() != 0 && at > 0 {
        let rest = candidates.drop_first();
        assert(candidates[0].name@ != target);
        assert forall|i: int| 0 <= i < at - 1 implies (#[trigger] rest[i]).name@ != target by {
            assert(rest[i] == candidates[i + 1]);
        }
        lemma_first_named_is(rest, target, at - 1);
    }
}

/// Where the accessors of two candidates both yield a value, the one that
/// is declared later is not the concrete type: the resolved position is at
/// or before the earlier of the two.
pub proof fn lemma_earlier_candidate_wins(candidates: Seq<Candidate>, earlier: int, later: int)
    requires
        0 <= earlier < later < candidates.len(),
        candidates[earlier].present,
        candidates[later].present,
    ensures
        0 <= first_present(candidates) <= earlier,
        candidates[first_present(candidates)].present,
        earlier == 0 ==> first_present(candidates) == 0,
    decreases candidates.len(),
{
    if !candidates[0].present {
        let rest = candidates.drop_first();
        assert(rest[earlier - 1] == candidates[earlier]);
        assert(rest[later - 1] == candidates[later]);
        lemma_earlier_candidate_wins(rest, earlier - 1, later - 1);
        assert(rest[first_present(rest)] == candidates[first_present(rest) + 1]);
    }
}

/// The position of the first candidate whose accessor yields a value, where
/// there is one.
pub fn first_match(candidates: &Vec<Candidate>) -> (r: Option<usize>)
    ensures
        r is Some <==> first_present(candidates@) < candidates@.len(),
        r is Some ==> r.unwrap() == first_present(candidates@),
{
    let mut i: usize = 0;
    while i < candidates.len()
        invariant
            i <= candidates.len(),
            forall|j: int| 0 <= j < i ==> !(#[trigger] candidates@[j]).present,
        decreases candidates.len() - i,
    {
        if candidates[i].present {
            proof {
                lemma_first_present_is(candidates@, i as int);
            }
            return Some(i);
        }
        i += 1;
    }
    proof {
        lemma_first_present_is(candidates@, i as int);
    }
    None
}

/// The position of the first candidate called `target`, where there is one.
pub fn find_candidate(candidates: &Vec<Candidate>, target: &str) -> (r: Option<usize>)
    ensures
        r is Some <==> first_named(candidates@, target@) < candidates@.len(),
        r is Some ==> r.unwrap() == first_named(candidates@, target@),
{
    let mut i: usize = 0;
    while i < candidates.len()
        invariant
            i <= candidates.len(),
            forall|j: int| 0 <= j < i ==> (#[trigger] candidates@[j]).name@ != target@,
        decreases candidates.len() - i,
    {
        if same_text(candidates[i].name.as_str(), target) {
            proof {
                lemma_first_named_is(candidates@, target@, i as int);
            }
            return Some(i);
        }
        i += 1;
    }
    proof {
        lemma_first_named_is(candidates@, target@, i as int);
    }
    None
}

/// The name of the concrete type: that of the first candidate, in
/// declaration order, whose accessor yields a value. Some accessor has to
/// yield one.
pub fn concrete_type_name(candidates: &Vec<Candidate>) -> (r: &str)
    requires
        first_present(candidates@) < candidates@.len(),
    ensures
        r@ == candidates@[first_present(candidates@)].name@,
{
    let at = first_match(candidates).unwrap();
    candidates[at].name.as_str()
}

/// The candidate as which an instance is resolved where a fragment asks for
/// the type called `target`: the candidate of that name, and whether its
/// accessor yields a value. Some candidate has to have the name.
pub fn downcast_candidate<'a>(candidates: &'a Vec<Candidate>, target: &str) -> (r: &'a Candidate)
    requires
        first_named(candidates@, target@) < candidates@.len(),
    ensures
        *r == candidates@[first_named(candidates@, target@)],
        r.name@ == target@,
{
    let at = find_candidate(candidates, target).unwrap();
    proof {
        lemma_named_at(candidates@, target@);
    }
    &candidates[at]
}

/// The candidate at the position of a name has that name.
pub proof fn lemma_named_at(candidates: Seq<Candidate>, target: Seq<char>)
    requires
        first_named(candidates, target) < candidates.len(),
    ensures
        0 <= first_named(candidates, target),
        candidates[first_named(candidates, target)].name@ == target,
    decreases candidates.len(),
{
    if candidates.len() != 0 && candidates[0].name@ != target {
        let rest = candidates.drop_first();
        lemma_named_at(rest, target);
        assert(rest[first_named(rest, target)] == candidates[first_named(rest, target) + 1]);
    }
}

} // verus!
