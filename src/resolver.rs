use vstd::prelude::*;
use crate::model::{PlayableVariant, TrackId};

verus! {

/// What to do next while looking for a playable variant of a track.
#[derive(Clone, Copy, Debug, PartialEq, Eq, Structural)]
pub enum ResolveStep {
    /// Ask the catalog about this track, then step again with its answer
    /// appended to what was looked up.
    Lookup(TrackId),
    /// Play the requested track itself, as the catalog gave it.
    UseRequested,
    /// Play the alternative looked up at this position.
    UseAlternative(usize),
    /// Neither the track nor any of its alternatives is available.
    NoPlayableVariant,
}

/// `i` is the first position of `looked` that holds an available variant.
pub open spec fn is_first_available(looked: Seq<PlayableVariant>, i: int) -> bool {
    &&& 0 <= i < looked.len()
    &&& looked[i].available
    &&& forall|j: int| 0 <= j < i ==> !(#[trigger] looked[j]).available
}

/// The step that follows from the requested track's variant and the variants
/// of its first `looked.len()` alternatives, in order.
pub open spec fn next_step(requested: PlayableVariant, looked: Seq<PlayableVariant>) -> ResolveStep {
    if requested.available {
        ResolveStep::UseRequested
    } else if exists|i: int| is_first_available(looked, i) {
        ResolveStep::UseAlternative((choose|i: int| is_first_available(looked, i)) as usize)
    } else if looked.len() < requested.alternatives@.len() {
        ResolveStep::Lookup(requested.alternatives@[looked.len() as int])
    } else {
        ResolveStep::NoPlayableVariant
    }
}

proof fn lemma_first_available_unique(looked: Seq<PlayableVariant>, i: int, k: int)
    requires
        is_first_available(looked, i),
        is_first_available(looked, k),
    ensures
        i == k,
{
    if i < k {
        assert(!looked[i].available);
    } else if k < i {
        assert(!looked[k].available);
    }
}

/// Decides what to do next, given the variant of the requested track and the
/// variants of the alternatives looked up so far (in the order of
/// `requested.alternatives`). The requested track wins when available;
/// otherwise the first available alternative does; alternatives are looked up
/// one at a time, and never past the first available one.
pub fn resolve_step(requested: &PlayableVariant, looked: &Vec<PlayableVariant>) -> (r: ResolveStep)
    ensures
        r == next_step(*requested, looked@),
{
    if requested.available {
        return ResolveStep::UseRequested;
    }
    let n = looked.len();
    let mut i: usize = 0;
    while i < n
        invariant
            n == looked@.len(),
            i <= n,
            !requested.available,
            forall|j: int| 0 <= j < i ==> !(#[trigger] looked@[j]).available,
        decreases n - i,
    {
        if looked[i].available {
            proof {
                let ii = i as int;
                assert(is_first_available(looked@, ii));
                let c = choose|k: int| is_first_available(looked@, k);
                lemma_first_available_unique(looked@, ii, c);
            }
            return ResolveStep::UseAlternative(i);
        }
        i = i + 1;
    }
    if n < requested.alternatives.len() {
        ResolveStep::Lookup(requested.alternatives[n])
    } else {
        ResolveStep::NoPlayableVariant
    }
}

/// The variants that a catalog `lookup` gives for the first `k` alternatives
/// of `requested`.
pub open spec fn looked_up(requested: PlayableVariant, lookup: spec_fn(TrackId) -> PlayableVariant, k: int) -> Seq<PlayableVariant> {
    Seq::new(k as nat, |i: int| lookup(requested.alternatives@[i]))
}

/// An available requested variant is used as it is, whatever else is known,
/// and no alternative is looked up.
pub proof fn lemma_available_used_unchanged(requested: PlayableVariant, looked: Seq<PlayableVariant>)
    requires
        requested.available,
    ensures
        next_step(requested, looked) == ResolveStep::UseRequested,
{
}

/// An unavailable track whose alternative at position `j` is the first
/// available one: the alternatives up to `j` are looked up in order, then
/// that alternative is used and no later one is looked up.
pub proof fn lemma_first_available_alternative(
    id: TrackId,
    lookup: spec_fn(TrackId) -> PlayableVariant,
    j: int,
)
    requires
        !lookup(id).available,
        0 <= j < lookup(id).alternatives@.len(),
        lookup(lookup(id).alternatives@[j]).available,
        forall|i: int| 0 <= i < j ==> !(#[trigger] lookup(lookup(id).alternatives@[i])).available,
    ensures
        forall|k: int| 0 <= k <= j ==> #[trigger] next_step(lookup(id), looked_up(lookup(id), lookup, k))
            == ResolveStep::Lookup(lookup(id).alternatives@[k]),
        next_step(lookup(id), looked_up(lookup(id), lookup, j + 1)) == ResolveStep::UseAlternative(j as usize),
        looked_up(lookup(id), lookup, j + 1)[j] == lookup(lookup(id).alternatives@[j]),
{
    let req = lookup(id);
    assert forall|k: int| 0 <= k <= j implies #[trigger] next_step(req, looked_up(req, lookup, k))
        == ResolveStep::Lookup(req.alternatives@[k]) by {
        let s = looked_up(req, lookup, k);
        assert forall|i: int| 0 <= i < s.len() implies !(#[trigger] s[i]).available by {
            assert(s[i] == lookup(req.alternatives@[i]));
        }
    }
    let s = looked_up(req, lookup, j + 1);
    assert forall|i: int| 0 <= i < j implies !(#[trigger] s[i]).available by {
        assert(s[i] == lookup(req.alternatives@[i]));
    }
    assert(is_first_available(s, j));
    let c = choose|i: int| is_first_available(s, i);
    lemma_first_available_unique(s, j, c);
}

/// An unavailable track none of whose alternatives is available: every
/// alternative is looked up in order, then resolution fails with no
/// playable variant.
pub proof fn lemma_nothing_available(id: TrackId, lookup: spec_fn(TrackId) -> PlayableVariant)
    requires
        !lookup(id).available,
        forall|i: int| 0 <= i < lookup(id).alternatives@.len() ==> !(#[trigger] lookup(lookup(id).alternatives@[i])).available,
    ensures
        forall|k: int| 0 <= k < lookup(id).alternatives@.len() ==> #[trigger] next_step(lookup(id), looked_up(lookup(id), lookup, k))
            == ResolveStep::Lookup(lookup(id).alternatives@[k]),
        next_step(lookup(id), looked_up(lookup(id), lookup, lookup(id).alternatives@.len() as int))
            == ResolveStep::NoPlayableVariant,
{
    let req = lookup(id);
    let n = req.alternatives@.len() as int;
    assert forall|k: int| 0 <= k <= n implies !exists|i: int| is_first_available(#[trigger] looked_up(req, lookup, k), i) by {
        let s = looked_up(req, lookup, k);
        assert forall|i: int| 0 <= i < s.len() implies !(#[trigger] s[i]).available by {
            assert(s[i] == lookup(req.alternatives@[i]));
        }
    }
}

/// Resolving a track twice against a catalog that has not changed in between
/// takes the same steps and ends on the same variant: every step depends on
/// the catalog's answers alone.
pub proof fn lemma_resolution_idempotent(
    id: TrackId,
    first: spec_fn(TrackId) -> PlayableVariant,
    second: spec_fn(TrackId) -> PlayableVariant,
)
    requires
        first(id) == second(id),
        forall|i: int| 0 <= i < first(id).alternatives@.len()
            ==> #[trigger] first(first(id).alternatives@[i]) == second(first(id).alternatives@[i]),
    ensures
        forall|k: int| 0 <= k <= first(id).alternatives@.len() ==>
            #[trigger] looked_up(first(id), first, k) == looked_up(second(id), second, k)
            && next_step(first(id), looked_up(first(id), first, k))
                == next_step(second(id), looked_up(second(id), second, k)),
{
    assert forall|k: int| 0 <= k <= first(id).alternatives@.len() implies
        #[trigger] looked_up(first(id), first, k) == looked_up(second(id), second, k) by {
        assert(looked_up(first(id), first, k) =~= looked_up(second(id), second, k));
    }
}

} // verus!
