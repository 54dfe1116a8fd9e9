//! Registries in which no circuit type is nested within itself.
//!
//! The levels of composite children that a simulation enters are bounded
//! by the number of registered types. In a registry without cycles that
//! bound is never met: a chain of composite types, each a child of the one
//! before, names no type twice, and so is no longer than the registry.
use super::definition::{CircuitModel, TID};
use super::laws::lemma_fresh_ranges_disjoint;
use super::semantics::simulate_fresh;
use super::soundness::{lemma_sound_fresh_simulation, locally_sound, sound};
use vstd::prelude::*;
use vstd::set_lib::lemma_len_subset;

verus! {

/// Whether `chain` is a chain of registered composite types, each a child
/// of the one before it.
pub open spec fn descent(registry: Map<TID, CircuitModel>, chain: Seq<TID>) -> bool {
    &&& forall|j: int|
        0 <= j < chain.len() ==> registry.contains_key(#[trigger] chain[j])
            && !registry[chain[j]].is_primitive()
    &&& forall|j: int|
        0 <= j < chain.len() - 1 ==> registry[#[trigger] chain[j]].children.contains(chain[j + 1])
}

/// Whether no composite type is nested within itself, directly or through
/// other types.
pub open spec fn acyclic(registry: Map<TID, CircuitModel>) -> bool {
    forall|chain: Seq<TID>| #[trigger] descent(registry, chain) ==> chain.no_duplicates()
}

/// A chain of registered types that names no type twice is no longer than
/// the registry.
pub proof fn lemma_chain_is_short(registry: Map<TID, CircuitModel>, chain: Seq<TID>)
    requires
        registry.dom().finite(),
        chain.no_duplicates(),
        forall|j: int| 0 <= j < chain.len() ==> registry.contains_key(#[trigger] chain[j]),
    ensures
        chain.len() <= registry.dom().len(),
{
    chain.unique_seq_to_set();
    assert(chain.to_set().subset_of(registry.dom())) by {
        assert forall|t: TID| chain.to_set().contains(t) implies registry.dom().contains(t) by {
            let j = choose|j: int| 0 <= j < chain.len() && chain[j] == t;
            assert(registry.contains_key(chain[j]));
        }
    }
    lemma_len_subset(chain.to_set(), registry.dom());
}

/// In a registry without cycles, a circuit at the end of a chain of nested
/// types is sound for the levels that the chain leaves of the registry.
proof fn lemma_descent_is_sound(
    registry: Map<TID, CircuitModel>,
    circuit: CircuitModel,
    chain: Seq<TID>,
    depth: nat,
)
    requires
        registry.dom().finite(),
        acyclic(registry),
        locally_sound(registry, circuit),
        forall|t: TID|
            registry.contains_key(t) && !registry[t].is_primitive() ==> locally_sound(
                registry,
                #[trigger] registry[t],
            ),
        descent(registry, chain),
        chain.len() > 0 ==> circuit == registry[chain.last()],
        chain.len() + depth == registry.dom().len(),
    ensures
        sound(registry, circuit, depth),
    decreases depth,
{
    assert forall|i: int|
        0 <= i < circuit.children.len() && !registry[#[trigger] circuit.children[i]].is_primitive()
        implies depth > 0 && sound(registry, registry[circuit.children[i]], (depth - 1) as nat) by {
        let tid = circuit.children[i];
        lemma_fresh_ranges_disjoint(registry, circuit, i, i);
        let longer = chain.push(tid);
        assert(descent(registry, longer)) by {
            assert forall|j: int| 0 <= j < longer.len() - 1 implies registry[#[trigger] longer[j]]
                .children.contains(longer[j + 1]) by {
                if j == chain.len() - 1 {
                    assert(longer[j] == chain.last());
                    assert(circuit.children[i] == longer[j + 1]);
                } else {
                    assert(longer[j] == chain[j]);
                    assert(longer[j + 1] == chain[j + 1]);
                }
            }
        }
        lemma_chain_is_short(registry, longer);
        lemma_descent_is_sound(registry, registry[tid], longer, (depth - 1) as nat);
    }
}

/// In a registry without cycles, a circuit is sound as soon as it and
/// every registered composite are sound in themselves: the bound on the
/// nesting of composite children refuses nothing.
pub proof fn lemma_acyclic_is_sound(registry: Map<TID, CircuitModel>, circuit: CircuitModel)
    requires
        registry.dom().finite(),
        acyclic(registry),
        locally_sound(registry, circuit),
        forall|t: TID|
            registry.contains_key(t) && !registry[t].is_primitive() ==> locally_sound(
                registry,
                #[trigger] registry[t],
            ),
    ensures
        sound(registry, circuit, registry.dom().len()),
{
    lemma_descent_is_sound(registry, circuit, Seq::empty(), registry.dom().len());
}

/// In a registry without cycles whose composites are sound in themselves,
/// every simulation of such a circuit in a context of its own succeeds, as
/// long as the caller hands in one value for each pin.
pub proof fn lemma_acyclic_simulation_succeeds(
    registry: Map<TID, CircuitModel>,
    circuit: CircuitModel,
    pins: Seq<bool>,
    ticks: nat,
)
    requires
        registry.dom().finite(),
        acyclic(registry),
        locally_sound(registry, circuit),
        forall|t: TID|
            registry.contains_key(t) && !registry[t].is_primitive() ==> locally_sound(
                registry,
                #[trigger] registry[t],
            ),
        pins.len() == circuit.pin_count,
    ensures
        simulate_fresh(registry, circuit, pins, ticks) is Ok,
{
    lemma_acyclic_is_sound(registry, circuit);
    lemma_sound_fresh_simulation(registry, circuit, pins, ticks);
}

} // verus!
