use vstd::prelude::*;

use crate::actions::identity_action;
use crate::keys::{KeyCode, KEY_MAX};
use crate::layers::{
    active_has,
    effective,
    lemma_effective_unaffected,
    lemma_top_active,
    top_active,
    LayersManager,
};

verus! {

/// The merged view is a function of the layers and their states.
pub proof fn lemma_merged_determined(m0: &LayersManager, m1: &LayersManager)
    requires
        m0.wf(),
        m1.wf(),
        m1.layers == m0.layers,
        m1.layers_states@ == m0.layers_states@,
    ensures
        m1.merged@ == m0.merged@,
{
    assert forall|i: int| 0 <= i < KEY_MAX implies m1.merged@[i] == m0.merged@[i] by {}
    assert(m1.merged@ =~= m0.merged@);
}

/// Every valid key has an entry in the merged view, and that entry names the key.
pub proof fn total_coverage(m: &LayersManager, k: KeyCode)
    requires
        m.wf(),
        k.valid(),
    ensures
        m.merged@[k.code as int] == Some(m.entry(k.code as int)),
        m.entry(k.code as int).code == k,
{
}

/// The entry of a key comes from the highest active layer that binds it; when
/// no active layer binds it, the key taps itself and the entry names layer 0.
pub proof fn highest_active_layer_wins(m: &LayersManager, k: KeyCode)
    requires
        m.wf(),
        k.valid(),
    ensures
        ({
            let i = k.code as int;
            let e = m.entry(i);
            let layers = m.layers@;
            let states = m.layers_states@;
            if exists|l: int| 0 <= l < layers.len() && #[trigger] active_has(layers, states, i, l) {
                &&& e.layer_index < layers.len()
                &&& active_has(layers, states, i, e.layer_index as int)
                &&& e.action == layers[e.layer_index as int].action_at(i)
                &&& forall|l: int|
                    e.layer_index < l < layers.len() ==> !#[trigger] active_has(layers, states, i, l)
            } else {
                e.layer_index == 0 && e.action == identity_action(k)
            }
        }),
{
    let i = k.code as int;
    let layers = m.layers@;
    let states = m.layers_states@;
    lemma_top_active(layers, states, i, layers.len() as int);
    match top_active(layers, states, i, layers.len() as int) {
        Some(t) => {
            assert(m.entry(i).layer_index == t);
        },
        None => {
            assert(m.entry(i).code == k);
        },
    }
}

/// Turning an inactive layer (other than the base) on and then off restores
/// the merged view and the layer states.
pub proof fn on_off_round_trip(
    m0: &LayersManager,
    m1: &LayersManager,
    m2: &LayersManager,
    index: int,
)
    requires
        m0.wf(),
        0 < index < m0.layers@.len(),
        !m0.layers_states@[index],
        m1.wf(),
        m1.same_config(m0),
        m1.layers_states@ == m0.states_after_on(m0.layers_states@, index),
        m2.wf(),
        m2.same_config(m1),
        m2.layers_states@ == m1.states_after_off(m1.layers_states@, index),
    ensures
        m2.layers_states@ == m0.layers_states@,
        m2.merged@ == m0.merged@,
{
    assert(m2.layers_states@ =~= m0.layers_states@);
    lemma_merged_determined(m0, m2);
}

/// Turning a layer on twice has the effect of turning it on once.
pub proof fn turn_on_idempotent(
    m0: &LayersManager,
    m1: &LayersManager,
    m2: &LayersManager,
    index: int,
)
    requires
        m0.wf(),
        0 <= index < m0.layers@.len(),
        m1.wf(),
        m1.same_config(m0),
        m1.layers_states@ == m0.states_after_on(m0.layers_states@, index),
        m2.wf(),
        m2.same_config(m1),
        m2.layers_states@ == m1.states_after_on(m1.layers_states@, index),
    ensures
        m2.layers_states@ == m1.layers_states@,
        m2.merged@ == m1.merged@,
{
    lemma_merged_determined(m1, m2);
}

/// Turning a layer off twice has the effect of turning it off once.
pub proof fn turn_off_idempotent(
    m0: &LayersManager,
    m1: &LayersManager,
    m2: &LayersManager,
    index: int,
)
    requires
        m0.wf(),
        0 <= index < m0.layers@.len(),
        m1.wf(),
        m1.same_config(m0),
        m1.layers_states@ == m0.states_after_off(m0.layers_states@, index),
        m2.wf(),
        m2.same_config(m1),
        m2.layers_states@ == m1.states_after_off(m1.layers_states@, index),
    ensures
        m2.layers_states@ == m1.layers_states@,
        m2.merged@ == m1.merged@,
{
    lemma_merged_determined(m1, m2);
}

/// While the global lock is held, turning a layer on or off changes neither
/// the merged view nor the layer states.
pub proof fn global_lock_freezes(m0: &LayersManager, m1: &LayersManager, index: int, on: bool)
    requires
        m0.wf(),
        0 <= index < m0.layers@.len(),
        m0.global_lock is Some,
        m1.wf(),
        m1.same_config(m0),
        m1.layers_states@ == m0.states_after_switch(m0.layers_states@, index, on),
    ensures
        m1.layers_states@ == m0.layers_states@,
        m1.merged@ == m0.merged@,
{
    lemma_merged_determined(m0, m1);
}

/// While a key is locked, turning a layer on or off leaves its merged entry alone.
pub proof fn key_lock_holds_entry(
    m0: &LayersManager,
    m1: &LayersManager,
    k: KeyCode,
    index: int,
    on: bool,
)
    requires
        m0.wf(),
        k.valid(),
        0 <= index < m0.layers@.len(),
        m0.key_locks@[k.code as int] is Some,
        m1.wf(),
        m1.same_config(m0),
        m1.layers_states@ == m0.states_after_switch(m0.layers_states@, index, on),
    ensures
        m1.merged@[k.code as int] == m0.merged@[k.code as int],
{
    let i = k.code as int;
    if m1.layers_states@ != m0.layers_states@ {
        assert(!m0.layers@[index].has(i));
        lemma_effective_unaffected(m0.layers@, m0.layers_states@, index, on, i);
        assert(m1.layers_states@ == m0.layers_states@.update(index, on));
    }
}

/// The base layer cannot be turned off.
pub proof fn base_layer_stays(m0: &LayersManager, m1: &LayersManager)
    requires
        m0.wf(),
        m0.layers@.len() > 0,
        m1.wf(),
        m1.same_config(m0),
        m1.layers_states@ == m0.states_after_off(m0.layers_states@, 0),
    ensures
        m1.layers_states@ == m0.layers_states@,
        m1.merged@ == m0.merged@,
{
    lemma_merged_determined(m0, m1);
}

} // verus!
