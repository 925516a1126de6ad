use vstd::prelude::*;

use crate::actions::{identity_action, Action, Effect};
use crate::keys::{is_key_index, is_key_index_exec, KeyCode, KEY_MAX};
use crate::layer::Layer;

verus! {

// ---------------- Types ---------------

pub type LayerIndex = usize;

pub type Layers = Vec<Layer>;

/// Names for layers, looked up by the first entry with a matching name.
pub type LayerAliases = Vec<(String, LayerIndex)>;

/// Named profiles, looked up by the first entry with a matching name.
pub type LayerProfiles = Vec<(String, Profile)>;

/// A set of layers switched on or off together.
#[derive(Clone, Debug)]
pub struct Profile {
    pub indices: Vec<usize>,
    pub aliases: Vec<String>,
}

/// The effective action of a key and the layer that supplied it.
#[derive(Clone, Copy, Debug, PartialEq, Eq, Structural)]
pub struct MergedKey {
    pub code: KeyCode,
    pub action: Action,
    pub layer_index: LayerIndex,
}

/// One entry per integer below `KEY_MAX`; `None` where no key has that index.
pub type Merged = Vec<Option<MergedKey>>;

/// The state machines that may hold a lock.
#[derive(Clone, Copy, Debug, PartialEq, Eq, Structural)]
pub enum LockOwner {
    LkTapHold,
    LkTapDance,
    LkSticky,
}

pub struct LayersManager {
    /// The result of stacking all active layers, indexed by key index.
    pub merged: Merged,
    /// The layer configuration; layer 0 is the base.
    pub layers: Layers,
    pub layer_aliases: LayerAliases,
    pub layer_profiles: LayerProfiles,
    /// The on/off state of each layer.
    pub layers_states: Vec<bool>,
    /// Per-key locks, indexed by key index.
    pub key_locks: Vec<Option<LockOwner>>,
    /// A lock that blocks every layer change.
    pub global_lock: Option<LockOwner>,
}

// ---------------- Model ---------------

/// Layer `l` is active and binds the key with index `i`.
pub open spec fn active_has(layers: Seq<Layer>, states: Seq<bool>, i: int, l: int) -> bool {
    states[l] && layers[l].has(i)
}

/// The highest layer below `n` that is active and binds key index `i`.
pub open spec fn top_active(layers: Seq<Layer>, states: Seq<bool>, i: int, n: int) -> Option<int>
    decreases n,
{
    if n <= 0 {
        None
    } else if active_has(layers, states, i, n - 1) {
        Some(n - 1)
    } else {
        top_active(layers, states, i, n - 1)
    }
}

/// The entry of the merged view for key index `i`: the binding of the highest
/// active layer that has one, else the key's identity action with layer 0.
pub open spec fn effective(layers: Seq<Layer>, states: Seq<bool>, i: int) -> MergedKey {
    let code = KeyCode { code: i as u16 };
    match top_active(layers, states, i, layers.len() as int) {
        Some(l) => MergedKey { code, action: layers[l].action_at(i), layer_index: l as usize },
        None => MergedKey { code, action: identity_action(code), layer_index: 0 },
    }
}

/// The merged entry every index below `KEY_MAX` should hold.
pub open spec fn merged_entry(layers: Seq<Layer>, states: Seq<bool>, i: int) -> Option<MergedKey> {
    if is_key_index(i) {
        Some(effective(layers, states, i))
    } else {
        None
    }
}

/// What `top_active` is: the greatest active binding layer below `n`, if any.
pub proof fn lemma_top_active(layers: Seq<Layer>, states: Seq<bool>, i: int, n: int)
    requires
        0 <= n <= layers.len(),
        n <= states.len(),
    ensures
        match top_active(layers, states, i, n) {
            Some(t) => 0 <= t < n && active_has(layers, states, i, t) && forall|k: int|
                t < k < n ==> !#[trigger] active_has(layers, states, i, k),
            None => forall|k: int| 0 <= k < n ==> !#[trigger] active_has(layers, states, i, k),
        },
    decreases n,
{
    if n > 0 {
        lemma_top_active(layers, states, i, n - 1);
    }
}

/// `top_active` is determined by which layers are active and binding.
pub proof fn lemma_top_active_unique(
    layers: Seq<Layer>,
    states: Seq<bool>,
    i: int,
    n: int,
    t: Option<int>,
)
    requires
        0 <= n <= layers.len(),
        n <= states.len(),
        match t {
            Some(t) => 0 <= t < n && active_has(layers, states, i, t) && forall|k: int|
                t < k < n ==> !#[trigger] active_has(layers, states, i, k),
            None => forall|k: int| 0 <= k < n ==> !#[trigger] active_has(layers, states, i, k),
        },
    ensures
        top_active(layers, states, i, n) == t,
{
    lemma_top_active(layers, states, i, n);
    match top_active(layers, states, i, n) {
        Some(t1) => {
            match t {
                Some(t2) => {
                    if t1 < t2 {
                        assert(active_has(layers, states, i, t2));
                    } else if t2 < t1 {
                        assert(active_has(layers, states, i, t1));
                    }
                },
                None => {
                    assert(active_has(layers, states, i, t1));
                },
            }
        },
        None => {
            if let Some(t2) = t {
                assert(active_has(layers, states, i, t2));
            }
        },
    }
}

/// Changing the state of a layer that does not bind `i` leaves `effective` at `i` alone.
pub proof fn lemma_effective_unaffected(
    layers: Seq<Layer>,
    states: Seq<bool>,
    l: int,
    b: bool,
    i: int,
)
    requires
        layers.len() == states.len(),
        0 <= l < states.len(),
        !layers[l].has(i),
    ensures
        effective(layers, states.update(l, b), i) == effective(layers, states, i),
{
    let s2 = states.update(l, b);
    let n = layers.len() as int;
    lemma_top_active(layers, states, i, n);
    assert forall|k: int| 0 <= k < n implies active_has(layers, s2, i, k) == active_has(
        layers,
        states,
        i,
        k,
    ) by {}
    lemma_top_active_unique(layers, s2, i, n, top_active(layers, states, i, n));
}

/// The layer bound to `name` by the first of `aliases[..n]` that carries it.
pub open spec fn alias_lookup(aliases: Seq<(String, LayerIndex)>, name: Seq<char>, n: int) -> Option<
    LayerIndex,
>
    decreases n,
{
    if n <= 0 {
        None
    } else {
        match alias_lookup(aliases, name, n - 1) {
            Some(index) => Some(index),
            None => if aliases[n - 1].0@ == name {
                Some(aliases[n - 1].1)
            } else {
                None
            },
        }
    }
}

/// The position of the first of `profiles[..n]` named `name`.
pub open spec fn profile_lookup(profiles: Seq<(String, Profile)>, name: Seq<char>, n: int) -> Option<
    usize,
>
    decreases n,
{
    if n <= 0 {
        None
    } else {
        match profile_lookup(profiles, name, n - 1) {
            Some(p) => Some(p),
            None => if profiles[n - 1].0@ == name {
                Some((n - 1) as usize)
            } else {
                None
            },
        }
    }
}

/// Once an alias is found, later entries do not change the result.
pub proof fn lemma_alias_lookup_stable(
    aliases: Seq<(String, LayerIndex)>,
    name: Seq<char>,
    m: int,
    n: int,
)
    requires
        0 <= m <= n,
        alias_lookup(aliases, name, m) is Some,
    ensures
        alias_lookup(aliases, name, n) == alias_lookup(aliases, name, m),
    decreases n - m,
{
    if m < n {
        lemma_alias_lookup_stable(aliases, name, m, n - 1);
    }
}

/// Once a profile is found, later entries do not change the result.
pub proof fn lemma_profile_lookup_stable(
    profiles: Seq<(String, Profile)>,
    name: Seq<char>,
    m: int,
    n: int,
)
    requires
        0 <= m <= n,
        profile_lookup(profiles, name, m) is Some,
    ensures
        profile_lookup(profiles, name, n) == profile_lookup(profiles, name, m),
    decreases n - m,
{
    if m < n {
        lemma_profile_lookup_stable(profiles, name, m, n - 1);
    }
}

// -------------- Implementation -------------

/// The identity merged view: every key taps itself, supplied by layer 0.
pub fn init_merged() -> (merged: Merged)
    ensures
        merged@.len() == KEY_MAX,
        forall|i: int|
            0 <= i < KEY_MAX ==> #[trigger] merged@[i] == if is_key_index(i) {
                Some(
                    MergedKey {
                        code: KeyCode { code: i as u16 },
                        action: identity_action(KeyCode { code: i as u16 }),
                        layer_index: 0,
                    },
                )
            } else {
                None
            },
{
    let mut merged: Merged = Vec::new();
    let mut n: usize = 0;
    while n < KEY_MAX
        invariant
            n <= KEY_MAX,
            merged@.len() == n,
            forall|i: int|
                0 <= i < n ==> #[trigger] merged@[i] == if is_key_index(i) {
                    Some(
                        MergedKey {
                            code: KeyCode { code: i as u16 },
                            action: identity_action(KeyCode { code: i as u16 }),
                            layer_index: 0,
                        },
                    )
                } else {
                    None
                },
        decreases KEY_MAX - n,
    {
        match KeyCode::try_from_index(n) {
            Some(code) => {
                let action = Action::Tap(Effect::Key(code));
                merged.push(Some(MergedKey { code, action, layer_index: 0 }));
            },
            None => {
                merged.push(None);
            },
        }
        n = n + 1;
    }
    merged
}

impl LayersManager {
    /// Layers are well formed, referenced layers exist, and `merged` is the
    /// stack of the active layers.
    pub open spec fn wf(&self) -> bool {
        &&& self.layers@.len() <= usize::MAX
        &&& self.layers_states@.len() == self.layers@.len()
        &&& forall|l: int| 0 <= l < self.layers@.len() ==> (#[trigger] self.layers@[l]).wf()
        &&& forall|a: int|
            0 <= a < self.layer_aliases@.len() ==> (#[trigger] self.layer_aliases@[a]).1
                < self.layers@.len()
        &&& forall|p: int, q: int|
            0 <= p < self.layer_profiles@.len() && 0 <= q < self.layer_profiles@[p].1.indices@.len()
                ==> #[trigger] self.layer_profiles@[p].1.indices@[q] < self.layers@.len()
        &&& self.key_locks@.len() == KEY_MAX
        &&& self.merged@.len() == KEY_MAX
        &&& forall|i: int|
            0 <= i < KEY_MAX ==> #[trigger] self.merged@[i] == merged_entry(
                self.layers@,
                self.layers_states@,
                i,
            )
    }

    /// The entry `get` returns for key index `i`.
    pub open spec fn entry(&self, i: int) -> MergedKey {
        effective(self.layers@, self.layers_states@, i)
    }

    /// Everything but the merged view and the layer states is the same.
    pub open spec fn same_config(&self, other: &Self) -> bool {
        &&& self.layers == other.layers
        &&& self.layer_aliases == other.layer_aliases
        &&& self.layer_profiles == other.layer_profiles
        &&& self.key_locks == other.key_locks
        &&& self.global_lock == other.global_lock
    }

    /// A change of layer `index` is refused: a global lock is held, or the
    /// layer binds a locked key.
    pub open spec fn change_blocked(&self, index: int) -> bool {
        ||| self.global_lock is Some
        ||| exists|i: int|
            0 <= i < KEY_MAX && self.layers@[index].has(i) && (#[trigger] self.key_locks@[i]) is Some
    }

    /// Layer states after `turn_layer_on(index)` from `states`.
    pub open spec fn states_after_on(&self, states: Seq<bool>, index: int) -> Seq<bool> {
        if states[index] || self.change_blocked(index) {
            states
        } else {
            states.update(index, true)
        }
    }

    /// Layer states after `turn_layer_off(index)` from `states`.
    pub open spec fn states_after_off(&self, states: Seq<bool>, index: int) -> Seq<bool> {
        if index == 0 || !states[index] || self.change_blocked(index) {
            states
        } else {
            states.update(index, false)
        }
    }

    /// Layer states after `toggle_layer(index)` from `states`.
    pub open spec fn states_after_toggle(&self, states: Seq<bool>, index: int) -> Seq<bool> {
        if states[index] {
            self.states_after_off(states, index)
        } else {
            self.states_after_on(states, index)
        }
    }

    /// Layer states after turning layer `index` on (`on`) or off from `states`.
    pub open spec fn states_after_switch(&self, states: Seq<bool>, index: int, on: bool) -> Seq<
        bool,
    > {
        if on {
            self.states_after_on(states, index)
        } else {
            self.states_after_off(states, index)
        }
    }

    /// The layer the alias `name` refers to, if any.
    pub open spec fn alias_index(&self, name: Seq<char>) -> Option<LayerIndex> {
        alias_lookup(self.layer_aliases@, name, self.layer_aliases@.len() as int)
    }

    /// Layer states after switching the layer named `name`, if any.
    pub open spec fn states_after_alias(&self, states: Seq<bool>, name: Seq<char>, on: bool) -> Seq<
        bool,
    > {
        match self.alias_index(name) {
            Some(index) => self.states_after_switch(states, index as int, on),
            None => states,
        }
    }

    /// Layer states after switching `indices[..n]` in order.
    pub open spec fn states_after_indices(
        &self,
        states: Seq<bool>,
        indices: Seq<usize>,
        on: bool,
        n: int,
    ) -> Seq<bool>
        decreases n,
    {
        if n <= 0 {
            states
        } else {
            self.states_after_switch(
                self.states_after_indices(states, indices, on, n - 1),
                indices[n - 1] as int,
                on,
            )
        }
    }

    /// Layer states after switching the layers named by `names[..n]` in order.
    pub open spec fn states_after_aliases(
        &self,
        states: Seq<bool>,
        names: Seq<String>,
        on: bool,
        n: int,
    ) -> Seq<bool>
        decreases n,
    {
        if n <= 0 {
            states
        } else {
            self.states_after_alias(
                self.states_after_aliases(states, names, on, n - 1),
                names[n - 1]@,
                on,
            )
        }
    }

    /// Layer states after `toggle_profile(name, on)` from `states`.
    pub open spec fn states_after_profile(&self, states: Seq<bool>, name: Seq<char>, on: bool) -> Seq<
        bool,
    > {
        match profile_lookup(self.layer_profiles@, name, self.layer_profiles@.len() as int) {
            Some(p) => {
                let profile = self.layer_profiles@[p as int].1;
                self.states_after_aliases(
                    self.states_after_indices(states, profile.indices@, on, profile.indices@.len() as int),
                    profile.aliases@,
                    on,
                    profile.aliases@.len() as int,
                )
            },
            None => states,
        }
    }

    /// Sets up a manager with every layer off and the identity merged view.
    pub fn new(layers: Layers, layer_aliases: LayerAliases, layer_profiles: LayerProfiles) -> (r:
        Self)
        requires
            forall|l: int| 0 <= l < layers@.len() ==> (#[trigger] layers@[l]).wf(),
            forall|a: int|
                0 <= a < layer_aliases@.len() ==> (#[trigger] layer_aliases@[a]).1 < layers@.len(),
            forall|p: int, q: int|
                0 <= p < layer_profiles@.len() && 0 <= q < layer_profiles@[p].1.indices@.len()
                    ==> #[trigger] layer_profiles@[p].1.indices@[q] < layers@.len(),
        ensures
            r.wf(),
            r.layers == layers,
            r.layer_aliases == layer_aliases,
            r.layer_profiles == layer_profiles,
            r.layers_states@ == Seq::new(layers@.len(), |l: int| false),
            forall|i: int| 0 <= i < KEY_MAX ==> #[trigger] r.key_locks@[i] is None,
            r.global_lock is None,
    {
        let merged = init_merged();
        let layers_count = layers.len();
        let mut layers_states: Vec<bool> = Vec::new();
        let mut n: usize = 0;
        while n < layers_count
            invariant
                n <= layers_count,
                layers_states@ == Seq::new(n as nat, |l: int| false),
            decreases layers_count - n,
        {
            layers_states.push(false);
            n = n + 1;
        }
        let mut key_locks: Vec<Option<LockOwner>> = Vec::new();
        let mut n: usize = 0;
        while n < KEY_MAX
            invariant
                n <= KEY_MAX,
                key_locks@.len() == n,
                forall|i: int| 0 <= i < n ==> #[trigger] key_locks@[i] is None,
            decreases KEY_MAX - n,
        {
            key_locks.push(None);
            n = n + 1;
        }
        let r = LayersManager {
            merged,
            layers,
            layer_aliases,
            layer_profiles,
            layers_states,
            key_locks,
            global_lock: None,
        };
        assert forall|i: int| 0 <= i < KEY_MAX implies #[trigger] r.merged@[i] == merged_entry(
            r.layers@,
            r.layers_states@,
            i,
        ) by {
            lemma_top_active_unique(r.layers@, r.layers_states@, i, r.layers@.len() as int, None);
        }
        r
    }

    // ---------------- Locks -------------------------

    /// Locks `key` for `owner`; the key must not be locked already.
    pub fn lock_key(&mut self, key: KeyCode, owner: LockOwner)
        requires
            old(self).wf(),
            key.valid(),
            old(self).key_locks@[key.code as int] is None,
        ensures
            final(self).wf(),
            final(self).key_locks@ == old(self).key_locks@.update(key.code as int, Some(owner)),
            final(self).merged == old(self).merged,
            final(self).layers_states == old(self).layers_states,
            final(self).layers == old(self).layers,
            final(self).layer_aliases == old(self).layer_aliases,
            final(self).layer_profiles == old(self).layer_profiles,
            final(self).global_lock == old(self).global_lock,
    {
        self.key_locks.set(key.index(), Some(owner));
    }

    /// Releases the lock `owner` holds on `key`.
    pub fn unlock_key(&mut self, key: KeyCode, owner: LockOwner)
        requires
            old(self).wf(),
            key.valid(),
            old(self).key_locks@[key.code as int] == Some(owner),
        ensures
            final(self).wf(),
            final(self).key_locks@ == old(self).key_locks@.update(key.code as int, None),
            final(self).merged == old(self).merged,
            final(self).layers_states == old(self).layers_states,
            final(self).layers == old(self).layers,
            final(self).layer_aliases == old(self).layer_aliases,
            final(self).layer_profiles == old(self).layer_profiles,
            final(self).global_lock == old(self).global_lock,
    {
        self.key_locks.set(key.index(), None);
    }

    /// Takes the global lock for `owner`; no global lock may be held.
    pub fn lock_all(&mut self, owner: LockOwner)
        requires
            old(self).wf(),
            old(self).global_lock is None,
        ensures
            final(self).wf(),
            final(self).global_lock == Some(owner),
            final(self).merged == old(self).merged,
            final(self).layers_states == old(self).layers_states,
            final(self).layers == old(self).layers,
            final(self).layer_aliases == old(self).layer_aliases,
            final(self).layer_profiles == old(self).layer_profiles,
            final(self).key_locks == old(self).key_locks,
    {
        self.global_lock = Some(owner);
    }

    /// Releases the global lock, which must be held.
    pub fn unlock_all(&mut self, _owner: LockOwner)
        requires
            old(self).wf(),
            old(self).global_lock is Some,
        ensures
            final(self).wf(),
            final(self).global_lock is None,
            final(self).merged == old(self).merged,
            final(self).layers_states == old(self).layers_states,
            final(self).layers == old(self).layers,
            final(self).layer_aliases == old(self).layer_aliases,
            final(self).layer_profiles == old(self).layer_profiles,
            final(self).key_locks == old(self).key_locks,
    {
        self.global_lock = None;
    }

    pub fn is_all_locked(&self) -> (r: bool)
        ensures
            r == self.global_lock is Some,
    {
        self.global_lock.is_some()
    }

    pub fn is_key_locked(&self, key: KeyCode) -> (r: bool)
        requires
            self.wf(),
            key.valid(),
        ensures
            r == self.key_locks@[key.code as int] is Some,
    {
        self.key_locks[key.index()].is_some()
    }

    // ---------------- Queries -------------------------

    /// The effective action of `key` and the layer that supplied it.
    pub fn get(&self, key: KeyCode) -> (r: &MergedKey)
        requires
            self.wf(),
            key.valid(),
        ensures
            *r == self.entry(key.code as int),
    {
        match &self.merged[key.index()] {
            Some(merged_key) => merged_key,
            None => {
                proof {
                    assert(self.merged@[key.code as int] is Some);
                }
                vstd::pervasive::unreached()
            },
        }
    }

    // ---------------- Layers Changes -------------------------

    /// Activates the base layer.
    pub fn init(&mut self)
        requires
            old(self).wf(),
            old(self).layers@.len() > 0,
        ensures
            final(self).wf(),
            final(self).same_config(old(self)),
            final(self).layers_states@ == old(self).states_after_on(old(self).layers_states@, 0),
    {
        self.turn_layer_on(0);
    }

    /// Whether an entry supplied by layer `candidate_layer_index` takes
    /// precedence over the current entry of `candidate_code`.
    fn is_overriding_key(&self, candidate_code: KeyCode, candidate_layer_index: LayerIndex) -> (r:
        bool)
        requires
            self.merged@.len() == KEY_MAX,
            candidate_code.valid(),
            self.merged@[candidate_code.code as int] is Some,
        ensures
            r == (candidate_layer_index >= self.merged@[candidate_code.code as int]->Some_0.layer_index),
    {
        match &self.merged[candidate_code.index()] {
            Some(current) => candidate_layer_index >= current.layer_index,
            None => false,
        }
    }

    /// The entry for `removed_code` supplied by the highest active layer at or
    /// below the layer of its current entry, else its identity entry.
    fn get_replacement_merged_key(&self, removed_code: KeyCode) -> (r: MergedKey)
        requires
            self.layers@.len() <= usize::MAX,
            self.layers_states@.len() == self.layers@.len(),
            forall|l: int| 0 <= l < self.layers@.len() ==> (#[trigger] self.layers@[l]).wf(),
            self.merged@.len() == KEY_MAX,
            removed_code.valid(),
            self.merged@[removed_code.code as int] matches Some(m) && m.layer_index
                < self.layers@.len(),
        ensures
            ({
                let i = removed_code.code as int;
                let n = self.merged@[i]->Some_0.layer_index + 1;
                r == match top_active(self.layers@, self.layers_states@, i, n) {
                    Some(l) => MergedKey {
                        code: removed_code,
                        action: self.layers@[l].action_at(i),
                        layer_index: l as usize,
                    },
                    None => MergedKey {
                        code: removed_code,
                        action: identity_action(removed_code),
                        layer_index: 0,
                    },
                }
            }),
    {
        let ghost i = removed_code.code as int;
        let current = match &self.merged[removed_code.index()] {
            Some(m) => m.layer_index,
            None => 0,
        };
        assert(current == self.merged@[i]->Some_0.layer_index);
        let mut n: usize = current + 1;
        while n > 0
            invariant
                0 <= n <= current + 1,
                current == self.merged@[i]->Some_0.layer_index,
                current < self.layers@.len(),
                self.layers@.len() <= usize::MAX,
                removed_code.valid(),
                i == removed_code.code,
                self.merged@.len() == KEY_MAX,
                self.layers_states@.len() == self.layers@.len(),
                forall|l: int| 0 <= l < self.layers@.len() ==> (#[trigger] self.layers@[l]).wf(),
                top_active(self.layers@, self.layers_states@, i, current + 1) == top_active(
                    self.layers@,
                    self.layers_states@,
                    i,
                    n as int,
                ),
            decreases n,
        {
            let l = n - 1;
            if self.layers_states[l] {
                if let Some(action) = self.layers[l].get(removed_code) {
                    return MergedKey { code: removed_code, action, layer_index: l };
                }
            }
            n = l;
        }
        MergedKey {
            code: removed_code,
            action: Action::Tap(Effect::Key(removed_code)),
            layer_index: 0,
        }
    }

    /// The first key of `layer` that is locked, if any.
    fn will_layer_override_held_lock(&self, layer: &Layer) -> (r: Option<KeyCode>)
        requires
            layer.wf(),
            self.key_locks@.len() == KEY_MAX,
        ensures
            r is None <==> forall|i: int|
                0 <= i < KEY_MAX && layer.has(i) ==> (#[trigger] self.key_locks@[i]) is None,
            r matches Some(k) ==> k.valid() && layer.has(k.code as int) && self.key_locks@[k.code as int] is Some,
    {
        let mut j: usize = 0;
        while j < layer.keys.len()
            invariant
                j <= layer.keys@.len(),
                layer.wf(),
                self.key_locks@.len() == KEY_MAX,
                forall|j2: int|
                    0 <= j2 < j ==> self.key_locks@[(#[trigger] layer.keys@[j2]).code as int] is None,
            decreases layer.keys@.len() - j,
        {
            let key = layer.keys[j];
            proof {
                assert(layer.keys@[j as int].valid());
            }
            if self.key_locks[key.index()].is_some() {
                assert(layer.has(key.code as int));
                return Some(key);
            }
            j = j + 1;
        }
        assert forall|i: int| 0 <= i < KEY_MAX && layer.has(i) implies (
        #[trigger] self.key_locks@[i]) is None by {
            assert(layer.slots@[i] is Some);
        }
        None
    }

    /// Whether layer `index` may be switched under the current locks.
    fn is_layer_change_safe(&self, index: LayerIndex) -> (r: bool)
        requires
            self.wf(),
            index < self.layers@.len(),
        ensures
            r == !self.change_blocked(index as int),
    {
        if self.is_all_locked() {
            return false;
        }
        if let Some(_locked) = self.will_layer_override_held_lock(&self.layers[index]) {
            return false;
        }
        true
    }

    /// Activates layer `index` unless it is on already or a lock blocks the change.
    pub fn turn_layer_on(&mut self, index: LayerIndex)
        requires
            old(self).wf(),
            index < old(self).layers@.len(),
        ensures
            final(self).wf(),
            final(self).same_config(old(self)),
            final(self).layers_states@ == old(self).states_after_on(
                old(self).layers_states@,
                index as int,
            ),
    {
        if !self.layers_states[index] {
            if !self.is_layer_change_safe(index) {
                return;
            }
            let ghost layers = self.layers@;
            let ghost states0 = self.layers_states@;
            let ghost states1 = states0.update(index as int, true);
            let ghost merged0 = self.merged@;
            let ghost lay = self.layers@[index as int];
            let n_layers = self.layers.len();
            let n = self.layers[index].keys.len();
            let mut j: usize = 0;
            while j < n
                invariant
                    j <= n,
                    n == lay.keys@.len(),
                    n_layers == layers.len(),
                    lay == layers[index as int],
                    index < layers.len(),
                    self.layers@ == layers,
                    self.layers_states@ == states0,
                    !states0[index as int],
                    states0.len() == layers.len(),
                    states1 == states0.update(index as int, true),
                    forall|l: int| 0 <= l < layers.len() ==> (#[trigger] layers[l]).wf(),
                    self.same_config(old(self)),
                    self.merged@.len() == KEY_MAX,
                    merged0.len() == KEY_MAX,
                    forall|i: int|
                        0 <= i < KEY_MAX ==> #[trigger] merged0[i] == merged_entry(layers, states0, i),
                    forall|i: int|
                        0 <= i < KEY_MAX && !lay.has(i) ==> #[trigger] self.merged@[i] == merged0[i],
                    forall|i: int|
                        0 <= i < KEY_MAX && lay.has(i) ==> #[trigger] self.merged@[i] == merged0[i]
                            || self.merged@[i] == merged_entry(layers, states1, i),
                    forall|j2: int|
                        0 <= j2 < j ==> self.merged@[(#[trigger] lay.keys@[j2]).code as int]
                            == merged_entry(layers, states1, lay.keys@[j2].code as int),
                decreases n - j,
            {
                let code = self.layers[index].keys[j];
                let ghost i = code.code as int;
                proof {
                    assert(lay.keys@[j as int].valid());
                    let n = layers.len() as int;
                    lemma_top_active(layers, states0, i, n);
                    assert forall|k: int| 0 <= k < n && k != index implies active_has(
                        layers,
                        states1,
                        i,
                        k,
                    ) == active_has(layers, states0, i, k) by {}
                    assert(active_has(layers, states1, i, index as int));
                    let e0 = effective(layers, states0, i);
                    let e1 = effective(layers, states1, i);
                    assert(merged0[i] == Some(e0));
                    match top_active(layers, states0, i, n) {
                        Some(t) => {
                            if t > index {
                                lemma_top_active_unique(layers, states1, i, n, Some(t));
                                assert(e1 == e0);
                            } else {
                                lemma_top_active_unique(layers, states1, i, n, Some(index as int));
                                assert(e1.layer_index == index);
                            }
                        },
                        None => {
                            lemma_top_active_unique(layers, states1, i, n, Some(index as int));
                            assert(e1.layer_index == index);
                        },
                    }
                    assert(e1.layer_index >= index);
                    assert(e0.layer_index > index ==> e1 == e0);
                    assert(e0.layer_index <= index ==> e1.layer_index == index);
                    assert(e1.layer_index == index ==> e1.action == lay.action_at(i));
                }
                let is_overriding = self.is_overriding_key(code, index);
                if is_overriding {
                    let action = match self.layers[index].get(code) {
                        Some(a) => a,
                        None => Action::Tap(Effect::Key(code)),
                    };
                    let new_entry = MergedKey { code, action, layer_index: index };
                    proof {
                        let e1 = effective(layers, states1, i);
                        assert(e1.code == code);
                        assert(e1.layer_index == index);
                        assert(e1.action == action);
                    }
                    self.merged.set(code.index(), Some(new_entry));
                }
                assert(self.merged@[i] == merged_entry(layers, states1, i));
                assert(lay.keys@[j as int] == code);
                assert forall|j2: int| 0 <= j2 < j + 1 implies self.merged@[(
                #[trigger] lay.keys@[j2]).code as int] == merged_entry(
                    layers,
                    states1,
                    lay.keys@[j2].code as int,
                ) by {
                    if j2 < j && lay.keys@[j2].code != code.code {
                        assert(lay.keys@[j2].valid());
                    }
                }
                j = j + 1;
            }
            self.layers_states.set(index, true);
            assert forall|i: int| 0 <= i < KEY_MAX implies #[trigger] self.merged@[i]
                == merged_entry(self.layers@, self.layers_states@, i) by {
                if lay.has(i) {
                    assert(lay.slots@[i] is Some);
                    let j2 = choose|j2: int| 0 <= j2 < lay.keys@.len() && (#[trigger] lay.keys@[j2]).code == i;
                    assert(self.merged@[lay.keys@[j2].code as int] == merged_entry(layers, states1, i));
                } else {
                    lemma_effective_unaffected(layers, states0, index as int, true, i);
                }
            }
        }
    }

    /// Deactivates layer `index` unless it is the base, is off already, or a
    /// lock blocks the change.
    pub fn turn_layer_off(&mut self, index: LayerIndex)
        requires
            old(self).wf(),
            index < old(self).layers@.len(),
        ensures
            final(self).wf(),
            final(self).same_config(old(self)),
            final(self).layers_states@ == old(self).states_after_off(
                old(self).layers_states@,
                index as int,
            ),
    {
        if index > 0 && self.layers_states[index] {
            if !self.is_layer_change_safe(index) {
                return;
            }
            let ghost layers = self.layers@;
            let ghost states0 = self.layers_states@;
            let ghost merged0 = self.merged@;
            let ghost lay = self.layers@[index as int];
            self.layers_states.set(index, false);
            let ghost states1 = self.layers_states@;
            let n_layers = self.layers.len();
            let n = self.layers[index].keys.len();
            let mut j: usize = 0;
            while j < n
                invariant
                    j <= n,
                    n == lay.keys@.len(),
                    n_layers == layers.len(),
                    lay == layers[index as int],
                    index < layers.len(),
                    self.layers@ == layers,
                    self.layers_states@ == states1,
                    states0[index as int],
                    states0.len() == layers.len(),
                    states1 == states0.update(index as int, false),
                    forall|l: int| 0 <= l < layers.len() ==> (#[trigger] layers[l]).wf(),
                    self.same_config(old(self)),
                    self.merged@.len() == KEY_MAX,
                    merged0.len() == KEY_MAX,
                    forall|i: int|
                        0 <= i < KEY_MAX ==> #[trigger] merged0[i] == merged_entry(layers, states0, i),
                    forall|i: int|
                        0 <= i < KEY_MAX && !lay.has(i) ==> #[trigger] self.merged@[i] == merged0[i],
                    forall|i: int|
                        0 <= i < KEY_MAX && lay.has(i) ==> #[trigger] self.merged@[i] == merged0[i]
                            || self.merged@[i] == merged_entry(layers, states1, i),
                    forall|j2: int|
                        0 <= j2 < j ==> self.merged@[(#[trigger] lay.keys@[j2]).code as int]
                            == merged_entry(layers, states1, lay.keys@[j2].code as int),
                decreases n - j,
            {
                let code = self.layers[index].keys[j];
                let ghost i = code.code as int;
                proof {
                    assert(lay.keys@[j as int].valid());
                    let nn = layers.len() as int;
                    lemma_top_active(layers, states0, i, nn);
                    lemma_top_active(layers, states1, i, nn);
                    assert forall|k: int| 0 <= k < nn && k != index implies active_has(
                        layers,
                        states1,
                        i,
                        k,
                    ) == active_has(layers, states0, i, k) by {}
                    assert(active_has(layers, states0, i, index as int));
                    assert(!active_has(layers, states1, i, index as int));
                    let e0 = effective(layers, states0, i);
                    let e1 = effective(layers, states1, i);
                    assert(merged0[i] == Some(e0));
                    let top1 = top_active(layers, states1, i, nn);
                    if self.merged@[i] == merged0[i] {
                        if let Some(t) = top_active(layers, states0, i, nn) {
                            if t > index {
                                lemma_top_active_unique(layers, states1, i, nn, Some(t));
                                lemma_top_active_unique(layers, states1, i, t + 1, Some(t));
                            } else {
                                lemma_top_active(layers, states1, i, index + 1);
                                lemma_top_active_unique(
                                    layers,
                                    states1,
                                    i,
                                    nn,
                                    top_active(layers, states1, i, index + 1),
                                );
                            }
                        }
                    } else {
                        match top1 {
                            Some(t) => {
                                lemma_top_active_unique(layers, states1, i, t + 1, Some(t));
                            },
                            None => {
                                lemma_top_active_unique(layers, states1, i, 1, None);
                            },
                        }
                    }
                    assert(top_active(
                        layers,
                        states1,
                        i,
                        self.merged@[i]->Some_0.layer_index + 1,
                    ) == top1);
                }
                let replacement = self.get_replacement_merged_key(code);
                assert(Some(replacement) == merged_entry(layers, states1, i));
                self.merged.set(code.index(), Some(replacement));
                assert(lay.keys@[j as int] == code);
                assert forall|j2: int| 0 <= j2 < j + 1 implies self.merged@[(
                #[trigger] lay.keys@[j2]).code as int] == merged_entry(
                    layers,
                    states1,
                    lay.keys@[j2].code as int,
                ) by {
                    if j2 < j && lay.keys@[j2].code != code.code {
                        assert(lay.keys@[j2].valid());
                    }
                }
                j = j + 1;
            }
            assert forall|i: int| 0 <= i < KEY_MAX implies #[trigger] self.merged@[i]
                == merged_entry(self.layers@, self.layers_states@, i) by {
                if lay.has(i) {
                    assert(lay.slots@[i] is Some);
                    let j2 = choose|j2: int| 0 <= j2 < lay.keys@.len() && (#[trigger] lay.keys@[j2]).code == i;
                    assert(self.merged@[lay.keys@[j2].code as int] == merged_entry(layers, states1, i));
                } else {
                    lemma_effective_unaffected(layers, states0, index as int, false, i);
                }
            }
        }
    }

    /// Switches layer `index` to the other state, subject to the same rules
    /// as `turn_layer_on` and `turn_layer_off`.
    pub fn toggle_layer(&mut self, index: LayerIndex)
        requires
            old(self).wf(),
            index < old(self).layers@.len(),
        ensures
            final(self).wf(),
            final(self).same_config(old(self)),
            final(self).layers_states@ == old(self).states_after_toggle(
                old(self).layers_states@,
                index as int,
            ),
    {
        let is_layer_on = self.layers_states[index];
        if is_layer_on {
            self.turn_layer_off(index);
        } else {
            self.turn_layer_on(index);
        }
    }

    /// Toggles the layer named `name`; an unknown name does nothing.
    pub fn toggle_layer_alias(&mut self, name: String)
        requires
            old(self).wf(),
        ensures
            final(self).wf(),
            final(self).same_config(old(self)),
            final(self).layers_states@ == match old(self).alias_index(name@) {
                Some(index) => old(self).states_after_toggle(old(self).layers_states@, index as int),
                None => old(self).layers_states@,
            },
    {
        if let Some(index) = self.get_idx_from_alias(&name) {
            self.toggle_layer(index);
        }
    }

    /// Turns on the layer named `name`; an unknown name does nothing.
    pub fn turn_alias_on(&mut self, name: String)
        requires
            old(self).wf(),
        ensures
            final(self).wf(),
            final(self).same_config(old(self)),
            final(self).layers_states@ == old(self).states_after_alias(
                old(self).layers_states@,
                name@,
                true,
            ),
    {
        if let Some(index) = self.get_idx_from_alias(&name) {
            self.turn_layer_on(index);
        }
    }

    /// Turns off the layer named `name`; an unknown name does nothing.
    pub fn turn_alias_off(&mut self, name: String)
        requires
            old(self).wf(),
        ensures
            final(self).wf(),
            final(self).same_config(old(self)),
            final(self).layers_states@ == old(self).states_after_alias(
                old(self).layers_states@,
                name@,
                false,
            ),
    {
        if let Some(index) = self.get_idx_from_alias(&name) {
            self.turn_layer_off(index);
        }
    }

    /// Applies the profile named `name`: each of its indices, then each of its
    /// aliases, in order, is turned on (`on`) or off. An unknown name does
    /// nothing. A change refused by a lock does not stop the others.
    pub fn toggle_profile(&mut self, name: String, on: bool)
        requires
            old(self).wf(),
        ensures
            final(self).wf(),
            final(self).same_config(old(self)),
            final(self).layers_states@ == old(self).states_after_profile(
                old(self).layers_states@,
                name@,
                on,
            ),
    {
        if let Some(p) = self.get_idx_from_profile(&name) {
            let ghost prof = self.layer_profiles@[p as int].1;
            let ghost states0 = self.layers_states@;
            let n = self.layer_profiles[p].1.indices.len();
            let mut j: usize = 0;
            while j < n
                invariant
                    j <= n,
                    p < old(self).layer_profiles@.len(),
                    prof == old(self).layer_profiles@[p as int].1,
                    n == prof.indices@.len(),
                    states0 == old(self).layers_states@,
                    self.wf(),
                    self.same_config(old(self)),
                    self.layers_states@ == old(self).states_after_indices(
                        states0,
                        prof.indices@,
                        on,
                        j as int,
                    ),
                decreases n - j,
            {
                let index = self.layer_profiles[p].1.indices[j];
                if on {
                    self.turn_layer_on(index);
                } else {
                    self.turn_layer_off(index);
                }
                j = j + 1;
            }
            let ghost states1 = self.layers_states@;
            let m = self.layer_profiles[p].1.aliases.len();
            let mut j: usize = 0;
            while j < m
                invariant
                    j <= m,
                    p < old(self).layer_profiles@.len(),
                    prof == old(self).layer_profiles@[p as int].1,
                    m == prof.aliases@.len(),
                    self.wf(),
                    self.same_config(old(self)),
                    self.layers_states@ == old(self).states_after_aliases(
                        states1,
                        prof.aliases@,
                        on,
                        j as int,
                    ),
                decreases m - j,
            {
                let alias = self.layer_profiles[p].1.aliases[j].clone();
                if on {
                    self.turn_alias_on(alias);
                } else {
                    self.turn_alias_off(alias);
                }
                j = j + 1;
            }
        }
    }

    /// The layer the first alias named `name` refers to.
    fn get_idx_from_alias(&self, name: &String) -> (r: Option<LayerIndex>)
        requires
            self.wf(),
        ensures
            r == self.alias_index(name@),
            r matches Some(index) ==> index < self.layers@.len(),
    {
        let mut a: usize = 0;
        while a < self.layer_aliases.len()
            invariant
                a <= self.layer_aliases@.len(),
                self.wf(),
                alias_lookup(self.layer_aliases@, name@, a as int) is None,
            decreases self.layer_aliases@.len() - a,
        {
            if self.layer_aliases[a].0 == *name {
                proof {
                    lemma_alias_lookup_stable(
                        self.layer_aliases@,
                        name@,
                        a + 1,
                        self.layer_aliases@.len() as int,
                    );
                }
                return Some(self.layer_aliases[a].1);
            }
            a = a + 1;
        }
        None
    }

    /// The position of the first profile named `name`.
    fn get_idx_from_profile(&self, name: &String) -> (r: Option<usize>)
        ensures
            r == profile_lookup(self.layer_profiles@, name@, self.layer_profiles@.len() as int),
            r matches Some(p) ==> p < self.layer_profiles@.len(),
    {
        let mut p: usize = 0;
        while p < self.layer_profiles.len()
            invariant
                p <= self.layer_profiles@.len(),
                profile_lookup(self.layer_profiles@, name@, p as int) is None,
            decreases self.layer_profiles@.len() - p,
        {
            if self.layer_profiles[p].0 == *name {
                proof {
                    lemma_profile_lookup_stable(
                        self.layer_profiles@,
                        name@,
                        p + 1,
                        self.layer_profiles@.len() as int,
                    );
                }
                return Some(p);
            }
            p = p + 1;
        }
        None
    }
}

} // verus!
