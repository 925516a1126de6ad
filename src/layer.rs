use vstd::prelude::*;

use crate::actions::Action;
use crate::keys::{is_key_index, KeyCode, KEY_MAX};

verus! {

/// A sparse mapping from key codes to actions, stored densely by key index
/// together with the list of the keys it defines.
#[derive(Clone, Debug)]
pub struct Layer {
    /// `slots[i]` is the action this layer gives to the key with index `i`.
    pub slots: Vec<Option<Action>>,
    /// The keys this layer defines, in insertion order.
    pub keys: Vec<KeyCode>,
}

/// The action bound to key index `i` by the last pair of `pairs[..n]` that names it.
pub open spec fn pairs_lookup(pairs: Seq<(KeyCode, Action)>, i: int, n: int) -> Option<Action>
    decreases n,
{
    if n <= 0 {
        None
    } else if pairs[n - 1].0.code == i {
        Some(pairs[n - 1].1)
    } else {
        pairs_lookup(pairs, i, n - 1)
    }
}

impl Layer {
    /// Slots cover every key index, only valid keys are bound, and `keys`
    /// lists exactly the bound keys.
    pub open spec fn wf(&self) -> bool {
        &&& self.slots@.len() == KEY_MAX
        &&& forall|j: int|
            0 <= j < self.keys@.len() ==> #[trigger] self.keys@[j].valid()
                && self.slots@[self.keys@[j].code as int] is Some
        &&& forall|i: int|
            0 <= i < KEY_MAX && #[trigger] self.slots@[i] is Some ==> is_key_index(i) && exists|
                j: int,
            |
                0 <= j < self.keys@.len() && (#[trigger] self.keys@[j]).code == i
    }

    /// Whether this layer binds the key with index `i`.
    pub open spec fn has(&self, i: int) -> bool {
        self.slots@[i] is Some
    }

    /// The action this layer binds to the key with index `i` (meaningful when `has(i)`).
    pub open spec fn action_at(&self, i: int) -> Action {
        self.slots@[i]->Some_0
    }

    /// A layer that binds no key.
    pub fn new() -> (r: Layer)
        ensures
            r.wf(),
            forall|i: int| 0 <= i < KEY_MAX ==> #[trigger] r.slots@[i] is None,
    {
        let mut slots: Vec<Option<Action>> = Vec::new();
        let mut n: usize = 0;
        while n < KEY_MAX
            invariant
                n <= KEY_MAX,
                slots@.len() == n,
                forall|i: int| 0 <= i < n ==> slots@[i] is None,
            decreases KEY_MAX - n,
        {
            slots.push(None);
            n = n + 1;
        }
        Layer { slots, keys: Vec::new() }
    }

    /// Binds `code` to `action`, replacing any earlier binding of `code`.
    pub fn insert(&mut self, code: KeyCode, action: Action)
        requires
            old(self).wf(),
            code.valid(),
        ensures
            final(self).wf(),
            final(self).slots@ == old(self).slots@.update(code.code as int, Some(action)),
    {
        let i = code.index();
        if self.slots[i].is_none() {
            self.keys.push(code);
        }
        self.slots.set(i, Some(action));
        assert forall|i2: int|
            0 <= i2 < KEY_MAX && #[trigger] self.slots@[i2] is Some implies is_key_index(i2)
                && exists|j: int| 0 <= j < self.keys@.len() && (#[trigger] self.keys@[j]).code == i2 by {
            if i2 == i as int {
                if old(self).slots@[i2] is None {
                    assert(self.keys@[self.keys@.len() - 1].code == i2);
                }
            } else {
                assert(old(self).slots@[i2] is Some);
                let j = choose|j: int|
                    0 <= j < old(self).keys@.len() && (#[trigger] old(self).keys@[j]).code == i2;
                assert(self.keys@[j] == old(self).keys@[j]);
            }
        }
    }

    /// Builds a layer from `(key, action)` pairs; a later pair for the same key wins.
    pub fn from_pairs(pairs: &Vec<(KeyCode, Action)>) -> (r: Layer)
        requires
            forall|j: int| 0 <= j < pairs@.len() ==> (#[trigger] pairs@[j]).0.valid(),
        ensures
            r.wf(),
            forall|i: int|
                0 <= i < KEY_MAX ==> #[trigger] r.slots@[i] == pairs_lookup(
                    pairs@,
                    i,
                    pairs@.len() as int,
                ),
    {
        let mut layer = Layer::new();
        let mut j: usize = 0;
        while j < pairs.len()
            invariant
                j <= pairs@.len(),
                layer.wf(),
                forall|j2: int| 0 <= j2 < pairs@.len() ==> (#[trigger] pairs@[j2]).0.valid(),
                forall|i: int|
                    0 <= i < KEY_MAX ==> #[trigger] layer.slots@[i] == pairs_lookup(
                        pairs@,
                        i,
                        j as int,
                    ),
            decreases pairs@.len() - j,
        {
            let (code, action) = pairs[j];
            layer.insert(code, action);
            j = j + 1;
        }
        layer
    }

    /// Whether this layer binds `code`.
    pub fn contains(&self, code: KeyCode) -> (r: bool)
        requires
            self.wf(),
            code.valid(),
        ensures
            r == self.has(code.code as int),
    {
        self.slots[code.index()].is_some()
    }

    /// The action this layer binds to `code`, if any.
    pub fn get(&self, code: KeyCode) -> (r: Option<Action>)
        requires
            self.wf(),
            code.valid(),
        ensures
            r == self.slots@[code.code as int],
    {
        self.slots[code.index()]
    }
}

} // verus!
