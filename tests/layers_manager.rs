use ktrl::actions::Action::{Sticky, Tap, TapHold};
use ktrl::actions::Effect::{Key, ToggleLayer};
use ktrl::keys::{
    KeyCode, KEY_A, KEY_CAPSLOCK, KEY_D, KEY_DOWN, KEY_H, KEY_J, KEY_K, KEY_L, KEY_LEFT,
    KEY_LEFTALT, KEY_LEFTCTRL, KEY_LEFTSHIFT, KEY_RIGHT, KEY_S, KEY_UP,
};
use ktrl::layer::Layer;
use ktrl::layers::{LayerAliases, LayerProfiles, LayersManager, LockOwner, Profile};

fn key(code: u16) -> KeyCode {
    KeyCode::try_from_index(code as usize).unwrap()
}

fn aliases(names: &[(&str, usize)]) -> LayerAliases {
    names.iter().map(|(n, i)| (n.to_string(), *i)).collect()
}

fn scenario_layers() -> Vec<Layer> {
    vec![
        // Ex: switch CTRL <--> Capslock
        Layer::from_pairs(&vec![
            (key(KEY_LEFTCTRL), Tap(Key(key(KEY_CAPSLOCK)))),
            (key(KEY_CAPSLOCK), Tap(Key(key(KEY_LEFTCTRL)))),
        ]),
        // 1: arrows layer
        Layer::from_pairs(&vec![
            (key(KEY_H), Tap(Key(key(KEY_LEFT)))),
            (key(KEY_J), Tap(Key(key(KEY_DOWN)))),
            (key(KEY_K), Tap(Key(key(KEY_UP)))),
            (key(KEY_L), Tap(Key(key(KEY_RIGHT)))),
        ]),
        // 2: asdf modifiers
        Layer::from_pairs(&vec![
            (key(KEY_A), TapHold(Key(key(KEY_A)), Key(key(KEY_LEFTCTRL)))),
            (key(KEY_S), TapHold(Key(key(KEY_S)), Key(key(KEY_LEFTSHIFT)))),
            (key(KEY_D), TapHold(Key(key(KEY_D)), Key(key(KEY_LEFTALT)))),
        ]),
    ]
}

fn scenario_manager(profiles: LayerProfiles) -> LayersManager {
    let h = aliases(&[("base", 0), ("arrows", 1), ("asdf", 2)]);
    LayersManager::new(scenario_layers(), h, profiles)
}

#[test]
fn test_mgr() {
    let mut mgr = scenario_manager(Vec::new());
    mgr.init();
    assert_eq!(mgr.layers_states.len(), 3);
    assert_eq!(mgr.layers_states[0], true);

    mgr.turn_layer_on(2);
    assert_eq!(mgr.get(key(KEY_H)).action, Tap(Key(key(KEY_H))));
    assert_eq!(mgr.get(key(KEY_J)).action, Tap(Key(key(KEY_J))));
    assert_eq!(mgr.get(key(KEY_K)).action, Tap(Key(key(KEY_K))));
    assert_eq!(mgr.get(key(KEY_L)).action, Tap(Key(key(KEY_L))));

    assert_eq!(mgr.get(key(KEY_A)).action, TapHold(Key(key(KEY_A)), Key(key(KEY_LEFTCTRL))));
    assert_eq!(mgr.get(key(KEY_S)).action, TapHold(Key(key(KEY_S)), Key(key(KEY_LEFTSHIFT))));
    assert_eq!(mgr.get(key(KEY_D)).action, TapHold(Key(key(KEY_D)), Key(key(KEY_LEFTALT))));

    mgr.turn_layer_on(1);
    assert_eq!(mgr.get(key(KEY_H)).action, Tap(Key(key(KEY_LEFT))));
    assert_eq!(mgr.get(key(KEY_J)).action, Tap(Key(key(KEY_DOWN))));
    assert_eq!(mgr.get(key(KEY_K)).action, Tap(Key(key(KEY_UP))));
    assert_eq!(mgr.get(key(KEY_L)).action, Tap(Key(key(KEY_RIGHT))));

    assert_eq!(mgr.get(key(KEY_A)).action, TapHold(Key(key(KEY_A)), Key(key(KEY_LEFTCTRL))));
    assert_eq!(mgr.get(key(KEY_S)).action, TapHold(Key(key(KEY_S)), Key(key(KEY_LEFTSHIFT))));
    assert_eq!(mgr.get(key(KEY_D)).action, TapHold(Key(key(KEY_D)), Key(key(KEY_LEFTALT))));

    mgr.turn_layer_off(2);
    assert_eq!(mgr.get(key(KEY_H)).action, Tap(Key(key(KEY_LEFT))));
    assert_eq!(mgr.get(key(KEY_J)).action, Tap(Key(key(KEY_DOWN))));
    assert_eq!(mgr.get(key(KEY_K)).action, Tap(Key(key(KEY_UP))));
    assert_eq!(mgr.get(key(KEY_L)).action, Tap(Key(key(KEY_RIGHT))));

    assert_eq!(mgr.get(key(KEY_A)).action, Tap(Key(key(KEY_A))));
    assert_eq!(mgr.get(key(KEY_S)).action, Tap(Key(key(KEY_S))));
    assert_eq!(mgr.get(key(KEY_D)).action, Tap(Key(key(KEY_D))));

    mgr.toggle_layer(1);
    assert_eq!(mgr.get(key(KEY_H)).action, Tap(Key(key(KEY_H))));
    assert_eq!(mgr.get(key(KEY_J)).action, Tap(Key(key(KEY_J))));
    assert_eq!(mgr.get(key(KEY_K)).action, Tap(Key(key(KEY_K))));
    assert_eq!(mgr.get(key(KEY_L)).action, Tap(Key(key(KEY_L))));

    assert_eq!(mgr.get(key(KEY_A)).action, Tap(Key(key(KEY_A))));
    assert_eq!(mgr.get(key(KEY_S)).action, Tap(Key(key(KEY_S))));
    assert_eq!(mgr.get(key(KEY_D)).action, Tap(Key(key(KEY_D))));

    mgr.toggle_layer(1);
    assert_eq!(mgr.get(key(KEY_H)).action, Tap(Key(key(KEY_LEFT))));
    assert_eq!(mgr.get(key(KEY_J)).action, Tap(Key(key(KEY_DOWN))));
    assert_eq!(mgr.get(key(KEY_K)).action, Tap(Key(key(KEY_UP))));
    assert_eq!(mgr.get(key(KEY_L)).action, Tap(Key(key(KEY_RIGHT))));

    assert_eq!(mgr.get(key(KEY_A)).action, Tap(Key(key(KEY_A))));
    assert_eq!(mgr.get(key(KEY_S)).action, Tap(Key(key(KEY_S))));
    assert_eq!(mgr.get(key(KEY_D)).action, Tap(Key(key(KEY_D))));

    mgr.lock_all(LockOwner::LkTapHold);
    mgr.toggle_layer(1);
    assert_eq!(mgr.get(key(KEY_H)).action, Tap(Key(key(KEY_LEFT))));
    mgr.unlock_all(LockOwner::LkTapHold);
    mgr.toggle_layer(1);
    assert_eq!(mgr.get(key(KEY_H)).action, Tap(Key(key(KEY_H))));
}

#[test]
fn test_overlapping_keys() {
    let h = aliases(&[("base", 0), ("arrows", 1)]);
    let layers = vec![
        // 0: base layer
        Layer::from_pairs(&vec![(key(KEY_A), TapHold(Key(key(KEY_A)), Key(key(KEY_LEFTSHIFT))))]),
        // 1: arrows layer
        Layer::from_pairs(&vec![(key(KEY_A), TapHold(Key(key(KEY_A)), Key(key(KEY_LEFTSHIFT))))]),
    ];
    let mut mgr = LayersManager::new(layers, h, Vec::new());
    mgr.init();

    assert_eq!(mgr.layers_states.len(), 2);
    assert_eq!(mgr.get(key(KEY_A)).action, TapHold(Key(key(KEY_A)), Key(key(KEY_LEFTSHIFT))));
    mgr.turn_layer_on(1);
    assert_eq!(mgr.get(key(KEY_A)).action, TapHold(Key(key(KEY_A)), Key(key(KEY_LEFTSHIFT))));
    mgr.turn_layer_off(1);
    assert_eq!(mgr.get(key(KEY_A)).action, TapHold(Key(key(KEY_A)), Key(key(KEY_LEFTSHIFT))));
}

#[test]
fn identity_before_init_and_base_after() {
    let mut mgr = scenario_manager(Vec::new());
    assert_eq!(mgr.get(key(KEY_LEFTCTRL)).action, Tap(Key(key(KEY_LEFTCTRL))));
    assert_eq!(mgr.layers_states, vec![false, false, false]);
    mgr.init();
    let e = mgr.get(key(KEY_LEFTCTRL));
    assert_eq!(e.action, Tap(Key(key(KEY_CAPSLOCK))));
    assert_eq!(e.layer_index, 0);
    assert_eq!(e.code, key(KEY_LEFTCTRL));
    // init is idempotent
    mgr.init();
    assert_eq!(mgr.get(key(KEY_LEFTCTRL)).action, Tap(Key(key(KEY_CAPSLOCK))));
}

#[test]
fn every_valid_key_has_its_own_entry() {
    let mut mgr = scenario_manager(Vec::new());
    mgr.init();
    mgr.turn_layer_on(1);
    let mut count = 0;
    for i in 0..ktrl::keys::KEY_MAX {
        match KeyCode::try_from_index(i) {
            Some(k) => {
                assert_eq!(mgr.get(k).code, k);
                assert_eq!(mgr.get(k).code.index(), i);
                count += 1;
            }
            None => assert!(mgr.merged[i].is_none()),
        }
    }
    assert!(count > 0);
    assert!(KeyCode::try_from_index(84).is_none());
    assert!(KeyCode::try_from_index(250).is_none());
    assert!(KeyCode::try_from_index(766).is_none());
    assert!(KeyCode::try_from_index(767).is_none());
    assert!(KeyCode::try_from_index(632).is_some());
}

#[test]
fn highest_active_layer_supplies_entry() {
    let layers = vec![
        Layer::new(),
        Layer::from_pairs(&vec![(key(KEY_H), Tap(Key(key(KEY_LEFT))))]),
        Layer::from_pairs(&vec![(key(KEY_H), Tap(Key(key(KEY_RIGHT))))]),
    ];
    let mut mgr = LayersManager::new(layers, Vec::new(), Vec::new());
    mgr.init();
    mgr.turn_layer_on(2);
    mgr.turn_layer_on(1);
    assert_eq!(mgr.get(key(KEY_H)).action, Tap(Key(key(KEY_RIGHT))));
    assert_eq!(mgr.get(key(KEY_H)).layer_index, 2);
    // turning off a lower layer keeps the higher winner
    mgr.turn_layer_off(1);
    assert_eq!(mgr.get(key(KEY_H)).action, Tap(Key(key(KEY_RIGHT))));
    assert_eq!(mgr.get(key(KEY_H)).layer_index, 2);
    mgr.turn_layer_on(1);
    mgr.turn_layer_off(2);
    assert_eq!(mgr.get(key(KEY_H)).action, Tap(Key(key(KEY_LEFT))));
    assert_eq!(mgr.get(key(KEY_H)).layer_index, 1);
    mgr.turn_layer_off(1);
    assert_eq!(mgr.get(key(KEY_H)).action, Tap(Key(key(KEY_H))));
    assert_eq!(mgr.get(key(KEY_H)).layer_index, 0);
}

#[test]
fn on_then_off_restores_merged_view() {
    let mut mgr = scenario_manager(Vec::new());
    mgr.init();
    mgr.turn_layer_on(1);
    let before = mgr.merged.clone();
    let states = mgr.layers_states.clone();
    mgr.turn_layer_on(2);
    assert_ne!(mgr.merged, before);
    mgr.turn_layer_off(2);
    assert_eq!(mgr.merged, before);
    assert_eq!(mgr.layers_states, states);
}

#[test]
fn switching_twice_equals_once() {
    let mut mgr = scenario_manager(Vec::new());
    mgr.init();
    mgr.turn_layer_on(1);
    let once = mgr.merged.clone();
    mgr.turn_layer_on(1);
    assert_eq!(mgr.merged, once);
    assert_eq!(mgr.layers_states, vec![true, true, false]);
    mgr.turn_layer_off(1);
    let once = mgr.merged.clone();
    mgr.turn_layer_off(1);
    assert_eq!(mgr.merged, once);
    assert_eq!(mgr.layers_states, vec![true, false, false]);
}

#[test]
fn base_layer_cannot_be_turned_off() {
    let mut mgr = scenario_manager(Vec::new());
    mgr.init();
    let before = mgr.merged.clone();
    mgr.turn_layer_off(0);
    assert_eq!(mgr.layers_states[0], true);
    assert_eq!(mgr.merged, before);
    mgr.toggle_layer(0);
    assert_eq!(mgr.layers_states[0], true);
    assert_eq!(mgr.get(key(KEY_CAPSLOCK)).action, Tap(Key(key(KEY_LEFTCTRL))));
}

#[test]
fn global_lock_blocks_every_change() {
    let mut mgr = scenario_manager(Vec::new());
    mgr.init();
    mgr.lock_all(LockOwner::LkSticky);
    assert!(mgr.is_all_locked());
    let before = mgr.merged.clone();
    mgr.turn_layer_on(1);
    mgr.turn_layer_on(2);
    assert_eq!(mgr.merged, before);
    assert_eq!(mgr.layers_states, vec![true, false, false]);
    mgr.unlock_all(LockOwner::LkSticky);
    assert!(!mgr.is_all_locked());
    mgr.turn_layer_on(1);
    assert_eq!(mgr.layers_states, vec![true, true, false]);
}

#[test]
fn key_lock_rejects_layer_that_binds_it() {
    let mut mgr = scenario_manager(Vec::new());
    mgr.init();
    mgr.lock_key(key(KEY_K), LockOwner::LkTapHold);
    assert!(mgr.is_key_locked(key(KEY_K)));
    mgr.turn_layer_on(1);
    assert_eq!(mgr.layers_states[1], false);
    assert_eq!(mgr.get(key(KEY_K)).action, Tap(Key(key(KEY_K))));
    // a layer that does not bind the locked key may still change
    mgr.turn_layer_on(2);
    assert_eq!(mgr.layers_states[2], true);
    mgr.unlock_key(key(KEY_K), LockOwner::LkTapHold);
    assert!(!mgr.is_key_locked(key(KEY_K)));
    mgr.turn_layer_on(1);
    assert_eq!(mgr.layers_states[1], true);
    assert_eq!(mgr.get(key(KEY_K)).action, Tap(Key(key(KEY_UP))));
}

#[test]
fn key_lock_blocks_turning_off() {
    let mut mgr = scenario_manager(Vec::new());
    mgr.init();
    mgr.turn_layer_on(2);
    mgr.lock_key(key(KEY_S), LockOwner::LkTapDance);
    mgr.turn_layer_off(2);
    assert_eq!(mgr.layers_states[2], true);
    assert_eq!(mgr.get(key(KEY_S)).action, TapHold(Key(key(KEY_S)), Key(key(KEY_LEFTSHIFT))));
}

#[test]
fn aliases_switch_named_layers() {
    let mut mgr = scenario_manager(Vec::new());
    mgr.init();
    mgr.turn_alias_on("arrows".to_string());
    assert_eq!(mgr.get(key(KEY_J)).action, Tap(Key(key(KEY_DOWN))));
    mgr.toggle_layer_alias("asdf".to_string());
    assert_eq!(mgr.layers_states, vec![true, true, true]);
    mgr.turn_alias_off("arrows".to_string());
    assert_eq!(mgr.get(key(KEY_J)).action, Tap(Key(key(KEY_J))));
    mgr.toggle_layer_alias("asdf".to_string());
    assert_eq!(mgr.layers_states, vec![true, false, false]);
    // unknown names do nothing
    mgr.turn_alias_on("missing".to_string());
    mgr.toggle_layer_alias("missing".to_string());
    assert_eq!(mgr.layers_states, vec![true, false, false]);
}

#[test]
fn profile_switches_its_layers() {
    let profile = Profile { indices: vec![1, 2], aliases: vec!["arrows".to_string()] };
    let mut mgr = scenario_manager(vec![("p".to_string(), profile)]);
    mgr.init();
    mgr.toggle_profile("p".to_string(), true);
    assert_eq!(mgr.layers_states, vec![true, true, true]);
    assert_eq!(mgr.get(key(KEY_H)).action, Tap(Key(key(KEY_LEFT))));
    assert_eq!(mgr.get(key(KEY_A)).action, TapHold(Key(key(KEY_A)), Key(key(KEY_LEFTCTRL))));
    mgr.toggle_profile("p".to_string(), false);
    assert_eq!(mgr.layers_states, vec![true, false, false]);
    assert_eq!(mgr.get(key(KEY_H)).action, Tap(Key(key(KEY_H))));
    mgr.toggle_profile("nope".to_string(), true);
    assert_eq!(mgr.layers_states, vec![true, false, false]);
}

#[test]
fn profile_is_applied_entry_by_entry_under_locks() {
    let profile = Profile { indices: vec![1, 2], aliases: Vec::new() };
    let mut mgr = scenario_manager(vec![("p".to_string(), profile)]);
    mgr.init();
    mgr.lock_key(key(KEY_H), LockOwner::LkTapHold);
    mgr.toggle_profile("p".to_string(), true);
    assert_eq!(mgr.layers_states, vec![true, false, true]);
}

#[test]
fn later_pair_wins_in_layer() {
    let layer = Layer::from_pairs(&vec![
        (key(KEY_A), Tap(Key(key(KEY_S)))),
        (key(KEY_A), Sticky(Key(key(KEY_LEFTSHIFT)))),
        (key(KEY_D), Tap(ToggleLayer(1))),
    ]);
    assert_eq!(layer.get(key(KEY_A)), Some(Sticky(Key(key(KEY_LEFTSHIFT)))));
    assert!(layer.contains(key(KEY_D)));
    assert!(!layer.contains(key(KEY_S)));
    assert_eq!(layer.keys.len(), 2);
}

#[test]
fn notification_text() {
    assert_eq!(ktrl::notify::notification_message(2, true), b"layer 2:on".to_vec());
    assert_eq!(ktrl::notify::notification_message(0, false), b"layer 0:off".to_vec());
    assert_eq!(ktrl::notify::notification_message(1907, true), b"layer 1907:on".to_vec());
    let mut out = Vec::new();
    ktrl::notify::push_decimal(&mut out, 10);
    assert_eq!(out, b"10".to_vec());
}

#[test]
fn initial_merged_view_is_identity() {
    let merged = ktrl::layers::init_merged();
    assert_eq!(merged.len(), ktrl::keys::KEY_MAX);
    let a = merged[KEY_A as usize].unwrap();
    assert_eq!(a.action, Tap(Key(key(KEY_A))));
    assert_eq!(a.layer_index, 0);
    assert!(merged[84].is_none());
}
