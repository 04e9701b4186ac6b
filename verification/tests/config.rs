use bevy_axis_input_ext::collections::{KeyMap, ProfileMap};
use bevy_axis_input_ext::resources::InputConfig;

type Config = InputConfig<u32, u32, f32>;

fn prof(names: &[&str]) -> Vec<String> {
    names.iter().map(|s| s.to_string()).collect()
}

fn profile_set(m: &ProfileMap<()>) -> Vec<Vec<String>> {
    let mut v: Vec<Vec<String>> = (0..m.len()).map(|i| m.key_at(i).clone()).collect();
    v.sort();
    v
}

fn entries<V: Copy>(m: &KeyMap<u32, V>) -> Vec<(u32, V)> {
    let mut v: Vec<(u32, V)> = (0..m.len()).map(|i| (*m.key_at(i), *m.value_at(i))).collect();
    v.sort_by(|a, b| a.0.cmp(&b.0));
    v
}

#[test]
fn new_config_is_applied_and_saved() {
    let c = Config::new();
    assert!(c.is_applied());
    assert!(c.is_saved());
    assert!(!c.do_save);
    assert!(!c.do_apply);
    assert_eq!(c.get_scale(&prof(&["game"]), 1), None);
}

#[test]
fn set_scale_reads_back() {
    let mut c = Config::new();
    c.set_scale(prof(&["game"]), 1, 2.5);
    assert_eq!(c.get_scale(&prof(&["game"]), 1), Some(2.5));
    assert_eq!(c.get_scale(&prof(&["game"]), 2), None);
    assert_eq!(c.get_scale(&prof(&["menu"]), 1), None);
    assert!(!c.is_applied());
    assert!(!c.is_saved());
}

#[test]
fn set_scale_copies_the_default_row_first() {
    let mut c = Config::new();
    c.default_data.scales.insert(prof(&["game"]), {
        let mut t = KeyMap::new();
        t.insert(7, 3.0);
        t
    });
    c.set_scale(prof(&["game"]), 1, 2.0);
    assert_eq!(c.get_scale(&prof(&["game"]), 7), Some(3.0));
    assert_eq!(c.get_scale(&prof(&["game"]), 1), Some(2.0));
    let user_row = c.user_data.scales.get(&prof(&["game"])).unwrap();
    assert_eq!(entries(user_row), vec![(1, 2.0), (7, 3.0)]);
}

#[test]
fn get_scale_looks_only_in_the_users_row_when_there_is_one() {
    let mut c = Config::new();
    let mut d = KeyMap::new();
    d.insert(7, 3.0);
    c.default_data.scales.insert(prof(&["game"]), d);
    let mut u = KeyMap::new();
    u.insert(1, 2.0);
    c.user_data.scales.insert(prof(&["game"]), u);
    assert_eq!(c.get_scale(&prof(&["game"]), 7), None);
    let merged = c.get_scales(&prof(&["game"]));
    assert_eq!(entries(&merged), vec![(1, 2.0), (7, 3.0)]);
}

#[test]
fn get_scales_prefers_the_user() {
    let mut c = Config::new();
    let mut d = KeyMap::new();
    d.insert(1, 1.0);
    d.insert(2, 5.0);
    c.default_data.scales.insert(prof(&["a", "b"]), d);
    let mut u = KeyMap::new();
    u.insert(1, 9.0);
    c.user_data.scales.insert(prof(&["a", "b"]), u);
    assert_eq!(entries(&c.get_scales(&prof(&["a", "b"]))), vec![(1, 9.0), (2, 5.0)]);
    assert_eq!(c.get_scales(&prof(&["a"])).len(), 0);
}

#[test]
fn set_dead_reads_back() {
    let mut c = Config::new();
    c.set_dead(prof(&["game"]), 4, 0.1, 0.2);
    assert_eq!(c.get_dead(&prof(&["game"]), 4), Some((0.1, 0.2)));
    assert_eq!(entries(&c.get_deads(&prof(&["game"]))), vec![(4, (0.1, 0.2))]);
}

#[test]
fn set_binding_pads_with_empty_groups() {
    let mut c = Config::new();
    c.set_binding(prof(&["game"]), 3, 2, vec![10, 11], 0.5);
    assert_eq!(c.get_binding(&prof(&["game"]), 3, 2), (vec![10, 11], 0.5));
    assert_eq!(c.get_binding(&prof(&["game"]), 3, 0), (vec![], 0.0));
    assert_eq!(c.get_binding(&prof(&["game"]), 3, 1), (vec![], 0.0));
    let b = c.get_bindings(&prof(&["game"]));
    assert_eq!(b.get(&3).unwrap().len(), 3);
    c.set_binding(prof(&["game"]), 3, 0, vec![12], 2.0);
    assert_eq!(c.get_binding(&prof(&["game"]), 3, 0), (vec![12], 2.0));
    assert_eq!(c.get_binding(&prof(&["game"]), 3, 2), (vec![10, 11], 0.5));
}

#[test]
fn get_binding_without_one_is_empty() {
    let c = Config::new();
    assert_eq!(c.get_binding(&prof(&["x"]), 1, 0), (vec![], 0.0));
}

#[test]
fn new_profiles_copy_from_another() {
    let mut c = Config::new();
    c.set_scale(prof(&["a"]), 1, 2.0);
    c.set_dead(prof(&["a"]), 1, 0.3, 0.4);
    c.set_binding(prof(&["a"]), 1, 0, vec![5], 1.0);
    c.new_scales_profile(prof(&["b"]), Some(prof(&["a"])));
    c.new_deads_profile(prof(&["b"]), Some(prof(&["a"])));
    c.new_bindings_profile(prof(&["b"]), Some(prof(&["a"])));
    assert_eq!(c.get_scale(&prof(&["b"]), 1), Some(2.0));
    assert_eq!(c.get_dead(&prof(&["b"]), 1), Some((0.3, 0.4)));
    assert_eq!(c.get_binding(&prof(&["b"]), 1, 0), (vec![5], 1.0));
    c.new_scales_profile(prof(&["a"]), None);
    assert_eq!(c.get_scale(&prof(&["a"]), 1), None);
    assert_eq!(c.get_scale(&prof(&["b"]), 1), Some(2.0));
}

#[test]
fn owner_profiles_insert_remove_clear() {
    let mut c = Config::new();
    c.owner_insert_profile(0, prof(&["ui"]));
    c.owner_insert_profile(0, prof(&["game"]));
    let cc = |c: &Config, o: i32| {
        let mut r = c.user_data.owners_profiles.get(&o).map(profile_set).unwrap_or_default();
        if !c.user_data.owners_profiles.contains_key(&o) {
            r = c.default_data.owners_profiles.get(&o).map(profile_set).unwrap_or_default();
        }
        r
    };
    assert_eq!(cc(&c, 0), vec![prof(&["game"]), prof(&["ui"])]);
    c.owner_remove_profile(0, prof(&["ui"]));
    assert_eq!(cc(&c, 0), vec![prof(&["game"])]);
    c.owner_clear_profiles(0);
    assert_eq!(cc(&c, 0), Vec::<Vec<String>>::new());
    let all = c.get_owners_profiles();
    assert_eq!(all.len(), 1);
    assert_eq!(all.get(&0).unwrap().len(), 0);
}

#[test]
fn owner_insert_profile_takes_the_defaults_first() {
    let mut c = Config::new();
    let mut d: ProfileMap<()> = ProfileMap::new();
    d.insert(prof(&["menu"]), ());
    c.default_data.owners_profiles.insert(1, d);
    c.owner_insert_profile(1, prof(&["game"]));
    let user = c.user_data.owners_profiles.get(&1).unwrap();
    assert_eq!(profile_set(user), vec![prof(&["game"]), prof(&["menu"])]);
}

#[test]
fn owner_remove_profile_of_a_default_owner_keeps_it() {
    let mut c = Config::new();
    let mut d: ProfileMap<()> = ProfileMap::new();
    d.insert(prof(&["menu"]), ());
    c.default_data.owners_profiles.insert(1, d);
    c.owner_remove_profile(1, prof(&["menu"]));
    let user = c.user_data.owners_profiles.get(&1).unwrap();
    assert_eq!(profile_set(user), vec![prof(&["menu"])]);
    // Once the user has the owner, removing works.
    c.owner_remove_profile(1, prof(&["menu"]));
    let user = c.user_data.owners_profiles.get(&1).unwrap();
    assert_eq!(user.len(), 0);
}

#[test]
fn get_owner_profiles_reads_user_then_default() {
    let mut c = Config::new();
    let mut d: ProfileMap<()> = ProfileMap::new();
    d.insert(prof(&["menu"]), ());
    c.default_data.owners_profiles.insert(1, d);
    c.owner_insert_profile(2, prof(&["x"]));
    let c2 = {
        let mut c2 = Config::new();
        c2.default_data = c.default_data.duplicate();
        c2.user_data = c.user_data.duplicate();
        c2
    };
    assert_eq!(profile_set(&c2.get_owner_profiles(1)), vec![prof(&["menu"])]);
    let c3 = {
        let mut c3 = Config::new();
        c3.user_data = c.user_data.duplicate();
        c3
    };
    assert_eq!(profile_set(&c3.get_owner_profiles(2)), vec![prof(&["x"])]);
    let c4 = Config::new();
    assert_eq!(c4.get_owner_profiles(5).len(), 0);
}

#[test]
fn apply_save_restore_flags() {
    let mut c = Config::new();
    c.set_scale(prof(&["g"]), 1, 1.0);
    c.apply();
    assert!(c.is_applied());
    assert!(c.do_apply);
    assert!(!c.is_saved());
    c.save();
    assert!(c.is_saved());
    assert!(c.do_save);
    assert_eq!(c.take_pending(), (true, true));
    assert_eq!(c.take_pending(), (false, false));
}

#[test]
fn save_applies_an_unapplied_change() {
    let mut c = Config::new();
    c.set_scale(prof(&["g"]), 1, 1.0);
    c.save();
    assert!(c.is_applied());
    assert!(c.is_saved());
    assert_eq!(c.take_pending(), (true, true));
}

#[test]
fn save_while_a_save_is_pending_does_nothing() {
    let mut c = Config::new();
    c.set_scale(prof(&["g"]), 1, 1.0);
    c.save();
    c.set_scale(prof(&["g"]), 1, 2.0);
    c.save();
    assert!(!c.is_saved());
    assert_eq!(c.last_user_data.scales.get(&prof(&["g"])).unwrap().get(&1), Some(&1.0));
}

#[test]
fn restore_returns_to_the_saved_settings() {
    let mut c = Config::new();
    c.set_scale(prof(&["g"]), 1, 1.0);
    c.save();
    c.take_pending();
    c.set_scale(prof(&["g"]), 1, 5.0);
    c.owner_insert_profile(3, prof(&["g"]));
    c.restore();
    assert!(c.is_applied());
    assert!(c.is_saved());
    assert_eq!(c.get_scale(&prof(&["g"]), 1), Some(1.0));
    assert!(!c.user_data.owners_profiles.contains_key(&3));
    // The changes were never applied, so the input map needs no rebuild.
    assert_eq!(c.take_pending(), (false, false));
}

#[test]
fn restore_after_apply_asks_for_a_rebuild() {
    let mut c = Config::new();
    c.save();
    c.set_scale(prof(&["g"]), 1, 5.0);
    c.apply();
    c.take_pending();
    assert!(!c.is_saved());
    c.restore();
    assert_eq!(c.take_pending(), (false, true));
    assert_eq!(c.get_scale(&prof(&["g"]), 1), None);
}

#[test]
fn excludes_and_includes_fall_back_to_defaults() {
    let mut c = Config::new();
    c.default_data.excludes.insert(4, ());
    c.default_data.includes.insert(5, ());
    assert_eq!(entries(&c.get_excludes()), vec![(4, ())]);
    assert_eq!(entries(&c.get_includes()), vec![(5, ())]);
    c.user_data.excludes.insert(6, ());
    assert_eq!(entries(&c.get_excludes()), vec![(6, ())]);
}

#[test]
fn repeats_and_bind_mode_deads_prefer_the_user() {
    let mut c = Config::new();
    c.default_data.repeats.insert(1, (0.5, 0.1));
    c.default_data.repeats.insert(2, (0.4, 0.2));
    c.user_data.repeats.insert(2, (0.3, 0.3));
    assert_eq!(entries(&c.get_mapping_repeats()), vec![(1, (0.5, 0.1)), (2, (0.3, 0.3))]);
    assert_eq!(c.get_bind_mode_deads(), None);
    c.default_data.bind_mode_deads = Some((0.1, 0.2));
    assert_eq!(c.get_bind_mode_deads(), Some((0.1, 0.2)));
    c.user_data.bind_mode_deads = Some((0.3, 0.4));
    assert_eq!(c.get_bind_mode_deads(), Some((0.3, 0.4)));
}

#[test]
fn apply_twice_is_apply_once() {
    let mut c = Config::new();
    c.set_dead(prof(&["g"]), 1, 0.1, 0.2);
    c.apply();
    c.take_pending();
    c.apply();
    assert!(c.is_applied());
    assert_eq!(c.take_pending(), (false, false));
}

#[test]
fn nothing_is_pending_on_a_new_config() {
    let mut c = Config::new();
    assert_eq!(c.take_pending(), (false, false));
}

#[test]
fn restore_undoes_a_run_of_edits_and_applies() {
    let mut c = Config::new();
    c.set_scale(prof(&["g"]), 1, 1.0);
    c.owner_insert_profile(2, prof(&["g"]));
    c.save();
    c.take_pending();
    c.set_scale(prof(&["g"]), 1, 4.0);
    c.apply();
    c.set_dead(prof(&["g"]), 1, 0.1, 0.2);
    c.owner_clear_profiles(2);
    c.new_bindings_profile(prof(&["h"]), None);
    c.set_binding(prof(&["h"]), 3, 0, vec![5], 1.0);
    c.apply();
    c.restore();
    assert!(c.is_saved());
    assert!(c.is_applied());
    assert_eq!(c.get_scale(&prof(&["g"]), 1), Some(1.0));
    assert_eq!(c.get_dead(&prof(&["g"]), 1), None);
    assert!(!c.user_data.bindings.contains_key(&prof(&["h"])));
    assert_eq!(profile_set(&c.get_owner_profiles(2)), vec![prof(&["g"])]);
}

#[test]
fn saved_settings_are_the_kept_ones() {
    let mut c = Config::new();
    c.set_scale(prof(&["g"]), 1, 1.0);
    assert!(!c.is_applied() && !c.is_saved());
    c.apply();
    assert!(c.is_applied() && !c.is_saved());
    c.save();
    assert!(c.is_saved());
    assert_eq!(entries(c.last_user_data.scales.get(&prof(&["g"])).unwrap()), vec![(1, 1.0)]);
    assert_eq!(entries(c.user_data.scales.get(&prof(&["g"])).unwrap()), vec![(1, 1.0)]);
}
