use bevy_axis_input_ext::collections::ProfileMap;
use bevy_axis_input_ext::input_map::{expand_profiles, plan_input_map, BindingPlan};
use bevy_axis_input_ext::order::{compare_strings, profile_precedes, sorted_profiles, Order};
use bevy_axis_input_ext::resources::InputConfig;

type Config = InputConfig<u32, u32, f32>;

fn prof(names: &[&str]) -> Vec<String> {
    names.iter().map(|s| s.to_string()).collect()
}

fn find<'a>(plans: &'a [BindingPlan<u32, u32, f32>], m: u32, g: &[u32]) -> Option<&'a BindingPlan<u32, u32, f32>> {
    plans.iter().find(|p| p.mapping == m && p.bindings == g)
}

#[test]
fn strings_compare_by_characters() {
    assert!(compare_strings(&"a".to_string(), &"b".to_string()) == Order::Less);
    assert!(compare_strings(&"ab".to_string(), &"a".to_string()) == Order::Greater);
    assert!(compare_strings(&"menu".to_string(), &"menu".to_string()) == Order::Equal);
    assert!(compare_strings(&"".to_string(), &"a".to_string()) == Order::Less);
    assert!(compare_strings(&"Z".to_string(), &"a".to_string()) == Order::Less);
}

#[test]
fn longer_profiles_come_first() {
    assert!(profile_precedes(&prof(&["a", "b"]), &prof(&["z"])));
    assert!(!profile_precedes(&prof(&["z"]), &prof(&["a", "b"])));
    // Same length: the last names decide.
    assert!(profile_precedes(&prof(&["z", "a"]), &prof(&["a", "b"])));
    assert!(profile_precedes(&prof(&["a", "b"]), &prof(&["b", "b"])));
    assert!(!profile_precedes(&prof(&["a", "b"]), &prof(&["a", "b"])));
}

#[test]
fn profiles_are_sorted_longest_first() {
    let mut s: ProfileMap<()> = ProfileMap::new();
    for p in [prof(&["x"]), prof(&["a", "b"]), prof(&["b"]), prof(&["z", "a"]), prof(&[])] {
        s.insert(p, ());
    }
    let sorted = sorted_profiles(&s);
    assert_eq!(sorted, vec![prof(&["z", "a"]), prof(&["a", "b"]), prof(&["b"]), prof(&["x"]), prof(&[])]);
}

#[test]
fn expansion_adds_every_shorter_prefix() {
    let mut s: ProfileMap<()> = ProfileMap::new();
    s.insert(prof(&["a", "b", "c"]), ());
    s.insert(prof(&["d"]), ());
    let e = expand_profiles(&s);
    let mut v: Vec<Vec<String>> = (0..e.len()).map(|i| e.key_at(i).clone()).collect();
    v.sort();
    assert_eq!(v, vec![prof(&["a"]), prof(&["a", "b"]), prof(&["a", "b", "c"]), prof(&["d"])]);
}

#[test]
fn owners_get_their_bindings_with_ancestor_scales() {
    let mut c = Config::new();
    c.owner_insert_profile(0, prof(&["game", "car"]));
    c.set_binding(prof(&["game"]), 1, 0, vec![100], 1.0);
    c.set_binding(prof(&["game", "car"]), 2, 0, vec![200, 201], 0.5);
    c.set_binding(prof(&["game", "car"]), 2, 1, vec![200, 201], 0.25);
    c.set_scale(prof(&["game"]), 2, 3.0);
    c.set_dead(prof(&["game"]), 2, 0.1, 0.2);
    let plan = plan_input_map(&c);
    assert_eq!(plan.len(), 1);
    assert_eq!(plan[0].0, 0);
    let plans = &plan[0].1;
    assert_eq!(plans.len(), 2);
    let a = find(plans, 2, &[200, 201]).unwrap();
    assert_eq!(a.scales, vec![0.5, 0.25]);
    assert_eq!(a.ancestor_scale, Some(3.0));
    assert_eq!(a.dead, Some((0.1, 0.2)));
    let b = find(plans, 1, &[100]).unwrap();
    assert_eq!(b.scales, vec![1.0]);
    // "game" has no shorter prefix.
    assert_eq!(b.ancestor_scale, None);
    assert_eq!(b.dead, None);
}

#[test]
fn the_longer_profile_wins_a_key() {
    let mut c = Config::new();
    c.owner_insert_profile(7, prof(&["a", "b"]));
    c.set_binding(prof(&["a"]), 1, 0, vec![5], 1.0);
    c.set_binding(prof(&["a", "b"]), 1, 0, vec![5], 2.0);
    let plan = plan_input_map(&c);
    let plans = &plan[0].1;
    assert_eq!(plans.len(), 1);
    assert_eq!(find(plans, 1, &[5]).unwrap().scales, vec![2.0]);
}

#[test]
fn owners_without_profiles_get_no_bindings() {
    let mut c = Config::new();
    c.owner_clear_profiles(3);
    assert_eq!(plan_input_map(&c).len(), 0);
    c.owner_insert_profile(3, prof(&["none"]));
    let plan = plan_input_map(&c);
    assert_eq!(plan.len(), 1);
    assert_eq!(plan[0].1.len(), 0);
}

#[test]
fn the_own_profile_scale_is_not_the_ancestor_scale() {
    let mut c = Config::new();
    c.owner_insert_profile(0, prof(&["game"]));
    c.set_binding(prof(&["game"]), 1, 0, vec![9], 1.0);
    c.set_scale(prof(&["game"]), 1, 4.0);
    let plan = plan_input_map(&c);
    assert_eq!(find(&plan[0].1, 1, &[9]).unwrap().ancestor_scale, None);
}
