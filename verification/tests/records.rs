use bevy_axis_input_ext::collections::KeyMap;
use bevy_axis_input_ext::records::{input_data_lines, load_record, ConfLine, ConfRecord};
use bevy_axis_input_ext::values::InputData;

type Data = InputData<u32, u32, f32>;

fn prof(names: &[&str]) -> Vec<String> {
    names.iter().map(|s| s.to_string()).collect()
}

#[test]
fn records_are_read_into_the_settings() {
    let mut d = Data::new();
    load_record(&mut d, ConfRecord::Exclude(3));
    load_record(&mut d, ConfRecord::Repeat(1, 0.5, 0.1));
    load_record(&mut d, ConfRecord::Dead(prof(&["g"]), 1, 0.2, 0.0));
    load_record(&mut d, ConfRecord::Scale(prof(&["g"]), 1, 2.0));
    load_record(&mut d, ConfRecord::Binding(prof(&["g"]), 1, vec![7, 8], 1.0));
    load_record(&mut d, ConfRecord::Binding(prof(&["g"]), 1, vec![9], 0.5));
    load_record(&mut d, ConfRecord::BindModeDead(0.3, 0.4));
    load_record(&mut d, ConfRecord::Owner(0));
    load_record(&mut d, ConfRecord::OwnerProfile(0, prof(&["g"])));
    assert!(d.excludes.contains_key(&3));
    assert_eq!(d.repeats.get(&1), Some(&(0.5, 0.1)));
    assert_eq!(d.deads.get(&prof(&["g"])).unwrap().get(&1), Some(&(0.2, 0.0)));
    assert_eq!(d.scales.get(&prof(&["g"])).unwrap().get(&1), Some(&2.0));
    assert_eq!(
        d.bindings.get(&prof(&["g"])).unwrap().get(&1),
        Some(&vec![(vec![7, 8], 1.0), (vec![9], 0.5)])
    );
    assert_eq!(d.bind_mode_deads, Some((0.3, 0.4)));
    assert!(d.owners_profiles.get(&0).unwrap().contains_key(&prof(&["g"])));
}

#[test]
fn an_owner_record_clears_its_profiles() {
    let mut d = Data::new();
    load_record(&mut d, ConfRecord::Owner(0));
    load_record(&mut d, ConfRecord::OwnerProfile(0, prof(&["g"])));
    load_record(&mut d, ConfRecord::Owner(0));
    assert_eq!(d.owners_profiles.get(&0).unwrap().len(), 0);
}

#[test]
fn empty_settings_write_no_lines() {
    let d = Data::new();
    assert!(input_data_lines(&d).is_empty());
}

#[test]
fn settings_are_written_in_sections() {
    let mut d = Data::new();
    load_record(&mut d, ConfRecord::Exclude(3));
    load_record(&mut d, ConfRecord::Scale(prof(&["g"]), 1, 2.0));
    load_record(&mut d, ConfRecord::Binding(prof(&["g"]), 1, vec![7], 1.0));
    load_record(&mut d, ConfRecord::Owner(4));
    let lines = input_data_lines(&d);
    let kinds: Vec<&str> = lines
        .iter()
        .map(|l| match l {
            ConfLine::ExcludeTag => "exclude",
            ConfLine::ExcludeEntry(_) => "exclude entry",
            ConfLine::ScaleTag(_) => "scale",
            ConfLine::ScaleEntry(_, _) => "scale entry",
            ConfLine::BindingTag(_) => "binding",
            ConfLine::BindingMapping(_) => "mapping",
            ConfLine::BindingEntry(_, _) => "binding entry",
            ConfLine::OwnerTag(_) => "owner",
            ConfLine::Blank => "blank",
            _ => "other",
        })
        .collect();
    assert_eq!(
        kinds,
        vec![
            "exclude", "exclude entry", "blank", "scale", "scale entry", "blank", "binding",
            "mapping", "binding entry", "blank", "owner", "blank"
        ]
    );
}

/// Reads written lines back as records, keeping the open section and mapping.
fn read_lines(lines: Vec<ConfLine<u32, u32, f32>>) -> Data {
    let mut d = Data::new();
    let mut section: Option<ConfLine<u32, u32, f32>> = None;
    let mut mapping: Option<u32> = None;
    for line in lines {
        let record = match &line {
            ConfLine::ExcludeEntry(b) => Some(ConfRecord::Exclude(*b)),
            ConfLine::RepeatEntry(m, a, b) => Some(ConfRecord::Repeat(*m, *a, *b)),
            ConfLine::DeadEntry(m, a, b) => match &section {
                Some(ConfLine::DeadTag(p)) => Some(ConfRecord::Dead(p.clone(), *m, *a, *b)),
                _ => None,
            },
            ConfLine::ScaleEntry(m, s) => match &section {
                Some(ConfLine::ScaleTag(p)) => Some(ConfRecord::Scale(p.clone(), *m, *s)),
                _ => None,
            },
            ConfLine::BindingMapping(m) => {
                mapping = Some(*m);
                None
            }
            ConfLine::BindingEntry(g, s) => match (&section, mapping) {
                (Some(ConfLine::BindingTag(p)), Some(m)) => {
                    Some(ConfRecord::Binding(p.clone(), m, g.clone(), *s))
                }
                _ => None,
            },
            ConfLine::OwnerTag(o) => Some(ConfRecord::Owner(*o)),
            ConfLine::OwnerProfile(p) => match &section {
                Some(ConfLine::OwnerTag(o)) => Some(ConfRecord::OwnerProfile(*o, p.clone())),
                _ => None,
            },
            _ => None,
        };
        if let Some(r) = record {
            load_record(&mut d, r);
        }
        match line {
            ConfLine::ExcludeTag
            | ConfLine::RepeatTag
            | ConfLine::DeadTag(_)
            | ConfLine::ScaleTag(_)
            | ConfLine::BindingTag(_)
            | ConfLine::OwnerTag(_) => {
                section = Some(line);
                mapping = None;
            }
            _ => {}
        }
    }
    d
}

#[test]
fn written_settings_read_back_to_their_saved_part() {
    let mut d = Data::new();
    load_record(&mut d, ConfRecord::Exclude(3));
    load_record(&mut d, ConfRecord::Exclude(4));
    load_record(&mut d, ConfRecord::Repeat(1, 0.5, 0.1));
    load_record(&mut d, ConfRecord::Dead(prof(&["g"]), 1, 0.2, 0.3));
    load_record(&mut d, ConfRecord::Scale(prof(&["g"]), 1, 2.0));
    load_record(&mut d, ConfRecord::Scale(prof(&["g", "x"]), 2, 3.0));
    load_record(&mut d, ConfRecord::Binding(prof(&["g"]), 1, vec![7, 8], 1.0));
    load_record(&mut d, ConfRecord::Binding(prof(&["g"]), 1, vec![9], 0.5));
    load_record(&mut d, ConfRecord::Binding(prof(&["g"]), 2, vec![5], 1.5));
    load_record(&mut d, ConfRecord::BindModeDead(0.3, 0.4));
    load_record(&mut d, ConfRecord::Owner(0));
    load_record(&mut d, ConfRecord::OwnerProfile(0, prof(&["g"])));
    load_record(&mut d, ConfRecord::Owner(1));
    d.includes.insert(6, ());

    let r = read_lines(input_data_lines(&d));
    assert_eq!(r.excludes.len(), 2);
    assert!(r.excludes.contains_key(&3) && r.excludes.contains_key(&4));
    assert_eq!(r.repeats.get(&1), Some(&(0.5, 0.1)));
    assert_eq!(r.deads.get(&prof(&["g"])).unwrap().get(&1), Some(&(0.2, 0.3)));
    assert_eq!(r.scales.len(), 2);
    assert_eq!(r.scales.get(&prof(&["g", "x"])).unwrap().get(&2), Some(&3.0));
    let row = r.bindings.get(&prof(&["g"])).unwrap();
    assert_eq!(row.get(&1), Some(&vec![(vec![7, 8], 1.0), (vec![9], 0.5)]));
    assert_eq!(row.get(&2), Some(&vec![(vec![5], 1.5)]));
    assert_eq!(r.owners_profiles.len(), 2);
    assert!(r.owners_profiles.get(&0).unwrap().contains_key(&prof(&["g"])));
    assert_eq!(r.owners_profiles.get(&1).unwrap().len(), 0);
    // Included bindings and the bind mode dead zones are not written.
    assert_eq!(r.includes.len(), 0);
    assert_eq!(r.bind_mode_deads, None);
}

#[test]
fn empty_rows_are_not_written() {
    let mut d = Data::new();
    d.scales.insert(prof(&["g"]), KeyMap::new());
    let r = read_lines(input_data_lines(&d));
    assert_eq!(r.scales.len(), 0);
}
