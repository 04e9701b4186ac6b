//! The records of an input configuration file, as they are read into the
//! settings, and the lines that the settings are written out as.
//!
//! A file holds tagged sections: `exclude` with one binding per line,
//! `repeat` with `mapping initial-delay rate` lines, `dead "profile"..` with
//! `mapping primary modifier` lines, `scale "profile"..` with `mapping scale`
//! lines, `binding "profile"..` with mapping lines each holding
//! `bindings.. scale` lines, `bind_mode_dead primary modifier`, and
//! `owner id` with one profile per line.
use vstd::prelude::*;
use crate::collections::{KeyMap, ProfileMap};
use crate::keys::{is_plain, dup_profile, lemma_take_one_more, ProfileView};
use crate::resources::row;
use crate::values::{DataView, InputData, BindingListView, list_view, list_map_view};

verus! {

/// One record of a configuration file, with the profile and owner that it
/// stands under.
pub enum ConfRecord<M, B, F> {
    /// A binding that bind mode ignores.
    Exclude(B),
    /// The initial delay and rate of a mapping's repeat.
    Repeat(M, F, F),
    /// The primary and modifier dead zones of a mapping in a profile.
    Dead(Vec<String>, M, F, F),
    /// The scale of a mapping in a profile.
    Scale(Vec<String>, M, F),
    /// A binding group and its scale, added to a mapping's list in a profile.
    Binding(Vec<String>, M, Vec<B>, F),
    /// The dead zones of bind mode.
    BindModeDead(F, F),
    /// An owner; its profiles start out empty.
    Owner(i32),
    /// A profile of an owner that came before.
    OwnerProfile(i32, Vec<String>),
}

/// The settings with a profile's dead zones of a mapping set.
pub open spec fn add_dead<M, B, F>(d: DataView<M, B, F>, p: ProfileView, m: M, v: (F, F)) -> DataView<
    M,
    B,
    F,
> {
    DataView { deads: d.deads.insert(p, row(d.deads, p).insert(m, v)), ..d }
}

/// The settings with a profile's scale of a mapping set.
pub open spec fn add_scale<M, B, F>(d: DataView<M, B, F>, p: ProfileView, m: M, v: F) -> DataView<
    M,
    B,
    F,
> {
    DataView { scales: d.scales.insert(p, row(d.scales, p).insert(m, v)), ..d }
}

/// The settings with a binding group added to a mapping's list in a profile.
pub open spec fn add_binding<M, B, F>(
    d: DataView<M, B, F>,
    p: ProfileView,
    m: M,
    g: Seq<B>,
    v: F,
) -> DataView<M, B, F> {
    let r = row(d.bindings, p);
    let l = if r.contains_key(m) {
        r[m]
    } else {
        Seq::empty()
    };
    DataView { bindings: d.bindings.insert(p, r.insert(m, l.push((g, v)))), ..d }
}

/// The settings with an owner that has no profiles.
pub open spec fn add_owner<M, B, F>(d: DataView<M, B, F>, o: i32) -> DataView<M, B, F> {
    DataView { owners_profiles: d.owners_profiles.insert(o, Set::empty()), ..d }
}

/// The settings with a profile added to an owner.
pub open spec fn add_owner_profile<M, B, F>(d: DataView<M, B, F>, o: i32, p: ProfileView) -> DataView<
    M,
    B,
    F,
> {
    DataView { owners_profiles: d.owners_profiles.insert(o, d.owners_profiles[o].insert(p)), ..d }
}

/// The settings after reading one record.
pub open spec fn load_record_spec<M, B, F>(d: DataView<M, B, F>, r: ConfRecord<M, B, F>) -> DataView<
    M,
    B,
    F,
> {
    match r {
        ConfRecord::Exclude(b) => DataView { excludes: d.excludes.insert(b), ..d },
        ConfRecord::Repeat(m, delay, rate) => DataView {
            repeats: d.repeats.insert(m, (delay, rate)),
            ..d
        },
        ConfRecord::Dead(p, m, primary, modifier) => add_dead(d, p.deep_view(), m, (primary, modifier)),
        ConfRecord::Scale(p, m, s) => add_scale(d, p.deep_view(), m, s),
        ConfRecord::Binding(p, m, g, s) => add_binding(d, p.deep_view(), m, g@, s),
        ConfRecord::BindModeDead(primary, modifier) => DataView {
            bind_mode_deads: Some((primary, modifier)),
            ..d
        },
        ConfRecord::Owner(o) => add_owner(d, o),
        ConfRecord::OwnerProfile(o, p) => add_owner_profile(d, o, p.deep_view()),
    }
}

/// A record can be read into the settings: the owner of an owner's profile
/// is already there.
pub open spec fn can_load<M, B, F>(d: DataView<M, B, F>, r: ConfRecord<M, B, F>) -> bool {
    match r {
        ConfRecord::OwnerProfile(o, _) => d.owners_profiles.contains_key(o),
        _ => true,
    }
}

/// Reads one record into the settings.
pub fn load_record<M: PartialEq + Clone, B: PartialEq + Clone, F: Copy>(
    data: &mut InputData<M, B, F>,
    record: ConfRecord<M, B, F>,
)
    requires
        can_load(old(data)@, record),
    ensures
        final(data)@ == load_record_spec(old(data)@, record),
{
    proof {
        use_type_invariant(&data.repeats);
    }
    let ghost r = record;
    match record {
        ConfRecord::Exclude(b) => {
            data.excludes.insert(b, ());
            assert(data@.excludes =~= old(data)@.excludes.insert(b));
        },
        ConfRecord::Repeat(m, delay, rate) => {
            data.repeats.insert(m, (delay, rate));
        },
        ConfRecord::Dead(p, m, primary, modifier) => {
            let mut t = match data.deads.remove(&p) {
                Some(t) => t,
                None => KeyMap::new(),
            };
            assert(t@ == row(old(data)@.deads, p.deep_view()));
            t.insert(m, (primary, modifier));
            data.deads.insert(p, t);
            assert(data@.deads =~= load_record_spec(old(data)@, r).deads);
        },
        ConfRecord::Scale(p, m, s) => {
            let mut t = match data.scales.remove(&p) {
                Some(t) => t,
                None => KeyMap::new(),
            };
            assert(t@ == row(old(data)@.scales, p.deep_view()));
            t.insert(m, s);
            data.scales.insert(p, t);
            assert(data@.scales =~= load_record_spec(old(data)@, r).scales);
        },
        ConfRecord::Binding(p, m, g, s) => {
            let mut t = match data.bindings.remove(&p) {
                Some(t) => t,
                None => {
                    let e = KeyMap::new();
                    assert(list_map_view(e) =~= Map::empty());
                    e
                },
            };
            assert(list_map_view(t) == row(old(data)@.bindings, p.deep_view()));
            let ghost rw = row(old(data)@.bindings, p.deep_view());
            let mut l = match t.remove(&m) {
                Some(l) => l,
                None => {
                    let e: Vec<(Vec<B>, F)> = Vec::new();
                    assert(list_view(e) =~= Seq::<(Seq<B>, F)>::empty());
                    e
                },
            };
            let ghost lv = list_view(l);
            assert(lv == (if rw.contains_key(m) {
                rw[m]
            } else {
                Seq::empty()
            }));
            l.push((g, s));
            assert(list_view(l) =~= lv.push((g@, s)));
            t.insert(m, l);
            assert(list_map_view(t) =~= row(old(data)@.bindings, p.deep_view()).insert(
                m,
                lv.push((g@, s)),
            ));
            data.bindings.insert(p, t);
            assert(data@.bindings =~= load_record_spec(old(data)@, r).bindings);
        },
        ConfRecord::BindModeDead(primary, modifier) => {
            data.bind_mode_deads = Some((primary, modifier));
        },
        ConfRecord::Owner(o) => {
            let e: ProfileMap<()> = ProfileMap::new();
            assert(e@.dom() =~= Set::<ProfileView>::empty());
            data.owners_profiles.insert(o, e);
            assert(data@.owners_profiles =~= load_record_spec(old(data)@, r).owners_profiles);
        },
        ConfRecord::OwnerProfile(o, p) => {
            let mut set = match data.owners_profiles.remove(&o) {
                Some(s) => s,
                None => ProfileMap::new(),
            };
            set.insert(p, ());
            data.owners_profiles.insert(o, set);
            assert(data@.owners_profiles =~= load_record_spec(old(data)@, r).owners_profiles);
        },
    }
}

/// One line of a configuration file as it is written out.
pub enum ConfLine<M, B, F> {
    /// `exclude`
    ExcludeTag,
    /// An excluded binding, under `exclude`.
    ExcludeEntry(B),
    /// `repeat`
    RepeatTag,
    /// `mapping initial-delay rate`, under `repeat`.
    RepeatEntry(M, F, F),
    /// `dead "profile"..`
    DeadTag(Vec<String>),
    /// `mapping primary modifier`, under `dead`.
    DeadEntry(M, F, F),
    /// `scale "profile"..`
    ScaleTag(Vec<String>),
    /// `mapping scale`, under `scale`.
    ScaleEntry(M, F),
    /// `binding "profile"..`
    BindingTag(Vec<String>),
    /// `mapping`, under `binding`.
    BindingMapping(M),
    /// `bindings.. scale`, under a mapping.
    BindingEntry(Vec<B>, F),
    /// `owner id`
    OwnerTag(i32),
    /// `"profile"..`, under `owner`.
    OwnerProfile(Vec<String>),
    /// The empty line after a section.
    Blank,
}

/// A line as the contracts see it.
#[verifier::reject_recursive_types(M)]
#[verifier::reject_recursive_types(B)]
pub enum LineView<M, B, F> {
    ExcludeTag,
    ExcludeEntry(B),
    RepeatTag,
    RepeatEntry(M, F, F),
    DeadTag(ProfileView),
    DeadEntry(M, F, F),
    ScaleTag(ProfileView),
    ScaleEntry(M, F),
    BindingTag(ProfileView),
    BindingMapping(M),
    BindingEntry(Seq<B>, F),
    OwnerTag(i32),
    OwnerProfile(ProfileView),
    Blank,
}

pub open spec fn line_view<M, B, F>(l: ConfLine<M, B, F>) -> LineView<M, B, F> {
    match l {
        ConfLine::ExcludeTag => LineView::ExcludeTag,
        ConfLine::ExcludeEntry(b) => LineView::ExcludeEntry(b),
        ConfLine::RepeatTag => LineView::RepeatTag,
        ConfLine::RepeatEntry(m, a, b) => LineView::RepeatEntry(m, a, b),
        ConfLine::DeadTag(p) => LineView::DeadTag(p.deep_view()),
        ConfLine::DeadEntry(m, a, b) => LineView::DeadEntry(m, a, b),
        ConfLine::ScaleTag(p) => LineView::ScaleTag(p.deep_view()),
        ConfLine::ScaleEntry(m, s) => LineView::ScaleEntry(m, s),
        ConfLine::BindingTag(p) => LineView::BindingTag(p.deep_view()),
        ConfLine::BindingMapping(m) => LineView::BindingMapping(m),
        ConfLine::BindingEntry(g, s) => LineView::BindingEntry(g@, s),
        ConfLine::OwnerTag(o) => LineView::OwnerTag(o),
        ConfLine::OwnerProfile(p) => LineView::OwnerProfile(p.deep_view()),
        ConfLine::Blank => LineView::Blank,
    }
}

pub open spec fn lines_view<M, B, F>(v: Seq<ConfLine<M, B, F>>) -> Seq<LineView<M, B, F>> {
    v.map_values(|l: ConfLine<M, B, F>| line_view(l))
}

/// A section: nothing if it has no body, else its body and an empty line.
pub open spec fn section<M, B, F>(body: Seq<LineView<M, B, F>>) -> Seq<LineView<M, B, F>> {
    if body.len() == 0 {
        Seq::empty()
    } else {
        body.push(LineView::Blank)
    }
}

pub open spec fn exclude_entry<M, B, F>() -> spec_fn(B) -> LineView<M, B, F> {
    |b: B| LineView::ExcludeEntry(b)
}

pub open spec fn exclude_lines<M, B: PartialEq + Clone, F>(s: KeyMap<B, ()>) -> Seq<LineView<M, B, F>> {
    if s.keys().len() == 0 {
        Seq::empty()
    } else {
        seq![LineView::ExcludeTag] + s.keys().map_values(exclude_entry())
    }
}

pub open spec fn repeat_entry<M: PartialEq + Clone, B, F>(r: KeyMap<M, (F, F)>) -> spec_fn(M) -> LineView<
    M,
    B,
    F,
> {
    |m: M| LineView::RepeatEntry(m, r@[m].0, r@[m].1)
}

pub open spec fn repeat_lines<M: PartialEq + Clone, B, F>(r: KeyMap<M, (F, F)>) -> Seq<LineView<M, B, F>> {
    if r.keys().len() == 0 {
        Seq::empty()
    } else {
        seq![LineView::RepeatTag] + r.keys().map_values(repeat_entry(r))
    }
}

/// The line of a row's mapping, as `entry` makes it from the mapping and its value.
pub open spec fn row_entry<M: PartialEq + Clone, B, F, V>(
    r: KeyMap<M, V>,
    entry: spec_fn(M, V) -> LineView<M, B, F>,
) -> spec_fn(M) -> LineView<M, B, F> {
    |m: M| entry(m, r@[m])
}

/// The lines of one profile's row: its section line, then one line per mapping.
pub open spec fn row_block<M: PartialEq + Clone, B, F, V>(
    t: ProfileMap<KeyMap<M, V>>,
    tag: spec_fn(ProfileView) -> LineView<M, B, F>,
    entry: spec_fn(M, V) -> LineView<M, B, F>,
) -> spec_fn(ProfileView) -> Seq<LineView<M, B, F>> {
    |p: ProfileView| seq![tag(p)] + t@[p].keys().map_values(row_entry(t@[p], entry))
}

/// The lines of a `[profile][mapping]` table, row after row.
pub open spec fn rows_lines<M: PartialEq + Clone, B, F, V>(
    t: ProfileMap<KeyMap<M, V>>,
    tag: spec_fn(ProfileView) -> LineView<M, B, F>,
    entry: spec_fn(M, V) -> LineView<M, B, F>,
) -> Seq<LineView<M, B, F>> {
    t.keys().flat_map(row_block(t, tag, entry))
}

pub open spec fn dead_tag<M, B, F>() -> spec_fn(ProfileView) -> LineView<M, B, F> {
    |p: ProfileView| LineView::DeadTag(p)
}

pub open spec fn dead_entry<M, B, F>() -> spec_fn(M, (F, F)) -> LineView<M, B, F> {
    |m: M, v: (F, F)| LineView::DeadEntry(m, v.0, v.1)
}

pub open spec fn dead_lines<M: PartialEq + Clone, B, F>(t: ProfileMap<KeyMap<M, (F, F)>>) -> Seq<
    LineView<M, B, F>,
> {
    rows_lines(t, dead_tag(), dead_entry())
}

pub open spec fn scale_tag<M, B, F>() -> spec_fn(ProfileView) -> LineView<M, B, F> {
    |p: ProfileView| LineView::ScaleTag(p)
}

pub open spec fn scale_entry<M, B, F>() -> spec_fn(M, F) -> LineView<M, B, F> {
    |m: M, v: F| LineView::ScaleEntry(m, v)
}

pub open spec fn scale_lines<M: PartialEq + Clone, B, F>(t: ProfileMap<KeyMap<M, F>>) -> Seq<
    LineView<M, B, F>,
> {
    rows_lines(t, scale_tag(), scale_entry())
}

pub open spec fn binding_entry<M, B, F>() -> spec_fn((Seq<B>, F)) -> LineView<M, B, F> {
    |e: (Seq<B>, F)| LineView::BindingEntry(e.0, e.1)
}

pub open spec fn mapping_block<M: PartialEq + Clone, B, F>(t: KeyMap<M, Vec<(Vec<B>, F)>>) -> spec_fn(
    M,
) -> Seq<LineView<M, B, F>> {
    |m: M| seq![LineView::BindingMapping(m)] + list_view(t@[m]).map_values(binding_entry())
}

pub open spec fn binding_block<M: PartialEq + Clone, B, F>(
    t: ProfileMap<KeyMap<M, Vec<(Vec<B>, F)>>>,
) -> spec_fn(ProfileView) -> Seq<LineView<M, B, F>> {
    |p: ProfileView| seq![LineView::BindingTag(p)] + t@[p].keys().flat_map(mapping_block(t@[p]))
}

pub open spec fn binding_lines<M: PartialEq + Clone, B, F>(
    t: ProfileMap<KeyMap<M, Vec<(Vec<B>, F)>>>,
) -> Seq<LineView<M, B, F>> {
    t.keys().flat_map(binding_block(t))
}

pub open spec fn owner_entry<M, B, F>() -> spec_fn(ProfileView) -> LineView<M, B, F> {
    |p: ProfileView| LineView::OwnerProfile(p)
}

pub open spec fn owner_block<M, B, F>(o: KeyMap<i32, ProfileMap<()>>) -> spec_fn(i32) -> Seq<
    LineView<M, B, F>,
> {
    |k: i32| seq![LineView::OwnerTag(k)] + o@[k].keys().map_values(owner_entry())
}

pub open spec fn owner_lines<M, B, F>(o: KeyMap<i32, ProfileMap<()>>) -> Seq<LineView<M, B, F>> {
    o.keys().flat_map(owner_block(o))
}

/// The lines that the settings are written out as: the excluded bindings,
/// the repeats, the dead zones, scales and bindings of each profile, and the
/// profiles of each owner, each section closed by an empty line.
pub open spec fn save_lines<M: PartialEq + Clone, B: PartialEq + Clone, F: Copy>(
    d: InputData<M, B, F>,
) -> Seq<LineView<M, B, F>> {
    section(exclude_lines(d.excludes)) + section(repeat_lines(d.repeats)) + section(
        dead_lines(d.deads),
    ) + section(scale_lines(d.scales)) + section(binding_lines(d.bindings)) + section(
        owner_lines(d.owners_profiles),
    )
}

/// Where reading a file stands: the settings read so far, the last section
/// line (`exclude`, `repeat`, `dead`, `scale`, `binding` or `owner`), and the
/// last mapping line under `binding`.
#[verifier::reject_recursive_types(M)]
#[verifier::reject_recursive_types(B)]
pub struct ReadState<M, B, F> {
    pub data: DataView<M, B, F>,
    pub section: Option<LineView<M, B, F>>,
    pub mapping: Option<M>,
}

impl<M, B, F> ReadState<M, B, F> {
    /// Nothing read yet.
    pub open spec fn start() -> Self {
        ReadState { data: DataView::empty(), section: None, mapping: None }
    }
}

/// Reads one line: a section line opens a section, an entry is read as the
/// record that it makes under the open section (and mapping), an empty line is
/// skipped.
pub open spec fn read_line<M, B, F>(s: ReadState<M, B, F>, l: LineView<M, B, F>) -> ReadState<M, B, F> {
    match l {
        LineView::ExcludeTag => ReadState { section: Some(l), mapping: None, ..s },
        LineView::RepeatTag => ReadState { section: Some(l), mapping: None, ..s },
        LineView::DeadTag(_) => ReadState { section: Some(l), mapping: None, ..s },
        LineView::ScaleTag(_) => ReadState { section: Some(l), mapping: None, ..s },
        LineView::BindingTag(_) => ReadState { section: Some(l), mapping: None, ..s },
        LineView::OwnerTag(o) => ReadState {
            data: add_owner(s.data, o),
            section: Some(l),
            mapping: None,
        },
        LineView::ExcludeEntry(b) => ReadState {
            data: DataView { excludes: s.data.excludes.insert(b), ..s.data },
            ..s
        },
        LineView::RepeatEntry(m, delay, rate) => ReadState {
            data: DataView { repeats: s.data.repeats.insert(m, (delay, rate)), ..s.data },
            ..s
        },
        LineView::DeadEntry(m, primary, modifier) => match s.section {
            Some(LineView::DeadTag(p)) => ReadState {
                data: add_dead(s.data, p, m, (primary, modifier)),
                ..s
            },
            _ => s,
        },
        LineView::ScaleEntry(m, v) => match s.section {
            Some(LineView::ScaleTag(p)) => ReadState { data: add_scale(s.data, p, m, v), ..s },
            _ => s,
        },
        LineView::BindingMapping(m) => ReadState { mapping: Some(m), ..s },
        LineView::BindingEntry(g, v) => match (s.section, s.mapping) {
            (Some(LineView::BindingTag(p)), Some(m)) => ReadState {
                data: add_binding(s.data, p, m, g, v),
                ..s
            },
            _ => s,
        },
        LineView::OwnerProfile(p) => match s.section {
            Some(LineView::OwnerTag(o)) => ReadState { data: add_owner_profile(s.data, o, p), ..s },
            _ => s,
        },
        LineView::Blank => s,
    }
}

/// Reads lines in turn.
pub open spec fn read_lines<M, B, F>(s: ReadState<M, B, F>, ls: Seq<LineView<M, B, F>>) -> ReadState<
    M,
    B,
    F,
>
    decreases ls.len(),
{
    if ls.len() == 0 {
        s
    } else {
        read_line(read_lines(s, ls.drop_last()), ls.last())
    }
}

/// What a file read from nothing gives.
pub open spec fn read_back<M, B, F>(ls: Seq<LineView<M, B, F>>) -> DataView<M, B, F> {
    read_lines(ReadState::start(), ls).data
}

/// The rows of a table that are not empty.
pub open spec fn nonempty_rows<K, V>(t: Map<ProfileView, Map<K, V>>) -> Map<ProfileView, Map<K, V>> {
    Map::new(|p: ProfileView| t.contains_key(p) && t[p] != Map::<K, V>::empty(), |p: ProfileView| t[p])
}

/// The mappings of a row whose lists are not empty.
pub open spec fn nonempty_lists<M, B, F>(r: Map<M, BindingListView<B, F>>) -> Map<
    M,
    BindingListView<B, F>,
> {
    Map::new(|m: M| r.contains_key(m) && r[m].len() > 0, |m: M| r[m])
}

/// The part of the settings that a file holds: no included bindings and no
/// bind mode dead zones; no empty rows, and no empty binding lists.
pub open spec fn saved_part<M, B, F>(v: DataView<M, B, F>) -> DataView<M, B, F> {
    DataView {
        includes: Set::empty(),
        excludes: v.excludes,
        repeats: v.repeats,
        bind_mode_deads: None,
        owners_profiles: v.owners_profiles,
        scales: nonempty_rows(v.scales),
        deads: nonempty_rows(v.deads),
        bindings: nonempty_rows(
            Map::new(
                |p: ProfileView| v.bindings.contains_key(p),
                |p: ProfileView| nonempty_lists(v.bindings[p]),
            ),
        ),
    }
}

/// What reading the lines gives.
pub open spec fn state_of<M, B, F>(v: Seq<ConfLine<M, B, F>>) -> ReadState<M, B, F> {
    read_lines(ReadState::start(), lines_view(v))
}

/// The entries of `m` whose keys are among the first `i` of `ks`.
pub open spec fn prefix_map<K, V>(ks: Seq<K>, i: int, m: Map<K, V>) -> Map<K, V> {
    Map::new(|k: K| ks.take(i).contains(k), |k: K| m[k])
}

/// The nonempty rows of `t` whose profiles are among the first `i` of `ks`.
pub open spec fn prefix_rows<K, V>(ks: Seq<ProfileView>, i: int, t: Map<ProfileView, Map<K, V>>) -> Map<
    ProfileView,
    Map<K, V>,
> {
    Map::new(
        |p: ProfileView| ks.take(i).contains(p) && t[p] != Map::<K, V>::empty(),
        |p: ProfileView| t[p],
    )
}

proof fn lemma_read_push<M, B, F>(s: ReadState<M, B, F>, x: Seq<LineView<M, B, F>>, l: LineView<M, B, F>)
    ensures
        read_lines(s, x.push(l)) == read_line(read_lines(s, x), l),
{
    assert(x.push(l).drop_last() =~= x);
}

proof fn lemma_map_one_more<A, L>(s: Seq<A>, f: spec_fn(A) -> L, i: int)
    requires
        0 <= i < s.len(),
    ensures
        s.take(i + 1).map_values(f) == s.take(i).map_values(f).push(f(s[i])),
{
    assert(s.take(i + 1).map_values(f) =~= s.take(i).map_values(f).push(f(s[i])));
}

proof fn lemma_flat_one_more<A, L>(s: Seq<A>, f: spec_fn(A) -> Seq<L>, i: int)
    requires
        0 <= i < s.len(),
    ensures
        s.take(i + 1).flat_map(f) == s.take(i).flat_map(f) + f(s[i]),
{
    s.lemma_flat_map_take_append(f, i);
}

fn push_line<M, B, F>(out: &mut Vec<ConfLine<M, B, F>>, l: ConfLine<M, B, F>)
    ensures
        lines_view(final(out)@) == lines_view(old(out)@).push(line_view(l)),
        read_lines(ReadState::start(), lines_view(final(out)@)) == read_line(
            read_lines(ReadState::start(), lines_view(old(out)@)),
            line_view(l),
        ),
{
    out.push(l);
    assert(lines_view(out@) =~= lines_view(old(out)@).push(line_view(l)));
    proof {
        lemma_read_push(ReadState::start(), lines_view(old(out)@), line_view(l));
    }
}

fn write_excludes<M: PartialEq + Clone, B: PartialEq + Clone, F: Copy>(
    s: &KeyMap<B, ()>,
    out: &mut Vec<ConfLine<M, B, F>>,
)
    requires
        state_of(old(out)@).data.excludes == Set::<B>::empty(),
    ensures
        lines_view(final(out)@) == lines_view(old(out)@) + section(exclude_lines::<M, B, F>(*s)),
        state_of(final(out)@).data == (DataView { excludes: s@.dom(), ..state_of(old(out)@).data }),
{
    let ghost d0 = state_of(out@).data;
    let n = s.len();
    if n == 0 {
        assert(lines_view(out@) =~= lines_view(old(out)@) + section(exclude_lines::<M, B, F>(*s)));
        assert forall|b: B| !s@.contains_key(b) by {
            assert(!s.keys().contains(b));
        }
        assert(s@.dom() =~= Set::<B>::empty());
        return ;
    }
    push_line(out, ConfLine::ExcludeTag);
    let ghost base = lines_view(out@);
    let mut i: usize = 0;
    assert(s.keys().take(0).to_set() =~= Set::<B>::empty());
    while i < n
        invariant
            i <= n,
            n == s.keys().len(),
            is_plain::<B>(),
            lines_view(out@) == base + s.keys().take(i as int).map_values(exclude_entry::<M, B, F>()),
            state_of(out@).data == (DataView { excludes: s.keys().take(i as int).to_set(), ..d0 }),
        decreases n - i,
    {
        let b = crate::keys::dup(s.key_at(i));
        push_line(out, ConfLine::ExcludeEntry(b));
        proof {
            lemma_map_one_more(s.keys(), exclude_entry::<M, B, F>(), i as int);
            lemma_take_one_more(s.keys(), i as int);
            assert(s.keys().take(i + 1).to_set() =~= s.keys().take(i as int).to_set().insert(b));
        }
        i = i + 1;
    }
    push_line(out, ConfLine::Blank);
    assert(s.keys().take(n as int) =~= s.keys());
    assert(s.keys().to_set() =~= s@.dom());
    assert(lines_view(out@) =~= lines_view(old(out)@) + section(exclude_lines::<M, B, F>(*s)));
}

fn write_repeats<M: PartialEq + Clone, B: PartialEq + Clone, F: Copy>(
    r: &KeyMap<M, (F, F)>,
    out: &mut Vec<ConfLine<M, B, F>>,
)
    requires
        state_of(old(out)@).data.repeats == Map::<M, (F, F)>::empty(),
    ensures
        lines_view(final(out)@) == lines_view(old(out)@) + section(repeat_lines::<M, B, F>(*r)),
        state_of(final(out)@).data == (DataView { repeats: r@, ..state_of(old(out)@).data }),
{
    let ghost d0 = state_of(out@).data;
    let n = r.len();
    if n == 0 {
        assert(lines_view(out@) =~= lines_view(old(out)@) + section(repeat_lines::<M, B, F>(*r)));
        assert forall|m: M| !r@.contains_key(m) by {
            assert(!r.keys().contains(m));
        }
        assert(r@ =~= Map::<M, (F, F)>::empty());
        return ;
    }
    push_line(out, ConfLine::RepeatTag);
    let ghost base = lines_view(out@);
    let mut i: usize = 0;
    assert(prefix_map(r.keys(), 0, r@) =~= Map::<M, (F, F)>::empty());
    while i < n
        invariant
            i <= n,
            n == r.keys().len(),
            is_plain::<M>(),
            forall|m: M| r@.contains_key(m) <==> r.keys().contains(m),
            lines_view(out@) == base + r.keys().take(i as int).map_values(repeat_entry::<M, B, F>(*r)),
            state_of(out@).data == (DataView { repeats: prefix_map(r.keys(), i as int, r@), ..d0 }),
        decreases n - i,
    {
        let m = crate::keys::dup(r.key_at(i));
        let v = *r.value_at(i);
        push_line(out, ConfLine::RepeatEntry(m, v.0, v.1));
        proof {
            lemma_map_one_more(r.keys(), repeat_entry::<M, B, F>(*r), i as int);
            lemma_take_one_more(r.keys(), i as int);
            assert(prefix_map(r.keys(), i + 1, r@) =~= prefix_map(r.keys(), i as int, r@).insert(m, v));
        }
        i = i + 1;
    }
    push_line(out, ConfLine::Blank);
    assert(r.keys().take(n as int) =~= r.keys());
    assert(prefix_map(r.keys(), n as int, r@) =~= r@);
    assert(lines_view(out@) =~= lines_view(old(out)@) + section(repeat_lines::<M, B, F>(*r)));
}

/// The view of a table of rows.
pub open spec fn rows_view<M: PartialEq + Clone, V>(t: ProfileMap<KeyMap<M, V>>) -> Map<ProfileView, Map<M, V>> {
    t@.map_values(|r: KeyMap<M, V>| r@)
}

/// Writes a `[profile][mapping]` table: for each profile a section line
/// made by `tag`, then a line made by `entry` for each mapping of its row.
/// Read back, the lines give the table's nonempty rows, in the part of the
/// settings that `field` reads and `set_field` writes.
fn write_rows<M: PartialEq + Clone, B: PartialEq + Clone, F: Copy, V: Copy>(
    t: &ProfileMap<KeyMap<M, V>>,
    out: &mut Vec<ConfLine<M, B, F>>,
    tag: impl Fn(Vec<String>) -> ConfLine<M, B, F>,
    entry: impl Fn(M, V) -> ConfLine<M, B, F>,
    Ghost(tagv): Ghost<spec_fn(ProfileView) -> LineView<M, B, F>>,
    Ghost(entryv): Ghost<spec_fn(M, V) -> LineView<M, B, F>>,
    Ghost(field): Ghost<spec_fn(DataView<M, B, F>) -> Map<ProfileView, Map<M, V>>>,
    Ghost(set_field): Ghost<spec_fn(DataView<M, B, F>, Map<ProfileView, Map<M, V>>) -> DataView<M, B, F>>,
)
    requires
        forall|p: Vec<String>| #[trigger] call_requires(tag, (p,)),
        forall|p: Vec<String>, l: ConfLine<M, B, F>|
            #[trigger] call_ensures(tag, (p,), l) ==> line_view(l) == tagv(p.deep_view()),
        forall|m: M, v: V| #[trigger] call_requires(entry, (m, v)),
        forall|m: M, v: V, l: ConfLine<M, B, F>|
            #[trigger] call_ensures(entry, (m, v), l) ==> line_view(l) == entryv(m, v),
        forall|s: ReadState<M, B, F>, p: ProfileView|
            #[trigger] read_line(s, tagv(p)) == (ReadState { section: Some(tagv(p)), mapping: None, ..s }),
        forall|s: ReadState<M, B, F>, p: ProfileView, m: M, v: V|
            #![trigger read_line(s, entryv(m, v)), tagv(p)]
            s.section == Some(tagv(p)) ==> read_line(s, entryv(m, v)) == (ReadState {
                data: set_field(s.data, field(s.data).insert(p, row(field(s.data), p).insert(m, v))),
                ..s
            }),
        forall|d: DataView<M, B, F>, x: Map<ProfileView, Map<M, V>>|
            #[trigger] field(set_field(d, x)) == x,
        forall|d: DataView<M, B, F>, x: Map<ProfileView, Map<M, V>>, y: Map<ProfileView, Map<M, V>>|
            #[trigger] set_field(set_field(d, x), y) == set_field(d, y),
        field(state_of(old(out)@).data) == Map::<ProfileView, Map<M, V>>::empty(),
        set_field(state_of(old(out)@).data, Map::<ProfileView, Map<M, V>>::empty()) == state_of(old(out)@).data,
    ensures
        lines_view(final(out)@) == lines_view(old(out)@) + section(rows_lines(*t, tagv, entryv)),
        state_of(final(out)@).data == set_field(state_of(old(out)@).data, nonempty_rows(rows_view(*t))),
{
    let ghost d0 = state_of(out@).data;
    let ghost tv = rows_view(*t);
    let n = t.len();
    if n == 0 {
        assert(t.keys() =~= Seq::<ProfileView>::empty());
        assert(rows_lines(*t, tagv, entryv) =~= Seq::empty());
        assert(lines_view(out@) =~= lines_view(old(out)@) + section(rows_lines(*t, tagv, entryv)));
        assert forall|x: ProfileView| !tv.contains_key(x) by {
            assert(!t.keys().contains(x));
        }
        assert(nonempty_rows(tv) =~= Map::empty());
        return ;
    }
    let ghost base = lines_view(out@);
    let mut i: usize = 0;
    assert(prefix_rows(t.keys(), 0, tv) =~= Map::empty());
    while i < n
        invariant
            i <= n,
            n == t.keys().len(),
            t.keys().no_duplicates(),
            forall|x: ProfileView| t@.contains_key(x) <==> t.keys().contains(x),
            tv == rows_view(*t),
            forall|p: Vec<String>| #[trigger] call_requires(tag, (p,)),
            forall|p: Vec<String>, l: ConfLine<M, B, F>|
                #[trigger] call_ensures(tag, (p,), l) ==> line_view(l) == tagv(p.deep_view()),
            forall|m: M, v: V| #[trigger] call_requires(entry, (m, v)),
            forall|m: M, v: V, l: ConfLine<M, B, F>|
                #[trigger] call_ensures(entry, (m, v), l) ==> line_view(l) == entryv(m, v),
            forall|s: ReadState<M, B, F>, p: ProfileView|
                #[trigger] read_line(s, tagv(p)) == (ReadState { section: Some(tagv(p)), mapping: None, ..s }),
            forall|s: ReadState<M, B, F>, p: ProfileView, m: M, v: V|
                #![trigger read_line(s, entryv(m, v)), tagv(p)]
                s.section == Some(tagv(p)) ==> read_line(s, entryv(m, v)) == (ReadState {
                    data: set_field(s.data, field(s.data).insert(p, row(field(s.data), p).insert(m, v))),
                    ..s
                }),
            forall|d: DataView<M, B, F>, x: Map<ProfileView, Map<M, V>>|
                #[trigger] field(set_field(d, x)) == x,
            forall|d: DataView<M, B, F>, x: Map<ProfileView, Map<M, V>>, y: Map<ProfileView, Map<M, V>>|
                #[trigger] set_field(set_field(d, x), y) == set_field(d, y),
            lines_view(out@) == base + t.keys().take(i as int).flat_map(row_block(*t, tagv, entryv)),
            state_of(out@).data == set_field(d0, prefix_rows(t.keys(), i as int, tv)),
        decreases n - i,
    {
        let p = dup_profile(t.key_at(i));
        let cur = t.value_at(i);
        let ghost pv = t.keys()[i as int];
        let ghost di = prefix_rows(t.keys(), i as int, tv);
        assert(!di.contains_key(pv)) by {
            if t.keys().take(i as int).contains(pv) {
                let j = choose|j: int| 0 <= j < i && t.keys().take(i as int)[j] == pv;
                assert(t.keys()[j] == t.keys()[i as int]);
            }
        }
        assert(t.keys().contains(pv));
        assert(tv[pv] == cur@);
        let tl = tag(p);
        assert(line_view(tl) == tagv(pv));
        push_line(out, tl);
        let ghost mid = lines_view(out@);
        let k = cur.len();
        let mut j: usize = 0;
        while j < k
            invariant
                j <= k,
                k == cur.keys().len(),
                is_plain::<M>(),
                forall|x: M| cur@.contains_key(x) <==> cur.keys().contains(x),
                forall|m: M, v: V| #[trigger] call_requires(entry, (m, v)),
                forall|m: M, v: V, l: ConfLine<M, B, F>|
                    #[trigger] call_ensures(entry, (m, v), l) ==> line_view(l) == entryv(m, v),
                forall|s: ReadState<M, B, F>, p: ProfileView, m: M, v: V|
                    #![trigger read_line(s, entryv(m, v)), tagv(p)]
                    s.section == Some(tagv(p)) ==> read_line(s, entryv(m, v)) == (ReadState {
                        data: set_field(s.data, field(s.data).insert(p, row(field(s.data), p).insert(m, v))),
                        ..s
                    }),
                forall|d: DataView<M, B, F>, x: Map<ProfileView, Map<M, V>>|
                    #[trigger] field(set_field(d, x)) == x,
                forall|d: DataView<M, B, F>, x: Map<ProfileView, Map<M, V>>, y: Map<ProfileView, Map<M, V>>|
                    #[trigger] set_field(set_field(d, x), y) == set_field(d, y),
                lines_view(out@) == mid + cur.keys().take(j as int).map_values(row_entry(*cur, entryv)),
                state_of(out@).section == Some(tagv(pv)),
                !di.contains_key(pv),
                state_of(out@).data == set_field(d0, if j == 0 {
                    di
                } else {
                    di.insert(pv, prefix_map(cur.keys(), j as int, cur@))
                }),
            decreases k - j,
        {
            let m = crate::keys::dup(cur.key_at(j));
            let v = *cur.value_at(j);
            let el = entry(m, v);
            assert(line_view(el) == entryv(m, v));
            let ghost before = state_of(out@);
            let ghost x = if j == 0 {
                di
            } else {
                di.insert(pv, prefix_map(cur.keys(), j as int, cur@))
            };
            push_line(out, el);
            proof {
                lemma_map_one_more(cur.keys(), row_entry(*cur, entryv), j as int);
                lemma_take_one_more(cur.keys(), j as int);
                if j == 0 {
                    assert(prefix_map(cur.keys(), 1, cur@) =~= Map::<M, V>::empty().insert(m, v));
                } else {
                    assert(prefix_map(cur.keys(), j + 1, cur@) =~= prefix_map(cur.keys(), j as int, cur@).insert(m, v));
                }
                assert(field(before.data) == x);
                assert(x.insert(pv, row(x, pv).insert(m, v)) =~= di.insert(pv, prefix_map(cur.keys(), j + 1, cur@)));
            }
            j = j + 1;
        }
        proof {
            assert(cur.keys().take(k as int) =~= cur.keys());
            lemma_flat_one_more(t.keys(), row_block(*t, tagv, entryv), i as int);
            assert(t@[pv] == *cur);
            assert(lines_view(out@) =~= base + t.keys().take(i + 1).flat_map(row_block(*t, tagv, entryv)));
            lemma_take_one_more(t.keys(), i as int);
            if k == 0 {
                assert forall|x: M| !cur@.contains_key(x) by {
                    assert(!cur.keys().contains(x));
                }
                assert(cur@ =~= Map::<M, V>::empty());
                assert(prefix_rows(t.keys(), i + 1, tv) =~= di);
            } else {
                assert(cur.keys().contains(cur.keys()[0]));
                assert(cur@.contains_key(cur.keys()[0]));
                assert(prefix_map(cur.keys(), k as int, cur@) =~= cur@);
                assert(prefix_rows(t.keys(), i + 1, tv) =~= di.insert(pv, cur@));
            }
        }
        i = i + 1;
    }
    push_line(out, ConfLine::Blank);
    proof {
        assert(t.keys().take(n as int) =~= t.keys());
        lemma_flat_nonempty(t.keys(), row_block(*t, tagv, entryv));
        assert(prefix_rows(t.keys(), n as int, tv) =~= nonempty_rows(tv));
    }
    assert(lines_view(out@) =~= lines_view(old(out)@) + section(rows_lines(*t, tagv, entryv)));
}

fn write_deads<M: PartialEq + Clone, B: PartialEq + Clone, F: Copy>(
    t: &ProfileMap<KeyMap<M, (F, F)>>,
    out: &mut Vec<ConfLine<M, B, F>>,
)
    requires
        state_of(old(out)@).data.deads == Map::<ProfileView, Map<M, (F, F)>>::empty(),
    ensures
        lines_view(final(out)@) == lines_view(old(out)@) + section(dead_lines::<M, B, F>(*t)),
        state_of(final(out)@).data == (DataView {
            deads: nonempty_rows(rows_view(*t)),
            ..state_of(old(out)@).data
        }),
{
    let tag = |p: Vec<String>| -> (l: ConfLine<M, B, F>)
        ensures
            line_view(l) == LineView::<M, B, F>::DeadTag(p.deep_view()),
        {
            ConfLine::DeadTag(p)
        };
    let entry = |m: M, v: (F, F)| -> (l: ConfLine<M, B, F>)
        ensures
            line_view(l) == LineView::<M, B, F>::DeadEntry(m, v.0, v.1),
        {
            ConfLine::DeadEntry(m, v.0, v.1)
        };
    let ghost field: spec_fn(DataView<M, B, F>) -> Map<ProfileView, Map<M, (F, F)>> = |d: DataView<M, B, F>| d.deads;
    let ghost set_field: spec_fn(DataView<M, B, F>, Map<ProfileView, Map<M, (F, F)>>) -> DataView<M, B, F> = |d: DataView<M, B, F>, x: Map<ProfileView, Map<M, (F, F)>>| DataView { deads: x, ..d };
    let ghost d0 = state_of(out@).data;
    assert(set_field(d0, Map::<ProfileView, Map<M, (F, F)>>::empty()) == d0);
    write_rows(t, out, tag, entry, Ghost(dead_tag()), Ghost(dead_entry()), Ghost(field), Ghost(set_field));
}

proof fn lemma_flat_grows<A, L>(s: Seq<A>, f: spec_fn(A) -> Seq<L>, i: int, j: int)
    requires
        0 <= i <= j <= s.len(),
    ensures
        s.take(i).flat_map(f).len() <= s.take(j).flat_map(f).len(),
    decreases j - i,
{
    if i < j {
        lemma_flat_grows(s, f, i, j - 1);
        lemma_flat_one_more(s, f, j - 1);
    }
}

proof fn lemma_flat_nonempty<A, L>(s: Seq<A>, f: spec_fn(A) -> Seq<L>)
    requires
        s.len() > 0,
        f(s[0]).len() > 0,
    ensures
        s.flat_map(f).len() > 0,
{
    lemma_flat_one_more(s, f, 0);
    assert(s.take(0) =~= Seq::<A>::empty());
    assert(s.take(0).flat_map(f) =~= Seq::empty());
    lemma_flat_grows(s, f, 1, s.len() as int);
    assert(s.take(s.len() as int) =~= s);
}

fn write_scales<M: PartialEq + Clone, B: PartialEq + Clone, F: Copy>(
    t: &ProfileMap<KeyMap<M, F>>,
    out: &mut Vec<ConfLine<M, B, F>>,
)
    requires
        state_of(old(out)@).data.scales == Map::<ProfileView, Map<M, F>>::empty(),
    ensures
        lines_view(final(out)@) == lines_view(old(out)@) + section(scale_lines::<M, B, F>(*t)),
        state_of(final(out)@).data == (DataView {
            scales: nonempty_rows(rows_view(*t)),
            ..state_of(old(out)@).data
        }),
{
    let tag = |p: Vec<String>| -> (l: ConfLine<M, B, F>)
        ensures
            line_view(l) == LineView::<M, B, F>::ScaleTag(p.deep_view()),
        {
            ConfLine::ScaleTag(p)
        };
    let entry = |m: M, v: F| -> (l: ConfLine<M, B, F>)
        ensures
            line_view(l) == LineView::<M, B, F>::ScaleEntry(m, v),
        {
            ConfLine::ScaleEntry(m, v)
        };
    let ghost field: spec_fn(DataView<M, B, F>) -> Map<ProfileView, Map<M, F>> = |d: DataView<M, B, F>| d.scales;
    let ghost set_field: spec_fn(DataView<M, B, F>, Map<ProfileView, Map<M, F>>) -> DataView<M, B, F> = |d: DataView<M, B, F>, x: Map<ProfileView, Map<M, F>>| DataView { scales: x, ..d };
    let ghost d0 = state_of(out@).data;
    assert(set_field(d0, Map::<ProfileView, Map<M, F>>::empty()) == d0);
    write_rows(t, out, tag, entry, Ghost(scale_tag()), Ghost(scale_entry()), Ghost(field), Ghost(set_field));
}

/// A table with a row set, unless the row is empty.
pub open spec fn with_row<M, B, F>(
    t: Map<ProfileView, Map<M, BindingListView<B, F>>>,
    p: ProfileView,
    r: Map<M, BindingListView<B, F>>,
) -> Map<ProfileView, Map<M, BindingListView<B, F>>> {
    if r == Map::<M, BindingListView<B, F>>::empty() {
        t
    } else {
        t.insert(p, r)
    }
}

/// The mappings among the first `i` of `ks` whose lists are not empty.
pub open spec fn prefix_lists<M, B, F>(ks: Seq<M>, i: int, r: Map<M, BindingListView<B, F>>) -> Map<
    M,
    BindingListView<B, F>,
> {
    Map::new(|m: M| ks.take(i).contains(m) && r[m].len() > 0, |m: M| r[m])
}

fn write_mappings<M: PartialEq + Clone, B: PartialEq + Clone, F: Copy>(
    t: &KeyMap<M, Vec<(Vec<B>, F)>>,
    out: &mut Vec<ConfLine<M, B, F>>,
    Ghost(pv): Ghost<ProfileView>,
)
    requires
        is_plain::<B>(),
        state_of(old(out)@).section == Some(LineView::<M, B, F>::BindingTag(pv)),
        !state_of(old(out)@).data.bindings.contains_key(pv),
    ensures
        lines_view(final(out)@) == lines_view(old(out)@) + t.keys().flat_map(mapping_block::<M, B, F>(*t)),
        state_of(final(out)@).section == Some(LineView::<M, B, F>::BindingTag(pv)),
        state_of(final(out)@).data == (DataView {
            bindings: with_row(
                state_of(old(out)@).data.bindings,
                pv,
                nonempty_lists(list_map_view(*t)),
            ),
            ..state_of(old(out)@).data
        }),
{
    let ghost d0 = state_of(out@).data;
    let ghost lv = list_map_view(*t);
    let n = t.len();
    let ghost base = lines_view(out@);
    let mut i: usize = 0;
    assert(prefix_lists(t.keys(), 0, lv) =~= Map::empty());
    assert(with_row(d0.bindings, pv, prefix_lists(t.keys(), 0, lv)) == d0.bindings);
    while i < n
        invariant
            i <= n,
            n == t.keys().len(),
            is_plain::<M>(),
            is_plain::<B>(),
            t.keys().no_duplicates(),
            forall|x: M| t@.contains_key(x) <==> t.keys().contains(x),
            lv == list_map_view(*t),
            !d0.bindings.contains_key(pv),
            lines_view(out@) == base + t.keys().take(i as int).flat_map(mapping_block::<M, B, F>(*t)),
            state_of(out@).section == Some(LineView::<M, B, F>::BindingTag(pv)),
            state_of(out@).data == (DataView {
                bindings: with_row(d0.bindings, pv, prefix_lists(t.keys(), i as int, lv)),
                ..d0
            }),
        decreases n - i,
    {
        let m = crate::keys::dup(t.key_at(i));
        let l = t.value_at(i);
        let ghost mv = t.keys()[i as int];
        let ghost ai = prefix_lists(t.keys(), i as int, lv);
        let ghost ll = list_view(*l);
        assert(!ai.contains_key(mv)) by {
            if t.keys().take(i as int).contains(mv) {
                let j = choose|j: int| 0 <= j < i && t.keys().take(i as int)[j] == mv;
                assert(t.keys()[j] == t.keys()[i as int]);
            }
        }
        assert(t.keys().contains(mv));
        assert(lv[mv] == ll);
        push_line(out, ConfLine::BindingMapping(m));
        let ghost mid = lines_view(out@);
        let k = l.len();
        let mut j: usize = 0;
        while j < k
            invariant
                j <= k,
                k == l@.len(),
                is_plain::<B>(),
                ll == list_view(*l),
                !ai.contains_key(mv),
                !d0.bindings.contains_key(pv),
                lines_view(out@) == mid + list_view(*l).take(j as int).map_values(binding_entry::<M, B, F>()),
                state_of(out@).section == Some(LineView::<M, B, F>::BindingTag(pv)),
                state_of(out@).mapping == Some(mv),
                state_of(out@).data == (DataView {
                    bindings: with_row(
                        d0.bindings,
                        pv,
                        if j == 0 {
                            ai
                        } else {
                            ai.insert(mv, ll.take(j as int))
                        },
                    ),
                    ..d0
                }),
            decreases k - j,
        {
            let g = crate::keys::dup_seq(&l[j].0);
            let ghost e = ll[j as int];
            let ghost prev = state_of(out@);
            let ghost x = if j == 0 {
                ai
            } else {
                ai.insert(mv, ll.take(j as int))
            };
            assert(row(prev.data.bindings, pv) =~= x) by {
                if x == Map::<M, BindingListView<B, F>>::empty() {
                    assert(prev.data.bindings == d0.bindings);
                }
            }
            assert((if x.contains_key(mv) {
                x[mv]
            } else {
                Seq::empty()
            }) == ll.take(j as int)) by {
                if j == 0 {
                    assert(ll.take(0) =~= Seq::<(Seq<B>, F)>::empty());
                }
            }
            assert(g@ == e.0 && l@[j as int].1 == e.1);
            push_line(out, ConfLine::BindingEntry(g, l[j].1));
            proof {
                lemma_map_one_more(list_view(*l), binding_entry::<M, B, F>(), j as int);
                assert(ll.take(j + 1) =~= ll.take(j as int).push(e));
                if j == 0 {
                    assert(ll.take(0) =~= Seq::<(Seq<B>, F)>::empty());
                }
                let r2 = ai.insert(mv, ll.take(j + 1));
                assert(prev.section == Some(LineView::<M, B, F>::BindingTag(pv)));
                assert(prev.mapping == Some(mv));
                assert(state_of(out@) == read_line(prev, LineView::<M, B, F>::BindingEntry(g@, e.1)));
                assert(state_of(out@).data == add_binding(prev.data, pv, mv, g@, e.1));
                assert(x.insert(mv, ll.take(j as int).push(e)) =~= r2);
                assert(e == (g@, e.1));
                assert(r2.contains_key(mv));
                assert(r2 != Map::<M, BindingListView<B, F>>::empty());
                assert(state_of(out@).data.bindings =~= with_row(d0.bindings, pv, r2));
            }
            j = j + 1;
        }
        proof {
            assert(list_view(*l).take(k as int) =~= list_view(*l));
            lemma_flat_one_more(t.keys(), mapping_block::<M, B, F>(*t), i as int);
            assert(t@[mv] == *l);
            assert(lines_view(out@) =~= base + t.keys().take(i + 1).flat_map(mapping_block::<M, B, F>(*t)));
            lemma_take_one_more(t.keys(), i as int);
            if k == 0 {
                assert(prefix_lists(t.keys(), i + 1, lv) =~= ai);
            } else {
                assert(prefix_lists(t.keys(), i + 1, lv) =~= ai.insert(mv, ll));
            }
        }
        i = i + 1;
    }
    proof {
        assert(t.keys().take(n as int) =~= t.keys());
        assert(prefix_lists(t.keys(), n as int, lv) =~= nonempty_lists(lv));
    }
}

/// The saved part of a bindings table.
pub open spec fn saved_bindings<M, B, F>(bv: Map<ProfileView, Map<M, BindingListView<B, F>>>) -> Map<
    ProfileView,
    Map<M, BindingListView<B, F>>,
> {
    nonempty_rows(Map::new(|p: ProfileView| bv.contains_key(p), |p: ProfileView| nonempty_lists(bv[p])))
}

fn write_bindings<M: PartialEq + Clone, B: PartialEq + Clone, F: Copy>(
    t: &ProfileMap<KeyMap<M, Vec<(Vec<B>, F)>>>,
    out: &mut Vec<ConfLine<M, B, F>>,
)
    requires
        is_plain::<B>(),
        state_of(old(out)@).data.bindings == Map::<ProfileView, Map<M, BindingListView<B, F>>>::empty(),
    ensures
        lines_view(final(out)@) == lines_view(old(out)@) + section(binding_lines::<M, B, F>(*t)),
        state_of(final(out)@).data == (DataView {
            bindings: saved_bindings(t@.map_values(|r: KeyMap<M, Vec<(Vec<B>, F)>>| list_map_view(r))),
            ..state_of(old(out)@).data
        }),
{
    let ghost d0 = state_of(out@).data;
    let ghost bv = t@.map_values(|r: KeyMap<M, Vec<(Vec<B>, F)>>| list_map_view(r));
    let ghost nv = Map::new(|p: ProfileView| bv.contains_key(p), |p: ProfileView| nonempty_lists(bv[p]));
    let n = t.len();
    if n == 0 {
        assert(t.keys() =~= Seq::<ProfileView>::empty());
        assert(binding_lines::<M, B, F>(*t) =~= Seq::empty());
        assert(lines_view(out@) =~= lines_view(old(out)@) + section(binding_lines::<M, B, F>(*t)));
        assert forall|x: ProfileView| !bv.contains_key(x) by {
            assert(!t.keys().contains(x));
        }
        assert(saved_bindings(bv) =~= Map::empty());
        return ;
    }
    let ghost base = lines_view(out@);
    let mut i: usize = 0;
    assert(prefix_rows(t.keys(), 0, nv) =~= Map::empty());
    while i < n
        invariant
            i <= n,
            n == t.keys().len(),
            is_plain::<B>(),
            t.keys().no_duplicates(),
            forall|x: ProfileView| t@.contains_key(x) <==> t.keys().contains(x),
            bv == t@.map_values(|r: KeyMap<M, Vec<(Vec<B>, F)>>| list_map_view(r)),
            nv == Map::new(|p: ProfileView| bv.contains_key(p), |p: ProfileView| nonempty_lists(bv[p])),
            lines_view(out@) == base + t.keys().take(i as int).flat_map(binding_block::<M, B, F>(*t)),
            state_of(out@).data == (DataView { bindings: prefix_rows(t.keys(), i as int, nv), ..d0 }),
        decreases n - i,
    {
        let p = dup_profile(t.key_at(i));
        let row = t.value_at(i);
        let ghost pv = t.keys()[i as int];
        let ghost di = prefix_rows(t.keys(), i as int, nv);
        assert(!di.contains_key(pv)) by {
            if t.keys().take(i as int).contains(pv) {
                let j = choose|j: int| 0 <= j < i && t.keys().take(i as int)[j] == pv;
                assert(t.keys()[j] == t.keys()[i as int]);
            }
        }
        assert(t.keys().contains(pv));
        assert(nv[pv] == nonempty_lists(list_map_view(*row)));
        push_line(out, ConfLine::BindingTag(p));
        let ghost mid = lines_view(out@);
        write_mappings(row, out, Ghost(pv));
        proof {
            lemma_flat_one_more(t.keys(), binding_block::<M, B, F>(*t), i as int);
            assert(t@[pv] == *row);
            assert(lines_view(out@) =~= base + t.keys().take(i + 1).flat_map(binding_block::<M, B, F>(*t)));
            lemma_take_one_more(t.keys(), i as int);
            if nv[pv] == Map::<M, BindingListView<B, F>>::empty() {
                assert(prefix_rows(t.keys(), i + 1, nv) =~= di);
            } else {
                assert(prefix_rows(t.keys(), i + 1, nv) =~= di.insert(pv, nv[pv]));
            }
        }
        i = i + 1;
    }
    push_line(out, ConfLine::Blank);
    proof {
        assert(t.keys().take(n as int) =~= t.keys());
        lemma_flat_nonempty(t.keys(), binding_block::<M, B, F>(*t));
        assert(prefix_rows(t.keys(), n as int, nv) =~= saved_bindings(bv));
    }
    assert(lines_view(out@) =~= lines_view(old(out)@) + section(binding_lines::<M, B, F>(*t)));
}

fn write_owners<M: PartialEq + Clone, B: PartialEq + Clone, F: Copy>(
    o: &KeyMap<i32, ProfileMap<()>>,
    out: &mut Vec<ConfLine<M, B, F>>,
)
    requires
        state_of(old(out)@).data.owners_profiles == Map::<i32, Set<ProfileView>>::empty(),
    ensures
        lines_view(final(out)@) == lines_view(old(out)@) + section(owner_lines::<M, B, F>(*o)),
        state_of(final(out)@).data == (DataView {
            owners_profiles: o@.map_values(|s: ProfileMap<()>| s@.dom()),
            ..state_of(old(out)@).data
        }),
{
    let ghost d0 = state_of(out@).data;
    let ghost ov = o@.map_values(|s: ProfileMap<()>| s@.dom());
    let n = o.len();
    if n == 0 {
        assert(o.keys() =~= Seq::<i32>::empty());
        assert(owner_lines::<M, B, F>(*o) =~= Seq::empty());
        assert(lines_view(out@) =~= lines_view(old(out)@) + section(owner_lines::<M, B, F>(*o)));
        assert forall|x: i32| !ov.contains_key(x) by {
            assert(!o.keys().contains(x));
        }
        assert(ov =~= Map::empty());
        return ;
    }
    let ghost base = lines_view(out@);
    let mut i: usize = 0;
    assert(prefix_map(o.keys(), 0, ov) =~= Map::empty());
    while i < n
        invariant
            i <= n,
            n == o.keys().len(),
            forall|x: i32| o@.contains_key(x) <==> o.keys().contains(x),
            ov == o@.map_values(|s: ProfileMap<()>| s@.dom()),
            lines_view(out@) == base + o.keys().take(i as int).flat_map(owner_block::<M, B, F>(*o)),
            state_of(out@).data == (DataView { owners_profiles: prefix_map(o.keys(), i as int, ov), ..d0 }),
        decreases n - i,
    {
        let k = *o.key_at(i);
        let set = o.value_at(i);
        let ghost di = prefix_map(o.keys(), i as int, ov);
        assert(o.keys().contains(k));
        assert(ov[k] == set@.dom());
        push_line(out, ConfLine::OwnerTag(k));
        let ghost mid = lines_view(out@);
        let c = set.len();
        let mut j: usize = 0;
        assert(set.keys().take(0).to_set() =~= Set::<ProfileView>::empty());
        while j < c
            invariant
                j <= c,
                c == set.keys().len(),
                lines_view(out@) == mid + set.keys().take(j as int).map_values(owner_entry::<M, B, F>()),
                state_of(out@).section == Some(LineView::<M, B, F>::OwnerTag(k)),
                state_of(out@).data == (DataView {
                    owners_profiles: di.insert(k, set.keys().take(j as int).to_set()),
                    ..d0
                }),
            decreases c - j,
        {
            let p = dup_profile(set.key_at(j));
            let ghost pv = p.deep_view();
            push_line(out, ConfLine::OwnerProfile(p));
            proof {
                lemma_map_one_more(set.keys(), owner_entry::<M, B, F>(), j as int);
                lemma_take_one_more(set.keys(), j as int);
                assert(set.keys().take(j + 1).to_set() =~= set.keys().take(j as int).to_set().insert(pv));
                assert(state_of(out@).data.owners_profiles =~= di.insert(k, set.keys().take(j + 1).to_set()));
            }
            j = j + 1;
        }
        proof {
            assert(set.keys().take(c as int) =~= set.keys());
            assert(set.keys().to_set() =~= set@.dom());
            lemma_flat_one_more(o.keys(), owner_block::<M, B, F>(*o), i as int);
            assert(o@[k] == *set);
            assert(lines_view(out@) =~= base + o.keys().take(i + 1).flat_map(owner_block::<M, B, F>(*o)));
            lemma_take_one_more(o.keys(), i as int);
            assert(prefix_map(o.keys(), i + 1, ov) =~= di.insert(k, ov[k]));
        }
        i = i + 1;
    }
    push_line(out, ConfLine::Blank);
    proof {
        assert(o.keys().take(n as int) =~= o.keys());
        lemma_flat_nonempty(o.keys(), owner_block::<M, B, F>(*o));
        assert(prefix_map(o.keys(), n as int, ov) =~= ov);
    }
    assert(lines_view(out@) =~= lines_view(old(out)@) + section(owner_lines::<M, B, F>(*o)));
}

/// The lines that the settings are written out as.
pub fn input_data_lines<M: PartialEq + Clone, B: PartialEq + Clone, F: Copy>(
    data: &InputData<M, B, F>,
) -> (r: Vec<ConfLine<M, B, F>>)
    ensures
        lines_view(r@) == save_lines(*data),
        read_back(lines_view(r@)) == saved_part(data@),
{
    proof {
        use_type_invariant(&data.includes);
    }
    let mut out: Vec<ConfLine<M, B, F>> = Vec::new();
    assert(lines_view(out@) =~= Seq::empty());
    write_excludes(&data.excludes, &mut out);
    write_repeats(&data.repeats, &mut out);
    write_deads(&data.deads, &mut out);
    write_scales(&data.scales, &mut out);
    write_bindings(&data.bindings, &mut out);
    write_owners(&data.owners_profiles, &mut out);
    assert(lines_view(out@) =~= save_lines(*data));
    assert(read_back(lines_view(out@)) =~= saved_part(data@));
    out
}

} // verus!
