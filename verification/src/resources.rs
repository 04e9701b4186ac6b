//! The input configuration: default settings, user settings, the user
//! settings as last saved, and the flags that ask for a save and for the
//! input map to be rebuilt.
//!
//! Every getter reads the user settings first and falls back on the
//! defaults; every setter writes the user settings, copying the defaults of a
//! profile or owner in first, and marks the configuration unapplied and
//! unsaved.
use vstd::prelude::*;
use crate::collections::{KeyMap, ProfileMap};
use crate::keys::{is_plain, dup, dup_profile, ProfileView};
use crate::values::{
    DataView, InputData, BindingListView, list_view, list_map_view, dup_list, dup_list_map,
    fill_lists_from, fill_owners_from, dup_owners,
};

verus! {

/// The row of a `[profile][mapping]` table, or nothing.
pub open spec fn row<K, V>(t: Map<ProfileView, Map<K, V>>, p: ProfileView) -> Map<K, V> {
    if t.contains_key(p) {
        t[p]
    } else {
        Map::empty()
    }
}

/// The user's row of a table if the user has the profile, else the default row
/// if there is one.
pub open spec fn pick<K, V>(
    user: Map<ProfileView, Map<K, V>>,
    default: Map<ProfileView, Map<K, V>>,
    p: ProfileView,
) -> Option<Map<K, V>> {
    if user.contains_key(p) {
        Some(user[p])
    } else if default.contains_key(p) {
        Some(default[p])
    } else {
        None
    }
}

/// `pick`, or an empty row.
pub open spec fn pick_or_empty<K, V>(
    user: Map<ProfileView, Map<K, V>>,
    default: Map<ProfileView, Map<K, V>>,
    p: ProfileView,
) -> Map<K, V> {
    match pick(user, default, p) {
        Some(t) => t,
        None => Map::empty(),
    }
}

/// A list of binding groups grown to `n` entries with `(no bindings, fill)`.
pub open spec fn padded<B, F>(l: BindingListView<B, F>, n: nat, fill: F) -> BindingListView<B, F> {
    if l.len() >= n {
        l
    } else {
        l + Seq::new((n - l.len()) as nat, |j: int| (Seq::<B>::empty(), fill))
    }
}

/// The configuration as the contracts see it.
#[verifier::reject_recursive_types(M)]
#[verifier::reject_recursive_types(B)]
pub struct ConfigView<M, B, F> {
    pub default_file: Seq<char>,
    pub user_file: Seq<char>,
    pub default_data: DataView<M, B, F>,
    pub user_data: DataView<M, B, F>,
    pub last_user_data: DataView<M, B, F>,
    pub unapplied: bool,
    pub unsaved: bool,
    pub do_save: bool,
    pub do_apply: bool,
}

impl<M, B, F> ConfigView<M, B, F> {
    /// Asks for the input map to be rebuilt, unless that is already asked.
    pub open spec fn apply(self) -> Self {
        if self.unapplied && !self.do_apply {
            ConfigView { unapplied: false, do_apply: true, ..self }
        } else {
            self
        }
    }

    /// Asks for the user settings to be written out and keeps them as the
    /// saved ones, unless a save is already asked; an unapplied change is
    /// applied with it.
    pub open spec fn save(self) -> Self {
        if self.unsaved && !self.do_save {
            ConfigView {
                unapplied: false,
                do_apply: if self.unapplied {
                    true
                } else {
                    self.do_apply
                },
                unsaved: false,
                do_save: true,
                last_user_data: self.user_data,
                ..self
            }
        } else {
            self
        }
    }

    /// The work that is asked for, taken: no save and no rebuild is left asked.
    pub open spec fn take_pending(self) -> Self {
        ConfigView { do_save: false, do_apply: false, ..self }
    }

    /// Goes back to the saved user settings if anything changed since.
    pub open spec fn restore(self) -> Self {
        if self.unapplied || self.unsaved {
            ConfigView {
                do_apply: if !self.unapplied {
                    true
                } else {
                    self.do_apply
                },
                unapplied: false,
                unsaved: false,
                user_data: self.last_user_data,
                ..self
            }
        } else {
            self
        }
    }

    /// Settings marked saved are the saved ones, and settings marked
    /// unapplied are marked unsaved.
    pub open spec fn consistent(self) -> bool {
        &&& !self.unsaved ==> self.user_data == self.last_user_data
        &&& self.unapplied ==> self.unsaved
    }

    pub open spec fn is_applied(self) -> bool {
        !self.unapplied
    }

    pub open spec fn is_saved(self) -> bool {
        !self.unsaved
    }

    /// The user's excluded bindings if there are any, else the default ones.
    pub open spec fn excludes(self) -> Set<B> {
        if self.user_data.excludes != Set::<B>::empty() {
            self.user_data.excludes
        } else {
            self.default_data.excludes
        }
    }

    /// The user's included bindings if there are any, else the default ones.
    pub open spec fn includes(self) -> Set<B> {
        if self.user_data.includes != Set::<B>::empty() {
            self.user_data.includes
        } else {
            self.default_data.includes
        }
    }

    /// The repeat timings of every mapping, the user's first.
    pub open spec fn mapping_repeats(self) -> Map<M, (F, F)> {
        self.default_data.repeats.union_prefer_right(self.user_data.repeats)
    }

    pub open spec fn bind_mode_deads(self) -> Option<(F, F)> {
        match self.user_data.bind_mode_deads {
            Some(x) => Some(x),
            None => self.default_data.bind_mode_deads,
        }
    }

    /// The scales of a profile: the default row with the user's row over it.
    pub open spec fn scales(self, p: ProfileView) -> Map<M, F> {
        row(self.default_data.scales, p).union_prefer_right(row(self.user_data.scales, p))
    }

    /// The dead zones of a profile: the default row with the user's row over it.
    pub open spec fn deads(self, p: ProfileView) -> Map<M, (F, F)> {
        row(self.default_data.deads, p).union_prefer_right(row(self.user_data.deads, p))
    }

    /// The bindings of a profile: the default row with the user's row over it.
    pub open spec fn bindings(self, p: ProfileView) -> Map<M, BindingListView<B, F>> {
        row(self.default_data.bindings, p).union_prefer_right(row(self.user_data.bindings, p))
    }

    /// The profiles of every owner, the user's first.
    pub open spec fn owners_profiles(self) -> Map<i32, Set<ProfileView>> {
        self.default_data.owners_profiles.union_prefer_right(self.user_data.owners_profiles)
    }

    /// The scale of a mapping in the user's row of the profile if the user
    /// has the profile, else in the default row.
    pub open spec fn scale(self, p: ProfileView, m: M) -> Option<F> {
        match pick(self.user_data.scales, self.default_data.scales, p) {
            Some(t) => t.get(m),
            None => None,
        }
    }

    /// The dead zones of a mapping in the user's row of the profile if the
    /// user has the profile, else in the default row.
    pub open spec fn dead(self, p: ProfileView, m: M) -> Option<(F, F)> {
        match pick(self.user_data.deads, self.default_data.deads, p) {
            Some(t) => t.get(m),
            None => None,
        }
    }

    /// The binding group at index `i` of a mapping in the user's row of the
    /// profile if the user has the profile, else in the default row.
    pub open spec fn binding(self, p: ProfileView, m: M, i: int) -> Option<(Seq<B>, F)> {
        match pick(self.user_data.bindings, self.default_data.bindings, p) {
            Some(t) => if t.contains_key(m) && 0 <= i < t[m].len() {
                Some(t[m][i])
            } else {
                None
            },
            None => None,
        }
    }

    /// The profiles of an owner: the user's if the user has the owner, else
    /// the default ones.
    pub open spec fn owner_profiles(self, o: i32) -> Set<ProfileView> {
        if self.user_data.owners_profiles.contains_key(o) {
            self.user_data.owners_profiles[o]
        } else if self.default_data.owners_profiles.contains_key(o) {
            self.default_data.owners_profiles[o]
        } else {
            Set::empty()
        }
    }

    /// New user settings, marked unapplied and unsaved.
    pub open spec fn changed(self, user: DataView<M, B, F>) -> Self {
        ConfigView { user_data: user, unapplied: true, unsaved: true, ..self }
    }

    /// Adds a profile to an owner; the user takes the owner's default profiles
    /// first if it does not have the owner.
    pub open spec fn owner_insert_profile(self, o: i32, p: ProfileView) -> Self {
        self.changed(
            DataView {
                owners_profiles: self.user_data.owners_profiles.insert(
                    o,
                    self.owner_profiles(o).insert(p),
                ),
                ..self.user_data
            },
        )
    }

    /// Removes a profile from the user's profiles of an owner. Where the user
    /// does not have the owner and the owner's default profiles hold the
    /// profile, the user takes the default profiles as they are.
    pub open spec fn owner_remove_profile(self, o: i32, p: ProfileView) -> Self {
        let u = self.user_data.owners_profiles;
        let d = self.default_data.owners_profiles;
        let owners = if u.contains_key(o) {
            if u[o].contains(p) {
                u.insert(o, u[o].remove(p))
            } else {
                u
            }
        } else if d.contains_key(o) && d[o].contains(p) {
            u.insert(o, d[o])
        } else {
            u
        };
        self.changed(DataView { owners_profiles: owners, ..self.user_data })
    }

    /// Gives an owner no profiles, where the user or the defaults have it.
    pub open spec fn owner_clear_profiles(self, o: i32) -> Self {
        let u = self.user_data.owners_profiles;
        let owners = if u.contains_key(o) || self.default_data.owners_profiles.contains_key(o) {
            u.insert(o, Set::empty())
        } else {
            u
        };
        self.changed(DataView { owners_profiles: owners, ..self.user_data })
    }

    /// The row that a new profile starts from: the picked row of `from`, or nothing.
    pub open spec fn start_row<K, V>(
        user: Map<ProfileView, Map<K, V>>,
        default: Map<ProfileView, Map<K, V>>,
        from: Option<ProfileView>,
    ) -> Map<K, V> {
        match from {
            Some(f) => pick_or_empty(user, default, f),
            None => Map::empty(),
        }
    }

    /// Gives the user a scales row for a profile, copied from `from`.
    pub open spec fn new_scales_profile(self, p: ProfileView, from: Option<ProfileView>) -> Self {
        self.changed(
            DataView {
                scales: self.user_data.scales.insert(
                    p,
                    Self::start_row(self.user_data.scales, self.default_data.scales, from),
                ),
                ..self.user_data
            },
        )
    }

    /// Gives the user a dead zones row for a profile, copied from `from`.
    pub open spec fn new_deads_profile(self, p: ProfileView, from: Option<ProfileView>) -> Self {
        self.changed(
            DataView {
                deads: self.user_data.deads.insert(
                    p,
                    Self::start_row(self.user_data.deads, self.default_data.deads, from),
                ),
                ..self.user_data
            },
        )
    }

    /// Gives the user a bindings row for a profile, copied from `from`.
    pub open spec fn new_bindings_profile(self, p: ProfileView, from: Option<ProfileView>) -> Self {
        self.changed(
            DataView {
                bindings: self.user_data.bindings.insert(
                    p,
                    Self::start_row(self.user_data.bindings, self.default_data.bindings, from),
                ),
                ..self.user_data
            },
        )
    }

    /// Sets the scale of a mapping in the user's row of a profile.
    pub open spec fn set_scale(self, p: ProfileView, m: M, s: F) -> Self {
        let base = pick_or_empty(self.user_data.scales, self.default_data.scales, p);
        self.changed(
            DataView { scales: self.user_data.scales.insert(p, base.insert(m, s)), ..self.user_data },
        )
    }

    /// Sets the dead zones of a mapping in the user's row of a profile.
    pub open spec fn set_dead(self, p: ProfileView, m: M, primary: F, modifier: F) -> Self {
        let base = pick_or_empty(self.user_data.deads, self.default_data.deads, p);
        self.changed(
            DataView {
                deads: self.user_data.deads.insert(p, base.insert(m, (primary, modifier))),
                ..self.user_data
            },
        )
    }

    /// Sets the binding group at index `i` of a mapping in the user's row of a
    /// profile; the list grows with `(no bindings, fill)` up to the index.
    pub open spec fn set_binding(
        self,
        p: ProfileView,
        m: M,
        i: nat,
        bindings: Seq<B>,
        s: F,
        fill: F,
    ) -> Self {
        let base = pick_or_empty(self.user_data.bindings, self.default_data.bindings, p);
        let list = if base.contains_key(m) {
            base[m]
        } else {
            Seq::empty()
        };
        let list2 = padded(list, i + 1, fill).update(i as int, (bindings, s));
        self.changed(
            DataView {
                bindings: self.user_data.bindings.insert(p, base.insert(m, list2)),
                ..self.user_data
            },
        )
    }
}

/// The input configuration: the settings of the default file and of the user
/// file, the user settings as last saved, and what is left to do.
pub struct InputConfig<M: PartialEq + Clone, B: PartialEq + Clone, F: Copy> {
    pub default_file: String,
    pub user_file: String,
    pub default_data: InputData<M, B, F>,
    pub user_data: InputData<M, B, F>,
    pub last_user_data: InputData<M, B, F>,
    /// The user settings changed since the input map was last rebuilt.
    pub unapplied: bool,
    /// The user settings changed since they were last saved.
    pub unsaved: bool,
    /// The user settings are to be written out.
    pub do_save: bool,
    /// The input map is to be rebuilt.
    pub do_apply: bool,
}

impl<M: PartialEq + Clone, B: PartialEq + Clone, F: Copy> View for InputConfig<M, B, F> {
    type V = ConfigView<M, B, F>;

    open spec fn view(&self) -> ConfigView<M, B, F> {
        ConfigView {
            default_file: self.default_file@,
            user_file: self.user_file@,
            default_data: self.default_data@,
            user_data: self.user_data@,
            last_user_data: self.last_user_data@,
            unapplied: self.unapplied,
            unsaved: self.unsaved,
            do_save: self.do_save,
            do_apply: self.do_apply,
        }
    }
}

impl<M: PartialEq + Clone, B: PartialEq + Clone, F: Copy> InputConfig<M, B, F> {
    /// A configuration with no settings and nothing to do.
    pub fn new() -> (c: Self)
        requires
            is_plain::<M>(),
            is_plain::<B>(),
        ensures
            c@.default_file == Seq::<char>::empty(),
            c@.user_file == Seq::<char>::empty(),
            c@.default_data == DataView::<M, B, F>::empty(),
            c@.user_data == DataView::<M, B, F>::empty(),
            c@.last_user_data == DataView::<M, B, F>::empty(),
            !c.unapplied,
            !c.unsaved,
            !c.do_save,
            !c.do_apply,
            c@.consistent(),
    {
        InputConfig {
            default_file: String::new(),
            user_file: String::new(),
            default_data: InputData::new(),
            user_data: InputData::new(),
            last_user_data: InputData::new(),
            unapplied: false,
            unsaved: false,
            do_save: false,
            do_apply: false,
        }
    }

    /// Asks for the input map to be rebuilt from the user settings.
    pub fn apply(&mut self)
        ensures
            final(self)@ == old(self)@.apply(),
    {
        if self.unapplied && !self.do_apply {
            self.unapplied = false;
            self.do_apply = true;
        }
    }

    /// Asks for the user settings to be written out, and keeps them as the
    /// saved ones.
    pub fn save(&mut self)
        ensures
            final(self)@ == old(self)@.save(),
    {
        if self.unsaved && !self.do_save {
            if self.unapplied {
                self.unapplied = false;
                self.do_apply = true;
            }
            self.unsaved = false;
            self.do_save = true;
            self.last_user_data = self.user_data.duplicate();
        }
    }

    /// Goes back to the user settings as last saved.
    pub fn restore(&mut self)
        ensures
            final(self)@ == old(self)@.restore(),
    {
        if self.unapplied || self.unsaved {
            if !self.unapplied {
                self.do_apply = true;
            }
            self.unapplied = false;
            self.unsaved = false;
            self.user_data = self.last_user_data.duplicate();
        }
    }

    pub fn is_applied(&self) -> (r: bool)
        ensures
            r == self@.is_applied(),
    {
        !self.unapplied
    }

    pub fn is_saved(&self) -> (r: bool)
        ensures
            r == self@.is_saved(),
    {
        !self.unsaved
    }

    /// The user's excluded bindings if there are any, else the default ones.
    pub fn get_excludes(&self) -> (r: KeyMap<B, ()>)
        ensures
            r@.dom() == self@.excludes(),
    {
        let n = self.user_data.excludes.len();
        if n != 0 {
            proof {
                let b = self.user_data.excludes.keys()[0];
                assert(self.user_data.excludes.keys().contains(b));
                assert(self@.user_data.excludes.contains(b));
            }
            self.user_data.excludes.duplicate()
        } else {
            assert forall|b: B| !self@.user_data.excludes.contains(b) by {
                assert(!self.user_data.excludes.keys().contains(b));
            }
            assert(self@.user_data.excludes =~= Set::<B>::empty());
            self.default_data.excludes.duplicate()
        }
    }

    /// The user's included bindings if there are any, else the default ones.
    pub fn get_includes(&self) -> (r: KeyMap<B, ()>)
        ensures
            r@.dom() == self@.includes(),
    {
        let n = self.user_data.includes.len();
        if n != 0 {
            proof {
                let b = self.user_data.includes.keys()[0];
                assert(self.user_data.includes.keys().contains(b));
                assert(self@.user_data.includes.contains(b));
            }
            self.user_data.includes.duplicate()
        } else {
            assert forall|b: B| !self@.user_data.includes.contains(b) by {
                assert(!self.user_data.includes.keys().contains(b));
            }
            assert(self@.user_data.includes =~= Set::<B>::empty());
            self.default_data.includes.duplicate()
        }
    }

    /// The repeat timings of every mapping, the user's first.
    pub fn get_mapping_repeats(&self) -> (r: KeyMap<M, (F, F)>)
        ensures
            r@ == self@.mapping_repeats(),
    {
        let mut h = self.user_data.repeats.duplicate();
        h.fill_from(&self.default_data.repeats);
        h
    }

    pub fn get_bind_mode_deads(&self) -> (r: Option<(F, F)>)
        ensures
            r == self@.bind_mode_deads(),
    {
        match self.user_data.bind_mode_deads {
            Some(x) => Some(x),
            None => self.default_data.bind_mode_deads,
        }
    }

    /// The scales of a profile, the user's first.
    pub fn get_scales(&self, profile: &Vec<String>) -> (r: KeyMap<M, F>)
        ensures
            r@ == self@.scales(profile.deep_view()),
    {
        proof {
            use_type_invariant(&self.user_data.repeats);
        }
        let ghost p = profile.deep_view();
        let mut h = match self.user_data.scales.get(profile) {
            Some(t) => t.duplicate(),
            None => KeyMap::new(),
        };
        assert(h@ == row(self@.user_data.scales, p));
        match self.default_data.scales.get(profile) {
            Some(d) => {
                h.fill_from(d);
            },
            None => {
                assert(row(self@.default_data.scales, p).union_prefer_right(h@) =~= h@);
            },
        }
        h
    }

    /// The dead zones of a profile, the user's first.
    pub fn get_deads(&self, profile: &Vec<String>) -> (r: KeyMap<M, (F, F)>)
        ensures
            r@ == self@.deads(profile.deep_view()),
    {
        proof {
            use_type_invariant(&self.user_data.repeats);
        }
        let ghost p = profile.deep_view();
        let mut h = match self.user_data.deads.get(profile) {
            Some(t) => t.duplicate(),
            None => KeyMap::new(),
        };
        assert(h@ == row(self@.user_data.deads, p));
        match self.default_data.deads.get(profile) {
            Some(d) => {
                h.fill_from(d);
            },
            None => {
                assert(row(self@.default_data.deads, p).union_prefer_right(h@) =~= h@);
            },
        }
        h
    }

    /// The bindings of a profile, the user's first.
    pub fn get_bindings(&self, profile: &Vec<String>) -> (r: KeyMap<M, Vec<(Vec<B>, F)>>)
        ensures
            list_map_view(r) == self@.bindings(profile.deep_view()),
    {
        proof {
            use_type_invariant(&self.user_data.repeats);
            use_type_invariant(&self.user_data.includes);
        }
        let ghost p = profile.deep_view();
        let mut h = match self.user_data.bindings.get(profile) {
            Some(t) => dup_list_map(t),
            None => {
                let e = KeyMap::new();
                assert(list_map_view(e) =~= Map::empty());
                e
            },
        };
        assert(list_map_view(h) == row(self@.user_data.bindings, p));
        match self.default_data.bindings.get(profile) {
            Some(d) => {
                fill_lists_from(&mut h, d);
            },
            None => {
                assert(row(self@.default_data.bindings, p).union_prefer_right(list_map_view(h))
                    =~= list_map_view(h));
            },
        }
        h
    }

    /// The profiles of every owner, the user's first.
    pub fn get_owners_profiles(&self) -> (r: KeyMap<i32, ProfileMap<()>>)
        ensures
            r@.map_values(|s: ProfileMap<()>| s@.dom()) == self@.owners_profiles(),
    {
        let mut h = dup_owners(&self.user_data.owners_profiles);
        fill_owners_from(&mut h, &self.default_data.owners_profiles);
        h
    }

    /// The scale of a mapping in the user's row of the profile if the user has
    /// the profile, else in the default row.
    pub fn get_scale(&self, profile: &Vec<String>, mapping: M) -> (r: Option<F>)
        ensures
            r == self@.scale(profile.deep_view(), mapping),
    {
        let t = match self.user_data.scales.get(profile) {
            Some(t) => Some(t),
            None => self.default_data.scales.get(profile),
        };
        match t {
            Some(t) => match t.get(&mapping) {
                Some(x) => Some(*x),
                None => None,
            },
            None => None,
        }
    }

    /// The dead zones of a mapping in the user's row of the profile if the
    /// user has the profile, else in the default row.
    pub fn get_dead(&self, profile: &Vec<String>, mapping: M) -> (r: Option<(F, F)>)
        ensures
            r == self@.dead(profile.deep_view(), mapping),
    {
        let t = match self.user_data.deads.get(profile) {
            Some(t) => Some(t),
            None => self.default_data.deads.get(profile),
        };
        match t {
            Some(t) => match t.get(&mapping) {
                Some(x) => Some(*x),
                None => None,
            },
            None => None,
        }
    }

    /// The binding group at an index of a mapping in the user's row of the
    /// profile if the user has the profile, else in the default row; no
    /// bindings and the default scale where there is none.
    pub fn get_binding(&self, profile: &Vec<String>, mapping: M, binding_ind: usize) -> (r: (
        Vec<B>,
        F,
    )) where F: Default
        ensures
            match self@.binding(profile.deep_view(), mapping, binding_ind as int) {
                Some(x) => r.0@ == x.0 && r.1 == x.1,
                None => r.0@ == Seq::<B>::empty() && call_ensures(F::default, (), r.1),
            },
    {
        proof {
            use_type_invariant(&self.user_data.includes);
        }
        let t = match self.user_data.bindings.get(profile) {
            Some(t) => Some(t),
            None => self.default_data.bindings.get(profile),
        };
        let l = match t {
            Some(t) => t.get(&mapping),
            None => None,
        };
        match l {
            Some(l) => {
                if binding_ind < l.len() {
                    let e = &l[binding_ind];
                    return (crate::keys::dup_seq(&e.0), e.1);
                }
            },
            None => {},
        }
        (Vec::new(), F::default())
    }

    /// The profiles of an owner: the user's if the user has the owner, else
    /// the default ones.
    pub fn get_owner_profiles(self, owner: i32) -> (r: ProfileMap<()>)
        ensures
            r@.dom() == self@.owner_profiles(owner),
    {
        match self.user_data.owners_profiles.get(&owner) {
            Some(s) => s.duplicate(),
            None => match self.default_data.owners_profiles.get(&owner) {
                Some(s) => s.duplicate(),
                None => {
                    let e = ProfileMap::new();
                    assert(e@.dom() =~= Set::<ProfileView>::empty());
                    e
                },
            },
        }
    }

    /// Adds a profile to an owner in the user settings; the user takes the
    /// owner's default profiles first if it does not have the owner.
    pub fn owner_insert_profile(&mut self, owner: i32, profile: Vec<String>)
        ensures
            final(self)@ == old(self)@.owner_insert_profile(owner, profile.deep_view()),
    {
        let ghost p = profile.deep_view();
        let mut set = match self.user_data.owners_profiles.remove(&owner) {
            Some(s) => s,
            None => match self.default_data.owners_profiles.get(&owner) {
                Some(d) => d.duplicate(),
                None => ProfileMap::new(),
            },
        };
        assert(set@.dom() =~= old(self)@.owner_profiles(owner));
        set.insert(profile, ());
        self.user_data.owners_profiles.insert(owner, set);
        self.unapplied = true;
        self.unsaved = true;
        assert(self@.user_data.owners_profiles =~= old(self)@.user_data.owners_profiles.insert(
            owner,
            old(self)@.owner_profiles(owner).insert(p),
        ));
    }

    /// Removes a profile from an owner in the user settings.
    pub fn owner_remove_profile(&mut self, owner: i32, profile: Vec<String>)
        ensures
            final(self)@ == old(self)@.owner_remove_profile(owner, profile.deep_view()),
    {
        let ghost p = profile.deep_view();
        match self.user_data.owners_profiles.remove(&owner) {
            Some(mut s) => {
                if s.contains_key(&profile) {
                    s.remove(&profile);
                    assert(s@.dom() =~= old(self)@.user_data.owners_profiles[owner].remove(p));
                }
                self.user_data.owners_profiles.insert(owner, s);
            },
            None => {
                match self.default_data.owners_profiles.get(&owner) {
                    Some(d) => {
                        if d.contains_key(&profile) {
                            let c = d.duplicate();
                            self.user_data.owners_profiles.insert(owner, c);
                        }
                    },
                    None => {},
                }
            },
        }
        self.unapplied = true;
        self.unsaved = true;
        assert(self@.user_data.owners_profiles =~= old(self)@.owner_remove_profile(
            owner,
            p,
        ).user_data.owners_profiles);
    }

    /// Gives an owner no profiles in the user settings, where the user or the
    /// defaults have the owner.
    pub fn owner_clear_profiles(&mut self, owner: i32)
        ensures
            final(self)@ == old(self)@.owner_clear_profiles(owner),
    {
        if self.user_data.owners_profiles.contains_key(&owner)
            || self.default_data.owners_profiles.contains_key(&owner) {
            let e: ProfileMap<()> = ProfileMap::new();
            assert(e@.dom() =~= Set::<ProfileView>::empty());
            self.user_data.owners_profiles.insert(owner, e);
        }
        self.unapplied = true;
        self.unsaved = true;
        assert(self@.user_data.owners_profiles =~= old(self)@.owner_clear_profiles(
            owner,
        ).user_data.owners_profiles);
    }

    /// Gives the user a scales row for a profile, a copy of the row of
    /// `from_profile` (the user's, else the default one) or an empty row.
    pub fn new_scales_profile(&mut self, profile: Vec<String>, from_profile: Option<Vec<String>>)
        ensures
            final(self)@ == old(self)@.new_scales_profile(
                profile.deep_view(),
                match from_profile {
                    Some(f) => Some(f.deep_view()),
                    None => None,
                },
            ),
    {
        proof {
            use_type_invariant(&self.user_data.repeats);
        }
        let new_scales = match &from_profile {
            Some(f) => match self.user_data.scales.get(f) {
                Some(x) => x.duplicate(),
                None => match self.default_data.scales.get(f) {
                    Some(x) => x.duplicate(),
                    None => KeyMap::new(),
                },
            },
            None => KeyMap::new(),
        };
        self.user_data.scales.insert(profile, new_scales);
        self.unapplied = true;
        self.unsaved = true;
        assert(self@.user_data.scales =~= old(self)@.new_scales_profile(
            profile.deep_view(),
            match from_profile {
                Some(f) => Some(f.deep_view()),
                None => None,
            },
        ).user_data.scales);
    }

    /// Gives the user a dead zones row for a profile, a copy of the row of
    /// `from_profile` (the user's, else the default one) or an empty row.
    pub fn new_deads_profile(&mut self, profile: Vec<String>, from_profile: Option<Vec<String>>)
        ensures
            final(self)@ == old(self)@.new_deads_profile(
                profile.deep_view(),
                match from_profile {
                    Some(f) => Some(f.deep_view()),
                    None => None,
                },
            ),
    {
        proof {
            use_type_invariant(&self.user_data.repeats);
        }
        let new_deads = match &from_profile {
            Some(f) => match self.user_data.deads.get(f) {
                Some(x) => x.duplicate(),
                None => match self.default_data.deads.get(f) {
                    Some(x) => x.duplicate(),
                    None => KeyMap::new(),
                },
            },
            None => KeyMap::new(),
        };
        self.user_data.deads.insert(profile, new_deads);
        self.unapplied = true;
        self.unsaved = true;
        assert(self@.user_data.deads =~= old(self)@.new_deads_profile(
            profile.deep_view(),
            match from_profile {
                Some(f) => Some(f.deep_view()),
                None => None,
            },
        ).user_data.deads);
    }

    /// Gives the user a bindings row for a profile, a copy of the row of
    /// `from_profile` (the user's, else the default one) or an empty row.
    pub fn new_bindings_profile(&mut self, profile: Vec<String>, from_profile: Option<Vec<String>>)
        ensures
            final(self)@ == old(self)@.new_bindings_profile(
                profile.deep_view(),
                match from_profile {
                    Some(f) => Some(f.deep_view()),
                    None => None,
                },
            ),
    {
        proof {
            use_type_invariant(&self.user_data.repeats);
            use_type_invariant(&self.user_data.includes);
        }
        let new_bindings = match &from_profile {
            Some(f) => match self.user_data.bindings.get(f) {
                Some(x) => dup_list_map(x),
                None => match self.default_data.bindings.get(f) {
                    Some(x) => dup_list_map(x),
                    None => KeyMap::new(),
                },
            },
            None => KeyMap::new(),
        };
        assert(list_map_view(new_bindings) == ConfigView::<M, B, F>::start_row(
            old(self)@.user_data.bindings,
            old(self)@.default_data.bindings,
            match from_profile {
                Some(f) => Some(f.deep_view()),
                None => None,
            },
        ));
        self.user_data.bindings.insert(profile, new_bindings);
        self.unapplied = true;
        self.unsaved = true;
        assert(self@.user_data.bindings =~= old(self)@.new_bindings_profile(
            profile.deep_view(),
            match from_profile {
                Some(f) => Some(f.deep_view()),
                None => None,
            },
        ).user_data.bindings);
    }

    /// Sets the scale of a mapping in the user's row of a profile; the user
    /// takes the default row first if it does not have the profile.
    pub fn set_scale(&mut self, profile: Vec<String>, mapping: M, scale: F)
        ensures
            final(self)@ == old(self)@.set_scale(profile.deep_view(), mapping, scale),
    {
        proof {
            use_type_invariant(&self.user_data.repeats);
        }
        let ghost p = profile.deep_view();
        let mut row = match self.user_data.scales.remove(&profile) {
            Some(t) => t,
            None => match self.default_data.scales.get(&profile) {
                Some(d) => d.duplicate(),
                None => KeyMap::new(),
            },
        };
        assert(row@ == pick_or_empty(old(self)@.user_data.scales, old(self)@.default_data.scales, p));
        row.insert(mapping, scale);
        self.user_data.scales.insert(profile, row);
        self.unapplied = true;
        self.unsaved = true;
        assert(self@.user_data.scales =~= old(self)@.set_scale(p, mapping, scale).user_data.scales);
    }

    /// Sets the dead zones of a mapping in the user's row of a profile; the
    /// user takes the default row first if it does not have the profile.
    pub fn set_dead(&mut self, profile: Vec<String>, mapping: M, primary_dead: F, modifier_dead: F)
        ensures
            final(self)@ == old(self)@.set_dead(
                profile.deep_view(),
                mapping,
                primary_dead,
                modifier_dead,
            ),
    {
        proof {
            use_type_invariant(&self.user_data.repeats);
        }
        let ghost p = profile.deep_view();
        let mut row = match self.user_data.deads.remove(&profile) {
            Some(t) => t,
            None => match self.default_data.deads.get(&profile) {
                Some(d) => d.duplicate(),
                None => KeyMap::new(),
            },
        };
        assert(row@ == pick_or_empty(old(self)@.user_data.deads, old(self)@.default_data.deads, p));
        row.insert(mapping, (primary_dead, modifier_dead));
        self.user_data.deads.insert(profile, row);
        self.unapplied = true;
        self.unsaved = true;
        assert(self@.user_data.deads =~= old(self)@.set_dead(
            p,
            mapping,
            primary_dead,
            modifier_dead,
        ).user_data.deads);
    }

    /// Sets the binding group at an index of a mapping in the user's row of a
    /// profile; the user takes the default row first if it does not have the
    /// profile, and the list grows with empty groups of the default scale up
    /// to the index.
    pub fn set_binding(
        &mut self,
        profile: Vec<String>,
        mapping: M,
        binding_ind: usize,
        bindings: Vec<B>,
        scale: F,
    ) where F: Default
        requires
            binding_ind < usize::MAX,
        ensures
            exists|fill: F|
                call_ensures(F::default, (), fill) && final(self)@ == old(self)@.set_binding(
                    profile.deep_view(),
                    mapping,
                    binding_ind as nat,
                    bindings@,
                    scale,
                    fill,
                ),
    {
        proof {
            use_type_invariant(&self.user_data.repeats);
            use_type_invariant(&self.user_data.includes);
        }
        let ghost p = profile.deep_view();
        let mut row = match self.user_data.bindings.remove(&profile) {
            Some(t) => t,
            None => match self.default_data.bindings.get(&profile) {
                Some(d) => dup_list_map(d),
                None => {
                    let e = KeyMap::new();
                    assert(list_map_view(e) =~= Map::empty());
                    e
                },
            },
        };
        let ghost base = pick_or_empty(
            old(self)@.user_data.bindings,
            old(self)@.default_data.bindings,
            p,
        );
        assert(list_map_view(row) == base);
        let mut list = match row.remove(&mapping) {
            Some(l) => l,
            None => Vec::new(),
        };
        let ghost orig = if base.contains_key(mapping) {
            base[mapping]
        } else {
            Seq::empty()
        };
        assert(list_view(list) =~= orig);
        let fill = F::default();
        let n = binding_ind + 1;
        assert forall|j: int| 0 <= j < orig.len() implies list@[j].0@ == orig[j].0 && list@[j].1
            == orig[j].1 by {
            assert(list_view(list)[j] == orig[j]);
        }
        while list.len() < n
            invariant
                n == binding_ind + 1,
                list@.len() >= orig.len(),
                list@.len() == orig.len() || list@.len() <= n,
                forall|j: int|
                    #![trigger list@[j]]
                    0 <= j < orig.len() ==> list@[j].0@ == orig[j].0 && list@[j].1 == orig[j].1,
                forall|j: int|
                    #![trigger list@[j]]
                    orig.len() <= j < list@.len() ==> list@[j].0@ == Seq::<B>::empty()
                        && list@[j].1 == fill,
            decreases n - list@.len(),
        {
            let e: Vec<B> = Vec::new();
            list.push((e, fill));
        }
        assert(list@.len() == padded(orig, n as nat, fill).len());
        assert forall|j: int| 0 <= j < list@.len() implies #[trigger] list_view(list)[j] == padded(
            orig,
            n as nat,
            fill,
        )[j] by {
            if j < orig.len() {
                assert(list@[j].0@ == orig[j].0);
            } else {
                assert(list@[j].0@ == Seq::<B>::empty());
            }
        }
        assert(list_view(list) =~= padded(orig, n as nat, fill));
        list.set(binding_ind, (bindings, scale));
        let ghost list2 = padded(orig, n as nat, fill).update(binding_ind as int, (bindings@, scale));
        assert(list_view(list) =~= list2);
        row.insert(mapping, list);
        assert(list_map_view(row) =~= base.insert(mapping, list2));
        self.user_data.bindings.insert(profile, row);
        self.unapplied = true;
        self.unsaved = true;
        assert(self@.user_data.bindings =~= old(self)@.set_binding(
            p,
            mapping,
            binding_ind as nat,
            bindings@,
            scale,
            fill,
        ).user_data.bindings);
        assert(self@ == old(self)@.set_binding(
            p,
            mapping,
            binding_ind as nat,
            bindings@,
            scale,
            fill,
        ));
    }

    /// Takes the work that is asked for: whether the user settings are to be
    /// written out, and whether the input map is to be rebuilt. Neither is
    /// asked afterwards.
    pub fn take_pending(&mut self) -> (r: (bool, bool))
        ensures
            r == (old(self).do_save, old(self).do_apply),
            final(self)@ == old(self)@.take_pending(),
    {
        let r = (self.do_save, self.do_apply);
        self.do_save = false;
        self.do_apply = false;
        r
    }
}

} // verus!
