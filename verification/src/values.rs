//! The input settings that one configuration file holds.
//!
//! `M` is the mapping (the action that an input drives), `B` a binding (one
//! key, button or axis), and `F` the scalar of scales, dead zones and repeat
//! timings.
use vstd::prelude::*;
use crate::collections::{KeyMap, ProfileMap};
use crate::keys::{is_plain, dup, dup_seq, dup_profile, lemma_take_one_more, ProfileView};

verus! {

/// A list of binding groups with their scales, as the contracts see it.
pub type BindingListView<B, F> = Seq<(Seq<B>, F)>;

/// The settings of one file, as the contracts see them.
#[verifier::reject_recursive_types(M)]
#[verifier::reject_recursive_types(B)]
pub struct DataView<M, B, F> {
    pub includes: Set<B>,
    pub excludes: Set<B>,
    pub repeats: Map<M, (F, F)>,
    pub bind_mode_deads: Option<(F, F)>,
    pub owners_profiles: Map<i32, Set<ProfileView>>,
    pub scales: Map<ProfileView, Map<M, F>>,
    pub deads: Map<ProfileView, Map<M, (F, F)>>,
    pub bindings: Map<ProfileView, Map<M, BindingListView<B, F>>>,
}

impl<M, B, F> DataView<M, B, F> {
    /// Settings with nothing in them.
    pub open spec fn empty() -> Self {
        DataView {
            includes: Set::empty(),
            excludes: Set::empty(),
            repeats: Map::empty(),
            bind_mode_deads: None,
            owners_profiles: Map::empty(),
            scales: Map::empty(),
            deads: Map::empty(),
            bindings: Map::empty(),
        }
    }
}

/// The settings of one file: `[profile][mapping]` tables of scales, dead
/// zones and bindings, the profiles of each owner, and the global lists.
pub struct InputData<M: PartialEq + Clone, B: PartialEq + Clone, F: Copy> {
    /// Bindings that bind mode listens to.
    pub includes: KeyMap<B, ()>,
    /// Bindings that bind mode ignores.
    pub excludes: KeyMap<B, ()>,
    /// `[mapping] = (initial delay, rate)`.
    pub repeats: KeyMap<M, (F, F)>,
    pub bind_mode_deads: Option<(F, F)>,
    /// `[owner] = profiles`.
    pub owners_profiles: KeyMap<i32, ProfileMap<()>>,
    /// `[profile][mapping] = scale`.
    pub scales: ProfileMap<KeyMap<M, F>>,
    /// `[profile][mapping] = (primary dead zone, modifier dead zone)`.
    pub deads: ProfileMap<KeyMap<M, (F, F)>>,
    /// `[profile][mapping] = [(binding group, scale)]`.
    pub bindings: ProfileMap<KeyMap<M, Vec<(Vec<B>, F)>>>,
}

/// The view of a list of binding groups.
pub open spec fn list_view<B, F>(l: Vec<(Vec<B>, F)>) -> BindingListView<B, F> {
    l@.map_values(|e: (Vec<B>, F)| (e.0@, e.1))
}

/// The view of the bindings of one profile.
pub open spec fn list_map_view<M: PartialEq + Clone, B, F>(
    m: KeyMap<M, Vec<(Vec<B>, F)>>,
) -> Map<M, BindingListView<B, F>> {
    m@.map_values(|l: Vec<(Vec<B>, F)>| list_view(l))
}

impl<M: PartialEq + Clone, B: PartialEq + Clone, F: Copy> View for InputData<M, B, F> {
    type V = DataView<M, B, F>;

    open spec fn view(&self) -> DataView<M, B, F> {
        DataView {
            includes: self.includes@.dom(),
            excludes: self.excludes@.dom(),
            repeats: self.repeats@,
            bind_mode_deads: self.bind_mode_deads,
            owners_profiles: self.owners_profiles@.map_values(|s: ProfileMap<()>| s@.dom()),
            scales: self.scales@.map_values(|m: KeyMap<M, F>| m@),
            deads: self.deads@.map_values(|m: KeyMap<M, (F, F)>| m@),
            bindings: self.bindings@.map_values(
                |m: KeyMap<M, Vec<(Vec<B>, F)>>| list_map_view(m),
            ),
        }
    }
}

/// Copies a list of binding groups.
pub fn dup_list<B: PartialEq + Clone, F: Copy>(l: &Vec<(Vec<B>, F)>) -> (r: Vec<(Vec<B>, F)>)
    requires
        is_plain::<B>(),
    ensures
        list_view(r) == list_view(*l),
{
    let mut r: Vec<(Vec<B>, F)> = Vec::new();
    let n = l.len();
    for i in 0..n
        invariant
            n == l@.len(),
            is_plain::<B>(),
            r@.len() == i,
            forall|j: int|
                #![trigger r@[j]]
                0 <= j < i ==> r@[j].0@ == l@[j].0@ && r@[j].1 == l@[j].1,
    {
        let g = dup_seq(&l[i].0);
        r.push((g, l[i].1));
    }
    assert(list_view(r) =~= list_view(*l));
    r
}

/// Copies the bindings of one profile: each mapping's list of binding groups.
pub fn dup_list_map<M: PartialEq + Clone, B: PartialEq + Clone, F: Copy>(
    m: &KeyMap<M, Vec<(Vec<B>, F)>>,
) -> (r: KeyMap<M, Vec<(Vec<B>, F)>>)
    requires
        is_plain::<B>(),
    ensures
        list_map_view(r) == list_map_view(*m),
{
    let n = m.len();
    let mut r: KeyMap<M, Vec<(Vec<B>, F)>> = KeyMap::new();
    for i in 0..n
        invariant
            n == m.keys().len(),
            is_plain::<M>(),
            is_plain::<B>(),
            m.keys().no_duplicates(),
            forall|k: M| m@.contains_key(k) <==> m.keys().contains(k),
            forall|k: M| r@.contains_key(k) <==> m.keys().take(i as int).contains(k),
            forall|k: M| r@.contains_key(k) ==> list_view(#[trigger] r@[k]) == list_view(m@[k]),
    {
        let k = dup(m.key_at(i));
        let l = dup_list(m.value_at(i));
        r.insert(k, l);
        assert(m.keys().take(i + 1) =~= m.keys().take(i as int).push(m.keys()[i as int]));
        proof {
            lemma_take_one_more(m.keys(), i as int);
        }
    }
    assert(m.keys().take(n as int) =~= m.keys());
    assert(list_map_view(r) =~= list_map_view(*m));
    r
}

/// Copies the profiles of every owner.
pub fn dup_owners(m: &KeyMap<i32, ProfileMap<()>>) -> (r: KeyMap<i32, ProfileMap<()>>)
    ensures
        r@.map_values(|s: ProfileMap<()>| s@.dom()) == m@.map_values(|s: ProfileMap<()>| s@.dom()),
{
    let n = m.len();
    let mut r: KeyMap<i32, ProfileMap<()>> = KeyMap::new();
    for i in 0..n
        invariant
            n == m.keys().len(),
            is_plain::<i32>(),
            m.keys().no_duplicates(),
            forall|k: i32| m@.contains_key(k) <==> m.keys().contains(k),
            forall|k: i32| r@.contains_key(k) <==> m.keys().take(i as int).contains(k),
            forall|k: i32| r@.contains_key(k) ==> (#[trigger] r@[k])@ == m@[k]@,
    {
        let k = *m.key_at(i);
        let s = m.value_at(i).duplicate();
        r.insert(k, s);
        proof {
            lemma_take_one_more(m.keys(), i as int);
        }
    }
    assert(m.keys().take(n as int) =~= m.keys());
    assert(r@.map_values(|s: ProfileMap<()>| s@.dom()) =~= m@.map_values(
        |s: ProfileMap<()>| s@.dom(),
    ));
    r
}

/// Copies a table of rows, each row by `copy`.
fn dup_rows<T>(m: &ProfileMap<T>, copy: impl Fn(&T) -> T) -> (r: ProfileMap<T>)
    requires
        forall|t: &T| #[trigger] call_requires(copy, (t,)),
    ensures
        r@.dom() == m@.dom(),
        forall|k: ProfileView| #[trigger] r@.contains_key(k) ==> call_ensures(copy, (&m@[k],), r@[k]),
{
    let n = m.len();
    let mut r: ProfileMap<T> = ProfileMap::new();
    for i in 0..n
        invariant
            n == m.keys().len(),
            forall|t: &T| #[trigger] call_requires(copy, (t,)),
            m.keys().no_duplicates(),
            forall|k: ProfileView| m@.contains_key(k) <==> m.keys().contains(k),
            forall|k: ProfileView| r@.contains_key(k) <==> m.keys().take(i as int).contains(k),
            forall|k: ProfileView|
                #[trigger] r@.contains_key(k) ==> call_ensures(copy, (&m@[k],), r@[k]),
    {
        let k = dup_profile(m.key_at(i));
        let t = copy(m.value_at(i));
        r.insert(k, t);
        proof {
            lemma_take_one_more(m.keys(), i as int);
        }
    }
    assert(m.keys().take(n as int) =~= m.keys());
    assert(r@.dom() =~= m@.dom());
    r
}

/// Copies a `[profile][mapping]` table of scalars.
pub fn dup_table<M: PartialEq + Clone, V: Copy>(m: &ProfileMap<KeyMap<M, V>>) -> (r: ProfileMap<
    KeyMap<M, V>,
>)
    ensures
        r@.map_values(|t: KeyMap<M, V>| t@) == m@.map_values(|t: KeyMap<M, V>| t@),
{
    let copy = |t: &KeyMap<M, V>| -> (c: KeyMap<M, V>)
        ensures
            c@ == t@,
        {
            t.duplicate()
        };
    let r = dup_rows(m, copy);
    assert(r@.map_values(|t: KeyMap<M, V>| t@) =~= m@.map_values(|t: KeyMap<M, V>| t@));
    r
}

/// Copies a `[profile][mapping]` table of binding lists.
pub fn dup_binding_table<M: PartialEq + Clone, B: PartialEq + Clone, F: Copy>(
    m: &ProfileMap<KeyMap<M, Vec<(Vec<B>, F)>>>,
) -> (r: ProfileMap<KeyMap<M, Vec<(Vec<B>, F)>>>)
    requires
        is_plain::<B>(),
    ensures
        r@.map_values(|t: KeyMap<M, Vec<(Vec<B>, F)>>| list_map_view(t)) == m@.map_values(
            |t: KeyMap<M, Vec<(Vec<B>, F)>>| list_map_view(t),
        ),
{
    let copy = |t: &KeyMap<M, Vec<(Vec<B>, F)>>| -> (c: KeyMap<M, Vec<(Vec<B>, F)>>)
        requires
            is_plain::<B>(),
        ensures
            list_map_view(c) == list_map_view(*t),
        {
            dup_list_map(t)
        };
    let r = dup_rows(m, copy);
    assert(r@.map_values(|t: KeyMap<M, Vec<(Vec<B>, F)>>| list_map_view(t)) =~= m@.map_values(
        |t: KeyMap<M, Vec<(Vec<B>, F)>>| list_map_view(t),
    ));
    r
}

/// Adds to `h` a copy of each list of `d` whose mapping `h` does not have.
pub fn fill_lists_from<M: PartialEq + Clone, B: PartialEq + Clone, F: Copy>(
    h: &mut KeyMap<M, Vec<(Vec<B>, F)>>,
    d: &KeyMap<M, Vec<(Vec<B>, F)>>,
)
    requires
        is_plain::<B>(),
    ensures
        list_map_view(*final(h)) == list_map_view(*d).union_prefer_right(list_map_view(*old(h))),
{
    let n = d.len();
    let mut i: usize = 0;
    while i < n
        invariant
            i <= n,
            n == d.keys().len(),
            is_plain::<M>(),
            is_plain::<B>(),
            d.keys().no_duplicates(),
            forall|k: M| d@.contains_key(k) <==> d.keys().contains(k),
            forall|k: M|
                #[trigger] h@.contains_key(k) <==> (old(h)@.contains_key(k) || d.keys().take(
                    i as int,
                ).contains(k)),
            forall|k: M|
                #[trigger] h@.contains_key(k) ==> list_view(h@[k]) == (if old(h)@.contains_key(k) {
                    list_view(old(h)@[k])
                } else {
                    list_view(d@[k])
                }),
        decreases n - i,
    {
        let k = d.key_at(i);
        if !h.contains_key(k) {
            let l = dup_list(d.value_at(i));
            h.insert(dup(k), l);
        }
        proof {
            lemma_take_one_more(d.keys(), i as int);
        }
        i = i + 1;
    }
    proof {
        assert(d.keys().take(i as int) =~= d.keys());
    }
    assert(list_map_view(*h) =~= list_map_view(*d).union_prefer_right(list_map_view(*old(h))));
}

/// Adds to `h` a copy of the profiles of each owner of `d` that `h` does not have.
pub fn fill_owners_from(h: &mut KeyMap<i32, ProfileMap<()>>, d: &KeyMap<i32, ProfileMap<()>>)
    ensures
        final(h)@.map_values(|s: ProfileMap<()>| s@.dom()) == d@.map_values(
            |s: ProfileMap<()>| s@.dom(),
        ).union_prefer_right(old(h)@.map_values(|s: ProfileMap<()>| s@.dom())),
{
    let n = d.len();
    let mut i: usize = 0;
    while i < n
        invariant
            i <= n,
            n == d.keys().len(),
            is_plain::<i32>(),
            d.keys().no_duplicates(),
            forall|k: i32| d@.contains_key(k) <==> d.keys().contains(k),
            forall|k: i32|
                #[trigger] h@.contains_key(k) <==> (old(h)@.contains_key(k) || d.keys().take(
                    i as int,
                ).contains(k)),
            forall|k: i32|
                #[trigger] h@.contains_key(k) ==> h@[k]@ == (if old(h)@.contains_key(k) {
                    old(h)@[k]@
                } else {
                    d@[k]@
                }),
        decreases n - i,
    {
        let k = *d.key_at(i);
        if !h.contains_key(&k) {
            let s = d.value_at(i).duplicate();
            h.insert(k, s);
        }
        proof {
            lemma_take_one_more(d.keys(), i as int);
        }
        i = i + 1;
    }
    proof {
        assert(d.keys().take(i as int) =~= d.keys());
    }
    assert(h@.map_values(|s: ProfileMap<()>| s@.dom()) =~= d@.map_values(
        |s: ProfileMap<()>| s@.dom(),
    ).union_prefer_right(old(h)@.map_values(|s: ProfileMap<()>| s@.dom())));
}

impl<M: PartialEq + Clone, B: PartialEq + Clone, F: Copy> InputData<M, B, F> {
    /// Settings with nothing in them.
    pub fn new() -> (d: Self)
        requires
            is_plain::<M>(),
            is_plain::<B>(),
        ensures
            d@ == DataView::<M, B, F>::empty(),
    {
        proof {
            crate::keys::lemma_i32_is_plain();
        }
        let d = InputData {
            includes: KeyMap::new(),
            excludes: KeyMap::new(),
            repeats: KeyMap::new(),
            bind_mode_deads: None,
            owners_profiles: KeyMap::new(),
            scales: ProfileMap::new(),
            deads: ProfileMap::new(),
            bindings: ProfileMap::new(),
        };
        assert(d@.owners_profiles =~= Map::empty());
        assert(d@.scales =~= Map::empty());
        assert(d@.deads =~= Map::empty());
        assert(d@.bindings =~= Map::empty());
        assert(d@.includes =~= Set::empty());
        assert(d@.excludes =~= Set::empty());
        d
    }

    /// A copy of the settings.
    pub fn duplicate(&self) -> (r: Self)
        ensures
            r@ == self@,
    {
        proof {
            use_type_invariant(&self.includes);
        }
        let r = InputData {
            includes: self.includes.duplicate(),
            excludes: self.excludes.duplicate(),
            repeats: self.repeats.duplicate(),
            bind_mode_deads: self.bind_mode_deads,
            owners_profiles: dup_owners(&self.owners_profiles),
            scales: dup_table(&self.scales),
            deads: dup_table(&self.deads),
            bindings: dup_binding_table(&self.bindings),
        };
        r
    }
}

} // verus!
