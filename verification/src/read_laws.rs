//! What the reads of the configuration give, stated over the stored
//! settings: the merged rows and sets, single lookups, the nearest-prefix
//! scale and dead zones of the input map, and what reading one record of a
//! file does to the settings.
use vstd::prelude::*;
use crate::keys::ProfileView;
use crate::resources::ConfigView;
use crate::records::{ConfRecord, load_record_spec, can_load};
use crate::values::DataView;
use crate::input_map::{
    ancestor_scale, ancestor_dead, group_scales, expand, entry, contributes, owner_plan, is_first_giver,
};
use crate::order::{precedes, str_less, lemma_precedes_asymmetric};

verus! {

/// The merged scales of a profile hold a mapping exactly when the user's or
/// the default row of the profile holds it; the user's scale wins.
pub proof fn lemma_scales_merge<M, B, F>(c: ConfigView<M, B, F>, p: ProfileView, m: M)
    ensures
        ({
            let u = c.user_data.scales;
            let d = c.default_data.scales;
            let in_user = u.contains_key(p) && u[p].contains_key(m);
            let in_default = d.contains_key(p) && d[p].contains_key(m);
            &&& c.scales(p).contains_key(m) <==> in_user || in_default
            &&& in_user ==> c.scales(p)[m] == u[p][m]
            &&& !in_user && in_default ==> c.scales(p)[m] == d[p][m]
        }),
{
}

/// The merged dead zones of a profile hold a mapping exactly when the user's
/// or the default row of the profile holds it; the user's dead zones win.
pub proof fn lemma_deads_merge<M, B, F>(c: ConfigView<M, B, F>, p: ProfileView, m: M)
    ensures
        ({
            let u = c.user_data.deads;
            let d = c.default_data.deads;
            let in_user = u.contains_key(p) && u[p].contains_key(m);
            let in_default = d.contains_key(p) && d[p].contains_key(m);
            &&& c.deads(p).contains_key(m) <==> in_user || in_default
            &&& in_user ==> c.deads(p)[m] == u[p][m]
            &&& !in_user && in_default ==> c.deads(p)[m] == d[p][m]
        }),
{
}

/// The merged bindings of a profile hold a mapping exactly when the user's or
/// the default row of the profile holds it; the user's list wins, and a
/// mapping that only the defaults have keeps its default list.
pub proof fn lemma_bindings_merge<M, B, F>(c: ConfigView<M, B, F>, p: ProfileView, m: M)
    ensures
        ({
            let u = c.user_data.bindings;
            let d = c.default_data.bindings;
            let in_user = u.contains_key(p) && u[p].contains_key(m);
            let in_default = d.contains_key(p) && d[p].contains_key(m);
            &&& c.bindings(p).contains_key(m) <==> in_user || in_default
            &&& in_user ==> c.bindings(p)[m] == u[p][m]
            &&& !in_user && in_default ==> c.bindings(p)[m] == d[p][m]
        }),
{
}

/// The repeat timings hold a mapping exactly when the user or the defaults
/// hold it; the user's timings win.
pub proof fn lemma_mapping_repeats_merge<M, B, F>(c: ConfigView<M, B, F>, m: M)
    ensures
        ({
            let u = c.user_data.repeats;
            let d = c.default_data.repeats;
            &&& c.mapping_repeats().contains_key(m) <==> u.contains_key(m) || d.contains_key(m)
            &&& u.contains_key(m) ==> c.mapping_repeats()[m] == u[m]
            &&& !u.contains_key(m) && d.contains_key(m) ==> c.mapping_repeats()[m] == d[m]
        }),
{
}

/// The table of every owner holds an owner exactly when the user or the
/// defaults hold it; the user's profiles win.
pub proof fn lemma_owners_profiles_merge<M, B, F>(c: ConfigView<M, B, F>, o: i32)
    ensures
        ({
            let u = c.user_data.owners_profiles;
            let d = c.default_data.owners_profiles;
            &&& c.owners_profiles().contains_key(o) <==> u.contains_key(o) || d.contains_key(o)
            &&& u.contains_key(o) ==> c.owners_profiles()[o] == u[o]
            &&& !u.contains_key(o) && d.contains_key(o) ==> c.owners_profiles()[o] == d[o]
        }),
{
}

/// A user set of excluded bindings that holds any binding is the whole
/// answer; the defaults count only when the user's set is empty.
pub proof fn lemma_excludes_choice<M, B, F>(c: ConfigView<M, B, F>, b: B)
    ensures
        c.user_data.excludes.contains(b) ==> c.excludes() == c.user_data.excludes,
        c.user_data.excludes == Set::<B>::empty() ==> c.excludes() == c.default_data.excludes,
{
}

/// A user set of included bindings that holds any binding is the whole
/// answer; the defaults count only when the user's set is empty.
pub proof fn lemma_includes_choice<M, B, F>(c: ConfigView<M, B, F>, b: B)
    ensures
        c.user_data.includes.contains(b) ==> c.includes() == c.user_data.includes,
        c.user_data.includes == Set::<B>::empty() ==> c.includes() == c.default_data.includes,
{
}

/// The user's bind mode dead zones win over the defaults.
pub proof fn lemma_bind_mode_deads_choice<M, B, F>(c: ConfigView<M, B, F>)
    ensures
        c.user_data.bind_mode_deads is Some ==> c.bind_mode_deads() == c.user_data.bind_mode_deads,
        c.user_data.bind_mode_deads is None ==> c.bind_mode_deads() == c.default_data.bind_mode_deads,
{
}

/// A single scale is looked up in the user's row of the profile if the user
/// has that row at all, else in the default row.
pub proof fn lemma_scale_lookup<M, B, F>(c: ConfigView<M, B, F>, p: ProfileView, m: M)
    ensures
        ({
            let u = c.user_data.scales;
            let d = c.default_data.scales;
            &&& u.contains_key(p) ==> c.scale(p, m) == (if u[p].contains_key(m) {
                Some(u[p][m])
            } else {
                None
            })
            &&& !u.contains_key(p) && d.contains_key(p) ==> c.scale(p, m) == (if d[p].contains_key(m) {
                Some(d[p][m])
            } else {
                None
            })
            &&& !u.contains_key(p) && !d.contains_key(p) ==> c.scale(p, m) is None
        }),
{
}

/// Single dead zones are looked up in the user's row of the profile if the
/// user has that row at all, else in the default row.
pub proof fn lemma_dead_lookup<M, B, F>(c: ConfigView<M, B, F>, p: ProfileView, m: M)
    ensures
        ({
            let u = c.user_data.deads;
            let d = c.default_data.deads;
            &&& u.contains_key(p) ==> c.dead(p, m) == (if u[p].contains_key(m) {
                Some(u[p][m])
            } else {
                None
            })
            &&& !u.contains_key(p) && d.contains_key(p) ==> c.dead(p, m) == (if d[p].contains_key(m) {
                Some(d[p][m])
            } else {
                None
            })
            &&& !u.contains_key(p) && !d.contains_key(p) ==> c.dead(p, m) is None
        }),
{
}

/// A single binding group is looked up in the user's row of the profile if
/// the user has that row at all, else in the default row; an index past the
/// list gives none.
pub proof fn lemma_binding_lookup<M, B, F>(c: ConfigView<M, B, F>, p: ProfileView, m: M, i: int)
    ensures
        ({
            let u = c.user_data.bindings;
            let d = c.default_data.bindings;
            &&& u.contains_key(p) ==> c.binding(p, m, i) == (if u[p].contains_key(m) && 0 <= i
                < u[p][m].len() {
                Some(u[p][m][i])
            } else {
                None
            })
            &&& !u.contains_key(p) && d.contains_key(p) ==> c.binding(p, m, i) == (if d[p].contains_key(
                m,
            ) && 0 <= i < d[p][m].len() {
                Some(d[p][m][i])
            } else {
                None
            })
            &&& !u.contains_key(p) && !d.contains_key(p) ==> c.binding(p, m, i) is None
        }),
{
}

/// The profiles of one owner are the user's if the user has the owner, else
/// the default ones, else none.
pub proof fn lemma_owner_profiles_lookup<M, B, F>(c: ConfigView<M, B, F>, o: i32)
    ensures
        ({
            let u = c.user_data.owners_profiles;
            let d = c.default_data.owners_profiles;
            &&& u.contains_key(o) ==> c.owner_profiles(o) == u[o]
            &&& !u.contains_key(o) && d.contains_key(o) ==> c.owner_profiles(o) == d[o]
            &&& !u.contains_key(o) && !d.contains_key(o) ==> c.owner_profiles(o) == Set::<ProfileView>::empty()
        }),
{
}

/// The scale that an entry of the input map takes from the prefixes of its
/// profile is that of the longest proper prefix (of one name or more) whose
/// merged scales hold the mapping: a longer prefix that holds it always
/// beats a shorter one.
pub proof fn lemma_ancestor_scale_nearest<M, B, F>(
    c: ConfigView<M, B, F>,
    p: ProfileView,
    m: M,
    j: int,
)
    requires
        1 <= j < p.len(),
        c.scales(p.take(j)).contains_key(m),
        forall|j2: int| j < j2 < p.len() ==> !(#[trigger] c.scales(p.take(j2))).contains_key(m),
    ensures
        ancestor_scale(c, p, m, p.len() - 1) == Some(c.scales(p.take(j))[m]),
{
    lemma_ancestor_scale_from(c, p, m, j, p.len() - 1);
}

proof fn lemma_ancestor_scale_from<M, B, F>(c: ConfigView<M, B, F>, p: ProfileView, m: M, j: int, k: int)
    requires
        1 <= j <= k,
        c.scales(p.take(j)).contains_key(m),
        forall|j2: int| j < j2 <= k ==> !(#[trigger] c.scales(p.take(j2))).contains_key(m),
    ensures
        ancestor_scale(c, p, m, k) == Some(c.scales(p.take(j))[m]),
    decreases k,
{
    if k > j {
        assert(!c.scales(p.take(k)).contains_key(m));
        lemma_ancestor_scale_from(c, p, m, j, k - 1);
    }
}

/// Where no proper prefix of the profile holds the mapping in its merged
/// scales, the entry takes no scale from the prefixes.
pub proof fn lemma_ancestor_scale_none<M, B, F>(c: ConfigView<M, B, F>, p: ProfileView, m: M, k: int)
    requires
        forall|j: int| 1 <= j <= k ==> !(#[trigger] c.scales(p.take(j))).contains_key(m),
    ensures
        ancestor_scale(c, p, m, k) is None,
    decreases k,
{
    if k >= 1 {
        assert(!c.scales(p.take(k)).contains_key(m));
        lemma_ancestor_scale_none(c, p, m, k - 1);
    }
}

/// The dead zones that an entry of the input map takes from the prefixes of
/// its profile are those of the longest proper prefix whose merged dead zones
/// hold the mapping.
pub proof fn lemma_ancestor_dead_nearest<M, B, F>(
    c: ConfigView<M, B, F>,
    p: ProfileView,
    m: M,
    j: int,
)
    requires
        1 <= j < p.len(),
        c.deads(p.take(j)).contains_key(m),
        forall|j2: int| j < j2 < p.len() ==> !(#[trigger] c.deads(p.take(j2))).contains_key(m),
    ensures
        ancestor_dead(c, p, m, p.len() - 1) == Some(c.deads(p.take(j))[m]),
{
    lemma_ancestor_dead_from(c, p, m, j, p.len() - 1);
}

proof fn lemma_ancestor_dead_from<M, B, F>(c: ConfigView<M, B, F>, p: ProfileView, m: M, j: int, k: int)
    requires
        1 <= j <= k,
        c.deads(p.take(j)).contains_key(m),
        forall|j2: int| j < j2 <= k ==> !(#[trigger] c.deads(p.take(j2))).contains_key(m),
    ensures
        ancestor_dead(c, p, m, k) == Some(c.deads(p.take(j))[m]),
    decreases k,
{
    if k > j {
        assert(!c.deads(p.take(k)).contains_key(m));
        lemma_ancestor_dead_from(c, p, m, j, k - 1);
    }
}

/// Where no proper prefix of the profile holds the mapping in its merged dead
/// zones, the entry takes no dead zones from the prefixes.
pub proof fn lemma_ancestor_dead_none<M, B, F>(c: ConfigView<M, B, F>, p: ProfileView, m: M, k: int)
    requires
        forall|j: int| 1 <= j <= k ==> !(#[trigger] c.deads(p.take(j))).contains_key(m),
    ensures
        ancestor_dead(c, p, m, k) is None,
    decreases k,
{
    if k >= 1 {
        assert(!c.deads(p.take(k)).contains_key(m));
        lemma_ancestor_dead_none(c, p, m, k - 1);
    }
}

/// The scales summed for a binding group are those of the list's entries
/// with that group, each once, in list order.
pub proof fn lemma_group_scales<B, F>(l: Seq<(Seq<B>, F)>, g: Seq<B>)
    ensures
        group_scales(l, g) == l.filter(|e: (Seq<B>, F)| e.0 == g).map_values(|e: (Seq<B>, F)| e.1),
    decreases l.len(),
{
    reveal_with_fuel(Seq::filter, 1);
    if l.len() > 0 {
        lemma_group_scales(l.drop_last(), g);
        let f = l.drop_last().filter(|e: (Seq<B>, F)| e.0 == g);
        if l.last().0 == g {
            assert(f.push(l.last()).map_values(|e: (Seq<B>, F)| e.1) =~= f.map_values(
                |e: (Seq<B>, F)| e.1,
            ).push(l.last().1));
        }
    } else {
        assert(l.filter(|e: (Seq<B>, F)| e.0 == g) =~= Seq::<(Seq<B>, F)>::empty());
    }
}

/// The widened profiles are the owner's profiles and each of their nonempty
/// proper prefixes, and nothing else.
pub proof fn lemma_expand_members(s: Set<ProfileView>, p: ProfileView, i: int, q: ProfileView)
    ensures
        s.contains(p) ==> expand(s).contains(p),
        s.contains(p) && 1 <= i < p.len() ==> expand(s).contains(p.take(i)),
        expand(s).contains(q) ==> s.contains(q) || exists|p2: ProfileView, i2: int|
            s.contains(p2) && 1 <= i2 < p2.len() && q == #[trigger] p2.take(i2),
{
}

/// Reading an excluded binding adds it, and changes nothing else.
pub proof fn lemma_load_exclude<M, B, F>(d: DataView<M, B, F>, b: B)
    ensures
        load_record_spec(d, ConfRecord::Exclude(b)) == (DataView { excludes: d.excludes.insert(b), ..d }),
{
}

/// Reading a repeat sets the mapping's timings, keeps every other mapping's,
/// and changes nothing else.
pub proof fn lemma_load_repeat<M, B, F>(d: DataView<M, B, F>, m: M, delay: F, rate: F, m2: M)
    ensures
        ({
            let n = load_record_spec(d, ConfRecord::Repeat(m, delay, rate));
            &&& n.repeats.contains_key(m) && n.repeats[m] == (delay, rate)
            &&& m2 != m ==> (n.repeats.contains_key(m2) <==> d.repeats.contains_key(m2))
            &&& m2 != m && d.repeats.contains_key(m2) ==> n.repeats[m2] == d.repeats[m2]
            &&& n == (DataView { repeats: n.repeats, ..d })
        }),
{
}

/// Reading a scale sets it in the profile's row and keeps every other
/// mapping of that row and every other row.
pub proof fn lemma_load_scale<M, B, F>(
    d: DataView<M, B, F>,
    p: Vec<String>,
    m: M,
    s: F,
    q: ProfileView,
    m2: M,
)
    ensures
        ({
            let pv = p.deep_view();
            let n = load_record_spec(d, ConfRecord::Scale(p, m, s));
            &&& n.scales.contains_key(pv)
            &&& n.scales[pv].contains_key(m) && n.scales[pv][m] == s
            &&& m2 != m ==> (n.scales[pv].contains_key(m2) <==> d.scales.contains_key(pv)
                && d.scales[pv].contains_key(m2))
            &&& m2 != m && d.scales.contains_key(pv) && d.scales[pv].contains_key(m2)
                ==> n.scales[pv][m2] == d.scales[pv][m2]
            &&& q != pv ==> (n.scales.contains_key(q) <==> d.scales.contains_key(q))
            &&& q != pv && d.scales.contains_key(q) ==> n.scales[q] == d.scales[q]
            &&& n == (DataView { scales: n.scales, ..d })
        }),
{
}

/// Reading dead zones sets them in the profile's row and keeps every other
/// mapping of that row and every other row.
pub proof fn lemma_load_dead<M, B, F>(
    d: DataView<M, B, F>,
    p: Vec<String>,
    m: M,
    primary: F,
    modifier: F,
    q: ProfileView,
    m2: M,
)
    ensures
        ({
            let pv = p.deep_view();
            let n = load_record_spec(d, ConfRecord::Dead(p, m, primary, modifier));
            &&& n.deads.contains_key(pv)
            &&& n.deads[pv].contains_key(m) && n.deads[pv][m] == (primary, modifier)
            &&& m2 != m ==> (n.deads[pv].contains_key(m2) <==> d.deads.contains_key(pv)
                && d.deads[pv].contains_key(m2))
            &&& m2 != m && d.deads.contains_key(pv) && d.deads[pv].contains_key(m2)
                ==> n.deads[pv][m2] == d.deads[pv][m2]
            &&& q != pv ==> (n.deads.contains_key(q) <==> d.deads.contains_key(q))
            &&& q != pv && d.deads.contains_key(q) ==> n.deads[q] == d.deads[q]
            &&& n == (DataView { deads: n.deads, ..d })
        }),
{
}

/// Reading a binding group appends it to the mapping's list in the profile's
/// row, after the groups read before, and keeps every other list and row.
pub proof fn lemma_load_binding<M, B, F>(
    d: DataView<M, B, F>,
    p: Vec<String>,
    m: M,
    g: Vec<B>,
    s: F,
    q: ProfileView,
    m2: M,
)
    ensures
        ({
            let pv = p.deep_view();
            let n = load_record_spec(d, ConfRecord::Binding(p, m, g, s));
            let before = if d.bindings.contains_key(pv) && d.bindings[pv].contains_key(m) {
                d.bindings[pv][m]
            } else {
                Seq::empty()
            };
            &&& n.bindings.contains_key(pv)
            &&& n.bindings[pv].contains_key(m)
            &&& n.bindings[pv][m].len() == before.len() + 1
            &&& forall|i: int| 0 <= i < before.len() ==> #[trigger] n.bindings[pv][m][i] == before[i]
            &&& n.bindings[pv][m][before.len() as int] == (g@, s)
            &&& m2 != m ==> (n.bindings[pv].contains_key(m2) <==> d.bindings.contains_key(pv)
                && d.bindings[pv].contains_key(m2))
            &&& m2 != m && d.bindings.contains_key(pv) && d.bindings[pv].contains_key(m2)
                ==> n.bindings[pv][m2] == d.bindings[pv][m2]
            &&& q != pv ==> (n.bindings.contains_key(q) <==> d.bindings.contains_key(q))
            &&& q != pv && d.bindings.contains_key(q) ==> n.bindings[q] == d.bindings[q]
            &&& n == (DataView { bindings: n.bindings, ..d })
        }),
{
}

/// Reading bind mode dead zones sets them, and changes nothing else.
pub proof fn lemma_load_bind_mode_dead<M, B, F>(d: DataView<M, B, F>, primary: F, modifier: F)
    ensures
        load_record_spec(d, ConfRecord::BindModeDead(primary, modifier)) == (DataView {
            bind_mode_deads: Some((primary, modifier)),
            ..d
        }),
{
}

/// Reading an owner gives it no profiles, and keeps every other owner.
pub proof fn lemma_load_owner<M, B, F>(d: DataView<M, B, F>, o: i32, o2: i32)
    ensures
        ({
            let n = load_record_spec(d, ConfRecord::Owner(o));
            &&& n.owners_profiles.contains_key(o)
            &&& n.owners_profiles[o] == Set::<ProfileView>::empty()
            &&& o2 != o ==> (n.owners_profiles.contains_key(o2) <==> d.owners_profiles.contains_key(o2))
            &&& o2 != o && d.owners_profiles.contains_key(o2) ==> n.owners_profiles[o2]
                == d.owners_profiles[o2]
            &&& n == (DataView { owners_profiles: n.owners_profiles, ..d })
        }),
{
}

/// Reading a profile of an owner adds it to the owner's profiles and keeps
/// the owner's other profiles and every other owner.
pub proof fn lemma_load_owner_profile<M, B, F>(
    d: DataView<M, B, F>,
    o: i32,
    p: Vec<String>,
    q: ProfileView,
    o2: i32,
)
    requires
        can_load(d, ConfRecord::OwnerProfile(o, p)),
    ensures
        ({
            let n = load_record_spec(d, ConfRecord::OwnerProfile(o, p));
            &&& n.owners_profiles.contains_key(o)
            &&& n.owners_profiles[o].contains(p.deep_view())
            &&& q != p.deep_view() ==> (n.owners_profiles[o].contains(q) <==> d.owners_profiles[o].contains(q))
            &&& o2 != o ==> (n.owners_profiles.contains_key(o2) <==> d.owners_profiles.contains_key(o2))
            &&& o2 != o && d.owners_profiles.contains_key(o2) ==> n.owners_profiles[o2]
                == d.owners_profiles[o2]
            &&& n == (DataView { owners_profiles: n.owners_profiles, ..d })
        }),
{
}


/// A longer profile is visited before a shorter one.
pub proof fn lemma_longer_visited_first(x: ProfileView, y: ProfileView)
    ensures
        x.len() > y.len() ==> precedes(x, y) && !precedes(y, x),
{
}

/// Of two profiles of one length, the last names decide when they differ,
/// and the rest of the names decide when the last ones are equal.
pub proof fn lemma_same_length_by_last_name(x: ProfileView, y: ProfileView)
    requires
        x.len() == y.len(),
        x.len() > 0,
    ensures
        x.last() != y.last() ==> (precedes(x, y) <==> str_less(x.last(), y.last())),
        x.last() == y.last() ==> (precedes(x, y) <==> precedes(x.drop_last(), y.drop_last())),
{
}

/// Of two strings, the first character where they differ decides, by its
/// code.
pub proof fn lemma_str_less_first_difference(a: Seq<char>, b: Seq<char>, i: int)
    requires
        0 <= i < a.len(),
        i < b.len(),
        a.take(i) == b.take(i),
        a[i] != b[i],
    ensures
        str_less(a, b) <==> (a[i] as int) < (b[i] as int),
    decreases i,
{
    if i > 0 {
        assert(a[0] == a.take(i)[0] && b[0] == b.take(i)[0]);
        assert(a.drop_first().take(i - 1) =~= a.take(i).drop_first());
        assert(b.drop_first().take(i - 1) =~= b.take(i).drop_first());
        lemma_str_less_first_difference(a.drop_first(), b.drop_first(), i - 1);
    }
}

/// A proper prefix of a string comes before it.
pub proof fn lemma_str_less_prefix(a: Seq<char>, b: Seq<char>)
    requires
        a.len() < b.len(),
        b.take(a.len() as int) == a,
    ensures
        str_less(a, b),
    decreases a.len(),
{
    if a.len() > 0 {
        assert(a[0] == b.take(a.len() as int)[0]);
        assert(b.drop_first().take(a.drop_first().len() as int) =~= a.drop_first());
        lemma_str_less_prefix(a.drop_first(), b.drop_first());
    }
}

/// An entry of the input map holds the scales of the profile's list for the
/// mapping whose group is the entry's, in list order.
pub proof fn lemma_entry_scales<M, B, F>(c: ConfigView<M, B, F>, p: ProfileView, k: (M, Seq<B>))
    requires
        contributes(c, p, k),
    ensures
        entry(c, p, k).scales == c.bindings(p)[k.0].filter(|e: (Seq<B>, F)| e.0 == k.1).map_values(
            |e: (Seq<B>, F)| e.1,
        ),
{
    lemma_group_scales(c.bindings(p)[k.0], k.1);
}

/// An entry of the input map takes the scale and dead zones of the mapping
/// from the longest proper prefix of its profile that has them.
pub proof fn lemma_entry_nearest_prefix<M, B, F>(
    c: ConfigView<M, B, F>,
    p: ProfileView,
    k: (M, Seq<B>),
    j: int,
    jd: int,
)
    ensures
        1 <= j < p.len() && c.scales(p.take(j)).contains_key(k.0) && (forall|j2: int|
            j < j2 < p.len() ==> !(#[trigger] c.scales(p.take(j2))).contains_key(k.0))
            ==> entry(c, p, k).ancestor_scale == Some(c.scales(p.take(j))[k.0]),
        (forall|j2: int| 1 <= j2 < p.len() ==> !(#[trigger] c.scales(p.take(j2))).contains_key(k.0))
            ==> entry(c, p, k).ancestor_scale is None,
        1 <= jd < p.len() && c.deads(p.take(jd)).contains_key(k.0) && (forall|j2: int|
            jd < j2 < p.len() ==> !(#[trigger] c.deads(p.take(j2))).contains_key(k.0))
            ==> entry(c, p, k).dead == Some(c.deads(p.take(jd))[k.0]),
        (forall|j2: int| 1 <= j2 < p.len() ==> !(#[trigger] c.deads(p.take(j2))).contains_key(k.0))
            ==> entry(c, p, k).dead is None,
{
    if 1 <= j < p.len() && c.scales(p.take(j)).contains_key(k.0) && (forall|j2: int|
        j < j2 < p.len() ==> !(#[trigger] c.scales(p.take(j2))).contains_key(k.0)) {
        lemma_ancestor_scale_nearest(c, p, k.0, j);
    }
    if forall|j2: int| 1 <= j2 < p.len() ==> !(#[trigger] c.scales(p.take(j2))).contains_key(k.0) {
        lemma_ancestor_scale_none(c, p, k.0, p.len() - 1);
    }
    if 1 <= jd < p.len() && c.deads(p.take(jd)).contains_key(k.0) && (forall|j2: int|
        jd < j2 < p.len() ==> !(#[trigger] c.deads(p.take(j2))).contains_key(k.0)) {
        lemma_ancestor_dead_nearest(c, p, k.0, jd);
    }
    if forall|j2: int| 1 <= j2 < p.len() ==> !(#[trigger] c.deads(p.take(j2))).contains_key(k.0) {
        lemma_ancestor_dead_none(c, p, k.0, p.len() - 1);
    }
}

/// The input map of an owner holds a key exactly when one of its widened
/// profiles binds it, and then holds the entry of the one of those visited
/// first.
pub proof fn lemma_owner_plan_first_giver<M, B, F>(
    c: ConfigView<M, B, F>,
    s: Set<ProfileView>,
    k: (M, Seq<B>),
    q: ProfileView,
)
    ensures
        (forall|q2: ProfileView| #[trigger] expand(s).contains(q2) ==> !contributes(c, q2, k))
            ==> !owner_plan(c, s).contains_key(k),
        expand(s).contains(q) && contributes(c, q, k) && (forall|q2: ProfileView|
            #![trigger expand(s).contains(q2), contributes(c, q2, k)]
            expand(s).contains(q2) && contributes(c, q2, k) && q2 != q ==> precedes(q, q2))
            ==> owner_plan(c, s).contains_key(k) && owner_plan(c, s)[k] == entry(c, q, k),
{
    let e = expand(s);
    if e.contains(q) && contributes(c, q, k) && (forall|q2: ProfileView|
        #![trigger e.contains(q2), contributes(c, q2, k)]
        e.contains(q2) && contributes(c, q2, k) && q2 != q ==> precedes(q, q2)) {
        assert(is_first_giver(c, e, k, q));
        let p0 = choose|p: ProfileView| is_first_giver(c, e, k, p);
        assert(is_first_giver(c, e, k, p0));
        if p0 != q {
            assert(precedes(q, p0));
            assert(precedes(p0, q));
            lemma_precedes_asymmetric(q, p0);
        }
    }
}

} // verus!
