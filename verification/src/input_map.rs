//! What the input map of each owner is built from.
//!
//! The profiles of an owner are widened with every shorter prefix of each of
//! them, then visited longest first (see `order`). Each binding group of each
//! mapping of a visited profile gives one entry, keyed by the mapping and the
//! group, unless an earlier profile gave that key already. An entry holds the
//! scales of the group (their sum is the group's scale), the scale of the
//! mapping in the nearest shorter prefix of the profile that has one, and the
//! dead zones of the mapping likewise. The arithmetic on the scalars is left
//! to the caller.
use vstd::prelude::*;
use crate::collections::{KeyMap, ProfileMap};
use crate::keys::{is_plain, dup, dup_seq, same, same_seq, dup_profile, lemma_take_one_more, ProfileView};
use crate::order::{precedes, is_sorted_listing, sorted_profiles, lemma_precedes_asymmetric};
use crate::resources::{ConfigView, InputConfig};
use crate::values::{BindingListView, list_view, list_map_view};

verus! {

/// The profiles together with every nonempty proper prefix of each of them.
pub open spec fn expand(s: Set<ProfileView>) -> Set<ProfileView> {
    Set::new(
        |q: ProfileView|
            s.contains(q) || exists|p: ProfileView, i: int|
                #![trigger s.contains(p), p.take(i)]
                s.contains(p) && 1 <= i < p.len() && q == p.take(i),
    )
}

/// The scales of the entries of a list whose group is `g`, in list order.
pub open spec fn group_scales<B, F>(l: BindingListView<B, F>, g: Seq<B>) -> Seq<F>
    decreases l.len(),
{
    if l.len() == 0 {
        Seq::empty()
    } else {
        let rest = group_scales(l.drop_last(), g);
        if l.last().0 == g {
            rest.push(l.last().1)
        } else {
            rest
        }
    }
}

/// The scale of a mapping in the longest prefix of `p`, of at most `j` names
/// and at least one, whose merged scales have it.
pub open spec fn ancestor_scale<M, B, F>(c: ConfigView<M, B, F>, p: ProfileView, m: M, j: int) -> Option<
    F,
>
    decreases j,
{
    if j < 1 {
        None
    } else if c.scales(p.take(j)).contains_key(m) {
        Some(c.scales(p.take(j))[m])
    } else {
        ancestor_scale(c, p, m, j - 1)
    }
}

/// The dead zones of a mapping in the longest prefix of `p`, of at most `j`
/// names and at least one, whose merged dead zones have it.
pub open spec fn ancestor_dead<M, B, F>(c: ConfigView<M, B, F>, p: ProfileView, m: M, j: int) -> Option<
    (F, F),
>
    decreases j,
{
    if j < 1 {
        None
    } else if c.deads(p.take(j)).contains_key(m) {
        Some(c.deads(p.take(j))[m])
    } else {
        ancestor_dead(c, p, m, j - 1)
    }
}

/// An entry of the input map, as the contracts see it.
pub struct PlanView<F> {
    /// The scales of the group's bindings, to be summed.
    pub scales: Seq<F>,
    /// The scale of the mapping in the nearest shorter prefix of the profile.
    pub ancestor_scale: Option<F>,
    /// The dead zones of the mapping in the nearest shorter prefix of the profile.
    pub dead: Option<(F, F)>,
}

/// Profile `p` binds group `k.1` to mapping `k.0`.
pub open spec fn contributes<M, B, F>(c: ConfigView<M, B, F>, p: ProfileView, k: (M, Seq<B>)) -> bool {
    &&& c.bindings(p).contains_key(k.0)
    &&& exists|i: int|
        0 <= i < c.bindings(p)[k.0].len() && #[trigger] c.bindings(p)[k.0][i].0 == k.1
}

/// The entry that profile `p` gives for key `k`.
pub open spec fn entry<M, B, F>(c: ConfigView<M, B, F>, p: ProfileView, k: (M, Seq<B>)) -> PlanView<
    F,
> {
    PlanView {
        scales: group_scales(c.bindings(p)[k.0], k.1),
        ancestor_scale: ancestor_scale(c, p, k.0, p.len() - 1),
        dead: ancestor_dead(c, p, k.0, p.len() - 1),
    }
}

/// Everything that profile `p` gives.
pub open spec fn contribution<M, B, F>(c: ConfigView<M, B, F>, p: ProfileView) -> Map<
    (M, Seq<B>),
    PlanView<F>,
> {
    Map::new(|k: (M, Seq<B>)| contributes(c, p, k), |k: (M, Seq<B>)| entry(c, p, k))
}

/// `p` is the profile of `e` visited first among those that give key `k`.
pub open spec fn is_first_giver<M, B, F>(
    c: ConfigView<M, B, F>,
    e: Set<ProfileView>,
    k: (M, Seq<B>),
    p: ProfileView,
) -> bool {
    &&& e.contains(p)
    &&& contributes(c, p, k)
    &&& forall|q: ProfileView|
        #![trigger e.contains(q), contributes(c, q, k)]
        e.contains(q) && contributes(c, q, k) && q != p ==> precedes(p, q)
}

/// For every key that a profile of `e` gives, the entry of the first such
/// profile visited.
pub open spec fn first_plan<M, B, F>(c: ConfigView<M, B, F>, e: Set<ProfileView>) -> Map<
    (M, Seq<B>),
    PlanView<F>,
> {
    Map::new(
        |k: (M, Seq<B>)| exists|p: ProfileView| e.contains(p) && contributes(c, p, k),
        |k: (M, Seq<B>)| entry(c, choose|p: ProfileView| is_first_giver(c, e, k, p), k),
    )
}

/// The input map of an owner with profiles `s`.
pub open spec fn owner_plan<M, B, F>(c: ConfigView<M, B, F>, s: Set<ProfileView>) -> Map<
    (M, Seq<B>),
    PlanView<F>,
> {
    first_plan(c, expand(s))
}

/// What visiting the profiles of `s` in turn gives: the entry of a key comes
/// from the first profile that gives it.
pub open spec fn plan_seq<M, B, F>(c: ConfigView<M, B, F>, s: Seq<ProfileView>) -> Map<
    (M, Seq<B>),
    PlanView<F>,
>
    decreases s.len(),
{
    if s.len() == 0 {
        Map::empty()
    } else {
        contribution(c, s.last()).union_prefer_right(plan_seq(c, s.drop_last()))
    }
}

/// The first `j` names of a profile.
fn take_profile(p: &Vec<String>, j: usize) -> (r: Vec<String>)
    requires
        j <= p@.len(),
    ensures
        r.deep_view() == p.deep_view().take(j as int),
{
    let mut r: Vec<String> = Vec::new();
    let mut i: usize = 0;
    while i < j
        invariant
            i <= j,
            j <= p@.len(),
            r@.len() == i,
            forall|t: int| 0 <= t < i ==> #[trigger] r@[t]@ == p@[t]@,
        decreases j - i,
    {
        r.push(p[i].clone());
        i = i + 1;
    }
    assert(r.deep_view() =~= p.deep_view().take(j as int));
    r
}

/// The profiles with every nonempty proper prefix of each of them.
pub fn expand_profiles(set: &ProfileMap<()>) -> (r: ProfileMap<()>)
    ensures
        r@.dom() == expand(set@.dom()),
{
    let n = set.len();
    let mut r = set.duplicate();
    let mut i: usize = 0;
    while i < n
        invariant
            i <= n,
            n == set.keys().len(),
            forall|x: ProfileView| set@.contains_key(x) <==> set.keys().contains(x),
            forall|q: ProfileView|
                #[trigger] r@.contains_key(q) <==> (set@.contains_key(q) || exists|t: int, j: int|
                    #![trigger set.keys()[t].take(j)]
                    0 <= t < i && 1 <= j < set.keys()[t].len() && q == set.keys()[t].take(j)),
        decreases n - i,
    {
        let p = set.key_at(i);
        let ghost pv = p.deep_view();
        let len = p.len();
        let ghost before = r@;
        let mut j: usize = 1;
        while j < len
            invariant
                1 <= j,
                j == 1 || j <= len,
                len == p@.len(),
                pv == p.deep_view(),
                pv == set.keys()[i as int],
                forall|q: ProfileView|
                    #[trigger] r@.contains_key(q) <==> (before.contains_key(q) || exists|j2: int|
                        1 <= j2 < j && q == pv.take(j2)),
            decreases len - j,
        {
            let q = take_profile(p, j);
            r.insert(q, ());
            j = j + 1;
        }
        proof {
            assert forall|q: ProfileView| #[trigger] r@.contains_key(q) <==> (set@.contains_key(q)
                || exists|t: int, j2: int|
                #![trigger set.keys()[t].take(j2)]
                0 <= t < i + 1 && 1 <= j2 < set.keys()[t].len() && q == set.keys()[t].take(
                    j2,
                )) by {
                if r@.contains_key(q) && !set@.contains_key(q) {
                    if before.contains_key(q) {
                        let (t, j2) = choose|t: int, j2: int|
                            #![trigger set.keys()[t].take(j2)]
                            0 <= t < i && 1 <= j2 < set.keys()[t].len() && q == set.keys()[t].take(
                                j2,
                            );
                        assert(0 <= t < i + 1 && 1 <= j2 < set.keys()[t].len() && q
                            == set.keys()[t].take(j2));
                    } else {
                        let j2 = choose|j2: int| 1 <= j2 < j && q == pv.take(j2);
                        assert(pv.len() == len);
                        assert(1 <= j2 < pv.len());
                        assert(pv == set.keys()[i as int]);
                        assert(q == set.keys()[i as int].take(j2));
                        assert(0 <= i < i + 1 && 1 <= j2 < set.keys()[i as int].len() && q
                            == set.keys()[i as int].take(j2));
                    }
                }
                if set@.contains_key(q) {
                    assert(before.contains_key(q));
                }
                if exists|t: int, j2: int|
                    #![trigger set.keys()[t].take(j2)]
                    0 <= t < i + 1 && 1 <= j2 < set.keys()[t].len() && q == set.keys()[t].take(
                        j2,
                    ) {
                    let (t, j2) = choose|t: int, j2: int|
                        #![trigger set.keys()[t].take(j2)]
                        0 <= t < i + 1 && 1 <= j2 < set.keys()[t].len() && q == set.keys()[t].take(
                            j2,
                        );
                    if t == i {
                        assert(1 <= j2 < j && q == pv.take(j2));
                    } else {
                        assert(0 <= t < i && 1 <= j2 < set.keys()[t].len() && q
                            == set.keys()[t].take(j2));
                        assert(before.contains_key(q));
                    }
                }
            }
        }
        i = i + 1;
    }
    proof {
        assert forall|q: ProfileView| #[trigger] r@.dom().contains(q) == expand(set@.dom()).contains(
            q,
        ) by {
            if r@.contains_key(q) && !set@.contains_key(q) {
                let (t, j) = choose|t: int, j: int|
                    #![trigger set.keys()[t].take(j)]
                    0 <= t < i && 1 <= j < set.keys()[t].len() && q == set.keys()[t].take(j);
                let p = set.keys()[t];
                assert(set.keys().contains(p));
                assert(set@.dom().contains(p) && p.take(j) == q);
            }
            if expand(set@.dom()).contains(q) && !set@.contains_key(q) {
                let (p, j) = choose|p: ProfileView, j: int|
                    #![trigger set@.dom().contains(p), p.take(j)]
                    set@.dom().contains(p) && 1 <= j < p.len() && q == p.take(j);
                assert(set.keys().contains(p));
                let t = choose|t: int| 0 <= t < set.keys().len() && set.keys()[t] == p;
                assert(set.keys()[t].take(j) == q);
            }
        }
        assert(r@.dom() =~= expand(set@.dom()));
    }
    r
}

/// The scale of a mapping in the nearest shorter prefix of a profile whose
/// merged scales have it.
pub fn find_ancestor_scale<M: PartialEq + Clone, B: PartialEq + Clone, F: Copy>(
    c: &InputConfig<M, B, F>,
    profile: &Vec<String>,
    mapping: &M,
) -> (r: Option<F>)
    ensures
        r == ancestor_scale(c@, profile.deep_view(), *mapping, profile@.len() - 1),
{
    let ghost p = profile.deep_view();
    let n = profile.len();
    if n == 0 {
        return None;
    }
    let mut j: usize = n - 1;
    while j >= 1
        invariant
            j < n,
            n == profile@.len(),
            p == profile.deep_view(),
            ancestor_scale(c@, p, *mapping, n - 1) == ancestor_scale(c@, p, *mapping, j as int),
        decreases j,
    {
        let q = take_profile(profile, j);
        let s = c.get_scales(&q);
        match s.get(mapping) {
            Some(x) => {
                return Some(*x);
            },
            None => {},
        }
        j = j - 1;
    }
    None
}

/// The dead zones of a mapping in the nearest shorter prefix of a profile
/// whose merged dead zones have it.
pub fn find_ancestor_dead<M: PartialEq + Clone, B: PartialEq + Clone, F: Copy>(
    c: &InputConfig<M, B, F>,
    profile: &Vec<String>,
    mapping: &M,
) -> (r: Option<(F, F)>)
    ensures
        r == ancestor_dead(c@, profile.deep_view(), *mapping, profile@.len() - 1),
{
    let ghost p = profile.deep_view();
    let n = profile.len();
    if n == 0 {
        return None;
    }
    let mut j: usize = n - 1;
    while j >= 1
        invariant
            j < n,
            n == profile@.len(),
            p == profile.deep_view(),
            ancestor_dead(c@, p, *mapping, n - 1) == ancestor_dead(c@, p, *mapping, j as int),
        decreases j,
    {
        let q = take_profile(profile, j);
        let s = c.get_deads(&q);
        match s.get(mapping) {
            Some(x) => {
                return Some(*x);
            },
            None => {},
        }
        j = j - 1;
    }
    None
}

/// One entry of an owner's input map: a binding group of a mapping, the
/// scales to sum into its scale, and what the nearest shorter prefix of its
/// profile says of the mapping.
pub struct BindingPlan<M, B, F> {
    pub mapping: M,
    pub bindings: Vec<B>,
    /// The scales of the group, in the order of the profile's list.
    pub scales: Vec<F>,
    /// A factor for the summed scale; none means one.
    pub ancestor_scale: Option<F>,
    /// The primary and modifier dead zones; none means zero.
    pub dead: Option<(F, F)>,
}

/// The key of an entry.
pub open spec fn plan_key<M, B, F>(b: BindingPlan<M, B, F>) -> (M, Seq<B>) {
    (b.mapping, b.bindings@)
}

/// An entry as the contracts see it.
pub open spec fn plan_view<M, B, F>(b: BindingPlan<M, B, F>) -> PlanView<F> {
    PlanView { scales: b.scales@, ancestor_scale: b.ancestor_scale, dead: b.dead }
}

/// No two entries have one key.
pub open spec fn plan_keys_distinct<M, B, F>(v: Seq<BindingPlan<M, B, F>>) -> bool {
    forall|i: int, j: int| 0 <= i < j < v.len() ==> plan_key(v[i]) != plan_key(v[j])
}

/// The entries, by key.
pub open spec fn plans_map<M, B, F>(v: Seq<BindingPlan<M, B, F>>) -> Map<(M, Seq<B>), PlanView<F>> {
    Map::new(
        |k: (M, Seq<B>)| exists|i: int| 0 <= i < v.len() && plan_key(v[i]) == k,
        |k: (M, Seq<B>)| plan_view(v[choose|i: int| 0 <= i < v.len() && plan_key(v[i]) == k]),
    )
}

proof fn lemma_plans_push<M, B, F>(v: Seq<BindingPlan<M, B, F>>, x: BindingPlan<M, B, F>)
    requires
        plan_keys_distinct(v),
        !plans_map(v).contains_key(plan_key(x)),
    ensures
        plan_keys_distinct(v.push(x)),
        plans_map(v.push(x)) == plans_map(v).insert(plan_key(x), plan_view(x)),
{
    let w = v.push(x);
    assert forall|i: int, j: int| 0 <= i < j < w.len() implies plan_key(w[i]) != plan_key(w[j]) by {
        if j == v.len() {
            assert(w[i] == v[i]);
            if plan_key(v[i]) == plan_key(x) {
                assert(plans_map(v).contains_key(plan_key(x)));
            }
        }
    }
    assert forall|k: (M, Seq<B>)| #[trigger] plans_map(w).contains_key(k) == plans_map(v).insert(
        plan_key(x),
        plan_view(x),
    ).contains_key(k) by {
        if plans_map(v).contains_key(k) {
            let i = choose|i: int| 0 <= i < v.len() && plan_key(v[i]) == k;
            assert(plan_key(w[i]) == k);
        }
        if plans_map(w).contains_key(k) && k != plan_key(x) {
            let i = choose|i: int| 0 <= i < w.len() && plan_key(w[i]) == k;
            assert(plan_key(v[i]) == k);
        }
        if k == plan_key(x) {
            assert(plan_key(w[v.len() as int]) == k);
        }
    }
    assert forall|k: (M, Seq<B>)| #[trigger] plans_map(w).contains_key(k) implies plans_map(w)[k]
        == plans_map(v).insert(plan_key(x), plan_view(x))[k] by {
        let i = choose|i: int| 0 <= i < w.len() && plan_key(w[i]) == k;
        if k == plan_key(x) {
            assert(plan_key(w[v.len() as int]) == k);
            assert(i == v.len());
        } else {
            let i2 = choose|i2: int| 0 <= i2 < v.len() && plan_key(v[i2]) == k;
            assert(plan_key(w[i2]) == k);
            assert(i == i2);
        }
    }
    assert(plans_map(w) =~= plans_map(v).insert(plan_key(x), plan_view(x)));
}

/// Whether the entries have the key `(mapping, group)`.
fn has_plan<M: PartialEq + Clone, B: PartialEq + Clone, F>(
    v: &Vec<BindingPlan<M, B, F>>,
    mapping: &M,
    group: &Vec<B>,
) -> (r: bool)
    requires
        is_plain::<M>(),
        is_plain::<B>(),
    ensures
        r == plans_map(v@).contains_key((*mapping, group@)),
{
    let n = v.len();
    let mut i: usize = 0;
    while i < n
        invariant
            i <= n,
            n == v@.len(),
            is_plain::<M>(),
            is_plain::<B>(),
            forall|j: int| 0 <= j < i ==> plan_key(#[trigger] v@[j]) != (*mapping, group@),
        decreases n - i,
    {
        if same(&v[i].mapping, mapping) && same_seq(&v[i].bindings, group) {
            assert(plan_key(v@[i as int]) == (*mapping, group@));
            return true;
        }
        i = i + 1;
    }
    false
}

/// The scales of the entries of a list whose group is `group`, in list order.
fn collect_group_scales<B: PartialEq + Clone, F: Copy>(l: &Vec<(Vec<B>, F)>, group: &Vec<B>) -> (r: Vec<F>)
    requires
        is_plain::<B>(),
    ensures
        r@ == group_scales(list_view(*l), group@),
{
    let n = l.len();
    let mut r: Vec<F> = Vec::new();
    let mut i: usize = 0;
    while i < n
        invariant
            i <= n,
            n == l@.len(),
            is_plain::<B>(),
            r@ == group_scales(list_view(*l).take(i as int), group@),
        decreases n - i,
    {
        assert(list_view(*l).take(i + 1).drop_last() =~= list_view(*l).take(i as int));
        if same_seq(&l[i].0, group) {
            r.push(l[i].1);
        }
        i = i + 1;
    }
    assert(list_view(*l).take(n as int) =~= list_view(*l));
    r
}

/// Adds the entries that a profile gives for keys not yet there.
fn add_profile<M: PartialEq + Clone, B: PartialEq + Clone, F: Copy>(
    c: &InputConfig<M, B, F>,
    profile: &Vec<String>,
    out: &mut Vec<BindingPlan<M, B, F>>,
)
    requires
        is_plain::<M>(),
        is_plain::<B>(),
        plan_keys_distinct(old(out)@),
    ensures
        plan_keys_distinct(final(out)@),
        plans_map(final(out)@) == contribution(c@, profile.deep_view()).union_prefer_right(
            plans_map(old(out)@),
        ),
{
    let ghost p = profile.deep_view();
    let ghost start = plans_map(out@);
    let bm = c.get_bindings(profile);
    let ghost bv = c@.bindings(p);
    let nm = bm.len();
    let mut mi: usize = 0;
    while mi < nm
        invariant
            mi <= nm,
            nm == bm.keys().len(),
            is_plain::<M>(),
            is_plain::<B>(),
            p == profile.deep_view(),
            bv == c@.bindings(p),
            list_map_view(bm) == bv,
            forall|m: M| bm@.contains_key(m) <==> bm.keys().contains(m),
            start == plans_map(old(out)@),
            plan_keys_distinct(out@),
            forall|k: (M, Seq<B>)|
                #[trigger] plans_map(out@).contains_key(k) <==> (start.contains_key(k) || (
                contributes(c@, p, k) && bm.keys().take(mi as int).contains(k.0))),
            forall|k: (M, Seq<B>)|
                #[trigger] plans_map(out@).contains_key(k) ==> plans_map(out@)[k] == (if start.contains_key(
                    k,
                ) {
                    start[k]
                } else {
                    entry(c@, p, k)
                }),
        decreases nm - mi,
    {
        let m = bm.key_at(mi);
        let l = bm.value_at(mi);
        let ghost lv = list_view(*l);
        assert(bm.keys().contains(*m));
        assert(lv == bv[*m]);
        let ghost mid = plans_map(out@);
        let nl = l.len();
        let mut gi: usize = 0;
        while gi < nl
            invariant
                gi <= nl,
                nl == l@.len(),
                is_plain::<M>(),
                is_plain::<B>(),
                p == profile.deep_view(),
                bv == c@.bindings(p),
                bv.contains_key(*m),
                lv == list_view(*l),
                lv == bv[*m],
                plan_keys_distinct(out@),
                forall|k: (M, Seq<B>)|
                    #[trigger] plans_map(out@).contains_key(k) <==> (mid.contains_key(k) || (k.0
                        == *m && exists|j: int| 0 <= j < gi && #[trigger] lv[j].0 == k.1)),
                forall|k: (M, Seq<B>)|
                    #[trigger] plans_map(out@).contains_key(k) ==> plans_map(out@)[k] == (
                    if mid.contains_key(k) {
                        mid[k]
                    } else {
                        entry(c@, p, k)
                    }),
            decreases nl - gi,
        {
            let g = &l[gi].0;
            assert(lv[gi as int].0 == g@);
            let ghost before = out@;
            if !has_plan(out, m, g) {
                let scales = collect_group_scales(l, g);
                let anc = find_ancestor_scale(c, profile, m);
                let dead = find_ancestor_dead(c, profile, m);
                let x = BindingPlan {
                    mapping: dup(m),
                    bindings: dup_seq(g),
                    scales,
                    ancestor_scale: anc,
                    dead,
                };
                proof {
                    lemma_plans_push(before, x);
                    assert(plan_view(x) == entry(c@, p, (*m, g@)));
                }
                out.push(x);
            }
            proof {
                assert forall|k: (M, Seq<B>)| #[trigger] plans_map(out@).contains_key(k) <==> (
                mid.contains_key(k) || (k.0 == *m && exists|j: int|
                    0 <= j < gi + 1 && #[trigger] lv[j].0 == k.1)) by {
                    if k.0 == *m && k.1 == g@ {
                        assert(lv[gi as int].0 == k.1);
                    }
                    if k.0 == *m && (exists|j: int| 0 <= j < gi + 1 && #[trigger] lv[j].0 == k.1) {
                        let j = choose|j: int| 0 <= j < gi + 1 && #[trigger] lv[j].0 == k.1;
                        if j < gi {
                            assert(plans_map(before).contains_key(k));
                        }
                    }
                }
            }
            gi = gi + 1;
        }
        proof {
            lemma_take_one_more(bm.keys(), mi as int);
            assert forall|k: (M, Seq<B>)| #[trigger] plans_map(out@).contains_key(k) <==> (
            start.contains_key(k) || (contributes(c@, p, k) && bm.keys().take(mi + 1).contains(
                k.0,
            ))) by {
                if k.0 == *m {
                    if contributes(c@, p, k) {
                        let j = choose|j: int| 0 <= j < bv[k.0].len() && #[trigger] bv[k.0][j].0 == k.1;
                        assert(lv[j].0 == k.1);
                    }
                    if exists|j: int| 0 <= j < nl && #[trigger] lv[j].0 == k.1 {
                        let j = choose|j: int| 0 <= j < nl && #[trigger] lv[j].0 == k.1;
                        assert(bv[k.0][j].0 == k.1);
                    }
                }
            }
        }
        mi = mi + 1;
    }
    proof {
        assert(bm.keys().take(mi as int) =~= bm.keys());
        assert forall|k: (M, Seq<B>)| contributes(c@, p, k) implies bm.keys().contains(k.0) by {
            assert(bv.contains_key(k.0));
        }
        assert(plans_map(out@) =~= contribution(c@, p).union_prefer_right(start));
    }
}

proof fn lemma_plan_seq_contents<M, B, F>(c: ConfigView<M, B, F>, s: Seq<ProfileView>)
    ensures
        forall|k: (M, Seq<B>)|
            #[trigger] plan_seq(c, s).contains_key(k) <==> exists|j: int|
                0 <= j < s.len() && contributes(c, #[trigger] s[j], k),
        forall|k: (M, Seq<B>)|
            #[trigger] plan_seq(c, s).contains_key(k) ==> exists|j: int|
                0 <= j < s.len() && contributes(c, #[trigger] s[j], k) && (forall|i: int|
                    0 <= i < j ==> !contributes(c, #[trigger] s[i], k)) && plan_seq(c, s)[k]
                    == entry(c, s[j], k),
    decreases s.len(),
{
    if s.len() > 0 {
        let s2 = s.drop_last();
        lemma_plan_seq_contents(c, s2);
        assert forall|k: (M, Seq<B>)| #[trigger] plan_seq(c, s).contains_key(k) <==> exists|j: int|
            0 <= j < s.len() && contributes(c, #[trigger] s[j], k) by {
            if plan_seq(c, s2).contains_key(k) {
                let j = choose|j: int| 0 <= j < s2.len() && contributes(c, #[trigger] s2[j], k);
                assert(s[j] == s2[j]);
            }
            if exists|j: int| 0 <= j < s.len() && contributes(c, #[trigger] s[j], k) {
                let j = choose|j: int| 0 <= j < s.len() && contributes(c, #[trigger] s[j], k);
                if j < s.len() - 1 {
                    assert(s2[j] == s[j]);
                    assert(plan_seq(c, s2).contains_key(k));
                }
            }
        }
        assert forall|k: (M, Seq<B>)| #[trigger] plan_seq(c, s).contains_key(k) implies exists|j: int|
            0 <= j < s.len() && contributes(c, #[trigger] s[j], k) && (forall|i: int|
                0 <= i < j ==> !contributes(c, #[trigger] s[i], k)) && plan_seq(c, s)[k]
                == entry(c, s[j], k) by {
            if plan_seq(c, s2).contains_key(k) {
                let j = choose|j: int|
                    0 <= j < s2.len() && contributes(c, #[trigger] s2[j], k) && (forall|i: int|
                        0 <= i < j ==> !contributes(c, #[trigger] s2[i], k)) && plan_seq(c, s2)[k]
                        == entry(c, s2[j], k);
                assert(s[j] == s2[j]);
                assert forall|i: int| 0 <= i < j implies !contributes(c, #[trigger] s[i], k) by {
                    assert(s[i] == s2[i]);
                }
            } else {
                let j = s.len() - 1;
                assert(contributes(c, s.last(), k));
                assert forall|i: int| 0 <= i < j implies !contributes(c, #[trigger] s[i], k) by {
                    assert(s[i] == s2[i]);
                    if contributes(c, s[i], k) {
                        assert(contributes(c, s2[i], k));
                    }
                }
            }
        }
    }
}

/// Visiting the profiles of a set in the visiting order gives, for every key,
/// the entry of the first profile that gives it.
pub proof fn lemma_sorted_visit_gives_first<M, B, F>(
    c: ConfigView<M, B, F>,
    s: Seq<ProfileView>,
    e: Set<ProfileView>,
)
    requires
        is_sorted_listing(s, e),
    ensures
        plan_seq(c, s) == first_plan(c, e),
{
    lemma_plan_seq_contents(c, s);
    assert forall|k: (M, Seq<B>)| #[trigger] plan_seq(c, s).contains_key(k) <==> first_plan(
        c,
        e,
    ).contains_key(k) by {
        if plan_seq(c, s).contains_key(k) {
            let j = choose|j: int| 0 <= j < s.len() && contributes(c, #[trigger] s[j], k);
            assert(s.contains(s[j]));
            assert(e.contains(s[j]));
        }
        if first_plan(c, e).contains_key(k) {
            let p = choose|p: ProfileView| e.contains(p) && contributes(c, p, k);
            assert(s.contains(p));
            let j = choose|j: int| 0 <= j < s.len() && s[j] == p;
            assert(contributes(c, s[j], k));
        }
    }
    assert forall|k: (M, Seq<B>)| #[trigger] plan_seq(c, s).contains_key(k) implies plan_seq(c, s)[k]
        == first_plan(c, e)[k] by {
        let j = choose|j: int|
            0 <= j < s.len() && contributes(c, #[trigger] s[j], k) && (forall|i: int|
                0 <= i < j ==> !contributes(c, #[trigger] s[i], k)) && plan_seq(c, s)[k] == entry(
                c,
                s[j],
                k,
            );
        let p = s[j];
        assert(s.contains(p));
        assert forall|q: ProfileView|
            #![trigger e.contains(q), contributes(c, q, k)]
            e.contains(q) && contributes(c, q, k) && q != p implies precedes(p, q) by {
            assert(s.contains(q));
            let j2 = choose|j2: int| 0 <= j2 < s.len() && s[j2] == q;
            if j2 < j {
                assert(!contributes(c, s[j2], k));
            } else {
                assert(j2 != j);
                assert(precedes(s[j], s[j2]));
            }
        }
        assert(is_first_giver(c, e, k, p));
        let p2 = choose|p2: ProfileView| is_first_giver(c, e, k, p2);
        if p2 != p {
            assert(precedes(p, p2));
            assert(precedes(p2, p));
            lemma_precedes_asymmetric(p, p2);
        }
    }
    assert(plan_seq(c, s) =~= first_plan(c, e));
}

/// The input map of an owner with the given profiles.
pub fn plan_owner<M: PartialEq + Clone, B: PartialEq + Clone, F: Copy>(
    c: &InputConfig<M, B, F>,
    profiles: &ProfileMap<()>,
) -> (r: Vec<BindingPlan<M, B, F>>)
    ensures
        plan_keys_distinct(r@),
        plans_map(r@) == owner_plan(c@, profiles@.dom()),
{
    proof {
        use_type_invariant(&c.user_data.repeats);
        use_type_invariant(&c.user_data.includes);
    }
    let e = expand_profiles(profiles);
    let order = sorted_profiles(&e);
    let ghost ov = order.deep_view();
    let mut out: Vec<BindingPlan<M, B, F>> = Vec::new();
    let n = order.len();
    let mut t: usize = 0;
    assert(plans_map(out@) =~= plan_seq(c@, ov.take(0)));
    while t < n
        invariant
            t <= n,
            n == order@.len(),
            ov == order.deep_view(),
            is_plain::<M>(),
            is_plain::<B>(),
            plan_keys_distinct(out@),
            plans_map(out@) == plan_seq(c@, ov.take(t as int)),
        decreases n - t,
    {
        add_profile(c, &order[t], &mut out);
        assert(ov.take(t + 1).drop_last() =~= ov.take(t as int));
        assert(ov.take(t + 1).last() == order@[t as int].deep_view());
        t = t + 1;
    }
    proof {
        assert(ov.take(t as int) =~= ov);
        lemma_sorted_visit_gives_first(c@, ov, e@.dom());
    }
    out
}

/// The input map of every owner of the configuration: one list of entries per
/// owner, for each owner that the user or the defaults give profiles.
pub fn plan_input_map<M: PartialEq + Clone, B: PartialEq + Clone, F: Copy>(
    input_config: &InputConfig<M, B, F>,
) -> (r: Vec<(i32, Vec<BindingPlan<M, B, F>>)>)
    ensures
        forall|i: int, j: int| 0 <= i < j < r@.len() ==> r@[i].0 != r@[j].0,
        forall|o: i32|
            input_config@.owners_profiles().contains_key(o) <==> exists|i: int|
                0 <= i < r@.len() && #[trigger] r@[i].0 == o,
        forall|i: int|
            0 <= i < r@.len() ==> plan_keys_distinct(#[trigger] r@[i].1@) && plans_map(r@[i].1@)
                == owner_plan(input_config@, input_config@.owners_profiles()[r@[i].0]),
{
    let owners = input_config.get_owners_profiles();
    let ghost ov = input_config@.owners_profiles();
    let n = owners.len();
    let mut r: Vec<(i32, Vec<BindingPlan<M, B, F>>)> = Vec::new();
    let mut i: usize = 0;
    while i < n
        invariant
            i <= n,
            n == owners.keys().len(),
            owners.keys().no_duplicates(),
            forall|o: i32| owners@.contains_key(o) <==> owners.keys().contains(o),
            ov == input_config@.owners_profiles(),
            ov == owners@.map_values(|s: ProfileMap<()>| s@.dom()),
            r@.len() == i,
            forall|j: int| 0 <= j < i ==> #[trigger] r@[j].0 == owners.keys()[j],
            forall|j: int|
                0 <= j < i ==> plan_keys_distinct(#[trigger] r@[j].1@) && plans_map(r@[j].1@)
                    == owner_plan(input_config@, ov[r@[j].0]),
        decreases n - i,
    {
        let o = *owners.key_at(i);
        let s = owners.value_at(i);
        assert(ov[o] == s@.dom());
        let plans = plan_owner(input_config, s);
        r.push((o, plans));
        i = i + 1;
    }
    proof {
        assert forall|a: int, b: int| 0 <= a < b < r@.len() implies r@[a].0 != r@[b].0 by {
            assert(owners.keys()[a] != owners.keys()[b]);
        }
        assert forall|o: i32| ov.contains_key(o) <==> exists|j: int|
            0 <= j < r@.len() && #[trigger] r@[j].0 == o by {
            if ov.contains_key(o) {
                assert(owners.keys().contains(o));
                let j = choose|j: int| 0 <= j < n && owners.keys()[j] == o;
                assert(r@[j].0 == o);
            }
            if exists|j: int| 0 <= j < r@.len() && #[trigger] r@[j].0 == o {
                let j = choose|j: int| 0 <= j < r@.len() && #[trigger] r@[j].0 == o;
                assert(owners.keys().contains(owners.keys()[j]));
            }
        }
    }
    r
}

} // verus!
