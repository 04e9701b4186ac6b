//! What holds across the operations of the configuration.
use vstd::prelude::*;
use crate::keys::ProfileView;
use crate::resources::{ConfigView, row, pick_or_empty};

verus! {

/// A scale that was set is the scale that is read back, and the profile's
/// merged scales gain it.
pub proof fn lemma_set_scale_reads_back<M, B, F>(c: ConfigView<M, B, F>, p: ProfileView, m: M, s: F)
    ensures
        c.set_scale(p, m, s).scale(p, m) == Some(s),
        c.set_scale(p, m, s).scales(p) == c.scales(p).insert(m, s),
{
    assert(c.set_scale(p, m, s).scales(p) =~= c.scales(p).insert(m, s));
}

/// Setting a scale changes no other scale.
pub proof fn lemma_set_scale_frame<M, B, F>(
    c: ConfigView<M, B, F>,
    p: ProfileView,
    m: M,
    s: F,
    p2: ProfileView,
    m2: M,
)
    requires
        p2 != p || m2 != m,
    ensures
        c.set_scale(p, m, s).scale(p2, m2) == c.scale(p2, m2),
        p2 != p ==> c.set_scale(p, m, s).scales(p2) == c.scales(p2),
{
    if p2 != p {
        assert(c.set_scale(p, m, s).scales(p2) =~= c.scales(p2));
    }
}

/// Dead zones that were set are the ones read back, and the profile's merged
/// dead zones gain them.
pub proof fn lemma_set_dead_reads_back<M, B, F>(
    c: ConfigView<M, B, F>,
    p: ProfileView,
    m: M,
    primary: F,
    modifier: F,
)
    ensures
        c.set_dead(p, m, primary, modifier).dead(p, m) == Some((primary, modifier)),
        c.set_dead(p, m, primary, modifier).deads(p) == c.deads(p).insert(m, (primary, modifier)),
{
    assert(c.set_dead(p, m, primary, modifier).deads(p) =~= c.deads(p).insert(
        m,
        (primary, modifier),
    ));
}

/// Setting dead zones changes no other dead zones.
pub proof fn lemma_set_dead_frame<M, B, F>(
    c: ConfigView<M, B, F>,
    p: ProfileView,
    m: M,
    primary: F,
    modifier: F,
    p2: ProfileView,
    m2: M,
)
    requires
        p2 != p || m2 != m,
    ensures
        c.set_dead(p, m, primary, modifier).dead(p2, m2) == c.dead(p2, m2),
        p2 != p ==> c.set_dead(p, m, primary, modifier).deads(p2) == c.deads(p2),
{
    if p2 != p {
        assert(c.set_dead(p, m, primary, modifier).deads(p2) =~= c.deads(p2));
    }
}

/// A binding group that was set is the one read back at its index, and the
/// groups before it stay where they were.
pub proof fn lemma_set_binding_reads_back<M, B, F>(
    c: ConfigView<M, B, F>,
    p: ProfileView,
    m: M,
    i: nat,
    bindings: Seq<B>,
    s: F,
    fill: F,
    j: nat,
)
    ensures
        c.set_binding(p, m, i, bindings, s, fill).binding(p, m, i as int) == Some((bindings, s)),
        j < i && c.binding(p, m, j as int) is Some ==> c.set_binding(
            p,
            m,
            i,
            bindings,
            s,
            fill,
        ).binding(p, m, j as int) == c.binding(p, m, j as int),
{
}

/// Setting a binding group keeps every other group of the list, fills the
/// indices between the old end of the list and the set one with groups of no
/// bindings and the fill scale, and adds nothing past the set index.
pub proof fn lemma_set_binding_pads<M, B, F>(
    c: ConfigView<M, B, F>,
    p: ProfileView,
    m: M,
    i: nat,
    bindings: Seq<B>,
    s: F,
    fill: F,
    j: int,
)
    ensures
        j != i && c.binding(p, m, j) is Some ==> c.set_binding(p, m, i, bindings, s, fill).binding(
            p,
            m,
            j,
        ) == c.binding(p, m, j),
        0 <= j < i && c.binding(p, m, j) is None ==> c.set_binding(p, m, i, bindings, s, fill).binding(
            p,
            m,
            j,
        ) == Some((Seq::<B>::empty(), fill)),
        j > i && c.binding(p, m, j) is None ==> c.set_binding(p, m, i, bindings, s, fill).binding(
            p,
            m,
            j,
        ) is None,
{
}

/// Setting a binding group changes no group of another mapping or profile.
pub proof fn lemma_set_binding_frame<M, B, F>(
    c: ConfigView<M, B, F>,
    p: ProfileView,
    m: M,
    i: nat,
    bindings: Seq<B>,
    s: F,
    fill: F,
    p2: ProfileView,
    m2: M,
    j: int,
)
    requires
        p2 != p || m2 != m,
    ensures
        c.set_binding(p, m, i, bindings, s, fill).binding(p2, m2, j) == c.binding(p2, m2, j),
        p2 != p ==> c.set_binding(p, m, i, bindings, s, fill).bindings(p2) == c.bindings(p2),
{
    if p2 != p {
        assert(c.set_binding(p, m, i, bindings, s, fill).bindings(p2) =~= c.bindings(p2));
    }
}

/// A new profile reads the scales, dead zones and bindings of the profile it
/// was copied from, or none.
pub proof fn lemma_new_profile_copies<M, B, F>(
    c: ConfigView<M, B, F>,
    p: ProfileView,
    from: Option<ProfileView>,
    m: M,
    i: int,
)
    ensures
        c.new_scales_profile(p, from).scale(p, m) == match from {
            Some(f) => c.scale(f, m),
            None => None,
        },
        c.new_deads_profile(p, from).dead(p, m) == match from {
            Some(f) => c.dead(f, m),
            None => None,
        },
        c.new_bindings_profile(p, from).binding(p, m, i) == match from {
            Some(f) => c.binding(f, m, i),
            None => None,
        },
{
}

/// Every setter marks the configuration unapplied and unsaved, and leaves the
/// defaults and the saved user settings as they were.
pub proof fn lemma_setters_mark_changes<M, B, F>(
    c: ConfigView<M, B, F>,
    o: i32,
    p: ProfileView,
    from: Option<ProfileView>,
    m: M,
    i: nat,
    bindings: Seq<B>,
    s: F,
    s2: F,
    fill: F,
)
    ensures
        ({
            let all = seq![
                c.owner_insert_profile(o, p),
                c.owner_remove_profile(o, p),
                c.owner_clear_profiles(o),
                c.new_scales_profile(p, from),
                c.new_deads_profile(p, from),
                c.new_bindings_profile(p, from),
                c.set_scale(p, m, s),
                c.set_dead(p, m, s, s2),
                c.set_binding(p, m, i, bindings, s, fill),
            ];
            forall|k: int|
                0 <= k < all.len() ==> {
                    &&& !(#[trigger] all[k]).is_applied()
                    &&& !all[k].is_saved()
                    &&& all[k].default_data == c.default_data
                    &&& all[k].last_user_data == c.last_user_data
                    &&& all[k].do_save == c.do_save
                    &&& all[k].do_apply == c.do_apply
                }
        }),
{
}

/// Applying asks for the input map to be rebuilt, unless a rebuild is already
/// asked; it changes no settings, and a second apply changes nothing.
pub proof fn lemma_apply<M, B, F>(c: ConfigView<M, B, F>)
    ensures
        !(c.unapplied && c.do_apply) ==> c.apply().is_applied(),
        c.unapplied && !c.do_apply ==> c.apply().do_apply,
        c.apply().user_data == c.user_data,
        c.apply().last_user_data == c.last_user_data,
        c.apply().is_saved() == c.is_saved(),
        c.apply().apply() == c.apply(),
{
}

/// Saving keeps the user settings as the saved ones and leaves the
/// configuration applied and saved, unless a save is already asked; a second
/// save changes nothing.
pub proof fn lemma_save<M, B, F>(c: ConfigView<M, B, F>)
    ensures
        c.unsaved && !c.do_save ==> {
            &&& c.save().is_saved()
            &&& c.save().is_applied()
            &&& c.save().do_save
            &&& c.save().last_user_data == c.user_data
        },
        !c.unsaved ==> c.save() == c,
        c.save().user_data == c.user_data,
        c.save().save() == c.save(),
{
}

/// Restoring leaves the configuration applied and saved; if anything changed,
/// the user settings are the saved ones again. A second restore changes
/// nothing.
pub proof fn lemma_restore<M, B, F>(c: ConfigView<M, B, F>)
    ensures
        c.restore().is_applied(),
        c.restore().is_saved(),
        c.unapplied || c.unsaved ==> c.restore().user_data == c.last_user_data,
        c.restore().last_user_data == c.last_user_data,
        c.restore().restore() == c.restore(),
{
}

/// Adding a profile to an owner makes it one of the owner's profiles, and
/// keeps the others.
pub proof fn lemma_owner_insert_profile<M, B, F>(
    c: ConfigView<M, B, F>,
    o: i32,
    p: ProfileView,
    o2: i32,
)
    ensures
        c.owner_insert_profile(o, p).owner_profiles(o) == c.owner_profiles(o).insert(p),
        o2 != o ==> c.owner_insert_profile(o, p).owner_profiles(o2) == c.owner_profiles(o2),
{
}

/// Removing a profile from an owner leaves it out of the owner's profiles,
/// except where the user does not have the owner and the owner's default
/// profiles hold it: then the user takes the default profiles unchanged.
pub proof fn lemma_owner_remove_profile<M, B, F>(
    c: ConfigView<M, B, F>,
    o: i32,
    p: ProfileView,
    o2: i32,
)
    ensures
        !c.owner_remove_profile(o, p).owner_profiles(o).contains(p) <==> !(
        !c.user_data.owners_profiles.contains_key(o) && c.default_data.owners_profiles.contains_key(
            o,
        ) && c.default_data.owners_profiles[o].contains(p)),
        c.owner_remove_profile(o, p).owner_profiles(o).remove(p) == c.owner_profiles(o).remove(p),
        o2 != o ==> c.owner_remove_profile(o, p).owner_profiles(o2) == c.owner_profiles(o2),
{
    assert(c.owner_remove_profile(o, p).owner_profiles(o).remove(p) =~= c.owner_profiles(o).remove(
        p,
    ));
}

/// Clearing an owner leaves it with no profiles.
pub proof fn lemma_owner_clear_profiles<M, B, F>(c: ConfigView<M, B, F>, o: i32, o2: i32)
    ensures
        c.owner_clear_profiles(o).owner_profiles(o) == Set::<ProfileView>::empty(),
        o2 != o ==> c.owner_clear_profiles(o).owner_profiles(o2) == c.owner_profiles(o2),
{
}

/// The profiles of one owner are those that the table of every owner gives it.
pub proof fn lemma_owner_profiles_agree<M, B, F>(c: ConfigView<M, B, F>, o: i32)
    ensures
        c.owners_profiles().contains_key(o) ==> c.owner_profiles(o) == c.owners_profiles()[o],
        !c.owners_profiles().contains_key(o) ==> c.owner_profiles(o) == Set::<ProfileView>::empty(),
{
}

/// The scale of one mapping is the one in the merged scales of its profile,
/// except where the user has the profile without the mapping and the default
/// row has it: then the single lookup finds none.
pub proof fn lemma_scale_agrees<M, B, F>(c: ConfigView<M, B, F>, p: ProfileView, m: M)
    ensures
        c.scale(p, m) == c.scales(p).get(m) <==> !(c.user_data.scales.contains_key(p)
            && !c.user_data.scales[p].contains_key(m) && row(c.default_data.scales, p).contains_key(
            m,
        )),
{
}

/// The dead zones of one mapping are those in the merged dead zones of its
/// profile, with the same exception as for scales.
pub proof fn lemma_dead_agrees<M, B, F>(c: ConfigView<M, B, F>, p: ProfileView, m: M)
    ensures
        c.dead(p, m) == c.deads(p).get(m) <==> !(c.user_data.deads.contains_key(p)
            && !c.user_data.deads[p].contains_key(m) && row(c.default_data.deads, p).contains_key(
            m,
        )),
{
}

/// A save or an apply that was asked is taken once: after saving, the work
/// taken holds the save; after it is taken, none is left.
pub proof fn lemma_pending_work_taken_once<M, B, F>(c: ConfigView<M, B, F>)
    ensures
        c.unsaved && !c.do_save ==> c.save().do_save,
        c.unapplied && !c.do_apply ==> c.apply().do_apply,
        !c.take_pending().do_save && !c.take_pending().do_apply,
        c.take_pending().take_pending() == c.take_pending(),
        c.take_pending().user_data == c.user_data,
        c.take_pending().last_user_data == c.last_user_data,
        c.take_pending().is_applied() == c.is_applied(),
        c.take_pending().is_saved() == c.is_saved(),
{
}


/// One call of an operation of the configuration, with its arguments; a
/// binding carries the value that padding uses.
pub enum Change<M, B, F> {
    OwnerInsertProfile(i32, ProfileView),
    OwnerRemoveProfile(i32, ProfileView),
    OwnerClearProfiles(i32),
    NewScalesProfile(ProfileView, Option<ProfileView>),
    NewDeadsProfile(ProfileView, Option<ProfileView>),
    NewBindingsProfile(ProfileView, Option<ProfileView>),
    SetScale(ProfileView, M, F),
    SetDead(ProfileView, M, F, F),
    SetBinding(ProfileView, M, nat, Seq<B>, F, F),
    Apply,
    Save,
    Restore,
    TakePending,
}

/// The configuration after one call.
pub open spec fn step<M, B, F>(c: ConfigView<M, B, F>, ch: Change<M, B, F>) -> ConfigView<M, B, F> {
    match ch {
        Change::OwnerInsertProfile(o, p) => c.owner_insert_profile(o, p),
        Change::OwnerRemoveProfile(o, p) => c.owner_remove_profile(o, p),
        Change::OwnerClearProfiles(o) => c.owner_clear_profiles(o),
        Change::NewScalesProfile(p, from) => c.new_scales_profile(p, from),
        Change::NewDeadsProfile(p, from) => c.new_deads_profile(p, from),
        Change::NewBindingsProfile(p, from) => c.new_bindings_profile(p, from),
        Change::SetScale(p, m, s) => c.set_scale(p, m, s),
        Change::SetDead(p, m, primary, modifier) => c.set_dead(p, m, primary, modifier),
        Change::SetBinding(p, m, i, g, s, fill) => c.set_binding(p, m, i, g, s, fill),
        Change::Apply => c.apply(),
        Change::Save => c.save(),
        Change::Restore => c.restore(),
        Change::TakePending => c.take_pending(),
    }
}

/// The configuration after the calls in turn.
pub open spec fn run<M, B, F>(c: ConfigView<M, B, F>, calls: Seq<Change<M, B, F>>) -> ConfigView<
    M,
    B,
    F,
>
    decreases calls.len(),
{
    if calls.len() == 0 {
        c
    } else {
        step(run(c, calls.drop_last()), calls.last())
    }
}

/// Every operation keeps the configuration consistent: settings marked saved
/// are the saved ones, and settings marked unapplied are marked unsaved.
pub proof fn lemma_step_keeps_consistent<M, B, F>(c: ConfigView<M, B, F>, ch: Change<M, B, F>)
    requires
        c.consistent(),
    ensures
        step(c, ch).consistent(),
{
}

/// Any run of operations keeps the configuration consistent.
pub proof fn lemma_run_keeps_consistent<M, B, F>(
    c: ConfigView<M, B, F>,
    calls: Seq<Change<M, B, F>>,
)
    requires
        c.consistent(),
    ensures
        run(c, calls).consistent(),
    decreases calls.len(),
{
    if calls.len() > 0 {
        lemma_run_keeps_consistent(c, calls.drop_last());
        lemma_step_keeps_consistent(run(c, calls.drop_last()), calls.last());
    }
}

/// Neither a save nor a restore.
pub open spec fn is_edit<M, B, F>(ch: Change<M, B, F>) -> bool {
    !(ch is Save) && !(ch is Restore)
}

/// Edits keep the saved settings and the configuration consistent.
proof fn lemma_edits_keep_saved<M, B, F>(c: ConfigView<M, B, F>, calls: Seq<Change<M, B, F>>)
    requires
        c.consistent(),
        forall|k: int| 0 <= k < calls.len() ==> is_edit(#[trigger] calls[k]),
    ensures
        run(c, calls).consistent(),
        run(c, calls).last_user_data == c.last_user_data,
    decreases calls.len(),
{
    if calls.len() > 0 {
        let front = calls.drop_last();
        assert forall|k: int| 0 <= k < front.len() implies is_edit(#[trigger] front[k]) by {
            assert(front[k] == calls[k]);
        }
        lemma_edits_keep_saved(c, front);
        assert(is_edit(calls[calls.len() - 1]));
        lemma_step_keeps_consistent(run(c, front), calls.last());
    }
}

/// From saved settings, a restore after any run of setters, applies and
/// taken work gives back the user settings as they were, applied and saved.
pub proof fn lemma_restore_undoes_edits<M, B, F>(
    c: ConfigView<M, B, F>,
    calls: Seq<Change<M, B, F>>,
)
    requires
        c.consistent(),
        c.is_saved(),
        forall|k: int| 0 <= k < calls.len() ==> is_edit(#[trigger] calls[k]),
    ensures
        run(c, calls).restore().user_data == c.user_data,
        run(c, calls).restore().is_saved(),
        run(c, calls).restore().is_applied(),
{
    lemma_edits_keep_saved(c, calls);
}

} // verus!
