//! Collecting the profiles of all documents into groups of the same name.

use crate::speedscope_format::{Profile, ProfileView, Speedscope, SpeedscopeView};
use vstd::prelude::*;

verus! {

/// The profiles of several documents that share one name, in the order in
/// which the documents list them.
pub struct ProfileGroup<'a, V> {
    pub name: String,
    pub profiles: Vec<&'a Profile<V>>,
}

/// What a [`ProfileGroup`] is, as plain mathematical values.
pub struct ProfileGroupView<V> {
    pub name: Seq<char>,
    pub profiles: Seq<ProfileView<V>>,
}

impl<'a, V> View for ProfileGroup<'a, V> {
    type V = ProfileGroupView<V>;

    open spec fn view(&self) -> ProfileGroupView<V> {
        ProfileGroupView { name: self.name@, profiles: self.profiles.deep_view() }
    }
}

impl<'a, V> DeepView for ProfileGroup<'a, V> {
    type V = ProfileGroupView<V>;

    open spec fn deep_view(&self) -> ProfileGroupView<V> {
        self@
    }
}

/// The profiles of all documents, one document after the other.
pub open spec fn all_profiles<V>(documents: Seq<SpeedscopeView<V>>) -> Seq<ProfileView<V>>
    decreases documents.len(),
{
    if documents.len() == 0 {
        Seq::empty()
    } else {
        all_profiles(documents.drop_last()) + documents.last().profiles
    }
}

/// The test for a profile's name being `name`.
pub open spec fn named<V>(name: Seq<char>) -> spec_fn(ProfileView<V>) -> bool {
    |profile: ProfileView<V>| profile.name == name
}

/// The profiles called `name`, in the order in which `profiles` holds them.
pub open spec fn members<V>(profiles: Seq<ProfileView<V>>, name: Seq<char>) -> Seq<ProfileView<V>> {
    profiles.filter(named(name))
}

/// Whether some profile of `profiles` is called `name`.
pub open spec fn holds_name<V>(profiles: Seq<ProfileView<V>>, name: Seq<char>) -> bool {
    exists|i: int| 0 <= i < profiles.len() && (#[trigger] profiles[i]).name == name
}

/// The names that occur in `profiles`, each once, in the order in which they
/// first occur.
pub open spec fn group_names<V>(profiles: Seq<ProfileView<V>>) -> Seq<Seq<char>>
    decreases profiles.len(),
{
    if profiles.len() == 0 {
        Seq::empty()
    } else {
        let before = group_names(profiles.drop_last());
        if before.contains(profiles.last().name) {
            before
        } else {
            before.push(profiles.last().name)
        }
    }
}

/// `profiles` sorted into groups: one group for each name, in the order in
/// which the names first occur, each holding all profiles of its name.
pub open spec fn grouped<V>(profiles: Seq<ProfileView<V>>) -> Seq<ProfileGroupView<V>> {
    let names = group_names(profiles);
    Seq::new(
        names.len(),
        |k: int| ProfileGroupView { name: names[k], profiles: members(profiles, names[k]) },
    )
}

/// How one more profile changes the members of a name.
pub proof fn lemma_members_push<V>(
    profiles: Seq<ProfileView<V>>,
    profile: ProfileView<V>,
    name: Seq<char>,
)
    ensures
        members(profiles.push(profile), name) == if profile.name == name {
            members(profiles, name).push(profile)
        } else {
            members(profiles, name)
        },
{
    reveal(Seq::filter);
    assert(profiles.push(profile).drop_last() =~= profiles);
}

/// The group names are exactly the names that occur, and none is listed twice.
pub proof fn lemma_group_names<V>(profiles: Seq<ProfileView<V>>)
    ensures
        group_names(profiles).no_duplicates(),
        forall|name: Seq<char>| #[trigger]
            group_names(profiles).contains(name) <==> holds_name(profiles, name),
    decreases profiles.len(),
{
    if profiles.len() > 0 {
        let rest = profiles.drop_last();
        let before = group_names(rest);
        let last = profiles.last();
        lemma_group_names(rest);
        assert forall|name: Seq<char>| #[trigger]
            group_names(profiles).contains(name) <==> holds_name(profiles, name) by {
            assert(before.contains(name) <==> holds_name(rest, name));
            if group_names(profiles).contains(name) {
                if before.contains(name) {
                    let i = choose|i: int| 0 <= i < rest.len() && (#[trigger] rest[i]).name == name;
                    assert(profiles[i].name == name);
                } else {
                    let k = choose|k: int|
                        0 <= k < group_names(profiles).len() && group_names(profiles)[k] == name;
                    if k < before.len() {
                        assert(before[k] == name);
                    }
                    assert(profiles[profiles.len() - 1].name == name);
                }
            }
            if holds_name(profiles, name) {
                let i = choose|i: int|
                    0 <= i < profiles.len() && (#[trigger] profiles[i]).name == name;
                if i < rest.len() {
                    assert(rest[i].name == name);
                    let k = choose|k: int| 0 <= k < before.len() && before[k] == name;
                    assert(group_names(profiles)[k] == name);
                } else if before.contains(last.name) {
                } else {
                    assert(group_names(profiles)[before.len() as int] == name);
                }
            }
        }
    }
}

/// A name has members exactly when it occurs.
pub proof fn lemma_members_of_name<V>(profiles: Seq<ProfileView<V>>, name: Seq<char>)
    ensures
        members(profiles, name).len() > 0 <==> holds_name(profiles, name),
    decreases profiles.len(),
{
    reveal(Seq::filter);
    if profiles.len() > 0 {
        let rest = profiles.drop_last();
        lemma_members_of_name(rest, name);
        if holds_name(rest, name) {
            let i = choose|i: int| 0 <= i < rest.len() && (#[trigger] rest[i]).name == name;
            assert(profiles[i].name == name);
        }
        if profiles.last().name == name {
            assert(profiles[profiles.len() - 1].name == name);
        }
        if holds_name(profiles, name) {
            let i = choose|i: int| 0 <= i < profiles.len() && (#[trigger] profiles[i]).name == name;
            if i < rest.len() {
                assert(rest[i].name == name);
            }
        }
    }
}

/// How one more profile changes the groups: a profile of a known name joins
/// the end of that name's group, one of a new name opens a group of its own
/// after all others.
pub proof fn lemma_grouped_push<V>(profiles: Seq<ProfileView<V>>, profile: ProfileView<V>)
    ensures
        group_names(profiles).contains(profile.name) ==> grouped(profiles.push(profile))
            == grouped(profiles).update(
            group_names(profiles).index_of(profile.name),
            ProfileGroupView {
                name: profile.name,
                profiles: members(profiles, profile.name).push(profile),
            },
        ),
        !group_names(profiles).contains(profile.name) ==> grouped(profiles.push(profile))
            == grouped(profiles).push(
            ProfileGroupView { name: profile.name, profiles: seq![profile] },
        ),
{
    let names = group_names(profiles);
    let after = profiles.push(profile);
    assert(after.drop_last() =~= profiles);
    lemma_group_names(profiles);
    assert forall|k: int| 0 <= k < names.len() implies members(after, #[trigger] names[k])
        == if names[k] == profile.name {
        members(profiles, names[k]).push(profile)
    } else {
        members(profiles, names[k])
    } by {
        lemma_members_push(profiles, profile, names[k]);
    }
    if names.contains(profile.name) {
        let at = names.index_of(profile.name);
        assert(0 <= at < names.len() && names[at] == profile.name);
        assert(grouped(after) =~= grouped(profiles).update(
            at,
            ProfileGroupView {
                name: profile.name,
                profiles: members(profiles, profile.name).push(profile),
            },
        ));
    } else {
        lemma_members_push(profiles, profile, profile.name);
        lemma_members_of_name(profiles, profile.name);
        assert(members(profiles, profile.name).push(profile) =~= seq![profile]);
        assert(grouped(after) =~= grouped(profiles).push(
            ProfileGroupView { name: profile.name, profiles: seq![profile] },
        ));
    }
}

/// Every group has a member.
pub proof fn lemma_groups_not_empty<V>(profiles: Seq<ProfileView<V>>, k: int)
    requires
        0 <= k < grouped(profiles).len(),
    ensures
        grouped(profiles)[k].profiles.len() > 0,
{
    lemma_group_names(profiles);
    let name = group_names(profiles)[k];
    assert(group_names(profiles).contains(name));
    lemma_members_of_name(profiles, name);
}

/// The index of the group called `name`, if there is one.
fn find_group<'a, V>(groups: &Vec<ProfileGroup<'a, V>>, name: &String) -> (found: Option<usize>)
    ensures
        match found {
            Some(k) => k < groups.len() && groups.deep_view()[k as int].name == name@,
            None => forall|k: int|
                0 <= k < groups.len() ==> (#[trigger] groups.deep_view()[k]).name != name@,
        },
{
    let mut k: usize = 0;
    while k < groups.len()
        invariant
            k <= groups.len(),
            forall|j: int| 0 <= j < k ==> (#[trigger] groups.deep_view()[j]).name != name@,
        decreases groups.len() - k,
    {
        if groups[k].name == *name {
            return Some(k);
        }
        k += 1;
    }
    None
}

/// Appends `profile` to the group at index `k`.
fn join_group<'a, V>(groups: &mut Vec<ProfileGroup<'a, V>>, k: usize, profile: &'a Profile<V>)
    requires
        k < old(groups).len(),
    ensures
        final(groups).deep_view() == old(groups).deep_view().update(
            k as int,
            ProfileGroupView {
                name: old(groups).deep_view()[k as int].name,
                profiles: old(groups).deep_view()[k as int].profiles.push(profile@),
            },
        ),
{
    let ghost before = groups.deep_view();
    let ghost members_before = groups[k as int].profiles.deep_view();
    groups[k].profiles.push(profile);
    proof {
        assert(groups[k as int].profiles.deep_view() =~= members_before.push(profile@));
        assert(groups.deep_view() =~= before.update(
            k as int,
            ProfileGroupView {
                name: before[k as int].name,
                profiles: before[k as int].profiles.push(profile@),
            },
        ));
    }
}

/// Sorts the profiles of `speedscopes` into groups of the same name.
///
/// The documents are read in order, each one's profiles in order. The groups
/// come in the order in which their names are first met, and within a group
/// the profiles keep the order in which they were met.
pub fn extract_same_profile_groups<'a, V>(speedscopes: &'a Vec<Speedscope<V>>) -> (groups: Vec<
    ProfileGroup<'a, V>,
>)
    ensures
        groups.deep_view() == grouped(all_profiles(speedscopes.deep_view())),
{
    let ghost documents = speedscopes.deep_view();
    let mut groups: Vec<ProfileGroup<'a, V>> = Vec::new();
    assert(groups.deep_view() =~= grouped(all_profiles(documents.take(0))));
    let mut i: usize = 0;
    while i < speedscopes.len()
        invariant
            i <= speedscopes.len(),
            documents == speedscopes.deep_view(),
            groups.deep_view() == grouped(all_profiles(documents.take(i as int))),
        decreases speedscopes.len() - i,
    {
        let profiles = &speedscopes[i].profiles;
        let ghost done = all_profiles(documents.take(i as int));
        assert(documents[i as int].profiles == profiles.deep_view());
        assert(done + profiles.deep_view().take(0) =~= done);
        let mut j: usize = 0;
        while j < profiles.len()
            invariant
                j <= profiles.len(),
                i < speedscopes.len(),
                documents == speedscopes.deep_view(),
                documents[i as int].profiles == profiles.deep_view(),
                done == all_profiles(documents.take(i as int)),
                groups.deep_view() == grouped(done + profiles.deep_view().take(j as int)),
            decreases profiles.len() - j,
        {
            let profile = &profiles[j];
            let ghost seen = done + profiles.deep_view().take(j as int);
            proof {
                assert(profiles.deep_view()[j as int] == profile@);
                assert(done + profiles.deep_view().take(j + 1) =~= seen.push(profile@));
                lemma_grouped_push(seen, profile@);
                lemma_group_names(seen);
            }
            match find_group(&groups, &profile.name) {
                Some(k) => {
                    proof {
                        let names = group_names(seen);
                        assert(grouped(seen).len() == names.len());
                        assert(grouped(seen)[k as int].name == names[k as int]);
                        assert(names.contains(profile@.name));
                        let at = names.index_of(profile@.name);
                        assert(0 <= at < names.len() && names[at] == profile@.name);
                        assert(at == k);
                    }
                    join_group(&mut groups, k, profile);
                },
                None => {
                    proof {
                        let names = group_names(seen);
                        assert(grouped(seen).len() == names.len());
                        if names.contains(profile@.name) {
                            let at = names.index_of(profile@.name);
                            assert(0 <= at < names.len() && names[at] == profile@.name);
                            assert(grouped(seen)[at].name == names[at]);
                        }
                    }
                    let ghost before = groups.deep_view();
                    let mut members: Vec<&'a Profile<V>> = Vec::new();
                    members.push(profile);
                    let group = ProfileGroup { name: profile.name.clone(), profiles: members };
                    assert(group@.profiles =~= seq![profile@]);
                    groups.push(group);
                    assert(groups.deep_view() =~= before.push(
                        ProfileGroupView { name: profile@.name, profiles: seq![profile@] },
                    ));
                },
            }
            j += 1;
        }
        proof {
            assert(profiles.deep_view().take(profiles.len() as int) =~= profiles.deep_view());
            assert(documents.take(i + 1).drop_last() =~= documents.take(i as int));
        }
        i += 1;
    }
    proof {
        assert(documents.take(speedscopes.len() as int) =~= documents);
    }
    groups
}

} // verus!
