//! Joining the profiles of one group into a single profile.

use crate::speedscope_format::{copy_stack, Profile, ProfileView};
use core::ops::Add;
use vstd::prelude::*;
use vstd::seq_lib::lemma_flatten_concat;
use vstd::std_specs::ops::AddSpec;

verus! {

/// The type tag of every profile that a merge produces.
pub open spec fn sampled_type() -> Seq<char> {
    "sampled"@
}

/// The sample lists of the profiles of `group`, one list for each profile.
pub open spec fn sample_lists<V>(group: Seq<ProfileView<V>>) -> Seq<Seq<Seq<i32>>> {
    group.map_values(|profile: ProfileView<V>| profile.samples)
}

/// The weight lists of the profiles of `group`, one list for each profile.
pub open spec fn weight_lists<V>(group: Seq<ProfileView<V>>) -> Seq<Seq<V>> {
    group.map_values(|profile: ProfileView<V>| profile.weights)
}

/// The end values of the profiles of `group`.
pub open spec fn end_values<V>(group: Seq<ProfileView<V>>) -> Seq<V> {
    group.map_values(|profile: ProfileView<V>| profile.end_value)
}

/// The samples of all profiles of `group`, one profile after the other.
pub open spec fn combined_samples<V>(group: Seq<ProfileView<V>>) -> Seq<Seq<i32>> {
    sample_lists(group).flatten()
}

/// The weights of all profiles of `group`, one profile after the other.
pub open spec fn combined_weights<V>(group: Seq<ProfileView<V>>) -> Seq<V> {
    weight_lists(group).flatten()
}

/// `sum` is what the `+` of `V` can give for `left + right`.
pub open spec fn can_add_to<V: Add<Output = V>>(left: V, right: V, sum: V) -> bool {
    call_ensures(V::add, (left, right), sum)
}

/// `total` is what adding up the non-empty list `values` from left to right
/// with the `+` of `V` can give: the only value, or what `+` can give for the
/// total of all values but the last and the last one.
pub open spec fn adds_up_to<V: Add<Output = V>>(values: Seq<V>, total: V) -> bool
    decreases values.len(),
{
    if values.len() <= 1 {
        values.len() == 1 && total == values[0]
    } else {
        exists|before: V|
            adds_up_to(values.drop_last(), before) && #[trigger] can_add_to(
                before,
                values.last(),
                total,
            )
    }
}

/// The sum of a non-empty list of values, added up from left to right, for a
/// `V` whose `+` computes `add_spec`.
pub open spec fn sum_of<V: Add<Output = V>>(values: Seq<V>) -> V {
    values.drop_first().fold_left(values.first(), |sum: V, value: V| sum.add_spec(value))
}

/// `joined` stands for the whole of `group` under the name `name`: it has the
/// samples and the weights of the group's profiles end to end, the window
/// start and the unit of the first one, and as its window end what the window
/// ends of all of them add up to.
pub open spec fn is_aggregate<V: Add<Output = V>>(
    joined: ProfileView<V>,
    name: Seq<char>,
    group: Seq<ProfileView<V>>,
) -> bool {
    &&& joined.name == name
    &&& joined.unit == group.first().unit
    &&& joined.start_value == group.first().start_value
    &&& adds_up_to(end_values(group), joined.end_value)
    &&& joined.samples == combined_samples(group)
    &&& joined.weights == combined_weights(group)
    &&& joined.profile_type == sampled_type()
}

/// One more profile appends its samples to the combined samples.
pub proof fn lemma_combined_samples_push<V>(group: Seq<ProfileView<V>>, profile: ProfileView<V>)
    ensures
        combined_samples(group.push(profile)) == combined_samples(group) + profile.samples,
{
    let one = seq![profile.samples];
    assert(sample_lists(group.push(profile)) =~= sample_lists(group) + one);
    lemma_flatten_concat(sample_lists(group), one);
    one.lemma_flatten_one_element();
}

/// One more profile appends its weights to the combined weights.
pub proof fn lemma_combined_weights_push<V>(group: Seq<ProfileView<V>>, profile: ProfileView<V>)
    ensures
        combined_weights(group.push(profile)) == combined_weights(group) + profile.weights,
{
    let one = seq![profile.weights];
    assert(weight_lists(group.push(profile)) =~= weight_lists(group) + one);
    lemma_flatten_concat(weight_lists(group), one);
    one.lemma_flatten_one_element();
}

/// Where the `+` of `V` computes `add_spec`, a list of values adds up to its
/// sum and to nothing else.
pub proof fn lemma_adds_up_to_sum<V: Add<Output = V>>(values: Seq<V>, total: V)
    requires
        V::obeys_add_spec(),
        adds_up_to(values, total),
    ensures
        total == sum_of(values),
    decreases values.len(),
{
    if values.len() == 1 {
        assert(values.drop_first() =~= Seq::<V>::empty());
    } else {
        let before = choose|before: V|
            adds_up_to(values.drop_last(), before) && #[trigger] can_add_to(
                before,
                values.last(),
                total,
            );
        lemma_adds_up_to_sum(values.drop_last(), before);
        assert(values.drop_first().drop_last() =~= values.drop_last().drop_first());
        assert(values.drop_last().first() == values.first());
    }
}

/// The samples of all `profiles`, one profile after the other.
pub fn combine_samples_from_multiple_profiles<V>(profiles: &[&Profile<V>]) -> (samples: Vec<
    Vec<i32>,
>)
    ensures
        samples.deep_view() == combined_samples(profiles.deep_view()),
{
    let ghost group = profiles.deep_view();
    let mut samples: Vec<Vec<i32>> = Vec::new();
    assert(samples.deep_view() =~= combined_samples(group.take(0)));
    let mut i: usize = 0;
    while i < profiles.len()
        invariant
            i <= profiles.len(),
            group == profiles.deep_view(),
            samples.deep_view() == combined_samples(group.take(i as int)),
        decreases profiles.len() - i,
    {
        let profile = profiles[i];
        let ghost done = combined_samples(group.take(i as int));
        assert(group[i as int] == profile@);
        assert(done + profile@.samples.take(0) =~= done);
        let mut s: usize = 0;
        while s < profile.samples.len()
            invariant
                s <= profile.samples.len(),
                samples.deep_view() == done + profile@.samples.take(s as int),
            decreases profile.samples.len() - s,
        {
            let ghost before = samples.deep_view();
            let stack = copy_stack(&profile.samples[s]);
            samples.push(stack);
            proof {
                assert(stack.deep_view() =~= stack@);
                assert(profile.samples[s as int].deep_view() =~= profile.samples[s as int]@);
                assert(samples.deep_view() =~= before.push(stack@));
                assert(done + profile@.samples.take(s + 1) =~= (done + profile@.samples.take(
                    s as int,
                )).push(profile@.samples[s as int]));
            }
            s += 1;
        }
        proof {
            assert(profile@.samples.take(profile.samples.len() as int) =~= profile@.samples);
            assert(group.take(i + 1) =~= group.take(i as int).push(profile@));
            lemma_combined_samples_push(group.take(i as int), profile@);
        }
        i += 1;
    }
    assert(group.take(profiles.len() as int) =~= group);
    samples
}

/// The weights of all `profiles`, one profile after the other.
pub fn combine_profiles_weights<V: Copy>(profiles: &[&Profile<V>]) -> (weights: Vec<V>)
    ensures
        weights@ == combined_weights(profiles.deep_view()),
{
    let ghost group = profiles.deep_view();
    let mut weights: Vec<V> = Vec::new();
    assert(weights@ =~= combined_weights(group.take(0)));
    let mut i: usize = 0;
    while i < profiles.len()
        invariant
            i <= profiles.len(),
            group == profiles.deep_view(),
            weights@ == combined_weights(group.take(i as int)),
        decreases profiles.len() - i,
    {
        let profile = profiles[i];
        let ghost done = combined_weights(group.take(i as int));
        assert(group[i as int] == profile@);
        assert(done + profile@.weights.take(0) =~= done);
        let mut w: usize = 0;
        while w < profile.weights.len()
            invariant
                w <= profile.weights.len(),
                weights@ == done + profile@.weights.take(w as int),
            decreases profile.weights.len() - w,
        {
            weights.push(profile.weights[w]);
            assert(done + profile@.weights.take(w + 1) =~= (done + profile@.weights.take(
                w as int,
            )).push(profile@.weights[w as int]));
            w += 1;
        }
        proof {
            assert(profile@.weights.take(profile.weights.len() as int) =~= profile@.weights);
            assert(group.take(i + 1) =~= group.take(i as int).push(profile@));
            lemma_combined_weights_push(group.take(i as int), profile@);
        }
        i += 1;
    }
    assert(group.take(profiles.len() as int) =~= group);
    weights
}

/// The sum of the window ends of `profiles`, added up from left to right.
///
/// The addition of `V` has to be defined on all values, as that of a float
/// is.
pub fn calculate_end_value<V: Copy + Add<Output = V>>(profiles: &[&Profile<V>]) -> (total: V)
    requires
        profiles.len() > 0,
        forall|a: V, b: V| #[trigger] a.add_req(b),
    ensures
        adds_up_to(end_values(profiles.deep_view()), total),
{
    let ghost ends = end_values(profiles.deep_view());
    let mut total: V = profiles[0].end_value;
    proof {
        assert(profiles.deep_view()[0] == profiles[0]@);
        assert(ends.take(1) =~= seq![total]);
    }
    let mut i: usize = 1;
    while i < profiles.len()
        invariant
            1 <= i <= profiles.len(),
            ends == end_values(profiles.deep_view()),
            forall|a: V, b: V| #[trigger] a.add_req(b),
            adds_up_to(ends.take(i as int), total),
        decreases profiles.len() - i,
    {
        let end = profiles[i].end_value;
        let ghost before = total;
        total = total + end;
        proof {
            assert(profiles.deep_view()[i as int] == profiles[i as int]@);
            assert(ends.take(i + 1).drop_last() =~= ends.take(i as int));
            assert(ends.take(i + 1).last() == end);
            assert(adds_up_to(ends.take(i + 1).drop_last(), before));
            assert(can_add_to(before, end, total));
        }
        i += 1;
    }
    assert(ends.take(profiles.len() as int) =~= ends);
    total
}

/// Joins the profiles of one group, which must not be empty, into the one
/// profile called `name`.
pub fn aggregate_profiles<V: Copy + Add<Output = V>>(name: &String, profiles: &[&Profile<V>]) -> (joined:
    Profile<V>)
    requires
        profiles.len() > 0,
        forall|a: V, b: V| #[trigger] a.add_req(b),
    ensures
        is_aggregate(joined@, name@, profiles.deep_view()),
{
    assert(profiles.deep_view()[0] == profiles[0]@);
    Profile {
        name: name.clone(),
        unit: profiles[0].unit.clone(),
        start_value: profiles[0].start_value,
        end_value: calculate_end_value(profiles),
        samples: combine_samples_from_multiple_profiles(profiles),
        weights: combine_profiles_weights(profiles),
        profile_type: "sampled".to_string(),
    }
}

} // verus!
