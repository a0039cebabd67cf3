//! What holds of every merge, proved over the views.

use crate::aggregate::{
    combined_samples, combined_weights, end_values, lemma_adds_up_to_sum,
    lemma_combined_samples_push, lemma_combined_weights_push,
};
use crate::combine_speedscope::{adjusted, frame_table_of, is_merge, lemma_all_frames_member};
use crate::frame_table::{
    all_frames, deduplicated, distinct_identities, holds_identity, lemma_deduplicated_distinct,
    lemma_deduplicated_identities, lemma_deduplicated_of_distinct, lemma_position_of_entry,
    position_of, MAX_FRAMES,
};
use crate::grouping::{
    all_profiles, group_names, grouped, holds_name, lemma_group_names, lemma_members_of_name,
    lemma_members_push, members,
};
use crate::remap::{indices_in_range, remapped, remapped_index, samples_in_range, stack_in_range};
use crate::speedscope_format::{FrameIdentityView, FrameView, ProfileView, SpeedscopeView};
use core::ops::Add;
use vstd::prelude::*;
use vstd::std_specs::ops::AddSpec;

verus! {

/// No two profiles of `profiles` have the same name.
pub open spec fn distinct_names<V>(profiles: Seq<ProfileView<V>>) -> bool {
    forall|i: int, j: int|
        0 <= i < j < profiles.len() ==> (#[trigger] profiles[i]).name != (
        #[trigger] profiles[j]).name
}

/// Every profile of `profiles` has as many weights as samples.
pub open spec fn all_aligned<V>(profiles: Seq<ProfileView<V>>) -> bool {
    forall|i: int| 0 <= i < profiles.len() ==> (#[trigger] profiles[i]).aligned()
}

/// Every profile of every document has as many weights as samples.
pub open spec fn all_documents_aligned<V>(documents: Seq<SpeedscopeView<V>>) -> bool {
    forall|d: int| 0 <= d < documents.len() ==> all_aligned((#[trigger] documents[d]).profiles)
}

/// Whether some document has a profile called `name`.
pub open spec fn some_document_holds_name<V>(
    documents: Seq<SpeedscopeView<V>>,
    name: Seq<char>,
) -> bool {
    exists|d: int|
        0 <= d < documents.len() && holds_name((#[trigger] documents[d]).profiles, name)
}

/// `index` is where the identity `id` first occurs in `frames`.
pub open spec fn is_first_occurrence(
    frames: Seq<FrameView>,
    index: int,
    id: FrameIdentityView,
) -> bool {
    &&& 0 <= index < frames.len()
    &&& frames[index].identity() == id
    &&& forall|earlier: int|
        0 <= earlier < index ==> (#[trigger] frames[earlier]).identity() != id
}

/// Where the identity `id` first occurs in `frames`.
pub open spec fn first_occurrence(frames: Seq<FrameView>, id: FrameIdentityView) -> int {
    choose|index: int| is_first_occurrence(frames, index, id)
}

/// An identity that occurs has a first occurrence, and only one.
pub proof fn lemma_first_occurrence(frames: Seq<FrameView>, id: FrameIdentityView)
    requires
        holds_identity(frames, id),
    ensures
        is_first_occurrence(frames, first_occurrence(frames, id), id),
        forall|index: int|
            is_first_occurrence(frames, index, id) ==> index == first_occurrence(frames, id),
    decreases frames.len(),
{
    let rest = frames.drop_last();
    let some = choose|i: int| 0 <= i < frames.len() && #[trigger] frames[i].identity() == id;
    if holds_identity(rest, id) {
        lemma_first_occurrence(rest, id);
        let first = first_occurrence(rest, id);
        assert(frames[first] == rest[first]);
        assert forall|earlier: int| 0 <= earlier < first implies (
        #[trigger] frames[earlier]).identity() != id by {
            assert(frames[earlier] == rest[earlier]);
        }
        assert(is_first_occurrence(frames, first, id));
    } else {
        let last = frames.len() - 1;
        if some < last {
            assert(rest[some].identity() == id);
        }
        assert forall|earlier: int| 0 <= earlier < last implies (
        #[trigger] frames[earlier]).identity() != id by {
            if frames[earlier].identity() == id {
                assert(rest[earlier].identity() == id);
            }
        }
        assert(is_first_occurrence(frames, last, id));
    }
    let chosen = first_occurrence(frames, id);
    assert forall|index: int| is_first_occurrence(frames, index, id) implies index == chosen by {
        if index < chosen {
            assert(frames[index].identity() != id);
        } else if chosen < index {
            assert(frames[chosen].identity() != id);
        }
    }
}

/// Each entry of the deduplicated list is the first frame of its identity,
/// and the entries stand in the order in which their identities first occur.
pub proof fn lemma_deduplicated_keeps_first(frames: Seq<FrameView>)
    ensures
        forall|k: int|
            0 <= k < deduplicated(frames).len() ==> {
                let entry = #[trigger] deduplicated(frames)[k];
                &&& holds_identity(frames, entry.identity())
                &&& frames[first_occurrence(frames, entry.identity())] == entry
            },
        forall|j: int, k: int|
            0 <= j < k < deduplicated(frames).len() ==> first_occurrence(
                frames,
                (#[trigger] deduplicated(frames)[j]).identity(),
            ) < first_occurrence(frames, (#[trigger] deduplicated(frames)[k]).identity()),
    decreases frames.len(),
{
    if frames.len() > 0 {
        let rest = frames.drop_last();
        let before = deduplicated(rest);
        let table = deduplicated(frames);
        let last = frames.last();
        lemma_deduplicated_keeps_first(rest);
        lemma_deduplicated_identities(rest, last.identity());
        assert forall|k: int| 0 <= k < table.len() implies {
            let entry = #[trigger] table[k];
            &&& holds_identity(frames, entry.identity())
            &&& is_first_occurrence(
                frames,
                first_occurrence(frames, entry.identity()),
                entry.identity(),
            )
            &&& frames[first_occurrence(frames, entry.identity())] == entry
            &&& k < before.len() ==> first_occurrence(frames, entry.identity()) < rest.len()
            &&& k >= before.len() ==> first_occurrence(frames, entry.identity()) == rest.len()
        } by {
            let entry = table[k];
            let id = entry.identity();
            if k < before.len() {
                assert(table[k] == before[k]);
                lemma_first_occurrence(rest, id);
                let first = first_occurrence(rest, id);
                assert(frames[first] == rest[first]);
                assert forall|earlier: int| 0 <= earlier < first implies (
                #[trigger] frames[earlier]).identity() != id by {
                    assert(frames[earlier] == rest[earlier]);
                }
                assert(is_first_occurrence(frames, first, id));
                assert(frames[first].identity() == id);
                lemma_first_occurrence(frames, id);
            } else {
                assert(entry == last);
                assert(frames[frames.len() - 1].identity() == id);
                assert forall|earlier: int| 0 <= earlier < frames.len() - 1 implies (
                #[trigger] frames[earlier]).identity() != id by {
                    if frames[earlier].identity() == id {
                        assert(rest[earlier].identity() == id);
                    }
                }
                assert(is_first_occurrence(frames, frames.len() - 1, id));
                lemma_first_occurrence(frames, id);
            }
        }
        assert forall|j: int, k: int| 0 <= j < k < table.len() implies first_occurrence(
            frames,
            (#[trigger] table[j]).identity(),
        ) < first_occurrence(frames, (#[trigger] table[k]).identity()) by {
            if k < before.len() {
                assert(table[j] == before[j] && table[k] == before[k]);
                let first_j = first_occurrence(rest, before[j].identity());
                let first_k = first_occurrence(rest, before[k].identity());
                lemma_first_occurrence(rest, before[j].identity());
                lemma_first_occurrence(rest, before[k].identity());
                lemma_first_in_longer(rest, last, before[j].identity());
                lemma_first_in_longer(rest, last, before[k].identity());
                assert(rest.push(last) =~= frames);
            }
        }
    }
}

/// A first occurrence stays where it is when a frame is appended.
proof fn lemma_first_in_longer(frames: Seq<FrameView>, frame: FrameView, id: FrameIdentityView)
    requires
        holds_identity(frames, id),
    ensures
        first_occurrence(frames.push(frame), id) == first_occurrence(frames, id),
{
    let longer = frames.push(frame);
    lemma_first_occurrence(frames, id);
    let first = first_occurrence(frames, id);
    assert(longer[first] == frames[first]);
    assert forall|earlier: int| 0 <= earlier < first implies (
    #[trigger] longer[earlier]).identity() != id by {
        assert(longer[earlier] == frames[earlier]);
    }
    assert(is_first_occurrence(longer, first, id));
    assert(longer[first].identity() == id);
    lemma_first_occurrence(longer, id);
}

/// Frames of the same identity, wherever the documents hold them, share one
/// entry of the frame table, and samples that refer to them are remapped to
/// the index of that entry.
pub proof fn lemma_same_frame_same_index<V>(
    documents: Seq<SpeedscopeView<V>>,
    d1: int,
    index1: i32,
    d2: int,
    index2: i32,
)
    requires
        frame_table_of(documents).len() <= MAX_FRAMES,
        0 <= d1 < documents.len(),
        0 <= index1 < documents[d1].frames.len(),
        0 <= d2 < documents.len(),
        0 <= index2 < documents[d2].frames.len(),
        documents[d1].frames[index1 as int].identity() == documents[d2].frames[index2
            as int].identity(),
    ensures
        ({
            let table = frame_table_of(documents);
            let id = documents[d1].frames[index1 as int].identity();
            let moved = remapped_index(index1, documents[d1].frames, table);
            &&& moved == remapped_index(index2, documents[d2].frames, table)
            &&& 0 <= moved < table.len()
            &&& forall|k: int|
                0 <= k < table.len() ==> ((#[trigger] table[k]).identity() == id <==> k == moved)
        }),
{
    let table = frame_table_of(documents);
    let id = documents[d1].frames[index1 as int].identity();
    lemma_all_frames_member(documents, d1, index1 as int);
    lemma_deduplicated_identities(all_frames(documents), id);
    lemma_deduplicated_distinct(all_frames(documents));
    let at = position_of(table, id);
    assert(0 <= at < table.len() && table[at].identity() == id);
    assert forall|k: int| 0 <= k < table.len() implies ((#[trigger] table[k]).identity() == id
        <==> k == at) by {
        if table[k].identity() == id {
            lemma_position_of_entry(table, k);
        }
    }
}

/// The profiles of a single document are all the profiles there are, and its
/// frames all the frames.
proof fn lemma_single<V>(document: SpeedscopeView<V>)
    ensures
        all_profiles(seq![document]) == document.profiles,
        all_frames(seq![document]) == document.frames,
{
    let one = seq![document];
    let none = one.drop_last();
    assert(none.len() == 0);
    assert(one.last() == document);
    assert(all_profiles(none) =~= Seq::<ProfileView<V>>::empty());
    assert(all_frames(none) =~= Seq::<FrameView>::empty());
    assert(all_profiles(one) =~= document.profiles);
    assert(all_frames(one) =~= document.frames);
}

/// Where all names differ, every profile's name is a group name, in the
/// profiles' own order.
pub proof fn lemma_group_names_of_distinct<V>(profiles: Seq<ProfileView<V>>)
    requires
        distinct_names(profiles),
    ensures
        group_names(profiles).len() == profiles.len(),
        forall|k: int| 0 <= k < profiles.len() ==> group_names(profiles)[k] == (
        #[trigger] profiles[k]).name,
    decreases profiles.len(),
{
    if profiles.len() > 0 {
        let rest = profiles.drop_last();
        let before = group_names(rest);
        assert(distinct_names(rest)) by {
            assert forall|i: int, j: int| 0 <= i < j < rest.len() implies (#[trigger] rest[i]).name
                != (#[trigger] rest[j]).name by {
                assert(rest[i] == profiles[i] && rest[j] == profiles[j]);
            }
        }
        lemma_group_names_of_distinct(rest);
        if before.contains(profiles.last().name) {
            let k = choose|k: int| 0 <= k < before.len() && before[k] == profiles.last().name;
            assert(rest[k].name == before[k]);
            assert(profiles[k].name != profiles[profiles.len() - 1].name);
        }
        assert forall|k: int| 0 <= k < profiles.len() implies group_names(profiles)[k] == (
        #[trigger] profiles[k]).name by {
            if k < rest.len() {
                assert(rest[k].name == before[k]);
            }
        }
    }
}

/// Where all names differ, a profile is the only member of its name.
pub proof fn lemma_members_of_distinct<V>(profiles: Seq<ProfileView<V>>, k: int)
    requires
        distinct_names(profiles),
        0 <= k < profiles.len(),
    ensures
        members(profiles, profiles[k].name) == seq![profiles[k]],
    decreases profiles.len(),
{
    let rest = profiles.drop_last();
    let last = profiles.last();
    let name = profiles[k].name;
    assert(rest.push(last) =~= profiles);
    lemma_members_push(rest, last, name);
    if k == profiles.len() - 1 {
        lemma_members_of_name(rest, name);
        if holds_name(rest, name) {
            let i = choose|i: int| 0 <= i < rest.len() && (#[trigger] rest[i]).name == name;
            assert(profiles[i].name != profiles[k].name);
        }
        assert(members(rest, name) =~= Seq::<ProfileView<V>>::empty());
        assert(members(rest, name).push(last) =~= seq![last]);
    } else {
        assert(distinct_names(rest)) by {
            assert forall|i: int, j: int| 0 <= i < j < rest.len() implies (#[trigger] rest[i]).name
                != (#[trigger] rest[j]).name by {
                assert(rest[i] == profiles[i] && rest[j] == profiles[j]);
            }
        }
        assert(rest[k] == profiles[k]);
        lemma_members_of_distinct(rest, k);
        assert(profiles[k].name != profiles[profiles.len() - 1].name);
    }
}

/// Merging a single document whose frames all differ in identity gives back
/// its frame list.
pub proof fn lemma_single_document_frames<V: Add<Output = V>>(
    document: SpeedscopeView<V>,
    out: SpeedscopeView<V>,
)
    requires
        is_merge(out, seq![document]),
        distinct_identities(document.frames),
    ensures
        out.frames == document.frames,
{
    lemma_single(document);
    lemma_deduplicated_of_distinct(document.frames);
}

/// Merging a single document whose profiles all differ in name gives back as
/// many profiles, under the same names and in the same order, each with as
/// many samples as before and with the weights, the unit and the window that
/// it had.
pub proof fn lemma_single_document_profiles<V: Add<Output = V>>(
    document: SpeedscopeView<V>,
    out: SpeedscopeView<V>,
)
    requires
        is_merge(out, seq![document]),
        distinct_names(document.profiles),
    ensures
        out.profiles.len() == document.profiles.len(),
        forall|k: int|
            0 <= k < document.profiles.len() ==> {
                let joined = #[trigger] out.profiles[k];
                &&& joined.name == document.profiles[k].name
                &&& joined.samples.len() == document.profiles[k].samples.len()
                &&& joined.weights == document.profiles[k].weights
                &&& joined.unit == document.profiles[k].unit
                &&& joined.start_value == document.profiles[k].start_value
                &&& joined.end_value == document.profiles[k].end_value
            },
{
    let documents = seq![document];
    let table = frame_table_of(documents);
    let moved = remapped(document, table);
    assert(adjusted(documents) =~= seq![moved]);
    lemma_single(moved);
    let profiles = moved.profiles;
    assert(all_profiles(adjusted(documents)) == profiles);
    assert(distinct_names(profiles)) by {
        assert forall|i: int, j: int| 0 <= i < j < profiles.len() implies (
        #[trigger] profiles[i]).name != (#[trigger] profiles[j]).name by {
            assert(document.profiles[i].name != document.profiles[j].name);
        }
    }
    lemma_group_names_of_distinct(profiles);
    assert forall|k: int| 0 <= k < document.profiles.len() implies {
        let joined = #[trigger] out.profiles[k];
        &&& joined.name == document.profiles[k].name
        &&& joined.samples.len() == document.profiles[k].samples.len()
        &&& joined.weights == document.profiles[k].weights
        &&& joined.unit == document.profiles[k].unit
        &&& joined.start_value == document.profiles[k].start_value
        &&& joined.end_value == document.profiles[k].end_value
    } by {
        lemma_members_of_distinct(profiles, k);
        assert(group_names(profiles)[k] == profiles[k].name);
        assert(grouped(profiles)[k].profiles == seq![profiles[k]]);
        lemma_combined_samples_push(Seq::<ProfileView<V>>::empty(), profiles[k]);
        lemma_combined_weights_push(Seq::<ProfileView<V>>::empty(), profiles[k]);
        assert(Seq::<ProfileView<V>>::empty().push(profiles[k]) =~= seq![profiles[k]]);
        assert(combined_samples(seq![profiles[k]]) =~= profiles[k].samples);
        assert(combined_weights(seq![profiles[k]]) =~= profiles[k].weights);
        assert(end_values(seq![profiles[k]]) =~= seq![profiles[k].end_value]);
    }
}

/// Merging a single well-formed document whose frames all differ in identity
/// and whose profiles all differ in name changes no sample.
pub proof fn lemma_single_document_samples<V: Add<Output = V>>(
    document: SpeedscopeView<V>,
    out: SpeedscopeView<V>,
)
    requires
        is_merge(out, seq![document]),
        indices_in_range(document),
        distinct_identities(document.frames),
        distinct_names(document.profiles),
    ensures
        out.profiles.len() == document.profiles.len(),
        forall|k: int|
            0 <= k < document.profiles.len() ==> (#[trigger] out.profiles[k]).samples
                == document.profiles[k].samples,
{
    let documents = seq![document];
    let table = frame_table_of(documents);
    lemma_single(document);
    lemma_deduplicated_of_distinct(document.frames);
    let moved = remapped(document, table);
    assert(adjusted(documents) =~= seq![moved]);
    lemma_single(moved);
    let profiles = moved.profiles;
    assert(distinct_names(profiles)) by {
        assert forall|i: int, j: int| 0 <= i < j < profiles.len() implies (
        #[trigger] profiles[i]).name != (#[trigger] profiles[j]).name by {
            assert(document.profiles[i].name != document.profiles[j].name);
        }
    }
    lemma_group_names_of_distinct(profiles);
    assert forall|k: int| 0 <= k < document.profiles.len() implies (
    #[trigger] out.profiles[k]).samples == document.profiles[k].samples by {
        lemma_members_of_distinct(profiles, k);
        assert(group_names(profiles)[k] == profiles[k].name);
        assert(grouped(profiles)[k].profiles == seq![profiles[k]]);
        lemma_combined_samples_push(Seq::<ProfileView<V>>::empty(), profiles[k]);
        assert(Seq::<ProfileView<V>>::empty().push(profiles[k]) =~= seq![profiles[k]]);
        assert(combined_samples(seq![profiles[k]]) =~= profiles[k].samples);
        let samples = document.profiles[k].samples;
        assert(samples_in_range(samples, document.frames.len()));
        assert forall|s: int| 0 <= s < samples.len() implies profiles[k].samples[s]
            =~= samples[s] by {
            let stack = samples[s];
            assert(stack_in_range(stack, document.frames.len()));
            assert forall|i: int| 0 <= i < stack.len() implies remapped_index(
                stack[i],
                document.frames,
                table,
            ) == stack[i] by {
                lemma_position_of_entry(document.frames, stack[i] as int);
            }
        }
        assert(profiles[k].samples =~= samples);
    }
}

/// Joining aligned profiles gives as many weights as samples.
pub proof fn lemma_combined_aligned<V>(group: Seq<ProfileView<V>>)
    requires
        all_aligned(group),
    ensures
        combined_samples(group).len() == combined_weights(group).len(),
    decreases group.len(),
{
    if group.len() == 0 {
        assert(combined_samples(group) =~= Seq::<Seq<i32>>::empty());
        assert(combined_weights(group) =~= Seq::<V>::empty());
    } else {
        let rest = group.drop_last();
        let last = group.last();
        assert(rest.push(last) =~= group);
        assert(all_aligned(rest)) by {
            assert forall|i: int| 0 <= i < rest.len() implies (#[trigger] rest[i]).aligned() by {
                assert(rest[i] == group[i]);
            }
        }
        assert(group[group.len() - 1].aligned());
        lemma_combined_aligned(rest);
        lemma_combined_samples_push(rest, last);
        lemma_combined_weights_push(rest, last);
    }
}

/// The members of a name are aligned where all profiles are.
pub proof fn lemma_members_aligned<V>(profiles: Seq<ProfileView<V>>, name: Seq<char>)
    requires
        all_aligned(profiles),
    ensures
        all_aligned(members(profiles, name)),
    decreases profiles.len(),
{
    if profiles.len() == 0 {
        reveal(Seq::filter);
    } else {
        let rest = profiles.drop_last();
        let last = profiles.last();
        assert(rest.push(last) =~= profiles);
        assert(all_aligned(rest)) by {
            assert forall|i: int| 0 <= i < rest.len() implies (#[trigger] rest[i]).aligned() by {
                assert(rest[i] == profiles[i]);
            }
        }
        assert(profiles[profiles.len() - 1].aligned());
        lemma_members_aligned(rest, name);
        lemma_members_push(rest, last, name);
    }
}

/// The profiles of aligned documents are aligned.
pub proof fn lemma_all_profiles_aligned<V>(documents: Seq<SpeedscopeView<V>>)
    requires
        all_documents_aligned(documents),
    ensures
        all_aligned(all_profiles(documents)),
    decreases documents.len(),
{
    if documents.len() > 0 {
        let rest = documents.drop_last();
        assert(all_documents_aligned(rest)) by {
            assert forall|d: int| 0 <= d < rest.len() implies all_aligned(
                (#[trigger] rest[d]).profiles,
            ) by {
                assert(rest[d] == documents[d]);
            }
        }
        lemma_all_profiles_aligned(rest);
        let last = documents[documents.len() - 1];
        assert(all_aligned(last.profiles));
        let all = all_profiles(documents);
        assert forall|i: int| 0 <= i < all.len() implies (#[trigger] all[i]).aligned() by {
            if i < all_profiles(rest).len() {
                assert(all[i] == all_profiles(rest)[i]);
            } else {
                assert(all[i] == last.profiles[i - all_profiles(rest).len()]);
            }
        }
    }
}

/// Where every profile that goes into a merge has a weight for each sample,
/// so has every profile that comes out.
pub proof fn lemma_merged_aligned<V: Add<Output = V>>(
    documents: Seq<SpeedscopeView<V>>,
    out: SpeedscopeView<V>,
)
    requires
        is_merge(out, documents),
        all_documents_aligned(documents),
    ensures
        all_aligned(out.profiles),
{
    let moved = adjusted(documents);
    assert(all_documents_aligned(moved)) by {
        assert forall|d: int| 0 <= d < moved.len() implies all_aligned(
            (#[trigger] moved[d]).profiles,
        ) by {
            assert(all_aligned(documents[d].profiles));
            assert forall|p: int| 0 <= p < moved[d].profiles.len() implies (
            #[trigger] moved[d].profiles[p]).aligned() by {
                assert(documents[d].profiles[p].aligned());
            }
        }
    }
    lemma_all_profiles_aligned(moved);
    let profiles = all_profiles(moved);
    assert forall|k: int| 0 <= k < out.profiles.len() implies (
    #[trigger] out.profiles[k]).aligned() by {
        let name = group_names(profiles)[k];
        assert(grouped(profiles)[k].profiles == members(profiles, name));
        lemma_members_aligned(profiles, name);
        lemma_combined_aligned(members(profiles, name));
    }
}

/// A name occurs among all profiles exactly when some document has it.
pub proof fn lemma_all_profiles_names<V>(documents: Seq<SpeedscopeView<V>>, name: Seq<char>)
    ensures
        holds_name(all_profiles(documents), name) <==> some_document_holds_name(documents, name),
    decreases documents.len(),
{
    if documents.len() > 0 {
        let rest = documents.drop_last();
        let last = documents[documents.len() - 1];
        let all = all_profiles(documents);
        let before = all_profiles(rest);
        lemma_all_profiles_names(rest, name);
        if holds_name(all, name) {
            let i = choose|i: int| 0 <= i < all.len() && (#[trigger] all[i]).name == name;
            if i < before.len() {
                assert(before[i].name == name);
                let d = choose|d: int|
                    0 <= d < rest.len() && holds_name((#[trigger] rest[d]).profiles, name);
                assert(documents[d] == rest[d]);
                assert(holds_name(documents[d].profiles, name));
            } else {
                assert(last.profiles[i - before.len()].name == name);
                assert(holds_name(documents[documents.len() - 1].profiles, name));
            }
        }
        if some_document_holds_name(documents, name) {
            let d = choose|d: int|
                0 <= d < documents.len() && holds_name((#[trigger] documents[d]).profiles, name);
            if d < rest.len() {
                assert(rest[d] == documents[d]);
                assert(holds_name(rest[d].profiles, name));
                let i = choose|i: int| 0 <= i < before.len() && (#[trigger] before[i]).name == name;
                assert(all[i].name == name);
            } else {
                let p = choose|p: int|
                    0 <= p < last.profiles.len() && (#[trigger] last.profiles[p]).name == name;
                assert(all[before.len() + p].name == name);
            }
        }
    }
}

/// The profiles of a merge carry exactly the names that the profiles of the
/// documents carry, and no two of them carry the same name.
pub proof fn lemma_merged_names<V: Add<Output = V>>(
    documents: Seq<SpeedscopeView<V>>,
    out: SpeedscopeView<V>,
)
    requires
        is_merge(out, documents),
    ensures
        distinct_names(out.profiles),
        forall|name: Seq<char>| #[trigger]
            holds_name(out.profiles, name) <==> some_document_holds_name(documents, name),
{
    let moved = adjusted(documents);
    let profiles = all_profiles(moved);
    let names = group_names(profiles);
    let joined = out.profiles;
    lemma_group_names(profiles);
    assert forall|k: int| 0 <= k < joined.len() implies (#[trigger] joined[k]).name
        == names[k] by {
        assert(grouped(profiles)[k].name == names[k]);
    }
    assert forall|i: int, j: int| 0 <= i < j < joined.len() implies (#[trigger] joined[i]).name
        != (#[trigger] joined[j]).name by {
        assert(joined[i].name == names[i] && joined[j].name == names[j]);
    }
    assert forall|name: Seq<char>| #[trigger]
        holds_name(joined, name) <==> some_document_holds_name(documents, name) by {
        lemma_all_profiles_names(moved, name);
        assert(names.contains(name) <==> holds_name(profiles, name));
        if holds_name(joined, name) {
            let k = choose|k: int| 0 <= k < joined.len() && (#[trigger] joined[k]).name == name;
            assert(names[k] == name);
        }
        if names.contains(name) {
            let k = choose|k: int| 0 <= k < names.len() && names[k] == name;
            assert(joined[k].name == name);
        }
        if some_document_holds_name(moved, name) {
            let d = choose|d: int|
                0 <= d < moved.len() && holds_name((#[trigger] moved[d]).profiles, name);
            let p = choose|p: int|
                0 <= p < moved[d].profiles.len() && (#[trigger] moved[d].profiles[p]).name == name;
            assert(documents[d].profiles[p].name == name);
            assert(holds_name(documents[d].profiles, name));
        }
        if some_document_holds_name(documents, name) {
            let d = choose|d: int|
                0 <= d < documents.len() && holds_name((#[trigger] documents[d]).profiles, name);
            let p = choose|p: int|
                0 <= p < documents[d].profiles.len() && (
                #[trigger] documents[d].profiles[p]).name == name;
            assert(moved[d].profiles[p].name == name);
            assert(holds_name(moved[d].profiles, name));
        }
    }
}

/// Where the `+` of `V` computes `add_spec`, documents have one merge and no
/// other.
pub proof fn lemma_merge_is_unique<V: Add<Output = V>>(
    documents: Seq<SpeedscopeView<V>>,
    one: SpeedscopeView<V>,
    other: SpeedscopeView<V>,
)
    requires
        V::obeys_add_spec(),
        is_merge(one, documents),
        is_merge(other, documents),
    ensures
        one == other,
{
    let groups = grouped(all_profiles(adjusted(documents)));
    assert forall|k: int| 0 <= k < groups.len() implies one.profiles[k] == other.profiles[k] by {
        let ends = end_values(groups[k].profiles);
        lemma_adds_up_to_sum(ends, one.profiles[k].end_value);
        lemma_adds_up_to_sum(ends, other.profiles[k].end_value);
    }
    assert(one.profiles =~= other.profiles);
}

} // verus!
