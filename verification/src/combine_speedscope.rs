//! The merge itself: from several documents to the one that stands for all of
//! them.

use crate::aggregate::{aggregate_profiles, is_aggregate};
use crate::error::MergeError;
use crate::frame_table::{
    all_frames, create_hash_to_new_index_and_frame, deduplicated, get_sorted_frames,
    holds_identity, lemma_deduplicated_identities, FrameTable, MAX_FRAMES,
};
use crate::grouping::{
    all_profiles, extract_same_profile_groups, grouped, lemma_groups_not_empty,
};
use crate::remap::{
    adjust_speedscope_to_new_indexes_and_frames, indices_in_range, references_known, remapped,
    samples_in_range, samples_known, stack_in_range, stack_known,
};
use crate::speedscope_format::{FrameView, Profile, Shared, Speedscope, SpeedscopeView};
use core::ops::Add;
use vstd::prelude::*;
use vstd::std_specs::ops::AddSpec;

verus! {

/// The schema that a merged document names.
pub open spec fn schema_url() -> Seq<char> {
    "https://www.speedscope.app/file-format-schema.json"@
}

/// The exporter that a merged document names.
pub open spec fn exporter_label() -> Seq<char> {
    "py-spy@0.4.0"@
}

/// The name of a merged document.
pub open spec fn document_name() -> Seq<char> {
    "py-spy profile"@
}

/// `document` stands for `documents`, which already index into `table`: it
/// has one profile for each name, in the order in which the names first
/// occur, each the aggregate of all profiles of that name; `table` as its
/// frame list; and the fixed metadata.
pub open spec fn is_combination<V: Add<Output = V>>(
    document: SpeedscopeView<V>,
    documents: Seq<SpeedscopeView<V>>,
    table: Seq<FrameView>,
) -> bool {
    let groups = grouped(all_profiles(documents));
    &&& document.frames == table
    &&& document.schema == schema_url()
    &&& document.exporter == exporter_label()
    &&& document.name == document_name()
    &&& document.profiles.len() == groups.len()
    &&& forall|k: int|
        0 <= k < groups.len() ==> is_aggregate(
            #[trigger] document.profiles[k],
            groups[k].name,
            groups[k].profiles,
        )
}

/// The frame table of `documents`: their frames without repetitions.
pub open spec fn frame_table_of<V>(documents: Seq<SpeedscopeView<V>>) -> Seq<FrameView> {
    deduplicated(all_frames(documents))
}

/// `documents`, each moved to the index space of their common frame table.
pub open spec fn adjusted<V>(documents: Seq<SpeedscopeView<V>>) -> Seq<SpeedscopeView<V>> {
    Seq::new(documents.len(), |d: int| remapped(documents[d], frame_table_of(documents)))
}

/// `document` is the merge of `documents`: what stands for them once each has
/// been moved to the indices of their common frame table.
pub open spec fn is_merge<V: Add<Output = V>>(
    document: SpeedscopeView<V>,
    documents: Seq<SpeedscopeView<V>>,
) -> bool {
    is_combination(document, adjusted(documents), frame_table_of(documents))
}

/// Every document keeps its sample indices inside its own frame list.
pub open spec fn all_indices_in_range<V>(documents: Seq<SpeedscopeView<V>>) -> bool {
    forall|d: int| 0 <= d < documents.len() ==> indices_in_range(#[trigger] documents[d])
}

/// Every frame of every document has its identity among all frames.
pub proof fn lemma_all_frames_member<V>(documents: Seq<SpeedscopeView<V>>, d: int, i: int)
    requires
        0 <= d < documents.len(),
        0 <= i < documents[d].frames.len(),
    ensures
        holds_identity(all_frames(documents), documents[d].frames[i].identity()),
    decreases documents.len(),
{
    let rest = documents.drop_last();
    let all = all_frames(documents);
    if d == documents.len() - 1 {
        assert(all[all_frames(rest).len() + i] == documents[d].frames[i]);
    } else {
        lemma_all_frames_member(rest, d, i);
        let id = documents[d].frames[i].identity();
        let at = choose|at: int|
            0 <= at < all_frames(rest).len() && #[trigger] all_frames(rest)[at].identity() == id;
        assert(all[at] == all_frames(rest)[at]);
    }
}

/// A document whose indices are in range refers only to frames that the
/// common frame table holds.
pub proof fn lemma_references_known<V>(documents: Seq<SpeedscopeView<V>>, d: int)
    requires
        0 <= d < documents.len(),
        indices_in_range(documents[d]),
    ensures
        references_known(documents[d], frame_table_of(documents)),
{
    let document = documents[d];
    let table = frame_table_of(documents);
    assert forall|p: int| 0 <= p < document.profiles.len() implies samples_known(
        (#[trigger] document.profiles[p]).samples,
        document.frames,
        table,
    ) by {
        let samples = document.profiles[p].samples;
        assert(samples_in_range(samples, document.frames.len()));
        assert forall|s: int| 0 <= s < samples.len() implies stack_known(
            #[trigger] samples[s],
            document.frames,
            table,
        ) by {
            let stack = samples[s];
            assert(stack_in_range(stack, document.frames.len()));
            assert forall|k: int| 0 <= k < stack.len() implies holds_identity(
                table,
                document.frames[(#[trigger] stack[k]) as int].identity(),
            ) by {
                let index = stack[k] as int;
                lemma_all_frames_member(documents, d, index);
                lemma_deduplicated_identities(
                    all_frames(documents),
                    document.frames[index].identity(),
                );
            }
        }
    }
}

/// Joins documents that already index into `table` into one document: the
/// profiles of each name become one profile, the table's frames become the
/// frame list, and the metadata names this tool.
///
/// The addition of `V` has to be defined on all values, as that of a float
/// is.
pub fn combine_speedscope_files<V: Copy + Add<Output = V>>(
    adjusted_speedscopes: Vec<Speedscope<V>>,
    table: FrameTable,
) -> (document: Speedscope<V>)
    requires
        forall|a: V, b: V| #[trigger] a.add_req(b),
    ensures
        is_combination(document@, adjusted_speedscopes.deep_view(), table@),
{
    let ghost profiles = all_profiles(adjusted_speedscopes.deep_view());
    let groups = extract_same_profile_groups(&adjusted_speedscopes);
    let mut new_profiles: Vec<Profile<V>> = Vec::new();
    let mut k: usize = 0;
    while k < groups.len()
        invariant
            k <= groups.len(),
            groups.deep_view() == grouped(profiles),
            profiles == all_profiles(adjusted_speedscopes.deep_view()),
            forall|a: V, b: V| #[trigger] a.add_req(b),
            new_profiles.len() == k,
            forall|j: int|
                0 <= j < k ==> is_aggregate(
                    #[trigger] new_profiles[j]@,
                    grouped(profiles)[j].name,
                    grouped(profiles)[j].profiles,
                ),
        decreases groups.len() - k,
    {
        let group = &groups[k];
        let members = group.profiles.as_slice();
        proof {
            lemma_groups_not_empty(profiles, k as int);
            assert(groups.deep_view()[k as int] == group@);
            assert(members.deep_view() =~= group.profiles.deep_view());
        }
        new_profiles.push(aggregate_profiles(&group.name, members));
        k += 1;
    }
    let document = Speedscope {
        profiles: new_profiles,
        shared: Shared { frames: get_sorted_frames(&table) },
        schema: "https://www.speedscope.app/file-format-schema.json".to_string(),
        exporter: "py-spy@0.4.0".to_string(),
        name: "py-spy profile".to_string(),
    };
    proof {
        assert forall|j: int| 0 <= j < grouped(profiles).len() implies is_aggregate(
            #[trigger] document@.profiles[j],
            grouped(profiles)[j].name,
            grouped(profiles)[j].profiles,
        ) by {
            assert(document@.profiles[j] == new_profiles[j]@);
        }
    }
    document
}

/// Merges `speedscopes` into one document.
///
/// The frames of all documents are deduplicated into one table, each document
/// is moved to the table's indices, and the profiles of each name are joined.
/// No documents give a document without profiles and without frames.
///
/// Fails with [`MergeError::TooManyFrames`] exactly when there are more than
/// [`MAX_FRAMES`] distinct frames, and otherwise with
/// [`MergeError::FrameIndexOutOfRange`] exactly when some document has a
/// sample index outside its frame list. It fails in no other way.
///
/// The addition of `V` has to be defined on all values, as that of a float
/// is.
pub fn merge_speedscopes<V: Copy + Add<Output = V>>(speedscopes: &[Speedscope<V>]) -> (outcome:
    Result<Speedscope<V>, MergeError>)
    requires
        forall|a: V, b: V| #[trigger] a.add_req(b),
    ensures
        match outcome {
            Ok(document) => {
                &&& frame_table_of(speedscopes.deep_view()).len() <= MAX_FRAMES
                &&& all_indices_in_range(speedscopes.deep_view())
                &&& is_merge(document@, speedscopes.deep_view())
            },
            Err(MergeError::TooManyFrames) => frame_table_of(speedscopes.deep_view()).len()
                > MAX_FRAMES,
            Err(MergeError::FrameIndexOutOfRange) => {
                &&& frame_table_of(speedscopes.deep_view()).len() <= MAX_FRAMES
                &&& !all_indices_in_range(speedscopes.deep_view())
            },
            Err(MergeError::FrameNotInTable) => false,
        },
{
    let ghost documents = speedscopes.deep_view();
    let table = match create_hash_to_new_index_and_frame(speedscopes) {
        Ok(table) => table,
        Err(error) => {
            return Err(error);
        },
    };
    let mut adjusted_speedscopes: Vec<Speedscope<V>> = Vec::new();
    let mut d: usize = 0;
    while d < speedscopes.len()
        invariant
            d <= speedscopes.len(),
            documents == speedscopes.deep_view(),
            table@ == frame_table_of(documents),
            table@.len() <= MAX_FRAMES,
            adjusted_speedscopes.len() == d,
            forall|j: int| 0 <= j < d ==> indices_in_range(#[trigger] documents[j]),
            forall|j: int|
                0 <= j < d ==> #[trigger] adjusted_speedscopes[j]@ == remapped(
                    documents[j],
                    table@,
                ),
        decreases speedscopes.len() - d,
    {
        assert(documents[d as int] == speedscopes[d as int]@);
        match adjust_speedscope_to_new_indexes_and_frames(&speedscopes[d], &table) {
            Ok(document) => {
                adjusted_speedscopes.push(document);
            },
            Err(error) => {
                proof {
                    if indices_in_range(documents[d as int]) {
                        lemma_references_known(documents, d as int);
                    } else {
                        assert(!all_indices_in_range(documents));
                    }
                }
                return Err(error);
            },
        }
        d += 1;
    }
    assert(adjusted_speedscopes.deep_view() =~= adjusted(documents));
    Ok(combine_speedscope_files(adjusted_speedscopes, table))
}

} // verus!
