//! Rewriting a document's samples from its own frame indices to the indices of
//! a frame table.

use crate::error::MergeError;
use crate::frame_table::{get_sorted_frames, holds_identity, position_of, FrameTable};
use crate::speedscope_format::{
    copy_values, Frame, FrameView, Profile, ProfileView, Shared, Speedscope, SpeedscopeView,
};
use vstd::prelude::*;

verus! {

/// Every index of `stack` names one of `count` frames.
pub open spec fn stack_in_range(stack: Seq<i32>, count: nat) -> bool {
    forall|k: int| 0 <= k < stack.len() ==> 0 <= #[trigger] stack[k] < count
}

/// Every stack of `samples` is in range.
pub open spec fn samples_in_range(samples: Seq<Seq<i32>>, count: nat) -> bool {
    forall|s: int| 0 <= s < samples.len() ==> stack_in_range(#[trigger] samples[s], count)
}

/// Every frame index in every sample of every profile of `document` names a
/// frame of the document's own frame list.
pub open spec fn indices_in_range<V>(document: SpeedscopeView<V>) -> bool {
    forall|p: int|
        0 <= p < document.profiles.len() ==> samples_in_range(
            (#[trigger] document.profiles[p]).samples,
            document.frames.len(),
        )
}

/// Every frame that `stack` refers to has its identity in `table`.
pub open spec fn stack_known(stack: Seq<i32>, frames: Seq<FrameView>, table: Seq<FrameView>) -> bool {
    forall|k: int|
        0 <= k < stack.len() ==> holds_identity(
            table,
            frames[(#[trigger] stack[k]) as int].identity(),
        )
}

/// Every frame that a stack of `samples` refers to has its identity in `table`.
pub open spec fn samples_known(
    samples: Seq<Seq<i32>>,
    frames: Seq<FrameView>,
    table: Seq<FrameView>,
) -> bool {
    forall|s: int| 0 <= s < samples.len() ==> stack_known(#[trigger] samples[s], frames, table)
}

/// Every frame that a sample of `document` refers to has its identity in
/// `table`. Frames that no sample refers to are free to be missing.
pub open spec fn references_known<V>(document: SpeedscopeView<V>, table: Seq<FrameView>) -> bool {
    forall|p: int|
        0 <= p < document.profiles.len() ==> samples_known(
            (#[trigger] document.profiles[p]).samples,
            document.frames,
            table,
        )
}

/// The table index of the frame that `index` names in `frames`.
pub open spec fn remapped_index(index: i32, frames: Seq<FrameView>, table: Seq<FrameView>) -> i32 {
    position_of(table, frames[index as int].identity()) as i32
}

/// `stack` with each index replaced by its table index.
pub open spec fn remapped_stack(
    stack: Seq<i32>,
    frames: Seq<FrameView>,
    table: Seq<FrameView>,
) -> Seq<i32> {
    Seq::new(stack.len(), |k: int| remapped_index(stack[k], frames, table))
}

/// `samples` with each stack remapped.
pub open spec fn remapped_samples(
    samples: Seq<Seq<i32>>,
    frames: Seq<FrameView>,
    table: Seq<FrameView>,
) -> Seq<Seq<i32>> {
    Seq::new(samples.len(), |s: int| remapped_stack(samples[s], frames, table))
}

/// `profile` with its samples remapped and everything else as it was.
pub open spec fn remapped_profile<V>(
    profile: ProfileView<V>,
    frames: Seq<FrameView>,
    table: Seq<FrameView>,
) -> ProfileView<V> {
    ProfileView {
        name: profile.name,
        unit: profile.unit,
        start_value: profile.start_value,
        end_value: profile.end_value,
        samples: remapped_samples(profile.samples, frames, table),
        weights: profile.weights,
        profile_type: profile.profile_type,
    }
}

/// `document` moved to the index space of `table`: the table is its frame
/// list, every sample is remapped, and the rest is as it was.
pub open spec fn remapped<V>(document: SpeedscopeView<V>, table: Seq<FrameView>) -> SpeedscopeView<
    V,
> {
    SpeedscopeView {
        profiles: Seq::new(
            document.profiles.len(),
            |p: int| remapped_profile(document.profiles[p], document.frames, table),
        ),
        frames: table,
        schema: document.schema,
        exporter: document.exporter,
        name: document.name,
    }
}

/// For each frame of a document, the table index of its identity, or `None`
/// where the table does not hold it.
pub open spec fn table_indices(frames: Seq<FrameView>, table: Seq<FrameView>) -> Seq<Option<i32>> {
    Seq::new(
        frames.len(),
        |i: int|
            if holds_identity(table, frames[i].identity()) {
                Some(position_of(table, frames[i].identity()) as i32)
            } else {
                None
            },
    )
}

/// A list of stacks, seen as sequences, is the list of its stacks seen as
/// sequences.
pub proof fn lemma_samples_view(samples: &Vec<Vec<i32>>)
    ensures
        samples.deep_view().len() == samples.len(),
        forall|s: int| 0 <= s < samples.len() ==> #[trigger] samples.deep_view()[s] == samples[s]@,
{
    assert forall|s: int| 0 <= s < samples.len() implies #[trigger] samples.deep_view()[s]
        == samples[s]@ by {
        assert(samples[s].deep_view() =~= samples[s]@);
    }
}

/// Whether every index of `stack` names one of `count` frames.
pub fn stack_is_in_range(stack: &Vec<i32>, count: usize) -> (valid: bool)
    ensures
        valid == stack_in_range(stack@, count as nat),
{
    let mut k: usize = 0;
    while k < stack.len()
        invariant
            k <= stack.len(),
            forall|j: int| 0 <= j < k ==> 0 <= #[trigger] stack@[j] < count,
        decreases stack.len() - k,
    {
        let index: i32 = stack[k];
        if index < 0 || index as usize >= count {
            return false;
        }
        k += 1;
    }
    true
}

/// Whether every stack of `samples` is in range.
pub fn samples_are_in_range(samples: &Vec<Vec<i32>>, count: usize) -> (valid: bool)
    ensures
        valid == samples_in_range(samples.deep_view(), count as nat),
{
    proof {
        lemma_samples_view(samples);
    }
    let mut s: usize = 0;
    while s < samples.len()
        invariant
            s <= samples.len(),
            samples.deep_view().len() == samples.len(),
            forall|j: int|
                0 <= j < samples.len() ==> #[trigger] samples.deep_view()[j] == samples[j]@,
            forall|j: int|
                0 <= j < s ==> stack_in_range(#[trigger] samples.deep_view()[j], count as nat),
        decreases samples.len() - s,
    {
        if !stack_is_in_range(&samples[s], count) {
            assert(!stack_in_range(samples.deep_view()[s as int], count as nat));
            return false;
        }
        s += 1;
    }
    true
}

/// Whether every frame index in `speedscope` names a frame of its own frame
/// list, as a well-formed document's indices do.
pub fn has_valid_indices<V>(speedscope: &Speedscope<V>) -> (valid: bool)
    ensures
        valid == indices_in_range(speedscope@),
{
    let count = speedscope.shared.frames.len();
    let mut p: usize = 0;
    while p < speedscope.profiles.len()
        invariant
            p <= speedscope.profiles.len(),
            count == speedscope@.frames.len(),
            forall|j: int|
                0 <= j < p ==> samples_in_range(
                    (#[trigger] speedscope@.profiles[j]).samples,
                    count as nat,
                ),
        decreases speedscope.profiles.len() - p,
    {
        assert(speedscope@.profiles[p as int] == speedscope.profiles[p as int]@);
        if !samples_are_in_range(&speedscope.profiles[p].samples, count) {
            assert(!samples_in_range(speedscope@.profiles[p as int].samples, count as nat));
            return false;
        }
        p += 1;
    }
    true
}

/// Looks every frame of a document up in `table`, once, so that remapping a
/// sample index is a single step.
pub fn look_up_frames(frames: &Vec<Frame>, table: &FrameTable) -> (indices: Vec<
    Option<i32>,
>)
    ensures
        indices@ == table_indices(frames.deep_view(), table@),
{
    let mut indices: Vec<Option<i32>> = Vec::new();
    let mut i: usize = 0;
    while i < frames.len()
        invariant
            i <= frames.len(),
            indices.len() == i,
            forall|j: int|
                0 <= j < i ==> #[trigger] indices[j] == table_indices(
                    frames.deep_view(),
                    table@,
                )[j],
        decreases frames.len() - i,
    {
        let key = frames[i].hash();
        assert(frames.deep_view()[i as int] == frames[i as int]@);
        indices.push(table.index_of(&key));
        i += 1;
    }
    assert(indices@ =~= table_indices(frames.deep_view(), table@));
    indices
}

/// Remaps one stack through the table indices of a document's frames.
fn remap_stack(
    stack: &Vec<i32>,
    indices: &Vec<Option<i32>>,
    Ghost(frames): Ghost<Seq<FrameView>>,
    Ghost(table): Ghost<Seq<FrameView>>,
) -> (moved: Result<Vec<i32>, MergeError>)
    requires
        indices@ == table_indices(frames, table),
        stack_in_range(stack@, frames.len()),
    ensures
        match moved {
            Ok(new_stack) => stack_known(stack@, frames, table) && new_stack@ == remapped_stack(
                stack@,
                frames,
                table,
            ),
            Err(error) => error == MergeError::FrameNotInTable && !stack_known(
                stack@,
                frames,
                table,
            ),
        },
{
    let mut new_stack: Vec<i32> = Vec::new();
    let mut k: usize = 0;
    while k < stack.len()
        invariant
            k <= stack.len(),
            indices@ == table_indices(frames, table),
            stack_in_range(stack@, frames.len()),
            new_stack.len() == k,
            forall|j: int|
                0 <= j < k ==> holds_identity(
                    table,
                    frames[(#[trigger] stack@[j]) as int].identity(),
                ),
            forall|j: int|
                0 <= j < k ==> #[trigger] new_stack@[j] == remapped_index(stack@[j], frames, table),
        decreases stack.len() - k,
    {
        let index: i32 = stack[k];
        assert(0 <= stack@[k as int] < frames.len());
        match indices[index as usize] {
            Some(global) => {
                new_stack.push(global);
            },
            None => {
                assert(!holds_identity(table, frames[stack@[k as int] as int].identity()));
                return Err(MergeError::FrameNotInTable);
            },
        }
        k += 1;
    }
    assert(new_stack@ =~= remapped_stack(stack@, frames, table));
    Ok(new_stack)
}

/// Remaps the samples of one profile through the table indices of a document's frames.
fn remap_samples(
    samples: &Vec<Vec<i32>>,
    indices: &Vec<Option<i32>>,
    Ghost(frames): Ghost<Seq<FrameView>>,
    Ghost(table): Ghost<Seq<FrameView>>,
) -> (moved: Result<Vec<Vec<i32>>, MergeError>)
    requires
        indices@ == table_indices(frames, table),
        samples_in_range(samples.deep_view(), frames.len()),
    ensures
        match moved {
            Ok(new_samples) => samples_known(samples.deep_view(), frames, table)
                && new_samples.deep_view() == remapped_samples(
                samples.deep_view(),
                frames,
                table,
            ),
            Err(error) => error == MergeError::FrameNotInTable && !samples_known(
                samples.deep_view(),
                frames,
                table,
            ),
        },
{
    proof {
        lemma_samples_view(samples);
    }
    let mut new_samples: Vec<Vec<i32>> = Vec::new();
    let mut s: usize = 0;
    while s < samples.len()
        invariant
            s <= samples.len(),
            indices@ == table_indices(frames, table),
            samples_in_range(samples.deep_view(), frames.len()),
            samples.deep_view().len() == samples.len(),
            forall|j: int|
                0 <= j < samples.len() ==> #[trigger] samples.deep_view()[j] == samples[j]@,
            new_samples.len() == s,
            forall|j: int|
                0 <= j < s ==> stack_known(#[trigger] samples.deep_view()[j], frames, table),
            forall|j: int|
                0 <= j < s ==> #[trigger] new_samples[j]@ == remapped_stack(
                    samples.deep_view()[j],
                    frames,
                    table,
                ),
        decreases samples.len() - s,
    {
        assert(stack_in_range(samples.deep_view()[s as int], frames.len()));
        match remap_stack(&samples[s], indices, Ghost(frames), Ghost(table)) {
            Ok(new_stack) => {
                new_samples.push(new_stack);
            },
            Err(error) => {
                assert(!stack_known(samples.deep_view()[s as int], frames, table));
                return Err(error);
            },
        }
        s += 1;
    }
    proof {
        lemma_samples_view(&new_samples);
        assert(new_samples.deep_view() =~= remapped_samples(samples.deep_view(), frames, table));
    }
    Ok(new_samples)
}

/// Moves `speedscope` to the index space of `table`: the result has the
/// table's frames as its frame list, and each sample index is replaced by the
/// table index of the frame that it named. Everything else is passed on.
///
/// Fails with [`MergeError::FrameIndexOutOfRange`] exactly when some sample
/// index is outside the document's frame list; otherwise with
/// [`MergeError::FrameNotInTable`] exactly when a sample refers to a frame
/// whose identity the table does not hold.
pub fn adjust_speedscope_to_new_indexes_and_frames<V: Copy>(
    speedscope: &Speedscope<V>,
    table: &FrameTable,
) -> (adjusted: Result<Speedscope<V>, MergeError>)
    ensures
        match adjusted {
            Ok(document) => {
                &&& indices_in_range(speedscope@)
                &&& references_known(speedscope@, table@)
                &&& document@ == remapped(speedscope@, table@)
            },
            Err(MergeError::FrameIndexOutOfRange) => !indices_in_range(speedscope@),
            Err(MergeError::FrameNotInTable) => {
                &&& indices_in_range(speedscope@)
                &&& !references_known(speedscope@, table@)
            },
            Err(MergeError::TooManyFrames) => false,
        },
{
    if !has_valid_indices(speedscope) {
        return Err(MergeError::FrameIndexOutOfRange);
    }
    let ghost frames = speedscope@.frames;
    let indices = look_up_frames(&speedscope.shared.frames, table);
    let mut new_profiles: Vec<Profile<V>> = Vec::new();
    let mut p: usize = 0;
    while p < speedscope.profiles.len()
        invariant
            p <= speedscope.profiles.len(),
            frames == speedscope@.frames,
            indices@ == table_indices(frames, table@),
            indices_in_range(speedscope@),
            new_profiles.len() == p,
            forall|j: int|
                0 <= j < p ==> samples_known(
                    (#[trigger] speedscope@.profiles[j]).samples,
                    frames,
                    table@,
                ),
            forall|j: int|
                0 <= j < p ==> #[trigger] new_profiles[j]@ == remapped_profile(
                    speedscope@.profiles[j],
                    frames,
                    table@,
                ),
        decreases speedscope.profiles.len() - p,
    {
        let profile = &speedscope.profiles[p];
        assert(speedscope@.profiles[p as int] == profile@);
        assert(samples_in_range(speedscope@.profiles[p as int].samples, frames.len()));
        let new_samples = match remap_samples(
            &profile.samples,
            &indices,
            Ghost(frames),
            Ghost(table@),
        ) {
            Ok(new_samples) => new_samples,
            Err(error) => {
                assert(!samples_known(speedscope@.profiles[p as int].samples, frames, table@));
                return Err(error);
            },
        };
        new_profiles.push(
            Profile {
                name: profile.name.clone(),
                unit: profile.unit.clone(),
                start_value: profile.start_value,
                end_value: profile.end_value,
                samples: new_samples,
                weights: copy_values(&profile.weights),
                profile_type: profile.profile_type.clone(),
            },
        );
        p += 1;
    }
    let document = Speedscope {
        profiles: new_profiles,
        shared: Shared { frames: get_sorted_frames(table) },
        schema: speedscope.schema.clone(),
        exporter: speedscope.exporter.clone(),
        name: speedscope.name.clone(),
    };
    assert(document@.profiles =~= remapped(speedscope@, table@).profiles);
    Ok(document)
}

} // verus!
