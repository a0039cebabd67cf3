//! The table of distinct frames, and the index that each frame gets in it.

use crate::error::MergeError;
use crate::speedscope_format::{
    Frame, FrameIdentity, FrameIdentityView, FrameView, Speedscope, SpeedscopeView,
};
use vstd::prelude::*;

verus! {

/// The largest number of frames that a table holds: every index, and the
/// length itself, fits a sample's `i32`.
pub const MAX_FRAMES: usize = 0x7fff_ffff;

/// Whether some frame of `frames` has the identity `id`.
pub open spec fn holds_identity(frames: Seq<FrameView>, id: FrameIdentityView) -> bool {
    exists|i: int| 0 <= i < frames.len() && #[trigger] frames[i].identity() == id
}

/// An index at which `frames` holds the identity `id`. Where no two frames
/// share an identity it is the only one.
pub open spec fn position_of(frames: Seq<FrameView>, id: FrameIdentityView) -> int {
    choose|i: int| 0 <= i < frames.len() && #[trigger] frames[i].identity() == id
}

/// No two frames of `frames` have the same identity.
pub open spec fn distinct_identities(frames: Seq<FrameView>) -> bool {
    forall|i: int, j: int|
        0 <= i < j < frames.len() ==> #[trigger] frames[i].identity()
            != #[trigger] frames[j].identity()
}

/// `frames` without its repetitions: of the frames that share an identity the
/// first one stays, at the place that its identity first took.
pub open spec fn deduplicated(frames: Seq<FrameView>) -> Seq<FrameView>
    decreases frames.len(),
{
    if frames.len() == 0 {
        Seq::empty()
    } else {
        let before = deduplicated(frames.drop_last());
        if holds_identity(before, frames.last().identity()) {
            before
        } else {
            before.push(frames.last())
        }
    }
}

/// The frame lists of all documents, one after the other.
pub open spec fn all_frames<V>(documents: Seq<SpeedscopeView<V>>) -> Seq<FrameView>
    decreases documents.len(),
{
    if documents.len() == 0 {
        Seq::empty()
    } else {
        all_frames(documents.drop_last()) + documents.last().frames
    }
}

/// In a list without repeated identities, a frame's identity is found at the
/// frame's own index.
pub proof fn lemma_position_of_entry(frames: Seq<FrameView>, i: int)
    requires
        distinct_identities(frames),
        0 <= i < frames.len(),
    ensures
        holds_identity(frames, frames[i].identity()),
        position_of(frames, frames[i].identity()) == i,
{
    let id = frames[i].identity();
    let p = position_of(frames, id);
    assert(0 <= p < frames.len() && frames[p].identity() == id);
    if p < i {
        assert(frames[p].identity() != frames[i].identity());
    } else if i < p {
        assert(frames[i].identity() != frames[p].identity());
    }
}

/// How one more frame changes the deduplicated list: a new identity is
/// appended, a known one changes nothing.
pub proof fn lemma_deduplicated_push(frames: Seq<FrameView>, frame: FrameView)
    ensures
        deduplicated(frames.push(frame)) == if holds_identity(
            deduplicated(frames),
            frame.identity(),
        ) {
            deduplicated(frames)
        } else {
            deduplicated(frames).push(frame)
        },
{
    assert(frames.push(frame).drop_last() =~= frames);
}

/// The deduplicated list holds no identity twice.
pub proof fn lemma_deduplicated_distinct(frames: Seq<FrameView>)
    ensures
        distinct_identities(deduplicated(frames)),
    decreases frames.len(),
{
    if frames.len() > 0 {
        lemma_deduplicated_distinct(frames.drop_last());
        let before = deduplicated(frames.drop_last());
        let last = frames.last();
        if !holds_identity(before, last.identity()) {
            let after = before.push(last);
            assert forall|i: int, j: int| 0 <= i < j < after.len() implies #[trigger] after[i].identity()
                != #[trigger] after[j].identity() by {
                if j == before.len() {
                    assert(after[i] == before[i]);
                    if before[i].identity() == last.identity() {
                        assert(holds_identity(before, last.identity()));
                    }
                } else {
                    assert(after[i] == before[i] && after[j] == before[j]);
                }
            }
        }
    }
}

/// The deduplicated list holds exactly the identities of the list that it was made from.
pub proof fn lemma_deduplicated_identities(frames: Seq<FrameView>, id: FrameIdentityView)
    ensures
        holds_identity(deduplicated(frames), id) <==> holds_identity(frames, id),
    decreases frames.len(),
{
    if frames.len() > 0 {
        let rest = frames.drop_last();
        let before = deduplicated(rest);
        let last = frames.last();
        lemma_deduplicated_identities(rest, id);
        lemma_deduplicated_identities(rest, last.identity());
        if holds_identity(deduplicated(frames), id) {
            let k = choose|k: int|
                0 <= k < deduplicated(frames).len() && #[trigger] deduplicated(
                    frames,
                )[k].identity() == id;
            if k < before.len() {
                assert(before[k].identity() == id);
                let i = choose|i: int| 0 <= i < rest.len() && #[trigger] rest[i].identity() == id;
                assert(frames[i].identity() == id);
            } else {
                assert(frames[frames.len() - 1].identity() == id);
            }
        }
        if holds_identity(frames, id) {
            let i = choose|i: int| 0 <= i < frames.len() && #[trigger] frames[i].identity() == id;
            if i < rest.len() {
                assert(rest[i].identity() == id);
                let k = choose|k: int|
                    0 <= k < before.len() && #[trigger] before[k].identity() == id;
                assert(deduplicated(frames)[k].identity() == id);
            } else if holds_identity(before, last.identity()) {
            } else {
                assert(deduplicated(frames)[before.len() as int].identity() == id);
            }
        }
    }
}

/// Frames that come later never move the frames that came before: the
/// deduplicated list of a prefix is a prefix of the deduplicated list.
pub proof fn lemma_deduplicated_prefix(prefix: Seq<FrameView>, frames: Seq<FrameView>)
    requires
        prefix.is_prefix_of(frames),
    ensures
        deduplicated(prefix).is_prefix_of(deduplicated(frames)),
    decreases frames.len(),
{
    if prefix.len() == frames.len() {
        assert(prefix =~= frames);
    } else {
        assert(prefix.is_prefix_of(frames.drop_last()));
        lemma_deduplicated_prefix(prefix, frames.drop_last());
    }
}

/// A list without repeated identities is its own deduplicated list.
pub proof fn lemma_deduplicated_of_distinct(frames: Seq<FrameView>)
    requires
        distinct_identities(frames),
    ensures
        deduplicated(frames) == frames,
    decreases frames.len(),
{
    if frames.len() > 0 {
        let rest = frames.drop_last();
        assert(distinct_identities(rest)) by {
            assert forall|i: int, j: int| 0 <= i < j < rest.len() implies #[trigger] rest[i].identity()
                != #[trigger] rest[j].identity() by {
                assert(rest[i] == frames[i] && rest[j] == frames[j]);
            }
        }
        lemma_deduplicated_of_distinct(rest);
        if holds_identity(rest, frames.last().identity()) {
            let i = choose|i: int|
                0 <= i < rest.len() && #[trigger] rest[i].identity() == frames.last().identity();
            assert(frames[i].identity() != frames[frames.len() - 1].identity());
        }
        assert(rest.push(frames.last()) =~= frames);
    }
}

/// The frames of the first `done` documents, followed by the first `count`
/// frames of the next one, open the list of all frames.
pub proof fn lemma_all_frames_prefix<V>(
    documents: Seq<SpeedscopeView<V>>,
    done: int,
    count: int,
)
    requires
        0 <= done < documents.len(),
        0 <= count <= documents[done].frames.len(),
    ensures
        (all_frames(documents.take(done)) + documents[done].frames.take(count)).is_prefix_of(
            all_frames(documents),
        ),
    decreases documents.len(),
{
    let rest = documents.drop_last();
    if done == documents.len() - 1 {
        assert(documents.take(done) =~= rest);
    } else {
        assert(rest.take(done) =~= documents.take(done));
        lemma_all_frames_prefix(rest, done, count);
    }
}

/// The deduplicated frames of a set of documents, each at the index that the
/// merged document gives it.
///
/// No two entries share an identity, and there are at most [`MAX_FRAMES`] of
/// them; the type keeps both true.
#[derive(Debug)]
pub struct FrameTable {
    entries: Vec<Frame>,
}

impl View for FrameTable {
    type V = Seq<FrameView>;

    closed spec fn view(&self) -> Seq<FrameView> {
        self.entries.deep_view()
    }
}

impl FrameTable {
    #[verifier::type_invariant]
    spec fn well_formed(self) -> bool {
        &&& distinct_identities(self.entries.deep_view())
        &&& self.entries.len() <= MAX_FRAMES
    }

    /// The empty table.
    pub fn new() -> (table: FrameTable)
        ensures
            table@ == Seq::<FrameView>::empty(),
    {
        let table = FrameTable { entries: Vec::new() };
        assert(table.entries.deep_view() =~= Seq::<FrameView>::empty());
        table
    }

    /// The number of entries. Also states what holds of every table.
    pub fn len(&self) -> (count: usize)
        ensures
            count == self@.len(),
            count <= MAX_FRAMES,
            distinct_identities(self@),
    {
        proof {
            use_type_invariant(self);
        }
        self.entries.len()
    }

    /// The index that the table gives to the identity `key`, if it holds it.
    pub fn index_of(&self, key: &FrameIdentity) -> (found: Option<i32>)
        ensures
            match found {
                Some(index) => {
                    &&& holds_identity(self@, key@)
                    &&& index == position_of(self@, key@)
                    &&& 0 <= index < self@.len()
                    &&& self@[index as int].identity() == key@
                },
                None => !holds_identity(self@, key@),
            },
    {
        proof {
            use_type_invariant(self);
        }
        let mut i: usize = 0;
        while i < self.entries.len()
            invariant
                i <= self.entries.len(),
                self.entries.len() <= MAX_FRAMES,
                distinct_identities(self.entries.deep_view()),
                forall|j: int| 0 <= j < i ==> self.entries.deep_view()[j].identity() != key@,
            decreases self.entries.len() - i,
        {
            if key.is_identity_of(&self.entries[i]) {
                proof {
                    assert(self.entries.deep_view()[i as int] == self.entries[i as int]@);
                    lemma_position_of_entry(self.entries.deep_view(), i as int);
                }
                return Some(i as i32);
            }
            assert(self.entries.deep_view()[i as int] == self.entries[i as int]@);
            i += 1;
        }
        None
    }

    /// Makes sure that the table holds the identity of `frame`, and returns
    /// the identity's index. A frame whose identity is new becomes the last
    /// entry; one whose identity is known changes nothing, and the entry that
    /// came first stays as it is. Fails, and changes nothing, where a new
    /// entry would be one too many.
    pub fn insert(&mut self, frame: &Frame) -> (placed: Result<i32, MergeError>)
        ensures
            holds_identity(old(self)@, frame@.identity()) ==> final(self)@ == old(self)@ && placed
                == Ok::<i32, MergeError>(position_of(old(self)@, frame@.identity()) as i32),
            !holds_identity(old(self)@, frame@.identity()) && old(self)@.len() < MAX_FRAMES
                ==> final(self)@ == old(self)@.push(frame@) && placed == Ok::<i32, MergeError>(
                old(self)@.len() as i32,
            ),
            !holds_identity(old(self)@, frame@.identity()) && old(self)@.len() >= MAX_FRAMES
                ==> final(self)@ == old(self)@ && placed == Err::<i32, MergeError>(
                MergeError::TooManyFrames,
            ),
    {
        proof {
            use_type_invariant(&*self);
        }
        let key = frame.hash();
        match self.index_of(&key) {
            Some(index) => Ok(index),
            None => {
                let count = self.entries.len();
                if count >= MAX_FRAMES {
                    return Err(MergeError::TooManyFrames);
                }
                let ghost before = self.entries.deep_view();
                let mut entries: Vec<Frame> = Vec::new();
                proof {
                    assert(entries.deep_view() =~= Seq::<FrameView>::empty());
                }
                std::mem::swap(&mut entries, &mut self.entries);
                entries.push(frame.clone());
                proof {
                    assert(entries.deep_view() =~= before.push(frame@));
                    lemma_push_new_identity(before, frame@);
                }
                self.entries = entries;
                Ok(count as i32)
            },
        }
    }
}

/// A frame whose identity is new keeps a list free of repetitions when it is
/// appended.
proof fn lemma_push_new_identity(frames: Seq<FrameView>, frame: FrameView)
    requires
        distinct_identities(frames),
        !holds_identity(frames, frame.identity()),
    ensures
        distinct_identities(frames.push(frame)),
{
    let after = frames.push(frame);
    assert forall|i: int, j: int| 0 <= i < j < after.len() implies #[trigger] after[i].identity()
        != #[trigger] after[j].identity() by {
        if j == frames.len() {
            assert(after[i] == frames[i]);
            if frames[i].identity() == frame.identity() {
                assert(holds_identity(frames, frame.identity()));
            }
        } else {
            assert(after[i] == frames[i] && after[j] == frames[j]);
        }
    }
}

/// Builds the frame table of `speedscopes`: the documents are read in order,
/// each one's frames in order, and every identity gets the next free index
/// when it is first met.
///
/// Fails exactly when the documents hold more than [`MAX_FRAMES`] distinct
/// frames.
pub fn create_hash_to_new_index_and_frame<V>(speedscopes: &[Speedscope<V>]) -> (built: Result<
    FrameTable,
    MergeError,
>)
    ensures
        match built {
            Ok(table) => {
                &&& table@ == deduplicated(all_frames(speedscopes.deep_view()))
                &&& table@.len() <= MAX_FRAMES
            },
            Err(error) => {
                &&& error == MergeError::TooManyFrames
                &&& deduplicated(all_frames(speedscopes.deep_view())).len() > MAX_FRAMES
            },
        },
{
    let ghost documents = speedscopes.deep_view();
    let mut table = FrameTable::new();
    let mut i: usize = 0;
    while i < speedscopes.len()
        invariant
            i <= speedscopes.len(),
            documents == speedscopes.deep_view(),
            table@ == deduplicated(all_frames(documents.take(i as int))),
        decreases speedscopes.len() - i,
    {
        let frames = &speedscopes[i].shared.frames;
        let ghost done = all_frames(documents.take(i as int));
        assert(documents[i as int].frames == frames.deep_view());
        let mut j: usize = 0;
        while j < frames.len()
            invariant
                j <= frames.len(),
                i < speedscopes.len(),
                documents == speedscopes.deep_view(),
                documents[i as int].frames == frames.deep_view(),
                done == all_frames(documents.take(i as int)),
                table@ == deduplicated(done + frames.deep_view().take(j as int)),
            decreases frames.len() - j,
        {
            let ghost seen = done + frames.deep_view().take(j as int);
            proof {
                assert(frames.deep_view()[j as int] == frames[j as int]@);
                assert(done + frames.deep_view().take(j + 1) =~= seen.push(frames[j as int]@));
                lemma_deduplicated_push(seen, frames[j as int]@);
            }
            match table.insert(&frames[j]) {
                Ok(_) => {},
                Err(error) => {
                    proof {
                        use_type_invariant(&table);
                        lemma_all_frames_prefix(documents, i as int, j + 1);
                        lemma_deduplicated_prefix(
                            seen.push(frames[j as int]@),
                            all_frames(documents),
                        );
                    }
                    return Err(error);
                },
            }
            j += 1;
        }
        proof {
            assert(frames.deep_view().take(frames.len() as int) =~= frames.deep_view());
            assert(documents.take(i + 1).drop_last() =~= documents.take(i as int));
        }
        i += 1;
    }
    proof {
        assert(documents.take(speedscopes.len() as int) =~= documents);
        use_type_invariant(&table);
    }
    Ok(table)
}

/// The table's frames in the order of their indices: the frame list of the
/// merged document.
pub fn get_sorted_frames(table: &FrameTable) -> (frames: Vec<Frame>)
    ensures
        frames.deep_view() == table@,
{
    let mut frames: Vec<Frame> = Vec::new();
    let mut i: usize = 0;
    while i < table.entries.len()
        invariant
            i <= table.entries.len(),
            frames.len() == i,
            forall|j: int| 0 <= j < i ==> frames[j]@ == table.entries[j]@,
        decreases table.entries.len() - i,
    {
        frames.push(table.entries[i].clone());
        i += 1;
    }
    assert(frames.deep_view() =~= table.entries.deep_view());
    frames
}

} // verus!
