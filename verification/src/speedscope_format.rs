//! The speedscope document model and its mathematical views.
//!
//! Every executable type has a view made of sequences and plain values; the
//! contracts of the whole crate are stated over those views.
//!
//! The numeric payload of a profile (its window bounds and its per-sample
//! weights) has the type parameter `V`. The merge moves such values around
//! and adds them up, nothing more, so any copyable type with `+` will do;
//! callers working with speedscope files use a 64-bit float.

use vstd::prelude::*;
use vstd::std_specs::cmp::PartialEqSpecImpl;

verus! {

/// One source-location descriptor of a call stack.
#[derive(Debug)]
pub struct Frame {
    pub name: String,
    pub file: String,
    pub line: u32,
    /// `None` stands for an unknown column.
    pub col: Option<u32>,
}

/// What a [`Frame`] is, as plain mathematical values.
pub struct FrameView {
    pub name: Seq<char>,
    pub file: Seq<char>,
    pub line: u32,
    pub col: Option<u32>,
}

/// The key under which frames are deduplicated: two frames are the same frame
/// exactly when their keys are equal.
#[derive(Debug)]
pub struct FrameIdentity {
    pub name: String,
    pub file: String,
    pub line: u32,
    /// The frame's column, with 0 standing in for an unknown column.
    pub col: u32,
}

/// What a [`FrameIdentity`] is, as plain mathematical values.
pub struct FrameIdentityView {
    pub name: Seq<char>,
    pub file: Seq<char>,
    pub line: u32,
    pub col: u32,
}

impl FrameView {
    /// The identity of a frame: its name, file and line, and its column with
    /// an unknown column counted as column 0.
    pub open spec fn identity(self) -> FrameIdentityView {
        FrameIdentityView {
            name: self.name,
            file: self.file,
            line: self.line,
            col: match self.col {
                Some(c) => c,
                None => 0,
            },
        }
    }
}

impl View for Frame {
    type V = FrameView;

    open spec fn view(&self) -> FrameView {
        FrameView { name: self.name@, file: self.file@, line: self.line, col: self.col }
    }
}

impl DeepView for Frame {
    type V = FrameView;

    open spec fn deep_view(&self) -> FrameView {
        self@
    }
}

impl View for FrameIdentity {
    type V = FrameIdentityView;

    open spec fn view(&self) -> FrameIdentityView {
        FrameIdentityView { name: self.name@, file: self.file@, line: self.line, col: self.col }
    }
}

impl Clone for Frame {
    fn clone(&self) -> (copy: Frame)
        ensures
            copy == *self,
    {
        Frame { name: self.name.clone(), file: self.file.clone(), line: self.line, col: self.col }
    }
}

impl Default for Frame {
    fn default() -> (frame: Frame)
        ensures
            frame@ == (FrameView {
                name: Seq::<char>::empty(),
                file: Seq::<char>::empty(),
                line: 0,
                col: None,
            }),
    {
        Frame { name: String::new(), file: String::new(), line: 0, col: None }
    }
}

impl Frame {
    /// The frame's identity key.
    pub fn hash(&self) -> (key: FrameIdentity)
        ensures
            key@ == self@.identity(),
    {
        let col: u32 = match self.col {
            Some(c) => c,
            None => 0,
        };
        FrameIdentity { name: self.name.clone(), file: self.file.clone(), line: self.line, col }
    }
}

impl Clone for FrameIdentity {
    fn clone(&self) -> (copy: FrameIdentity)
        ensures
            copy == *self,
    {
        FrameIdentity {
            name: self.name.clone(),
            file: self.file.clone(),
            line: self.line,
            col: self.col,
        }
    }
}

impl PartialEq for FrameIdentity {
    fn eq(&self, other: &FrameIdentity) -> (equal: bool) {
        self.line == other.line && self.col == other.col && self.name == other.name && self.file
            == other.file
    }
}

impl Eq for FrameIdentity {

}

impl PartialEqSpecImpl for FrameIdentity {
    open spec fn obeys_eq_spec() -> bool {
        true
    }

    open spec fn eq_spec(&self, other: &FrameIdentity) -> bool {
        self.line == other.line && self.col == other.col && self.name@ == other.name@
            && self.file@ == other.file@
    }
}

impl FrameIdentity {
    /// Whether `frame` has this identity. Compares in place, without building
    /// the frame's own key.
    pub fn is_identity_of(&self, frame: &Frame) -> (same: bool)
        ensures
            same == (frame@.identity() == self@),
    {
        let col: u32 = match frame.col {
            Some(c) => c,
            None => 0,
        };
        self.line == frame.line && self.col == col && self.name == frame.name && self.file
            == frame.file
    }
}

/// The part of a document that all its profiles share: the frame list that
/// their samples index into.
#[derive(Debug)]
pub struct Shared {
    pub frames: Vec<Frame>,
}

impl View for Shared {
    type V = Seq<FrameView>;

    open spec fn view(&self) -> Seq<FrameView> {
        self.frames.deep_view()
    }
}

impl Clone for Shared {
    fn clone(&self) -> (copy: Shared)
        ensures
            copy@ == self@,
    {
        Shared { frames: copy_frames(&self.frames) }
    }
}

/// A copy of a frame list.
pub fn copy_frames(frames: &Vec<Frame>) -> (copy: Vec<Frame>)
    ensures
        copy.deep_view() == frames.deep_view(),
{
    let mut copy: Vec<Frame> = Vec::new();
    let mut i: usize = 0;
    while i < frames.len()
        invariant
            i <= frames.len(),
            copy.len() == i,
            forall|j: int| 0 <= j < i ==> copy[j]@ == frames[j]@,
        decreases frames.len() - i,
    {
        copy.push(frames[i].clone());
        i += 1;
    }
    assert(copy.deep_view() =~= frames.deep_view());
    copy
}

/// One named execution trace.
#[derive(Debug)]
pub struct Profile<V> {
    /// The name under which profiles of several documents are merged.
    pub name: String,
    pub unit: String,
    pub start_value: V,
    pub end_value: V,
    /// The recorded stacks, each a list of indices into the frame list of the
    /// document that holds the profile.
    pub samples: Vec<Vec<i32>>,
    /// One weight for each stack.
    pub weights: Vec<V>,
    pub profile_type: String,
}

/// What a [`Profile`] is, as plain mathematical values.
pub struct ProfileView<V> {
    pub name: Seq<char>,
    pub unit: Seq<char>,
    pub start_value: V,
    pub end_value: V,
    pub samples: Seq<Seq<i32>>,
    pub weights: Seq<V>,
    pub profile_type: Seq<char>,
}

impl<V> ProfileView<V> {
    /// Every stack has its weight: there are as many weights as samples.
    pub open spec fn aligned(self) -> bool {
        self.samples.len() == self.weights.len()
    }
}

impl<V> View for Profile<V> {
    type V = ProfileView<V>;

    open spec fn view(&self) -> ProfileView<V> {
        ProfileView {
            name: self.name@,
            unit: self.unit@,
            start_value: self.start_value,
            end_value: self.end_value,
            samples: self.samples.deep_view(),
            weights: self.weights@,
            profile_type: self.profile_type@,
        }
    }
}

impl<V> DeepView for Profile<V> {
    type V = ProfileView<V>;

    open spec fn deep_view(&self) -> ProfileView<V> {
        self@
    }
}

/// A copy of one stack.
pub fn copy_stack(stack: &Vec<i32>) -> (copy: Vec<i32>)
    ensures
        copy@ == stack@,
{
    let mut copy: Vec<i32> = Vec::new();
    let mut i: usize = 0;
    while i < stack.len()
        invariant
            i <= stack.len(),
            copy@ == stack@.take(i as int),
        decreases stack.len() - i,
    {
        copy.push(stack[i]);
        assert(stack@.take(i + 1) =~= stack@.take(i as int).push(stack[i as int]));
        i += 1;
    }
    assert(stack@.take(stack.len() as int) =~= stack@);
    copy
}

/// A copy of a list of stacks.
pub fn copy_samples(samples: &Vec<Vec<i32>>) -> (copy: Vec<Vec<i32>>)
    ensures
        copy.deep_view() == samples.deep_view(),
{
    let mut copy: Vec<Vec<i32>> = Vec::new();
    let mut i: usize = 0;
    while i < samples.len()
        invariant
            i <= samples.len(),
            copy.len() == i,
            forall|j: int| 0 <= j < i ==> copy[j]@ == samples[j]@,
        decreases samples.len() - i,
    {
        copy.push(copy_stack(&samples[i]));
        i += 1;
    }
    assert(copy.deep_view() =~= samples.deep_view()) by {
        assert forall|j: int| 0 <= j < copy.len() implies copy.deep_view()[j]
            == samples.deep_view()[j] by {
            assert(copy[j].deep_view() =~= copy[j]@);
            assert(samples[j].deep_view() =~= samples[j]@);
        }
    }
    copy
}

/// A copy of a list of values.
pub fn copy_values<V: Copy>(values: &Vec<V>) -> (copy: Vec<V>)
    ensures
        copy@ == values@,
{
    let mut copy: Vec<V> = Vec::new();
    let mut i: usize = 0;
    while i < values.len()
        invariant
            i <= values.len(),
            copy@ == values@.take(i as int),
        decreases values.len() - i,
    {
        copy.push(values[i]);
        assert(values@.take(i + 1) =~= values@.take(i as int).push(values[i as int]));
        i += 1;
    }
    assert(values@.take(values.len() as int) =~= values@);
    copy
}

impl<V: Copy> Clone for Profile<V> {
    fn clone(&self) -> (copy: Profile<V>)
        ensures
            copy@ == self@,
    {
        Profile {
            name: self.name.clone(),
            unit: self.unit.clone(),
            start_value: self.start_value,
            end_value: self.end_value,
            samples: copy_samples(&self.samples),
            weights: copy_values(&self.weights),
            profile_type: self.profile_type.clone(),
        }
    }
}

impl<V: Default> Default for Profile<V> {
    /// The empty profile: no name, no samples, and the default value of `V`
    /// for both window bounds.
    fn default() -> (profile: Profile<V>)
        ensures
            profile@.name == Seq::<char>::empty(),
            profile@.unit == Seq::<char>::empty(),
            profile@.profile_type == Seq::<char>::empty(),
            profile@.samples == Seq::<Seq<i32>>::empty(),
            profile@.weights == Seq::<V>::empty(),
            call_ensures(V::default, (), profile@.start_value),
            call_ensures(V::default, (), profile@.end_value),
    {
        let profile = Profile {
            name: String::new(),
            unit: String::new(),
            start_value: V::default(),
            end_value: V::default(),
            samples: Vec::new(),
            weights: Vec::new(),
            profile_type: String::new(),
        };
        assert(profile.samples.deep_view() =~= Seq::<Seq<i32>>::empty());
        profile
    }
}

/// A whole snapshot: profiles, the frame list they index into, and metadata
/// that the merge passes on untouched.
#[derive(Debug)]
pub struct Speedscope<V> {
    pub profiles: Vec<Profile<V>>,
    pub shared: Shared,
    pub schema: String,
    pub exporter: String,
    pub name: String,
}

/// What a [`Speedscope`] document is, as plain mathematical values.
pub struct SpeedscopeView<V> {
    pub profiles: Seq<ProfileView<V>>,
    pub frames: Seq<FrameView>,
    pub schema: Seq<char>,
    pub exporter: Seq<char>,
    pub name: Seq<char>,
}

impl<V> View for Speedscope<V> {
    type V = SpeedscopeView<V>;

    open spec fn view(&self) -> SpeedscopeView<V> {
        SpeedscopeView {
            profiles: self.profiles.deep_view(),
            frames: self.shared@,
            schema: self.schema@,
            exporter: self.exporter@,
            name: self.name@,
        }
    }
}

impl<V> DeepView for Speedscope<V> {
    type V = SpeedscopeView<V>;

    open spec fn deep_view(&self) -> SpeedscopeView<V> {
        self@
    }
}

impl<V: Copy> Clone for Speedscope<V> {
    fn clone(&self) -> (copy: Speedscope<V>)
        ensures
            copy@ == self@,
    {
        let mut profiles: Vec<Profile<V>> = Vec::new();
        let mut i: usize = 0;
        while i < self.profiles.len()
            invariant
                i <= self.profiles.len(),
                profiles.len() == i,
                forall|j: int| 0 <= j < i ==> profiles[j]@ == self.profiles[j]@,
            decreases self.profiles.len() - i,
        {
            profiles.push(self.profiles[i].clone());
            i += 1;
        }
        assert(profiles.deep_view() =~= self.profiles.deep_view());
        Speedscope {
            profiles,
            shared: self.shared.clone(),
            schema: self.schema.clone(),
            exporter: self.exporter.clone(),
            name: self.name.clone(),
        }
    }
}

} // verus!
