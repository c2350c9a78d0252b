//! Keyframe animation: channels of timed samples, step evaluation, and the
//! accumulation of the sampled transforms onto a per-node override table.

use vstd::prelude::*;
use crate::error::{first_error, lemma_first_error_at, lemma_first_error_none, MeshLoadError};
use crate::matrix::{is_product, product, returns_product, Mat4};
use crate::scalar::{
    lemma_order_key_injective, order_key, precedes_or_equals, total_order_key, ONE, ZERO,
};
use crate::stream::copy_of;

verus! {

/// A transform given by its translation, rotation quaternion `(x, y, z, w)`
/// and scale.
#[derive(Clone, Copy, Debug, PartialEq, Eq)]
pub struct Decomposed {
    pub translation: [u32; 3],
    pub rotation: [u32; 4],
    pub scale: [u32; 3],
}

/// The samples of one channel, by the property they animate.
#[derive(Debug)]
pub enum Outputs {
    Translation(Vec<[u32; 3]>),
    Rotation(Vec<[u32; 4]>),
    Scale(Vec<[u32; 3]>),
}

/// One animated property of one node.
#[derive(Debug)]
pub struct Channel {
    pub target: usize,
    pub inputs: Vec<u32>,
    pub outputs: Outputs,
}

/// A named collection of channels.
#[derive(Debug)]
pub struct Animation {
    pub channels: Vec<Channel>,
}

/// The keyframe times ascend in the total order of their bit patterns.
pub open spec fn ascending(inputs: Seq<u32>) -> bool {
    forall|i: int, j: int|
        0 <= i <= j < inputs.len() ==> order_key(inputs[i]) <= order_key(inputs[j])
}

/// `k` is the keyframe held at `time`: the last one whose time is at or
/// before `time`, and the first one where `time` lies before them all.
pub open spec fn holds_at(inputs: Seq<u32>, time: u32, k: int) -> bool {
    if inputs.len() == 0 || order_key(time) < order_key(inputs[0]) {
        k == 0
    } else {
        &&& 0 <= k < inputs.len()
        &&& order_key(inputs[k]) <= order_key(time)
        &&& forall|j: int| k < j < inputs.len() ==> order_key(time) < order_key(#[trigger] inputs[j])
    }
}

/// The keyframe held at `time`.
pub open spec fn keyframe(inputs: Seq<u32>, time: u32) -> int {
    choose|k: int| holds_at(inputs, time, k)
}

/// At most one keyframe is held at a time.
pub proof fn lemma_held_keyframe_unique(inputs: Seq<u32>, time: u32, a: int, b: int)
    requires
        holds_at(inputs, time, a),
        holds_at(inputs, time, b),
    ensures
        a == b,
{
    if !(inputs.len() == 0 || order_key(time) < order_key(inputs[0])) {
        if a < b {
            assert(order_key(time) < order_key(inputs[b]));
        } else if b < a {
            assert(order_key(time) < order_key(inputs[a]));
        }
    }
}

/// Finds the keyframe held at `time` by binary search.
pub fn keyframe_index(inputs: &Vec<u32>, time: u32) -> (k: usize)
    requires
        ascending(inputs@),
    ensures
        holds_at(inputs@, time, k as int),
        k == keyframe(inputs@, time),
        k == 0 || k < inputs@.len(),
        inputs@.len() > 0 && order_key(time) < order_key(inputs@[0]) ==> k == 0,
        forall|i: int| 0 <= i < inputs@.len() && inputs@[i] == time ==> inputs@[k as int] == time,
{
    let t = total_order_key(time);
    let mut lo: usize = 0;
    let mut hi: usize = inputs.len();
    while lo < hi
        invariant
            lo <= hi <= inputs@.len(),
            ascending(inputs@),
            t == order_key(time),
            forall|i: int| 0 <= i < lo ==> order_key(#[trigger] inputs@[i]) <= t,
            forall|i: int| hi <= i < inputs@.len() ==> t < order_key(#[trigger] inputs@[i]),
        decreases hi - lo,
    {
        let mid = lo + (hi - lo) / 2;
        if total_order_key(inputs[mid]) <= t {
            proof {
                assert forall|i: int| 0 <= i < mid + 1 implies order_key(#[trigger] inputs@[i]) <= t by {
                    assert(order_key(inputs@[i]) <= order_key(inputs@[mid as int]));
                }
            }
            lo = mid + 1;
        } else {
            proof {
                assert forall|i: int| mid <= i < inputs@.len() implies t < order_key(
                    #[trigger] inputs@[i],
                ) by {
                    assert(order_key(inputs@[mid as int]) <= order_key(inputs@[i]));
                }
            }
            hi = mid;
        }
    }
    let k = if lo == 0 { 0 } else { lo - 1 };
    proof {
        assert(holds_at(inputs@, time, k as int));
        lemma_held_keyframe_unique(inputs@, time, k as int, keyframe(inputs@, time));
        assert forall|i: int| 0 <= i < inputs@.len() && inputs@[i] == time implies inputs@[k as int]
            == time by {
            assert(i <= k);
            assert(order_key(inputs@[i]) <= order_key(inputs@[k as int]));
            lemma_order_key_injective(inputs@[k as int], time);
        }
    }
    k
}

/// What `transform` returns for `d`.
pub open spec fn matrix_of<T: Fn(Decomposed) -> Mat4>(transform: T, d: Decomposed) -> Mat4 {
    choose|m: Mat4| transform.ensures((d,), m)
}

/// `transform` builds the matrix of a decomposed transform: it accepts every
/// one, and its result is a function of it.
pub open spec fn is_transform<T: Fn(Decomposed) -> Mat4>(transform: T) -> bool {
    &&& forall|d: Decomposed| #[trigger] transform.requires((d,))
    &&& forall|d: Decomposed, m: Mat4| #[trigger]
        transform.ensures((d,), m) ==> m == matrix_of(transform, d)
}

/// The matrix of `d` is a value that `transform` has returned for it: what
/// its own postcondition says of a result holds of the matrix.
pub open spec fn returns_matrix<T: Fn(Decomposed) -> Mat4>(transform: T, d: Decomposed) -> bool {
    transform.ensures((d,), matrix_of(transform, d))
}

impl Outputs {
    /// How many samples there are.
    pub open spec fn count(&self) -> nat {
        match self {
            Outputs::Translation(v) => v@.len(),
            Outputs::Rotation(v) => v@.len(),
            Outputs::Scale(v) => v@.len(),
        }
    }

    /// Sample `k` as a transform: a translation with no rotation and unit
    /// scale, a rotation alone, or a scale alone.
    pub open spec fn sample_spec(&self, k: int) -> Decomposed {
        match self {
            Outputs::Translation(v) => Decomposed {
                translation: v@[k],
                rotation: [ZERO, ZERO, ZERO, ONE],
                scale: [ONE, ONE, ONE],
            },
            Outputs::Rotation(v) => Decomposed {
                translation: [ZERO, ZERO, ZERO],
                rotation: v@[k],
                scale: [ONE, ONE, ONE],
            },
            Outputs::Scale(v) => Decomposed {
                translation: [ZERO, ZERO, ZERO],
                rotation: [ZERO, ZERO, ZERO, ONE],
                scale: v@[k],
            },
        }
    }

    /// The samples are the same, one for one.
    pub open spec fn same_as(&self, other: Outputs) -> bool {
        match (self, other) {
            (Outputs::Translation(a), Outputs::Translation(b)) => a@ == b@,
            (Outputs::Rotation(a), Outputs::Rotation(b)) => a@ == b@,
            (Outputs::Scale(a), Outputs::Scale(b)) => a@ == b@,
            _ => false,
        }
    }

    /// How many samples there are.
    pub fn len(&self) -> (n: usize)
        ensures
            n == self.count(),
    {
        match self {
            Outputs::Translation(v) => v.len(),
            Outputs::Rotation(v) => v.len(),
            Outputs::Scale(v) => v.len(),
        }
    }

    /// Sample `k` as a transform.
    pub fn sample(&self, k: usize) -> (d: Decomposed)
        requires
            k < self.count(),
        ensures
            d == self.sample_spec(k as int),
    {
        match self {
            Outputs::Translation(v) => Decomposed {
                translation: v[k],
                rotation: [ZERO, ZERO, ZERO, ONE],
                scale: [ONE, ONE, ONE],
            },
            Outputs::Rotation(v) => Decomposed {
                translation: [ZERO, ZERO, ZERO],
                rotation: v[k],
                scale: [ONE, ONE, ONE],
            },
            Outputs::Scale(v) => Decomposed {
                translation: [ZERO, ZERO, ZERO],
                rotation: [ZERO, ZERO, ZERO, ONE],
                scale: v[k],
            },
        }
    }

    /// A copy of the samples.
    pub fn duplicate(&self) -> (copy: Outputs)
        ensures
            copy.same_as(*self),
    {
        match self {
            Outputs::Translation(v) => Outputs::Translation(copy_of(v)),
            Outputs::Rotation(v) => Outputs::Rotation(copy_of(v)),
            Outputs::Scale(v) => Outputs::Scale(copy_of(v)),
        }
    }
}

/// One channel as the asset document gives it: either stream may be absent.
#[derive(Debug)]
pub struct ChannelData {
    pub target: usize,
    pub inputs: Option<Vec<u32>>,
    pub outputs: Option<Outputs>,
}

/// One animation as the asset document gives it.
#[derive(Debug)]
pub struct AnimationData {
    pub name: Option<String>,
    pub channels: Vec<ChannelData>,
}

impl Channel {
    /// The channel can be played: its times ascend, and every keyframe that
    /// can be held has a sample.
    pub open spec fn playable(&self) -> bool {
        &&& ascending(self.inputs@)
        &&& self.outputs.count() > 0
        &&& self.outputs.count() >= self.inputs@.len()
    }

    /// Whether the channel can be played.
    pub fn is_playable(&self) -> (r: bool)
        ensures
            r == self.playable(),
    {
        is_ascending(&self.inputs) && self.outputs.len() > 0 && self.outputs.len()
            >= self.inputs.len()
    }

    /// The sample held at `time`.
    pub open spec fn sampled(&self, time: u32) -> Decomposed {
        self.outputs.sample_spec(keyframe(self.inputs@, time))
    }

    /// Why a channel is rejected, if it is: it lacks its times, or else its
    /// samples.
    pub open spec fn rejection(data: ChannelData) -> Option<MeshLoadError> {
        if data.inputs is None {
            Some(MeshLoadError::MissingAnimationInputs)
        } else if data.outputs is None {
            Some(MeshLoadError::MissingAnimationOutputs)
        } else {
            None
        }
    }

    /// The channel holds what `data` gives, as it gives it.
    pub open spec fn loaded_from(&self, data: ChannelData) -> bool {
        &&& self.target == data.target
        &&& data.inputs matches Some(inputs) && self.inputs@ == inputs@
        &&& data.outputs matches Some(outputs) && self.outputs.same_as(outputs)
    }

    /// Takes a channel over as it is given. Only a missing stream is an
    /// error; whether the channel can be played is not looked at.
    pub fn load(data: &ChannelData) -> (r: Result<Channel, MeshLoadError>)
        ensures
            match r {
                Ok(channel) => data.inputs is Some && data.outputs is Some && channel.loaded_from(
                    *data,
                ),
                Err(e) => Channel::rejection(*data) == Some(e),
            },
            r is Ok <==> Channel::rejection(*data) is None,
    {
        let inputs = match &data.inputs {
            Some(inputs) => inputs,
            None => {
                return Err(MeshLoadError::MissingAnimationInputs);
            },
        };
        let outputs = match &data.outputs {
            Some(outputs) => outputs,
            None => {
                return Err(MeshLoadError::MissingAnimationOutputs);
            },
        };
        Ok(Channel { target: data.target, inputs: copy_of(inputs), outputs: outputs.duplicate() })
    }
}

/// A time before the first keyframe samples the first keyframe: nothing is
/// extrapolated.
pub proof fn lemma_before_first_samples_first(channel: Channel, time: u32)
    requires
        channel.inputs@.len() > 0,
        order_key(time) < order_key(channel.inputs@[0]),
    ensures
        keyframe(channel.inputs@, time) == 0,
        channel.sampled(time) == channel.outputs.sample_spec(0),
{
    assert(holds_at(channel.inputs@, time, 0));
}

/// A time equal to the time of a keyframe samples that keyframe, not the one
/// before it: where the times ascend and keyframe `i` is the last at that
/// time, it is the one held.
pub proof fn lemma_exact_time_samples_that_keyframe(channel: Channel, i: int)
    requires
        ascending(channel.inputs@),
        0 <= i < channel.inputs@.len(),
        i + 1 < channel.inputs@.len() ==> order_key(channel.inputs@[i]) < order_key(
            channel.inputs@[i + 1],
        ),
    ensures
        keyframe(channel.inputs@, channel.inputs@[i]) == i,
        channel.sampled(channel.inputs@[i]) == channel.outputs.sample_spec(i),
{
    let inputs = channel.inputs@;
    let time = inputs[i];
    assert(order_key(inputs[0]) <= order_key(time));
    assert forall|j: int| i < j < inputs.len() implies order_key(time) < order_key(
        #[trigger] inputs[j],
    ) by {
        assert(order_key(inputs[i + 1]) <= order_key(inputs[j]));
    }
    assert(holds_at(inputs, time, i));
    lemma_held_keyframe_unique(inputs, time, i, keyframe(inputs, time));
}

/// Whether the times ascend.
pub fn is_ascending(inputs: &Vec<u32>) -> (r: bool)
    ensures
        r == ascending(inputs@),
{
    let mut i: usize = 1;
    while i < inputs.len()
        invariant
            1 <= i,
            forall|a: int, b: int|
                0 <= a <= b < i && b < inputs@.len() ==> order_key(inputs@[a]) <= order_key(
                    inputs@[b],
                ),
        decreases inputs@.len() - i,
    {
        if !precedes_or_equals(inputs[i - 1], inputs[i]) {
            return false;
        }
        proof {
            assert forall|a: int, b: int| 0 <= a <= b < i + 1 && b < inputs@.len() implies order_key(
                inputs@[a],
            ) <= order_key(inputs@[b]) by {
                if b == i && a < i {
                    assert(order_key(inputs@[a]) <= order_key(inputs@[i - 1]));
                }
            }
        }
        i += 1;
    }
    true
}

/// The override table after the first `upto` channels have been applied at
/// `time`: each multiplies the matrix of its held sample onto its target's
/// entry from the left, in channel order.
pub open spec fn applied<T: Fn(Decomposed) -> Mat4, P: Fn(Mat4, Mat4) -> Mat4>(
    transform: T,
    compose: P,
    channels: Seq<Channel>,
    time: u32,
    table: Seq<Mat4>,
    upto: nat,
) -> Seq<Mat4>
    decreases upto,
{
    if upto == 0 {
        table
    } else {
        let before = applied(transform, compose, channels, time, table, (upto - 1) as nat);
        let channel = channels[upto - 1];
        before.update(
            channel.target as int,
            product(
                compose,
                matrix_of(transform, channel.sampled(time)),
                before[channel.target as int],
            ),
        )
    }
}

/// Channel `i` was applied by calls of the two functions: the matrix of its
/// held sample and the product onto its target's entry are values that they
/// have returned.
pub open spec fn applied_by_calls<T: Fn(Decomposed) -> Mat4, P: Fn(Mat4, Mat4) -> Mat4>(
    transform: T,
    compose: P,
    channels: Seq<Channel>,
    time: u32,
    table: Seq<Mat4>,
    i: int,
) -> bool {
    let before = applied(transform, compose, channels, time, table, i as nat);
    let sample = channels[i].sampled(time);
    &&& returns_matrix(transform, sample)
    &&& returns_product(compose, matrix_of(transform, sample), before[channels[i].target as int])
}

impl Animation {
    /// Every channel targets one of `node_count` nodes.
    pub open spec fn wf(&self, node_count: nat) -> bool {
        forall|i: int|
            0 <= i < self.channels@.len() ==> (#[trigger] self.channels@[i]).target < node_count
    }

    /// Whether every channel targets one of `node_count` nodes.
    pub fn is_well_formed(&self, node_count: usize) -> (r: bool)
        ensures
            r == self.wf(node_count as nat),
    {
        let mut c: usize = 0;
        while c < self.channels.len()
            invariant
                c <= self.channels@.len(),
                forall|j: int| 0 <= j < c ==> (#[trigger] self.channels@[j]).target < node_count,
            decreases self.channels@.len() - c,
        {
            if self.channels[c].target >= node_count {
                return false;
            }
            c += 1;
        }
        true
    }

    /// Every channel can be played.
    pub open spec fn playable(&self) -> bool {
        forall|i: int| 0 <= i < self.channels@.len() ==> (#[trigger] self.channels@[i]).playable()
    }

    /// Whether every channel can be played.
    pub fn is_playable(&self) -> (r: bool)
        ensures
            r == self.playable(),
    {
        let mut i: usize = 0;
        while i < self.channels.len()
            invariant
                i <= self.channels@.len(),
                forall|j: int| 0 <= j < i ==> (#[trigger] self.channels@[j]).playable(),
            decreases self.channels@.len() - i,
        {
            if !self.channels[i].is_playable() {
                return false;
            }
            i += 1;
        }
        true
    }

    /// The outcomes of loading each channel.
    pub open spec fn outcomes(data: AnimationData) -> Seq<Option<MeshLoadError>> {
        Seq::new(data.channels@.len(), |i: int| Channel::rejection(data.channels@[i]))
    }

    /// Why an animation is rejected, if it is: the first of its channels that
    /// lacks a stream decides.
    pub open spec fn rejection(data: AnimationData) -> Option<MeshLoadError> {
        first_error(Animation::outcomes(data))
    }

    /// The animation holds the channels of `data`, in their order.
    pub open spec fn loaded_from(&self, data: AnimationData) -> bool {
        &&& self.channels@.len() == data.channels@.len()
        &&& forall|i: int|
            0 <= i < self.channels@.len() ==> (#[trigger] self.channels@[i]).loaded_from(
                data.channels@[i],
            )
    }

    /// Takes the channels of an animation over, in their order. It is `Ok`
    /// exactly when every channel has both its streams.
    pub fn load(data: &AnimationData) -> (r: Result<Animation, MeshLoadError>)
        ensures
            match r {
                Ok(animation) => Animation::rejection(*data) is None && animation.loaded_from(*data),
                Err(e) => Animation::rejection(*data) == Some(e),
            },
            r is Ok <==> forall|i: int|
                0 <= i < data.channels@.len() ==> (#[trigger] data.channels@[i]).inputs is Some
                    && data.channels@[i].outputs is Some,
    {
        let mut channels: Vec<Channel> = Vec::new();
        let mut i: usize = 0;
        while i < data.channels.len()
            invariant
                i <= data.channels@.len(),
                channels@.len() == i,
                forall|j: int| 0 <= j < i ==> Channel::rejection(#[trigger] data.channels@[j]) is None,
                forall|j: int|
                    0 <= j < i ==> (#[trigger] channels@[j]).loaded_from(data.channels@[j]),
            decreases data.channels@.len() - i,
        {
            match Channel::load(&data.channels[i]) {
                Ok(channel) => {
                    channels.push(channel);
                },
                Err(e) => {
                    proof {
                        let outcomes = Animation::outcomes(*data);
                        assert forall|j: int| 0 <= j < i implies #[trigger] outcomes[j] is None by {
                            assert(Channel::rejection(data.channels@[j]) is None);
                        }
                        lemma_first_error_at(outcomes, i as int);
                        assert(Channel::rejection(data.channels@[i as int]) is Some);
                    }
                    return Err(e);
                },
            }
            i += 1;
        }
        proof {
            let outcomes = Animation::outcomes(*data);
            assert forall|j: int| 0 <= j < outcomes.len() implies #[trigger] outcomes[j] is None by {
                assert(Channel::rejection(data.channels@[j]) is None);
            }
            lemma_first_error_none(outcomes);
            assert forall|j: int| 0 <= j < data.channels@.len() implies (
            #[trigger] data.channels@[j]).inputs is Some && data.channels@[j].outputs is Some by {
                assert(Channel::rejection(data.channels@[j]) is None);
            }
        }
        Ok(Animation { channels })
    }

    /// Applies every channel at `time`, in channel order, onto the override
    /// table.
    pub fn apply<T: Fn(Decomposed) -> Mat4, P: Fn(Mat4, Mat4) -> Mat4>(
        &self,
        time: u32,
        table: &mut Vec<Mat4>,
        transform: &T,
        compose: &P,
    )
        requires
            self.wf(old(table)@.len()),
            self.playable(),
            is_transform(*transform),
            is_product(*compose),
        ensures
            final(table)@.len() == old(table)@.len(),
            final(table)@ == applied(
                *transform,
                *compose,
                self.channels@,
                time,
                old(table)@,
                self.channels@.len(),
            ),
            forall|i: int|
                0 <= i < self.channels@.len() ==> #[trigger] applied_by_calls(
                    *transform,
                    *compose,
                    self.channels@,
                    time,
                    old(table)@,
                    i,
                ),
    {
        let mut i: usize = 0;
        while i < self.channels.len()
            invariant
                i <= self.channels@.len(),
                self.wf(old(table)@.len()),
                self.playable(),
                is_transform(*transform),
                is_product(*compose),
                table@.len() == old(table)@.len(),
                table@ == applied(*transform, *compose, self.channels@, time, old(table)@, i as nat),
                forall|j: int|
                    0 <= j < i ==> #[trigger] applied_by_calls(
                        *transform,
                        *compose,
                        self.channels@,
                        time,
                        old(table)@,
                        j,
                    ),
            decreases self.channels@.len() - i,
        {
            let channel = &self.channels[i];
            let k = keyframe_index(&channel.inputs, time);
            let sample = channel.outputs.sample(k);
            let matrix = transform(sample);
            let target = channel.target;
            let entry = compose(matrix, table[target]);
            table.set(target, entry);
            i += 1;
        }
    }
}

} // verus!
