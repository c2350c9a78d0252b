use batbox_la::mat4;
use geng_gltf::animation::{is_ascending, keyframe_index};
use geng_gltf::{
    Animation, AnimationData, Channel, ChannelData, Decomposed, Mat4, MeshLoadError, Outputs,
};

fn b(x: f32) -> u32 {
    x.to_bits()
}

fn pack(m: mat4<f32>) -> Mat4 {
    let flat = m.as_flat_array();
    let mut bits = [0u32; 16];
    for i in 0..16 {
        bits[i] = flat[i].to_bits();
    }
    Mat4 { bits }
}

fn unpack(m: Mat4) -> mat4<f32> {
    let mut r = mat4::<f32>::zero();
    let flat = r.as_flat_array_mut();
    for i in 0..16 {
        flat[i] = f32::from_bits(m.bits[i]);
    }
    r
}

fn compose(x: Mat4, y: Mat4) -> Mat4 {
    pack(unpack(x) * unpack(y))
}

fn transform(d: Decomposed) -> Mat4 {
    let matrix = gltf::scene::Transform::Decomposed {
        translation: d.translation.map(f32::from_bits),
        rotation: d.rotation.map(f32::from_bits),
        scale: d.scale.map(f32::from_bits),
    }
    .matrix();
    pack(mat4::new(matrix))
}

fn flat(values: [f32; 16]) -> Mat4 {
    Mat4 { bits: values.map(f32::to_bits) }
}

fn times(values: &[f32]) -> Vec<u32> {
    values.iter().map(|t| t.to_bits()).collect()
}

fn translation_channel(target: usize, inputs: &[f32], outputs: &[[f32; 3]]) -> ChannelData {
    ChannelData {
        target,
        inputs: Some(times(inputs)),
        outputs: Some(Outputs::Translation(
            outputs.iter().map(|o| o.map(f32::to_bits)).collect(),
        )),
    }
}

fn load(channels: Vec<ChannelData>) -> Animation {
    Animation::load(&AnimationData { name: Some("clip".to_owned()), channels }).unwrap()
}

#[test]
fn time_before_the_first_keyframe_holds_the_first() {
    let inputs = times(&[1.0, 2.0, 3.0]);
    assert_eq!(keyframe_index(&inputs, b(0.0)), 0);
    assert_eq!(keyframe_index(&inputs, b(-5.0)), 0);
    assert_eq!(keyframe_index(&inputs, b(f32::NEG_INFINITY)), 0);
}

#[test]
fn time_equal_to_a_keyframe_holds_that_keyframe() {
    let inputs = times(&[1.0, 2.0, 3.0]);
    assert_eq!(keyframe_index(&inputs, b(1.0)), 0);
    assert_eq!(keyframe_index(&inputs, b(2.0)), 1);
    assert_eq!(keyframe_index(&inputs, b(3.0)), 2);
}

#[test]
fn time_between_keyframes_holds_the_earlier() {
    let inputs = times(&[1.0, 2.0, 3.0]);
    assert_eq!(keyframe_index(&inputs, b(1.5)), 0);
    assert_eq!(keyframe_index(&inputs, b(2.999)), 1);
}

#[test]
fn time_after_the_last_keyframe_holds_the_last() {
    let inputs = times(&[1.0, 2.0, 3.0]);
    assert_eq!(keyframe_index(&inputs, b(3.5)), 2);
    assert_eq!(keyframe_index(&inputs, b(f32::INFINITY)), 2);
}

#[test]
fn no_keyframes_hold_index_zero() {
    assert_eq!(keyframe_index(&Vec::new(), b(1.0)), 0);
}

#[test]
fn equal_times_hold_the_last_of_them() {
    let inputs = times(&[1.0, 2.0, 2.0, 2.0, 3.0]);
    assert_eq!(keyframe_index(&inputs, b(2.0)), 3);
    assert_eq!(keyframe_index(&inputs, b(2.5)), 3);
}

#[test]
fn keyframe_agrees_with_binary_search_on_distinct_times() {
    let raw = [-2.0f32, -0.0, 0.0, 0.25, 1.0, 7.5, 100.0];
    let inputs = times(&raw);
    let probes = [-3.0f32, -2.0, -1.0, -0.0, 0.0, 0.1, 0.25, 0.5, 1.0, 5.0, 7.5, 99.0, 100.0, 101.0];
    for time in probes {
        let expected = match raw.binary_search_by(|t| t.total_cmp(&time)) {
            Ok(index) => index,
            Err(index) => index.saturating_sub(1),
        };
        assert_eq!(keyframe_index(&inputs, time.to_bits()), expected);
    }
}

#[test]
fn ascending_is_told_apart() {
    assert!(is_ascending(&times(&[])));
    assert!(is_ascending(&times(&[1.0])));
    assert!(is_ascending(&times(&[-1.0, -0.0, 0.0, 1.0, 1.0])));
    assert!(!is_ascending(&times(&[0.0, -0.0])));
    assert!(!is_ascending(&times(&[1.0, 3.0, 2.0])));
}

#[test]
fn samples_carry_one_property_each() {
    let translation = Outputs::Translation(vec![[b(1.0), b(2.0), b(3.0)]]);
    assert_eq!(
        translation.sample(0),
        Decomposed {
            translation: [b(1.0), b(2.0), b(3.0)],
            rotation: [b(0.0), b(0.0), b(0.0), b(1.0)],
            scale: [b(1.0), b(1.0), b(1.0)],
        }
    );
    let rotation = Outputs::Rotation(vec![[b(0.0), b(1.0), b(0.0), b(0.0)]]);
    assert_eq!(
        rotation.sample(0),
        Decomposed {
            translation: [b(0.0), b(0.0), b(0.0)],
            rotation: [b(0.0), b(1.0), b(0.0), b(0.0)],
            scale: [b(1.0), b(1.0), b(1.0)],
        }
    );
    let scale = Outputs::Scale(vec![[b(2.0), b(3.0), b(4.0)], [b(5.0), b(6.0), b(7.0)]]);
    assert_eq!(scale.len(), 2);
    assert_eq!(
        scale.sample(1),
        Decomposed {
            translation: [b(0.0), b(0.0), b(0.0)],
            rotation: [b(0.0), b(0.0), b(0.0), b(1.0)],
            scale: [b(5.0), b(6.0), b(7.0)],
        }
    );
}

#[test]
fn duplicate_keeps_the_samples() {
    let outputs = Outputs::Rotation(vec![[1, 2, 3, 4], [5, 6, 7, 8]]);
    match outputs.duplicate() {
        Outputs::Rotation(samples) => assert_eq!(samples, vec![[1, 2, 3, 4], [5, 6, 7, 8]]),
        _ => panic!("a rotation stays a rotation"),
    }
}

#[test]
fn channel_without_inputs_is_rejected() {
    let data = ChannelData {
        target: 0,
        inputs: None,
        outputs: Some(Outputs::Scale(vec![[b(1.0); 3]])),
    };
    assert_eq!(Channel::load(&data).unwrap_err(), MeshLoadError::MissingAnimationInputs);
    let neither = ChannelData { target: 0, inputs: None, outputs: None };
    assert_eq!(Channel::load(&neither).unwrap_err(), MeshLoadError::MissingAnimationInputs);
}

#[test]
fn channel_without_outputs_is_rejected() {
    let data = ChannelData { target: 0, inputs: Some(times(&[0.0])), outputs: None };
    assert_eq!(Channel::load(&data).unwrap_err(), MeshLoadError::MissingAnimationOutputs);
}

#[test]
fn channel_with_descending_times_loads_as_given() {
    let data = translation_channel(0, &[0.0, 2.0, 1.0], &[[0.0; 3], [1.0; 3], [2.0; 3]]);
    let channel = Channel::load(&data).unwrap();
    assert_eq!(channel.inputs, times(&[0.0, 2.0, 1.0]));
    assert!(!channel.is_playable());
}

#[test]
fn channel_with_fewer_samples_than_keyframes_loads_as_given() {
    let data = translation_channel(3, &[0.0, 1.0], &[[5.0; 3]]);
    let channel = Channel::load(&data).unwrap();
    assert_eq!(channel.target, 3);
    assert_eq!(channel.inputs, times(&[0.0, 1.0]));
    assert_eq!(channel.outputs.len(), 1);
    assert!(!channel.is_playable());
    let empty = Channel::load(&translation_channel(0, &[], &[])).unwrap();
    assert!(empty.inputs.is_empty());
    assert!(!empty.is_playable());
}

#[test]
fn channel_is_playable_with_ascending_times_and_a_sample_for_each() {
    let exact = Channel::load(&translation_channel(0, &[0.0, 1.0], &[[0.0; 3], [1.0; 3]])).unwrap();
    assert!(exact.is_playable());
    let spare =
        Channel::load(&translation_channel(0, &[0.0], &[[0.0; 3], [1.0; 3], [2.0; 3]])).unwrap();
    assert!(spare.is_playable());
    let untimed = Channel::load(&translation_channel(0, &[], &[[0.0; 3]])).unwrap();
    assert!(untimed.is_playable());
    let equal = Channel::load(&translation_channel(0, &[1.0, 1.0], &[[0.0; 3], [1.0; 3]])).unwrap();
    assert!(equal.is_playable());
}

#[test]
fn animation_is_playable_when_every_channel_is() {
    let good = load(vec![
        translation_channel(0, &[0.0], &[[0.0; 3]]),
        translation_channel(1, &[0.0, 1.0], &[[0.0; 3], [1.0; 3]]),
    ]);
    assert!(good.is_playable());
    let bad = load(vec![
        translation_channel(0, &[0.0], &[[0.0; 3]]),
        translation_channel(1, &[1.0, 0.0], &[[0.0; 3], [1.0; 3]]),
    ]);
    assert!(!bad.is_playable());
    assert!(load(vec![]).is_playable());
}

#[test]
fn animation_targets_are_told_apart() {
    let animation = load(vec![
        translation_channel(0, &[0.0], &[[0.0; 3]]),
        translation_channel(4, &[0.0], &[[0.0; 3]]),
    ]);
    assert!(animation.is_well_formed(5));
    assert!(!animation.is_well_formed(4));
}

#[test]
fn missing_stream_decides_after_a_channel_that_cannot_be_played() {
    let data = AnimationData {
        name: None,
        channels: vec![
            translation_channel(0, &[1.0, 0.0], &[[0.0; 3], [0.0; 3]]),
            translation_channel(0, &[0.0, 1.0], &[[0.0; 3]]),
            ChannelData { target: 0, inputs: None, outputs: None },
        ],
    };
    assert_eq!(Animation::load(&data).unwrap_err(), MeshLoadError::MissingAnimationInputs);
}

#[test]
fn animation_with_both_streams_everywhere_loads_in_source_order() {
    let data = AnimationData {
        name: None,
        channels: vec![
            translation_channel(2, &[3.0, 1.0, 2.0], &[[1.0; 3]]),
            ChannelData {
                target: 0,
                inputs: Some(times(&[0.5])),
                outputs: Some(Outputs::Rotation(vec![[b(0.0), b(0.0), b(0.0), b(1.0)]])),
            },
        ],
    };
    let animation = Animation::load(&data).unwrap();
    assert_eq!(animation.channels.len(), 2);
    assert_eq!(animation.channels[0].target, 2);
    assert_eq!(animation.channels[0].inputs, times(&[3.0, 1.0, 2.0]));
    assert_eq!(animation.channels[1].target, 0);
    match &animation.channels[1].outputs {
        Outputs::Rotation(samples) => {
            assert_eq!(samples, &vec![[b(0.0), b(0.0), b(0.0), b(1.0)]])
        }
        _ => panic!("a rotation stays a rotation"),
    }
}

#[test]
fn channel_is_taken_over_as_given() {
    let data = translation_channel(4, &[0.0, 1.0], &[[1.0, 2.0, 3.0], [4.0, 5.0, 6.0]]);
    let channel = Channel::load(&data).unwrap();
    assert_eq!(channel.target, 4);
    assert_eq!(channel.inputs, times(&[0.0, 1.0]));
    match channel.outputs {
        Outputs::Translation(samples) => {
            assert_eq!(samples, vec![[b(1.0), b(2.0), b(3.0)], [b(4.0), b(5.0), b(6.0)]])
        }
        _ => panic!("a translation stays a translation"),
    }
}

#[test]
fn animation_reports_its_first_rejected_channel() {
    let data = AnimationData {
        name: None,
        channels: vec![
            translation_channel(0, &[0.0], &[[0.0; 3]]),
            ChannelData { target: 0, inputs: Some(times(&[0.0])), outputs: None },
            ChannelData { target: 0, inputs: None, outputs: None },
        ],
    };
    assert_eq!(Animation::load(&data).unwrap_err(), MeshLoadError::MissingAnimationOutputs);
}

#[test]
fn animation_keeps_its_channels_in_order() {
    let animation = load(vec![
        translation_channel(2, &[0.0], &[[0.0; 3]]),
        translation_channel(0, &[0.0], &[[0.0; 3]]),
        translation_channel(1, &[0.0], &[[0.0; 3]]),
    ]);
    let targets: Vec<usize> = animation.channels.iter().map(|c| c.target).collect();
    assert_eq!(targets, vec![2, 0, 1]);
}

#[test]
fn translation_is_multiplied_onto_the_target() {
    let animation =
        load(vec![translation_channel(1, &[0.0, 1.0], &[[1.0, 2.0, 3.0], [4.0, 5.0, 6.0]])]);
    let mut table = vec![Mat4::identity(); 3];
    animation.apply(b(0.5), &mut table, &transform, &compose);
    assert_eq!(table[0], Mat4::identity());
    assert_eq!(table[2], Mat4::identity());
    assert_eq!(
        table[1],
        flat([1.0, 0.0, 0.0, 1.0, 0.0, 1.0, 0.0, 2.0, 0.0, 0.0, 1.0, 3.0, 0.0, 0.0, 0.0, 1.0])
    );
    let mut later = vec![Mat4::identity(); 3];
    animation.apply(b(1.0), &mut later, &transform, &compose);
    assert_eq!(
        later[1],
        flat([1.0, 0.0, 0.0, 4.0, 0.0, 1.0, 0.0, 5.0, 0.0, 0.0, 1.0, 6.0, 0.0, 0.0, 0.0, 1.0])
    );
}

#[test]
fn applying_twice_without_a_reset_accumulates() {
    let animation = load(vec![translation_channel(0, &[0.0], &[[1.0, 2.0, 3.0]])]);
    let mut table = vec![Mat4::identity()];
    animation.apply(b(0.0), &mut table, &transform, &compose);
    animation.apply(b(0.0), &mut table, &transform, &compose);
    assert_eq!(
        table[0],
        flat([1.0, 0.0, 0.0, 2.0, 0.0, 1.0, 0.0, 4.0, 0.0, 0.0, 1.0, 6.0, 0.0, 0.0, 0.0, 1.0])
    );
}

#[test]
fn channels_on_one_node_multiply_in_channel_order() {
    let scale = ChannelData {
        target: 0,
        inputs: Some(times(&[0.0])),
        outputs: Some(Outputs::Scale(vec![[b(2.0), b(2.0), b(2.0)]])),
    };
    let shift = translation_channel(0, &[0.0], &[[1.0, 0.0, 0.0]]);
    let scale_then_shift = load(vec![
        ChannelData {
            target: 0,
            inputs: Some(times(&[0.0])),
            outputs: Some(Outputs::Scale(vec![[b(2.0), b(2.0), b(2.0)]])),
        },
        translation_channel(0, &[0.0], &[[1.0, 0.0, 0.0]]),
    ]);
    let shift_then_scale = load(vec![shift, scale]);
    let start = pack(mat4::translate(batbox_la::vec3(0.0f32, 5.0, 0.0)));

    let mut first = vec![start];
    scale_then_shift.apply(b(0.0), &mut first, &transform, &compose);
    let s = transform(Outputs::Scale(vec![[b(2.0); 3]]).sample(0));
    let t = transform(Outputs::Translation(vec![[b(1.0), b(0.0), b(0.0)]]).sample(0));
    assert_eq!(first[0], compose(t, compose(s, start)));

    let mut second = vec![start];
    shift_then_scale.apply(b(0.0), &mut second, &transform, &compose);
    assert_eq!(second[0], compose(s, compose(t, start)));
    assert_ne!(first[0], second[0]);
}

#[test]
fn rotation_channel_sets_rotation_only() {
    let half = std::f32::consts::FRAC_1_SQRT_2;
    let animation = load(vec![ChannelData {
        target: 0,
        inputs: Some(times(&[0.0])),
        outputs: Some(Outputs::Rotation(vec![[b(0.0), b(0.0), b(half), b(half)]])),
    }]);
    let mut table = vec![Mat4::identity()];
    animation.apply(b(3.0), &mut table, &transform, &compose);
    let expected = gltf::scene::Transform::Decomposed {
        translation: [0.0, 0.0, 0.0],
        rotation: [0.0, 0.0, half, half],
        scale: [1.0, 1.0, 1.0],
    }
    .matrix();
    assert_eq!(table[0], compose(pack(mat4::new(expected)), Mat4::identity()));
    assert_eq!(table[0].bits[3], b(0.0));
    assert_eq!(table[0].bits[15], b(1.0));
}

#[test]
fn application_agrees_with_a_plain_loop_over_floats() {
    let clips: Vec<(usize, Vec<f32>, Vec<[f32; 3]>)> = vec![
        (1, vec![0.0, 0.5, 2.0], vec![[1.0, 0.0, 0.0], [0.0, 2.0, 0.0], [0.0, 0.0, 3.0]]),
        (0, vec![1.0], vec![[5.0, 5.0, 5.0]]),
        (1, vec![-1.0, 1.0], vec![[0.5, 0.5, 0.5], [7.0, 8.0, 9.0]]),
    ];
    let animation = load(
        clips.iter().map(|(target, inputs, outputs)| translation_channel(*target, inputs, outputs)).collect(),
    );
    for time in [-2.0f32, -1.0, 0.0, 0.25, 0.5, 1.0, 1.5, 2.0, 10.0] {
        let start = [mat4::scale_uniform(2.0f32), mat4::rotate_y(batbox_la::Angle::from_radians(0.7))];
        let mut expected = start;
        for (target, inputs, outputs) in clips.iter() {
            let index = match inputs.binary_search_by(|t| t.total_cmp(&time)) {
                Ok(index) => index,
                Err(index) => index.saturating_sub(1),
            };
            let sampled = mat4::new(
                gltf::scene::Transform::Decomposed {
                    translation: outputs[index],
                    rotation: [0.0, 0.0, 0.0, 1.0],
                    scale: [1.0, 1.0, 1.0],
                }
                .matrix(),
            );
            expected[*target] = sampled * expected[*target];
        }
        let mut table: Vec<Mat4> = start.iter().map(|m| pack(*m)).collect();
        animation.apply(time.to_bits(), &mut table, &transform, &compose);
        assert_eq!(table, expected.iter().map(|m| pack(*m)).collect::<Vec<_>>());
    }
}
