use batbox_la::mat4;
use geng_gltf::matrix::{compose3, identities};
use geng_gltf::stream::copy_of;
use geng_gltf::scalar::{from_index, precedes_or_equals, total_order_key, ONE, THOUSAND, ZERO};
use geng_gltf::Mat4;

fn pack(m: mat4<f32>) -> Mat4 {
    let flat = m.as_flat_array();
    let mut bits = [0u32; 16];
    for i in 0..16 {
        bits[i] = flat[i].to_bits();
    }
    Mat4 { bits }
}

fn unpack(m: Mat4) -> mat4<f32> {
    let mut r = mat4::<f32>::zero();
    let flat = r.as_flat_array_mut();
    for i in 0..16 {
        flat[i] = f32::from_bits(m.bits[i]);
    }
    r
}

fn compose(a: Mat4, b: Mat4) -> Mat4 {
    pack(unpack(a) * unpack(b))
}

fn samples() -> Vec<f32> {
    vec![
        0.0,
        -0.0,
        1.0,
        -1.0,
        0.5,
        2.0,
        1000.0,
        -1000.0,
        f32::MIN_POSITIVE,
        -f32::MIN_POSITIVE,
        f32::MAX,
        f32::MIN,
        f32::INFINITY,
        f32::NEG_INFINITY,
        f32::NAN,
        -f32::NAN,
        f32::from_bits(1),
        f32::from_bits(0x8000_0001),
    ]
}

#[test]
fn constants_are_the_patterns_of_their_values() {
    assert_eq!(ZERO, 0.0f32.to_bits());
    assert_eq!(ONE, 1.0f32.to_bits());
    assert_eq!(THOUSAND, 1000.0f32.to_bits());
}

#[test]
fn order_key_of_known_patterns() {
    assert_eq!(total_order_key(0.0f32.to_bits()), 0);
    assert_eq!(total_order_key((-0.0f32).to_bits()), -1);
    assert_eq!(total_order_key(1.0f32.to_bits()), 0x3f80_0000);
    assert_eq!(total_order_key((-1.0f32).to_bits()), -0x3f80_0001);
    assert_eq!(total_order_key(0x7fff_ffff), 0x7fff_ffff);
    assert_eq!(total_order_key(0xffff_ffff), -0x8000_0000);
}

#[test]
fn order_agrees_with_the_total_order_of_floats() {
    let values = samples();
    for a in values.iter() {
        for b in values.iter() {
            let expected = a.total_cmp(b) != std::cmp::Ordering::Greater;
            assert_eq!(precedes_or_equals(a.to_bits(), b.to_bits()), expected);
        }
    }
}

#[test]
fn negative_zero_comes_before_positive_zero() {
    assert!(precedes_or_equals((-0.0f32).to_bits(), 0.0f32.to_bits()));
    assert!(!precedes_or_equals(0.0f32.to_bits(), (-0.0f32).to_bits()));
}

#[test]
fn from_index_is_the_float_of_every_index() {
    for n in 0..=u16::MAX {
        assert_eq!(from_index(n), (n as f32).to_bits());
    }
}

#[test]
fn from_index_of_small_values() {
    assert_eq!(from_index(0), 0);
    assert_eq!(from_index(1), 0x3f80_0000);
    assert_eq!(from_index(2), 0x4000_0000);
    assert_eq!(from_index(3), 0x4040_0000);
    assert_eq!(from_index(65535), 0x477f_ff00);
}

#[test]
fn identity_agrees_with_the_matrix_algebra() {
    assert_eq!(Mat4::identity(), pack(mat4::<f32>::identity()));
    assert_eq!(Mat4::identity().bits[0], ONE);
    assert_eq!(Mat4::identity().bits[1], ZERO);
    assert_eq!(Mat4::identity().bits[5], ONE);
    assert_eq!(Mat4::identity().bits[10], ONE);
    assert_eq!(Mat4::identity().bits[15], ONE);
}

#[test]
fn identities_makes_that_many() {
    assert_eq!(identities(0), Vec::<Mat4>::new());
    assert_eq!(identities(3), vec![Mat4::identity(); 3]);
}

#[test]
fn copy_of_keeps_every_element() {
    let source = vec![3u32, 1, 4, 1, 5];
    assert_eq!(copy_of(&source), source);
    assert_eq!(copy_of(&Vec::<u8>::new()), Vec::<u8>::new());
}

#[test]
fn compose3_multiplies_from_the_left() {
    let a = pack(mat4::scale_uniform(2.0f32));
    let b = pack(mat4::translate(batbox_la::vec3(1.0f32, 2.0, 3.0)));
    let c = pack(mat4::scale_uniform(0.5f32));
    let expected = pack((unpack(a) * unpack(b)) * unpack(c));
    assert_eq!(compose3(&compose, a, b, c), expected);
    let other = pack(unpack(a) * (unpack(c) * unpack(b)));
    assert_ne!(compose3(&compose, a, b, c), other);
}
