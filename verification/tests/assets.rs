use batbox_la::mat4;
use geng_gltf::material::{map_wrap_mode, resolve_filter, texel_layout, resolve_texture, white_texture};
use geng_gltf::mesh::draw_mode;
use geng_gltf::{
    DrawMode, Filter, Format, ImageData, ImageFormat, Joint, MagFilter, Mat4, Material,
    MaterialData, Mesh, MeshLoadError, MinFilter, Mode, PrimitiveData, PrimitiveMaterial,
    Projection, ProjectionData, Skin, SkinData, TextureInfo, Type, Vertex, WrapMode, WrappingMode,
};

fn b(x: f32) -> u32 {
    x.to_bits()
}

fn pack(m: mat4<f32>) -> Mat4 {
    let flat = m.as_flat_array();
    let mut bits = [0u32; 16];
    for i in 0..16 {
        bits[i] = flat[i].to_bits();
    }
    Mat4 { bits }
}

fn unpack(m: Mat4) -> mat4<f32> {
    let mut r = mat4::<f32>::zero();
    let flat = r.as_flat_array_mut();
    for i in 0..16 {
        flat[i] = f32::from_bits(m.bits[i]);
    }
    r
}

fn compose(x: Mat4, y: Mat4) -> Mat4 {
    pack(unpack(x) * unpack(y))
}

fn points(values: &[[f32; 3]]) -> Vec<[u32; 3]> {
    values.iter().map(|p| p.map(f32::to_bits)).collect()
}

fn bare(positions: &[[f32; 3]], indices: &[u32]) -> PrimitiveData {
    PrimitiveData {
        positions: Some(points(positions)),
        normals: None,
        tex_coords: None,
        colors: None,
        joints: None,
        weights: None,
        indices: Some(indices.to_vec()),
        mode: Mode::Triangles,
        material: PrimitiveMaterial::Indexed(0),
    }
}

fn sampler(source: usize) -> TextureInfo {
    TextureInfo {
        source,
        mag_filter: None,
        min_filter: None,
        wrap_s: WrappingMode::Repeat,
        wrap_t: WrappingMode::Repeat,
    }
}

fn image(format: ImageFormat) -> ImageData {
    ImageData { format, width: 2, height: 1, pixels: vec![1, 2, 3, 4, 5, 6, 7, 8] }
}

#[test]
fn bare_primitive_gets_default_attributes() {
    let primitive = bare(&[[1.0, 2.0, 3.0], [4.0, 5.0, 6.0]], &[1, 0]);
    let mesh = Mesh::load(&primitive, 0).unwrap();
    assert_eq!(
        mesh.data,
        vec![
            Vertex {
                a_pos: [b(4.0), b(5.0), b(6.0)],
                a_normal: [b(0.0); 3],
                a_uv: [b(0.0); 2],
                a_color: [b(1.0); 4],
                a_joints: [b(0.0); 4],
                a_weights: [b(0.0); 4],
            },
            Vertex {
                a_pos: [b(1.0), b(2.0), b(3.0)],
                a_normal: [b(0.0); 3],
                a_uv: [b(0.0); 2],
                a_color: [b(1.0); 4],
                a_joints: [b(0.0); 4],
                a_weights: [b(0.0); 4],
            },
        ]
    );
}

#[test]
fn mesh_has_one_vertex_per_index() {
    let primitive = bare(&[[0.0; 3], [1.0; 3], [2.0; 3]], &[2, 2, 0, 1, 2, 0]);
    let mesh = Mesh::load(&primitive, 7).unwrap();
    let xs: Vec<u32> = mesh.data.iter().map(|v| v.a_pos[0]).collect();
    assert_eq!(xs, vec![b(2.0), b(2.0), b(0.0), b(1.0), b(2.0), b(0.0)]);
    assert_eq!(mesh.material, 7);
    assert_eq!(mesh.mode, DrawMode::Triangles);
}

#[test]
fn mesh_without_indices_to_draw_is_empty() {
    let mesh = Mesh::load(&bare(&[[0.0; 3]], &[]), 0).unwrap();
    assert!(mesh.data.is_empty());
}

#[test]
fn full_primitive_copies_every_stream() {
    let primitive = PrimitiveData {
        positions: Some(points(&[[1.0, 2.0, 3.0], [4.0, 5.0, 6.0]])),
        normals: Some(points(&[[0.0, 0.0, 1.0], [0.0, 1.0, 0.0]])),
        tex_coords: Some(vec![[b(0.25), b(0.75)], [b(0.5), b(0.5)]]),
        colors: Some(vec![[b(1.0), b(0.0), b(0.0), b(1.0)], [b(0.0), b(1.0), b(0.0), b(0.5)]]),
        joints: Some(vec![[0, 1, 2, 3], [7, 0, 0, 65535]]),
        weights: Some(vec![[b(0.5), b(0.5), b(0.0), b(0.0)], [b(1.0), b(0.0), b(0.0), b(0.0)]]),
        indices: Some(vec![1]),
        mode: Mode::Points,
        material: PrimitiveMaterial::Indexed(0),
    };
    let mesh = Mesh::load(&primitive, 0).unwrap();
    assert_eq!(
        mesh.data,
        vec![Vertex {
            a_pos: [b(4.0), b(5.0), b(6.0)],
            a_normal: [b(0.0), b(1.0), b(0.0)],
            a_uv: [b(0.5), b(0.5)],
            a_color: [b(0.0), b(1.0), b(0.0), b(0.5)],
            a_joints: [b(7.0), b(0.0), b(0.0), b(65535.0)],
            a_weights: [b(1.0), b(0.0), b(0.0), b(0.0)],
        }]
    );
    assert_eq!(mesh.mode, DrawMode::Points);
}

#[test]
fn primitive_without_positions_is_rejected() {
    let mut primitive = bare(&[], &[0]);
    primitive.positions = None;
    assert_eq!(Mesh::load(&primitive, 0).unwrap_err(), MeshLoadError::MissingPositions);
    primitive.indices = None;
    assert_eq!(Mesh::load(&primitive, 0).unwrap_err(), MeshLoadError::MissingPositions);
}

#[test]
fn primitive_without_indices_is_rejected() {
    let mut primitive = bare(&[[0.0; 3]], &[]);
    primitive.indices = None;
    assert_eq!(Mesh::load(&primitive, 0).unwrap_err(), MeshLoadError::MissingIndices);
}

#[test]
fn index_past_a_stream_is_rejected() {
    assert_eq!(
        Mesh::load(&bare(&[[0.0; 3]], &[0, 1]), 0).unwrap_err(),
        MeshLoadError::InvalidIndex
    );
    let mut short_normals = bare(&[[0.0; 3], [1.0; 3]], &[0, 1]);
    short_normals.normals = Some(points(&[[0.0, 0.0, 1.0]]));
    assert_eq!(Mesh::load(&short_normals, 0).unwrap_err(), MeshLoadError::InvalidIndex);
    let mut unused = bare(&[[0.0; 3], [1.0; 3]], &[0, 0]);
    unused.normals = Some(points(&[[0.0, 0.0, 1.0]]));
    assert!(Mesh::load(&unused, 0).is_ok());
}

#[test]
fn each_mode_has_its_topology() {
    assert_eq!(draw_mode(Mode::Points), DrawMode::Points);
    assert_eq!(draw_mode(Mode::Lines), DrawMode::Lines { line_width: b(1.0) });
    assert_eq!(draw_mode(Mode::LineLoop), DrawMode::LineLoop { line_width: b(1.0) });
    assert_eq!(draw_mode(Mode::LineStrip), DrawMode::LineStrip { line_width: b(1.0) });
    assert_eq!(draw_mode(Mode::Triangles), DrawMode::Triangles);
    assert_eq!(draw_mode(Mode::TriangleStrip), DrawMode::TriangleStrip);
    assert_eq!(draw_mode(Mode::TriangleFan), DrawMode::TriangleFan);
}

#[test]
fn material_without_a_texture_is_white() {
    let data = MaterialData {
        base_color_factor: [b(0.2), b(0.4), b(0.6), b(0.8)],
        base_color_texture: None,
    };
    let material = Material::load(&data, &vec![]).unwrap();
    assert_eq!(material.base_color, [b(0.2), b(0.4), b(0.6), b(0.8)]);
    assert_eq!((material.base_texture.width, material.base_texture.height), (1, 1));
    assert_eq!(material.base_texture.pixels, vec![255, 255, 255, 255]);
    assert_eq!(material.base_texture.format, Format::RGBA);
    assert_eq!(material.base_texture.pixel_type, Type::UnsignedByte);
    assert_eq!(material.base_texture.filter, None);
    assert_eq!(material.base_texture.wrap, None);
}

#[test]
fn white_texture_is_one_opaque_white_texel() {
    let texture = white_texture();
    assert_eq!((texture.width, texture.height), (1, 1));
    assert_eq!(texture.pixels, vec![255, 255, 255, 255]);
}

#[test]
fn sixteen_bit_formats_are_unsigned_shorts() {
    for format in [
        ImageFormat::R16,
        ImageFormat::R16G16,
        ImageFormat::R16G16B16,
        ImageFormat::R16G16B16A16,
    ] {
        assert_eq!(texel_layout(format).1, Type::UnsignedShort);
        let texture = resolve_texture(&sampler(0), &vec![image(format)]);
        assert_eq!(texture.pixel_type, Type::UnsignedShort);
    }
}

#[test]
fn texture_shows_its_image() {
    let images = vec![image(ImageFormat::R8), image(ImageFormat::R8G8B8A8)];
    let mut info = sampler(1);
    info.mag_filter = Some(MagFilter::Nearest);
    info.wrap_s = WrappingMode::ClampToEdge;
    info.wrap_t = WrappingMode::MirroredRepeat;
    let texture = resolve_texture(&info, &images);
    assert_eq!((texture.width, texture.height), (2, 1));
    assert_eq!(texture.pixels, vec![1, 2, 3, 4, 5, 6, 7, 8]);
    assert_eq!((texture.format, texture.pixel_type), (Format::RGBA, Type::UnsignedByte));
    assert_eq!(texture.filter, Some(Filter::Nearest));
    assert_eq!(texture.wrap, Some((WrapMode::Clamp, WrapMode::Repeat)));
}

#[test]
fn material_with_a_texture_takes_it_over() {
    let data = MaterialData { base_color_factor: [b(1.0); 4], base_color_texture: Some(sampler(0)) };
    let material = Material::load(&data, &vec![image(ImageFormat::R16G16)]).unwrap();
    assert_eq!(material.base_texture.format, Format::RG);
    assert_eq!(material.base_texture.pixel_type, Type::UnsignedShort);
    assert_eq!(material.base_texture.filter, None);
    assert_eq!(material.base_texture.wrap, Some((WrapMode::Repeat, WrapMode::Repeat)));
}

#[test]
fn texture_of_an_image_that_does_not_exist_is_rejected() {
    let data = MaterialData { base_color_factor: [b(1.0); 4], base_color_texture: Some(sampler(1)) };
    assert_eq!(
        Material::load(&data, &vec![image(ImageFormat::R8)]).unwrap_err(),
        MeshLoadError::InvalidIndex
    );
}

#[test]
fn every_image_format_has_its_layout() {
    assert_eq!(texel_layout(ImageFormat::R8), (Format::R, Type::UnsignedByte));
    assert_eq!(texel_layout(ImageFormat::R8G8), (Format::RG, Type::UnsignedByte));
    assert_eq!(texel_layout(ImageFormat::R8G8B8), (Format::RGB, Type::UnsignedByte));
    assert_eq!(texel_layout(ImageFormat::R8G8B8A8), (Format::RGBA, Type::UnsignedByte));
    assert_eq!(texel_layout(ImageFormat::R16), (Format::R, Type::UnsignedShort));
    assert_eq!(texel_layout(ImageFormat::R16G16), (Format::RG, Type::UnsignedShort));
    assert_eq!(texel_layout(ImageFormat::R16G16B16), (Format::RGB, Type::UnsignedShort));
    assert_eq!(texel_layout(ImageFormat::R16G16B16A16), (Format::RGBA, Type::UnsignedShort));
    assert_eq!(texel_layout(ImageFormat::R32G32B32FLOAT), (Format::RGB, Type::Float));
    assert_eq!(texel_layout(ImageFormat::R32G32B32A32FLOAT), (Format::RGBA, Type::Float));
}

#[test]
fn magnification_filter_wins() {
    assert_eq!(
        resolve_filter(Some(MagFilter::Linear), Some(MinFilter::Nearest)),
        Some(Filter::Linear)
    );
    assert_eq!(resolve_filter(Some(MagFilter::Nearest), None), Some(Filter::Nearest));
}

#[test]
fn missing_magnification_filter_falls_back_on_minification() {
    assert_eq!(resolve_filter(None, Some(MinFilter::Nearest)), Some(Filter::Nearest));
    assert_eq!(resolve_filter(None, Some(MinFilter::NearestMipmapNearest)), Some(Filter::Nearest));
    assert_eq!(resolve_filter(None, Some(MinFilter::NearestMipmapLinear)), Some(Filter::Nearest));
    assert_eq!(resolve_filter(None, Some(MinFilter::Linear)), Some(Filter::Linear));
    assert_eq!(resolve_filter(None, Some(MinFilter::LinearMipmapNearest)), Some(Filter::Linear));
    assert_eq!(resolve_filter(None, Some(MinFilter::LinearMipmapLinear)), Some(Filter::Linear));
    assert_eq!(resolve_filter(None, None), None);
}

#[test]
fn mirrored_repeat_becomes_repeat() {
    assert_eq!(map_wrap_mode(WrappingMode::ClampToEdge), WrapMode::Clamp);
    assert_eq!(map_wrap_mode(WrappingMode::MirroredRepeat), WrapMode::Repeat);
    assert_eq!(map_wrap_mode(WrappingMode::Repeat), WrapMode::Repeat);
}

#[test]
fn skin_pairs_joints_with_matrices_in_order() {
    let first = pack(mat4::scale_uniform(2.0f32));
    let second = pack(mat4::scale_uniform(3.0f32));
    let data = SkinData {
        joints: vec![4, 1],
        inverse_bind_matrices: Some(vec![first, second, Mat4::identity()]),
    };
    let skin = Skin::load(&data, 5).unwrap();
    assert_eq!(
        skin.joints,
        vec![
            Joint { node_index: 4, inverse_bind_matrix: first },
            Joint { node_index: 1, inverse_bind_matrix: second },
        ]
    );
}

#[test]
fn skin_without_inverse_bind_matrices_is_rejected() {
    let data = SkinData { joints: vec![0], inverse_bind_matrices: None };
    assert_eq!(Skin::load(&data, 1).unwrap_err(), MeshLoadError::MissingInverseBindMatrices);
    let short = SkinData { joints: vec![0, 0], inverse_bind_matrices: Some(vec![Mat4::identity()]) };
    assert_eq!(Skin::load(&short, 1).unwrap_err(), MeshLoadError::MissingInverseBindMatrices);
}

#[test]
fn joint_on_a_node_that_does_not_exist_is_rejected() {
    let data = SkinData { joints: vec![0, 3], inverse_bind_matrices: Some(vec![Mat4::identity(); 2]) };
    assert_eq!(Skin::load(&data, 3).unwrap_err(), MeshLoadError::InvalidIndex);
    assert!(Skin::load(&data, 4).is_ok());
}

#[test]
fn skin_joints_are_told_apart() {
    let skin = Skin {
        joints: vec![
            Joint { node_index: 0, inverse_bind_matrix: Mat4::identity() },
            Joint { node_index: 2, inverse_bind_matrix: Mat4::identity() },
        ],
    };
    assert!(skin.is_well_formed(3));
    assert!(!skin.is_well_formed(2));
}

#[test]
fn joint_matrices_at_rest_are_identity() {
    let skin = Skin {
        joints: vec![
            Joint { node_index: 1, inverse_bind_matrix: Mat4::identity() },
            Joint { node_index: 0, inverse_bind_matrix: Mat4::identity() },
        ],
    };
    let world = vec![Mat4::identity(); 2];
    assert_eq!(skin.uniforms(&world, &compose), vec![Mat4::identity(); 2]);
}

#[test]
fn joint_matrix_is_world_transform_times_inverse_bind_matrix() {
    let bind = pack(mat4::translate(batbox_la::vec3(0.0f32, -2.0, 0.0)));
    let skin = Skin {
        joints: vec![
            Joint { node_index: 1, inverse_bind_matrix: bind },
            Joint { node_index: 0, inverse_bind_matrix: Mat4::identity() },
        ],
    };
    let world = vec![pack(mat4::scale_uniform(4.0f32)), pack(mat4::scale_uniform(2.0f32))];
    let matrices = skin.uniforms(&world, &compose);
    assert_eq!(matrices.len(), 2);
    assert_eq!(matrices[0], pack(mat4::scale_uniform(2.0f32) * unpack(bind)));
    assert_ne!(matrices[0], pack(unpack(bind) * mat4::scale_uniform(2.0f32)));
    assert_eq!(matrices[1], world[0]);
}

#[test]
fn perspective_without_a_far_plane_gets_one() {
    let data = ProjectionData::Perspective {
        aspect_ratio: Some(b(1.5)),
        yfov: b(0.8),
        znear: b(0.1),
        zfar: None,
    };
    assert_eq!(
        Projection::from(data),
        Projection::Perspective {
            aspect_ratio: Some(b(1.5)),
            y_fov: b(0.8),
            z_near: b(0.1),
            z_far: b(1000.0),
        }
    );
    let far = ProjectionData::Perspective {
        aspect_ratio: None,
        yfov: b(0.8),
        znear: b(0.1),
        zfar: Some(b(50.0)),
    };
    assert_eq!(
        Projection::from(far),
        Projection::Perspective { aspect_ratio: None, y_fov: b(0.8), z_near: b(0.1), z_far: b(50.0) }
    );
}

#[test]
fn orthographic_is_taken_over() {
    let data =
        ProjectionData::Orthographic { xmag: b(2.0), ymag: b(3.0), znear: b(0.5), zfar: b(9.0) };
    assert_eq!(
        Projection::from(data),
        Projection::Orthographic { x_mag: b(2.0), y_mag: b(3.0), z_near: b(0.5), z_far: b(9.0) }
    );
}

#[test]
fn errors_have_their_words() {
    assert_eq!(MeshLoadError::MissingPositions.message(), "Missing positions");
    assert_eq!(
        MeshLoadError::MissingIndices.message(),
        "Missing indices, this is not supported yet"
    );
    assert_eq!(
        MeshLoadError::MissingInverseBindMatrices.message(),
        "Missing inverse bind matrices"
    );
    assert_eq!(
        MeshLoadError::NoDefaultScene.message(),
        "No default scene, multiple scenes are not supported yet"
    );
    assert_eq!(MeshLoadError::MissingAnimationInputs.message(), "Missing animation inputs (time)");
    assert_eq!(MeshLoadError::MissingAnimationOutputs.message(), "Missing animation outputs");
    assert_ne!(MeshLoadError::InvalidIndex.message(), "");
    assert_eq!(
        MeshLoadError::InvalidHierarchy.message(),
        "The default scene reaches a node from itself"
    );
}
