//! Materials: a base colour and a base texture, resolved from the material
//! definition with defaults where the asset says nothing.

use vstd::prelude::*;
use crate::error::MeshLoadError;
use crate::stream::copy_of;

verus! {

/// The channels and bit depth of a decoded image.
#[derive(Clone, Copy, Debug, PartialEq, Eq)]
pub enum ImageFormat {
    R8,
    R8G8,
    R8G8B8,
    R8G8B8A8,
    R16,
    R16G16,
    R16G16B16,
    R16G16B16A16,
    R32G32B32FLOAT,
    R32G32B32A32FLOAT,
}

/// The channel layout of a texture.
#[derive(Clone, Copy, Debug, PartialEq, Eq)]
pub enum Format {
    R,
    RG,
    RGB,
    RGBA,
}

/// The numeric type of one channel of a texture.
#[derive(Clone, Copy, Debug, PartialEq, Eq)]
pub enum Type {
    UnsignedByte,
    UnsignedShort,
    Float,
}

/// How a texture is sampled between texels.
#[derive(Clone, Copy, Debug, PartialEq, Eq)]
pub enum Filter {
    Nearest,
    Linear,
}

/// How a texture is sampled outside its edges.
#[derive(Clone, Copy, Debug, PartialEq, Eq)]
pub enum WrapMode {
    Repeat,
    Clamp,
}

/// The magnification filter of a sampler in the asset document.
#[derive(Clone, Copy, Debug, PartialEq, Eq)]
pub enum MagFilter {
    Nearest,
    Linear,
}

/// The minification filter of a sampler in the asset document.
#[derive(Clone, Copy, Debug, PartialEq, Eq)]
pub enum MinFilter {
    Nearest,
    Linear,
    NearestMipmapNearest,
    LinearMipmapNearest,
    NearestMipmapLinear,
    LinearMipmapLinear,
}

/// The wrapping mode of a sampler in the asset document.
#[derive(Clone, Copy, Debug, PartialEq, Eq)]
pub enum WrappingMode {
    ClampToEdge,
    MirroredRepeat,
    Repeat,
}

/// One decoded image of the asset document.
#[derive(Debug)]
pub struct ImageData {
    pub format: ImageFormat,
    pub width: u32,
    pub height: u32,
    pub pixels: Vec<u8>,
}

/// A reference from a material to an image, with its sampler.
#[derive(Clone, Copy, Debug, PartialEq, Eq)]
pub struct TextureInfo {
    /// The image, as an index into the document's images.
    pub source: usize,
    pub mag_filter: Option<MagFilter>,
    pub min_filter: Option<MinFilter>,
    pub wrap_s: WrappingMode,
    pub wrap_t: WrappingMode,
}

/// One material as the asset document gives it. Only the base colour is
/// read: emission, normal and occlusion maps, alpha mode and cutoff, and
/// double-sidedness are not handled.
#[derive(Clone, Copy, Debug, PartialEq, Eq)]
pub struct MaterialData {
    pub base_color_factor: [u32; 4],
    pub base_color_texture: Option<TextureInfo>,
}

/// A texture ready for upload: its texels and how to sample them. A filter or
/// wrap mode of `None` leaves the default of the graphics layer in place.
#[derive(Debug)]
pub struct Texture {
    pub width: u32,
    pub height: u32,
    pub pixels: Vec<u8>,
    pub format: Format,
    pub pixel_type: Type,
    pub filter: Option<Filter>,
    pub wrap: Option<(WrapMode, WrapMode)>,
}

/// Surface appearance: a base colour factor and a base colour texture.
#[derive(Debug)]
pub struct Material {
    pub base_color: [u32; 4],
    pub base_texture: Texture,
}

/// The channel layout and numeric type of an image format: the layout by
/// the number of channels, the type by their depth.
pub open spec fn texel_layout_spec(format: ImageFormat) -> (Format, Type) {
    match format {
        ImageFormat::R8 => (Format::R, Type::UnsignedByte),
        ImageFormat::R8G8 => (Format::RG, Type::UnsignedByte),
        ImageFormat::R8G8B8 => (Format::RGB, Type::UnsignedByte),
        ImageFormat::R8G8B8A8 => (Format::RGBA, Type::UnsignedByte),
        ImageFormat::R16 => (Format::R, Type::UnsignedShort),
        ImageFormat::R16G16 => (Format::RG, Type::UnsignedShort),
        ImageFormat::R16G16B16 => (Format::RGB, Type::UnsignedShort),
        ImageFormat::R16G16B16A16 => (Format::RGBA, Type::UnsignedShort),
        ImageFormat::R32G32B32FLOAT => (Format::RGB, Type::Float),
        ImageFormat::R32G32B32A32FLOAT => (Format::RGBA, Type::Float),
    }
}

/// The channel layout and numeric type that an image is uploaded with.
pub fn texel_layout(format: ImageFormat) -> (r: (Format, Type))
    ensures
        r == texel_layout_spec(format),
{
    match format {
        ImageFormat::R8 => (Format::R, Type::UnsignedByte),
        ImageFormat::R8G8 => (Format::RG, Type::UnsignedByte),
        ImageFormat::R8G8B8 => (Format::RGB, Type::UnsignedByte),
        ImageFormat::R8G8B8A8 => (Format::RGBA, Type::UnsignedByte),
        ImageFormat::R16 => (Format::R, Type::UnsignedShort),
        ImageFormat::R16G16 => (Format::RG, Type::UnsignedShort),
        ImageFormat::R16G16B16 => (Format::RGB, Type::UnsignedShort),
        ImageFormat::R16G16B16A16 => (Format::RGBA, Type::UnsignedShort),
        ImageFormat::R32G32B32FLOAT => (Format::RGB, Type::Float),
        ImageFormat::R32G32B32A32FLOAT => (Format::RGBA, Type::Float),
    }
}

/// A minification filter as a plain choice: each mipmap variant collapses to
/// its base filter.
pub open spec fn collapsed(filter: MinFilter) -> Filter {
    match filter {
        MinFilter::Nearest | MinFilter::NearestMipmapNearest | MinFilter::NearestMipmapLinear =>
            Filter::Nearest,
        MinFilter::Linear | MinFilter::LinearMipmapLinear | MinFilter::LinearMipmapNearest =>
            Filter::Linear,
    }
}

/// The filter of a sampler: its magnification filter where it names one,
/// else its minification filter collapsed, else none.
pub open spec fn filter_spec(mag: Option<MagFilter>, min: Option<MinFilter>) -> Option<Filter> {
    match mag {
        Some(MagFilter::Nearest) => Some(Filter::Nearest),
        Some(MagFilter::Linear) => Some(Filter::Linear),
        None => match min {
            Some(filter) => Some(collapsed(filter)),
            None => None,
        },
    }
}

/// The filter that a sampler asks for, if it asks for one.
pub fn resolve_filter(mag: Option<MagFilter>, min: Option<MinFilter>) -> (r: Option<Filter>)
    ensures
        r == filter_spec(mag, min),
{
    match mag {
        Some(MagFilter::Nearest) => Some(Filter::Nearest),
        Some(MagFilter::Linear) => Some(Filter::Linear),
        None => match min {
            Some(MinFilter::Nearest) => Some(Filter::Nearest),
            Some(MinFilter::NearestMipmapNearest) => Some(Filter::Nearest),
            Some(MinFilter::NearestMipmapLinear) => Some(Filter::Nearest),
            Some(MinFilter::Linear) => Some(Filter::Linear),
            Some(MinFilter::LinearMipmapLinear) => Some(Filter::Linear),
            Some(MinFilter::LinearMipmapNearest) => Some(Filter::Linear),
            None => None,
        },
    }
}

/// The wrap mode of a sampler's wrapping mode. A mirrored repeat becomes a
/// plain repeat: mirroring is lost.
pub open spec fn wrap_mode_spec(mode: WrappingMode) -> WrapMode {
    match mode {
        WrappingMode::ClampToEdge => WrapMode::Clamp,
        WrappingMode::MirroredRepeat => WrapMode::Repeat,
        WrappingMode::Repeat => WrapMode::Repeat,
    }
}

/// The wrap mode that a sampler asks for.
pub fn map_wrap_mode(mode: WrappingMode) -> (r: WrapMode)
    ensures
        r == wrap_mode_spec(mode),
{
    match mode {
        WrappingMode::ClampToEdge => WrapMode::Clamp,
        WrappingMode::MirroredRepeat => WrapMode::Repeat,
        WrappingMode::Repeat => WrapMode::Repeat,
    }
}

impl Texture {
    /// This is the one opaque white texel that stands in where a material
    /// names no texture.
    pub open spec fn is_white(&self) -> bool {
        &&& self.width == 1
        &&& self.height == 1
        &&& self.pixels@ == seq![255u8, 255u8, 255u8, 255u8]
        &&& self.format == Format::RGBA
        &&& self.pixel_type == Type::UnsignedByte
        &&& self.filter is None
        &&& self.wrap is None
    }

    /// This is `image`, sampled as `info` says.
    pub open spec fn shows(&self, info: TextureInfo, image: ImageData) -> bool {
        &&& self.width == image.width
        &&& self.height == image.height
        &&& self.pixels@ == image.pixels@
        &&& (self.format, self.pixel_type) == texel_layout_spec(image.format)
        &&& self.filter == filter_spec(info.mag_filter, info.min_filter)
        &&& self.wrap == Some((wrap_mode_spec(info.wrap_s), wrap_mode_spec(info.wrap_t)))
    }
}

/// The 1×1 opaque white texture.
pub fn white_texture() -> (texture: Texture)
    ensures
        texture.is_white(),
{
    let mut pixels: Vec<u8> = Vec::new();
    pixels.push(255);
    pixels.push(255);
    pixels.push(255);
    pixels.push(255);
    assert(pixels@ =~= seq![255u8, 255u8, 255u8, 255u8]);
    Texture {
        width: 1,
        height: 1,
        pixels,
        format: Format::RGBA,
        pixel_type: Type::UnsignedByte,
        filter: None,
        wrap: None,
    }
}

/// The texture that `info` refers to among `images`.
pub fn resolve_texture(info: &TextureInfo, images: &Vec<ImageData>) -> (texture: Texture)
    requires
        info.source < images@.len(),
    ensures
        texture.shows(*info, images@[info.source as int]),
{
    let image = &images[info.source];
    let (format, pixel_type) = texel_layout(image.format);
    Texture {
        width: image.width,
        height: image.height,
        pixels: copy_of(&image.pixels),
        format,
        pixel_type,
        filter: resolve_filter(info.mag_filter, info.min_filter),
        wrap: Some((map_wrap_mode(info.wrap_s), map_wrap_mode(info.wrap_t))),
    }
}

impl Material {
    /// Why a material is rejected, if it is: its texture names an image that
    /// the document does not hold.
    pub open spec fn rejection(data: MaterialData, images: Seq<ImageData>) -> Option<MeshLoadError> {
        match data.base_color_texture {
            Some(info) => if info.source < images.len() {
                None
            } else {
                Some(MeshLoadError::InvalidIndex)
            },
            None => None,
        }
    }

    /// The material has the base colour of `data`, and its texture: the
    /// image it names, or one white texel where it names none.
    pub open spec fn loaded_from(&self, data: MaterialData, images: Seq<ImageData>) -> bool {
        &&& self.base_color == data.base_color_factor
        &&& match data.base_color_texture {
            Some(info) => info.source < images.len() && self.base_texture.shows(
                info,
                images[info.source as int],
            ),
            None => self.base_texture.is_white(),
        }
    }

    /// Resolves a material definition.
    pub fn load(data: &MaterialData, images: &Vec<ImageData>) -> (r: Result<Material, MeshLoadError>)
        ensures
            match r {
                Ok(material) => Material::rejection(*data, images@) is None && material.loaded_from(
                    *data,
                    images@,
                ),
                Err(e) => Material::rejection(*data, images@) == Some(e),
            },
    {
        let base_texture = match &data.base_color_texture {
            Some(info) => {
                if info.source >= images.len() {
                    return Err(MeshLoadError::InvalidIndex);
                }
                resolve_texture(info, images)
            },
            None => white_texture(),
        };
        Ok(Material { base_color: data.base_color_factor, base_texture })
    }
}

/// A material that names no texture gets the one white texel.
pub proof fn lemma_untextured_is_white(material: Material, data: MaterialData, images: Seq<ImageData>)
    requires
        material.loaded_from(data, images),
        data.base_color_texture is None,
    ensures
        material.base_texture.is_white(),
        material.base_texture.width == 1 && material.base_texture.height == 1,
        material.base_texture.pixels@ == seq![255u8, 255u8, 255u8, 255u8],
{
}

/// A sampler without a magnification filter falls back on its minification
/// filter, as nearest or linear.
pub proof fn lemma_filter_falls_back(min: MinFilter)
    ensures
        filter_spec(None, Some(min)) == Some(collapsed(min)),
        collapsed(min) == Filter::Nearest <==> (min == MinFilter::Nearest || min
            == MinFilter::NearestMipmapNearest || min == MinFilter::NearestMipmapLinear),
        collapsed(min) == Filter::Linear <==> (min == MinFilter::Linear || min
            == MinFilter::LinearMipmapNearest || min == MinFilter::LinearMipmapLinear),
{
}

} // verus!
