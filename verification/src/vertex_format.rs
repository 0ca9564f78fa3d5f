//! The attributes of vertices, and the formats the graphics card reads them in.
use vstd::prelude::*;

verus! {

/// What the components of an attribute are stored as.
#[derive(Clone, Copy, Debug, PartialEq, Eq, Structural)]
pub enum AttributeKind {
    /// 32-bit floating point numbers.
    Float,
    /// 8-bit integers.
    UnsignedByte,
    /// 16-bit integers.
    UnsignedShort,
    /// 32-bit integers.
    UnsignedInt,
}

impl AttributeKind {
    /// The size of one component, in bytes.
    pub open spec fn bytes(self) -> nat {
        match self {
            AttributeKind::UnsignedByte => 1,
            AttributeKind::UnsignedShort => 2,
            AttributeKind::Float | AttributeKind::UnsignedInt => 4,
        }
    }

    /// The size of one component, in bytes.
    pub fn size(self) -> (size: usize)
        ensures
            size == self.bytes(),
    {
        match self {
            AttributeKind::UnsignedByte => 1,
            AttributeKind::UnsignedShort => 2,
            AttributeKind::Float | AttributeKind::UnsignedInt => 4,
        }
    }
}

/// One attribute of the vertices in a vertex buffer.
#[derive(Clone, Copy, Debug, PartialEq, Eq, Structural)]
pub struct AttributeDefinition {
    /// Where the shader finds the attribute.
    pub location: u32,
    /// What its components are stored as.
    pub kind: AttributeKind,
    /// How many components it has.
    pub component_count: usize,
    /// Whether integers stand for fractions of their largest value.
    pub normalized: bool,
    /// How many instances share a value of it; zero for an attribute of each vertex.
    pub divisor: u32,
}

/// The formats that attributes are read in.
#[derive(Clone, Copy, Debug, PartialEq, Eq, Structural)]
pub enum VertexFormat {
    Float32,
    Float32x2,
    Float32x3,
    Float32x4,
    Unorm8x4,
    Unorm16x2,
    Unorm16x4,
    Uint32,
    Uint32x2,
    Uint32x3,
    Uint32x4,
}

impl VertexFormat {
    /// The size of an attribute in this format, in bytes.
    pub open spec fn bytes(self) -> nat {
        match self {
            VertexFormat::Float32 | VertexFormat::Uint32 => 4,
            VertexFormat::Unorm8x4 | VertexFormat::Unorm16x2 => 4,
            VertexFormat::Float32x2 | VertexFormat::Uint32x2 | VertexFormat::Unorm16x4 => 8,
            VertexFormat::Float32x3 | VertexFormat::Uint32x3 => 12,
            VertexFormat::Float32x4 | VertexFormat::Uint32x4 => 16,
        }
    }

    /// The format hands integers to the shader as they are.
    pub open spec fn is_integer(self) -> bool {
        self is Uint32 || self is Uint32x2 || self is Uint32x3 || self is Uint32x4
    }
}

/// The attribute is stored as integers that the shader must see as floats.
pub open spec fn converts(kind: AttributeKind, normalized: bool) -> bool {
    !normalized && kind != AttributeKind::Float
}

/// Returns `true` if the attribute is stored as integers that the shader must see as floats.
///
/// OpenGL hands every vertex attribute to the shader as floating point, converting integer data
/// by value unless it is normalized, and the engine's shaders are written for that. wgpu has no
/// vertex format that does the same, so such attributes are converted to floats on upload.
pub fn needs_float_conversion(kind: AttributeKind, normalized: bool) -> (result: bool)
    ensures
        result == converts(kind, normalized),
{
    !normalized && match kind {
        AttributeKind::Float => false,
        _ => true,
    }
}

/// The format for floats, of which there may be one to four.
pub open spec fn float_format(component_count: int) -> VertexFormat {
    if component_count == 1 {
        VertexFormat::Float32
    } else if component_count == 2 {
        VertexFormat::Float32x2
    } else if component_count == 3 {
        VertexFormat::Float32x3
    } else {
        VertexFormat::Float32x4
    }
}

/// The format an attribute is read in: as floats where it is stored as floats or converted to
/// them, else the format for normalized integers of its kind. What has no format of its own is
/// read as four floats.
pub open spec fn format_of(
    kind: AttributeKind,
    component_count: int,
    normalized: bool,
) -> VertexFormat {
    if kind == AttributeKind::Float || converts(kind, normalized) {
        float_format(component_count)
    } else if kind == AttributeKind::UnsignedByte && component_count == 4 {
        VertexFormat::Unorm8x4
    } else if kind == AttributeKind::UnsignedShort && component_count == 2 {
        VertexFormat::Unorm16x2
    } else if kind == AttributeKind::UnsignedShort && component_count == 4 {
        VertexFormat::Unorm16x4
    } else if kind == AttributeKind::UnsignedInt && component_count == 1 {
        VertexFormat::Uint32
    } else if kind == AttributeKind::UnsignedInt && component_count == 2 {
        VertexFormat::Uint32x2
    } else if kind == AttributeKind::UnsignedInt && component_count == 3 {
        VertexFormat::Uint32x3
    } else if kind == AttributeKind::UnsignedInt && component_count == 4 {
        VertexFormat::Uint32x4
    } else {
        VertexFormat::Float32x4
    }
}

/// Maps an attribute's kind, component count and normalization flag to a vertex format.
pub fn attribute_format(
    kind: AttributeKind,
    component_count: usize,
    normalized: bool,
) -> (format: VertexFormat)
    ensures
        format == format_of(kind, component_count as int, normalized),
{
    let kind = if needs_float_conversion(kind, normalized) {
        AttributeKind::Float
    } else {
        kind
    };
    match (kind, component_count) {
        (AttributeKind::Float, 1) => VertexFormat::Float32,
        (AttributeKind::Float, 2) => VertexFormat::Float32x2,
        (AttributeKind::Float, 3) => VertexFormat::Float32x3,
        (AttributeKind::Float, 4) => VertexFormat::Float32x4,
        (AttributeKind::UnsignedByte, 4) => VertexFormat::Unorm8x4,
        (AttributeKind::UnsignedShort, 2) => VertexFormat::Unorm16x2,
        (AttributeKind::UnsignedShort, 4) => VertexFormat::Unorm16x4,
        (AttributeKind::UnsignedInt, 1) => VertexFormat::Uint32,
        (AttributeKind::UnsignedInt, 2) => VertexFormat::Uint32x2,
        (AttributeKind::UnsignedInt, 3) => VertexFormat::Uint32x3,
        (AttributeKind::UnsignedInt, 4) => VertexFormat::Uint32x4,
        _ => VertexFormat::Float32x4,
    }
}

/// The bytes that one component takes up once it is uploaded.
pub open spec fn upload_bytes(kind: AttributeKind, convert: bool) -> nat {
    if convert {
        4
    } else {
        kind.bytes()
    }
}

/// An attribute that is converted is never read as integers, and its format reads just the bytes
/// that its components take up once they are floats.
pub proof fn law_converted_attributes_are_read_as_floats(
    kind: AttributeKind,
    component_count: int,
    normalized: bool,
)
    requires
        1 <= component_count <= 4,
        converts(kind, normalized) || kind == AttributeKind::Float,
    ensures
        !format_of(kind, component_count, normalized).is_integer(),
        format_of(kind, component_count, normalized).bytes() == component_count * upload_bytes(
            kind,
            converts(kind, normalized),
        ),
{
}

/// How large a component of each kind is, and which attributes become floats.
pub proof fn law_kinds_have_their_sizes(kind: AttributeKind, normalized: bool)
    ensures
        kind.bytes() == match kind {
            AttributeKind::UnsignedByte => 1nat,
            AttributeKind::UnsignedShort => 2,
            AttributeKind::UnsignedInt => 4,
            AttributeKind::Float => 4,
        },
        converts(kind, normalized) <==> (kind is UnsignedByte || kind is UnsignedShort
            || kind is UnsignedInt) && !normalized,
        upload_bytes(kind, true) == 4,
        upload_bytes(kind, false) == kind.bytes(),
{
}

/// What a format reads: how many components, of how many bytes each, and whether the shader sees
/// fractions of the largest integer, plain integers, or floats.
pub open spec fn reads(
    format: VertexFormat,
    components: int,
    size: int,
    fractions: bool,
    integers: bool,
) -> bool {
    match format {
        VertexFormat::Float32 => components == 1 && size == 4 && !fractions && !integers,
        VertexFormat::Float32x2 => components == 2 && size == 4 && !fractions && !integers,
        VertexFormat::Float32x3 => components == 3 && size == 4 && !fractions && !integers,
        VertexFormat::Float32x4 => components == 4 && size == 4 && !fractions && !integers,
        VertexFormat::Unorm8x4 => components == 4 && size == 1 && fractions && !integers,
        VertexFormat::Unorm16x2 => components == 2 && size == 2 && fractions && !integers,
        VertexFormat::Unorm16x4 => components == 4 && size == 2 && fractions && !integers,
        VertexFormat::Uint32 => components == 1 && size == 4 && !fractions && integers,
        VertexFormat::Uint32x2 => components == 2 && size == 4 && !fractions && integers,
        VertexFormat::Uint32x3 => components == 3 && size == 4 && !fractions && integers,
        VertexFormat::Uint32x4 => components == 4 && size == 4 && !fractions && integers,
    }
}

/// The format of an attribute reads as many components as it has, of the size they are uploaded in:
/// normalized bytes and shorts as fractions, normalized words as integers, all else as floats. Where
/// no format does that, four floats are read.
pub proof fn law_formats_read_what_is_uploaded(
    kind: AttributeKind,
    component_count: int,
    normalized: bool,
)
    ensures
        ({
            let format = format_of(kind, component_count, normalized);
            let floats = kind is Float || !normalized;
            let is_there = if floats || kind is UnsignedInt {
                1 <= component_count <= 4
            } else if kind is UnsignedShort {
                component_count == 2 || component_count == 4
            } else {
                component_count == 4
            };
            &&& is_there ==> reads(
                format,
                component_count,
                if floats || kind is UnsignedInt {
                    4
                } else if kind is UnsignedShort {
                    2
                } else {
                    1
                },
                !floats && !(kind is UnsignedInt),
                !floats && kind is UnsignedInt,
            )
            &&& !is_there ==> reads(format, 4, 4, false, false)
        }),
{
}

} // verus!
