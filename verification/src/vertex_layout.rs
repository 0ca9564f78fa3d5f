//! Where attributes go in the uploaded data, and how the graphics card finds them there.
use crate::bytes::{
    law_rounding_up_stops_at_the_first_multiple, lemma_rounded_up, round_up, rounded_up,
};
use crate::vertex_conversion::{uploaded_byte, uploaded_size, AttributeRemap, VertexConversion};
use crate::vertex_format::{
    attribute_format, converts, format_of, needs_float_conversion, upload_bytes,
    AttributeDefinition, VertexFormat,
};
use vstd::arithmetic::div_mod::{lemma_fundamental_div_mod, lemma_fundamental_div_mod_converse};
use vstd::prelude::*;

verus! {

/// Whether a vertex buffer moves on with every vertex or with every instance.
#[derive(Clone, Copy, Debug, PartialEq, Eq, Structural)]
pub enum VertexStepMode {
    Vertex,
    Instance,
}

/// One attribute as the graphics card reads it.
#[derive(Clone, Copy, Debug, PartialEq, Eq, Structural)]
pub struct VertexAttribute {
    pub format: VertexFormat,
    pub offset: u64,
    pub shader_location: u32,
}

/// A vertex buffer as the graphics card reads it.
#[derive(Debug)]
pub struct VertexBufferLayout {
    pub array_stride: u64,
    pub step_mode: VertexStepMode,
    pub attributes: Vec<VertexAttribute>,
}

impl AttributeDefinition {
    /// The attribute becomes floats on upload.
    pub open spec fn converted(self) -> bool {
        converts(self.kind, self.normalized)
    }

    /// The bytes the attribute takes up in the engine's data.
    pub open spec fn source_bytes(self) -> nat {
        self.component_count as nat * self.kind.bytes()
    }

    /// The bytes the attribute takes up in the uploaded data.
    pub open spec fn uploaded_bytes(self) -> nat {
        self.component_count as nat * upload_bytes(self.kind, self.converted())
    }
}

/// Where the first `n` attributes end in the engine's data: one follows another.
pub open spec fn source_end(attributes: Seq<AttributeDefinition>, n: int) -> nat
    decreases n,
{
    if n <= 0 {
        0
    } else {
        source_end(attributes, n - 1) + attributes[n - 1].source_bytes()
    }
}

/// Where an attribute starts in the uploaded data if those before it end at `end`: floats that it
/// was converted to lie on a boundary of four bytes.
pub open spec fn upload_start(end: nat, converted: bool) -> nat {
    if converted {
        rounded_up(end as int, 4) as nat
    } else {
        end
    }
}

/// Where the first `n` attributes end in the uploaded data.
pub open spec fn upload_end(attributes: Seq<AttributeDefinition>, n: int) -> nat
    decreases n,
{
    if n <= 0 {
        0
    } else {
        upload_start(upload_end(attributes, n - 1), attributes[n - 1].converted())
            + attributes[n - 1].uploaded_bytes()
    }
}

/// Where attribute `i` lives in either layout.
pub open spec fn remap_of(attributes: Seq<AttributeDefinition>, i: int) -> AttributeRemap {
    AttributeRemap {
        kind: attributes[i].kind,
        component_count: attributes[i].component_count,
        convert: attributes[i].converted(),
        src_offset: source_end(attributes, i) as usize,
        dst_offset: upload_start(upload_end(attributes, i), attributes[i].converted()) as usize,
    }
}

/// Where each attribute lives in either layout.
pub open spec fn remaps_of(attributes: Seq<AttributeDefinition>) -> Seq<AttributeRemap> {
    Seq::new(attributes.len(), |i: int| remap_of(attributes, i))
}

/// Some attribute becomes floats on upload.
pub open spec fn any_converted(attributes: Seq<AttributeDefinition>) -> bool {
    exists|i: int| 0 <= i < attributes.len() && (#[trigger] attributes[i]).converted()
}

/// Some attribute belongs to instances.
pub open spec fn any_instanced(attributes: Seq<AttributeDefinition>) -> bool {
    exists|i: int| 0 <= i < attributes.len() && (#[trigger] attributes[i]).divisor > 0
}

/// The size of a vertex in the uploaded data of a buffer that is converted: no smaller than in the
/// engine's data, and a multiple of four bytes.
pub open spec fn converted_stride(
    attributes: Seq<AttributeDefinition>,
    element_size: usize,
) -> nat {
    let end = upload_end(attributes, attributes.len() as int);
    let size = if end > element_size {
        end
    } else {
        element_size as nat
    };
    rounded_up(size as int, 4) as nat
}

/// Every offset and size in either layout is a number that this machine can hold.
pub open spec fn representable(
    attributes: Seq<AttributeDefinition>,
    element_size: usize,
) -> bool {
    &&& source_end(attributes, attributes.len() as int) <= usize::MAX
    &&& upload_end(attributes, attributes.len() as int) <= usize::MAX
    &&& any_converted(attributes) ==> converted_stride(attributes, element_size) <= usize::MAX
}

/// Attributes that come first end first.
proof fn lemma_ends_grow(attributes: Seq<AttributeDefinition>, i: int, n: int)
    requires
        0 <= i <= n,
    ensures
        source_end(attributes, i) <= source_end(attributes, n),
        upload_end(attributes, i) <= upload_end(attributes, n),
    decreases n - i,
{
    if i < n {
        lemma_ends_grow(attributes, i, n - 1);
        lemma_rounded_up(upload_end(attributes, n - 1) as int, 4);
    }
}

/// True if some attribute becomes floats on upload.
fn has_converted(attributes: &[AttributeDefinition]) -> (result: bool)
    ensures
        result == any_converted(attributes@),
{
    let mut i: usize = 0;
    while i < attributes.len()
        invariant
            i <= attributes@.len(),
            forall|j: int| 0 <= j < i ==> !(#[trigger] attributes@[j]).converted(),
        decreases attributes@.len() - i,
    {
        if needs_float_conversion(attributes[i].kind, attributes[i].normalized) {
            assert(attributes@[i as int].converted());
            return true;
        }
        i = i + 1;
    }
    false
}

/// True if every offset and size in either layout is a number that this machine can hold.
pub fn can_lay_out(attributes: &[AttributeDefinition], element_size: usize) -> (result: bool)
    ensures
        result == representable(attributes@, element_size),
{
    let mut src_end: usize = 0;
    let mut dst_end: usize = 0;
    let mut i: usize = 0;
    while i < attributes.len()
        invariant
            i <= attributes@.len(),
            src_end == source_end(attributes@, i as int),
            dst_end == upload_end(attributes@, i as int),
        decreases attributes@.len() - i,
    {
        let attr: AttributeDefinition = attributes[i];
        let count: u128 = attr.component_count as u128;
        let size: u128 = attr.kind.size() as u128;
        let convert = needs_float_conversion(attr.kind, attr.normalized);
        let step: u128 = if convert {
            4
        } else {
            size
        };
        let over: u128 = if convert && dst_end % 4 != 0 {
            (4 - dst_end % 4) as u128
        } else {
            0
        };
        proof {
            lemma_ends_grow(attributes@, i + 1, attributes@.len() as int);
            assert(0 <= count * size <= count * 4) by (nonlinear_arith)
                requires
                    0 <= count,
                    0 <= size <= 4,
            ;
            assert(0 <= count * step <= count * 4) by (nonlinear_arith)
                requires
                    0 <= count,
                    0 <= step <= 4,
            ;
        }
        let next_src: u128 = src_end as u128 + count * size;
        let next_dst: u128 = dst_end as u128 + over + count * step;
        assert(next_src == source_end(attributes@, i + 1));
        assert(next_dst == upload_end(attributes@, i + 1));
        if next_src > usize::MAX as u128 || next_dst > usize::MAX as u128 {
            return false;
        }
        src_end = next_src as usize;
        dst_end = next_dst as usize;
        i = i + 1;
    }
    if !has_converted(attributes) {
        return true;
    }
    let end: usize = if dst_end > element_size {
        dst_end
    } else {
        element_size
    };
    end % 4 == 0 || end <= usize::MAX - (4 - end % 4)
}

/// Lays out the attributes one after another.
fn remap_attributes(attributes: &[AttributeDefinition]) -> (result: (Vec<AttributeRemap>, usize))
    requires
        source_end(attributes@, attributes@.len() as int) <= usize::MAX,
        upload_end(attributes@, attributes@.len() as int) <= usize::MAX,
    ensures
        result.0@ == remaps_of(attributes@),
        result.1 == upload_end(attributes@, attributes@.len() as int),
{
    let mut remaps: Vec<AttributeRemap> = Vec::new();
    let mut src_offset: usize = 0;
    let mut dst_offset: usize = 0;
    let mut i: usize = 0;
    while i < attributes.len()
        invariant
            i <= attributes@.len(),
            source_end(attributes@, attributes@.len() as int) <= usize::MAX,
            upload_end(attributes@, attributes@.len() as int) <= usize::MAX,
            src_offset == source_end(attributes@, i as int),
            dst_offset == upload_end(attributes@, i as int),
            remaps@ == remaps_of(attributes@).take(i as int),
        decreases attributes@.len() - i,
    {
        let attr: AttributeDefinition = attributes[i];
        let convert = needs_float_conversion(attr.kind, attr.normalized);
        proof {
            lemma_ends_grow(attributes@, i + 1, attributes@.len() as int);
            lemma_rounded_up(dst_offset as int, 4);
        }
        let size: usize = if convert {
            4
        } else {
            attr.kind.size()
        };
        if convert {
            // Keep converted floats on a 4-byte boundary.
            dst_offset = round_up(dst_offset, 4);
        }
        remaps.push(
            AttributeRemap {
                kind: attr.kind,
                component_count: attr.component_count,
                convert,
                src_offset,
                dst_offset,
            },
        );
        assert(remaps_of(attributes@).take(i + 1) =~= remaps_of(attributes@).take(i as int).push(
            remap_of(attributes@, i as int),
        ));
        src_offset = src_offset + attr.component_count * attr.kind.size();
        dst_offset = dst_offset + attr.component_count * size;
        i = i + 1;
    }
    assert(remaps_of(attributes@).take(i as int) =~= remaps_of(attributes@));
    (remaps, dst_offset)
}

/// How attribute `i` is read.
pub open spec fn read_attribute(attributes: Seq<AttributeDefinition>, i: int) -> VertexAttribute {
    VertexAttribute {
        format: format_of(
            attributes[i].kind,
            attributes[i].component_count as int,
            attributes[i].normalized,
        ),
        offset: remap_of(attributes, i).dst_offset as u64,
        shader_location: attributes[i].location,
    }
}

/// How each attribute is read.
pub open spec fn read_attributes(attributes: Seq<AttributeDefinition>) -> Seq<VertexAttribute> {
    Seq::new(attributes.len(), |i: int| read_attribute(attributes, i))
}

/// The layout of a vertex buffer with these attributes.
pub open spec fn is_layout_of(
    layout: VertexBufferLayout,
    attributes: Seq<AttributeDefinition>,
    element_size: usize,
) -> bool {
    &&& layout.array_stride == if any_converted(attributes) {
        converted_stride(attributes, element_size)
    } else {
        element_size as nat
    }
    &&& layout.step_mode == if any_instanced(attributes) {
        VertexStepMode::Instance
    } else {
        VertexStepMode::Vertex
    }
    &&& layout.attributes@ == read_attributes(attributes)
}

/// The conversion of a vertex buffer with these attributes, which there is if one of them has to
/// become floats.
pub open spec fn is_conversion_of(
    conversion: Option<VertexConversion>,
    attributes: Seq<AttributeDefinition>,
    element_size: usize,
) -> bool {
    match conversion {
        Some(c) => {
            &&& any_converted(attributes)
            &&& c.src_stride == element_size
            &&& c.dst_stride == converted_stride(attributes, element_size)
            &&& c.attributes@ == remaps_of(attributes)
        },
        None => !any_converted(attributes),
    }
}

/// Decides how a vertex buffer is uploaded and read.
pub fn plan_vertex_buffer(
    attributes: &[AttributeDefinition],
    element_size: usize,
) -> (plan: (VertexBufferLayout, Option<VertexConversion>))
    requires
        representable(attributes@, element_size),
    ensures
        is_layout_of(plan.0, attributes@, element_size),
        is_conversion_of(plan.1, attributes@, element_size),
{
    let (remaps, end) = remap_attributes(attributes);
    let mut read: Vec<VertexAttribute> = Vec::new();
    let converted = has_converted(attributes);
    let mut instanced = false;
    let mut i: usize = 0;
    let ghost all = read_attributes(attributes@);
    while i < attributes.len()
        invariant
            i <= attributes@.len(),
            remaps@ == remaps_of(attributes@),
            all == read_attributes(attributes@),
            read@ == all.take(i as int),
            instanced == exists|j: int| 0 <= j < i && (#[trigger] attributes@[j]).divisor > 0,
        decreases attributes@.len() - i,
    {
        let attr: AttributeDefinition = attributes[i];
        read.push(
            VertexAttribute {
                format: attribute_format(attr.kind, attr.component_count, attr.normalized),
                offset: remaps[i].dst_offset as u64,
                shader_location: attr.location,
            },
        );
        assert(all.take(i + 1) =~= all.take(i as int).push(all[i as int]));
        if attr.divisor > 0 {
            instanced = true;
            assert(attributes@[i as int].divisor > 0);
        }
        i = i + 1;
    }
    assert(all.take(i as int) =~= all);
    let step_mode = if instanced {
        VertexStepMode::Instance
    } else {
        VertexStepMode::Vertex
    };
    if converted {
        let size: usize = if end > element_size {
            end
        } else {
            element_size
        };
        let dst_stride: usize = round_up(size, 4);
        (
            VertexBufferLayout { array_stride: dst_stride as u64, step_mode, attributes: read },
            Some(
                VertexConversion { src_stride: element_size, dst_stride, attributes: remaps },
            ),
        )
    } else {
        (
            VertexBufferLayout { array_stride: element_size as u64, step_mode, attributes: read },
            None,
        )
    }
}

/// No two attributes share a byte, in the engine's data or in the uploaded data: the one that comes
/// first ends before the other starts.
pub proof fn law_attributes_do_not_overlap(
    attributes: Seq<AttributeDefinition>,
    element_size: usize,
    i: int,
    j: int,
)
    requires
        representable(attributes, element_size),
        0 <= i < j < attributes.len(),
    ensures
        ({
            let first = remap_of(attributes, i);
            let second = remap_of(attributes, j);
            &&& first.src_offset + attributes[i].source_bytes() <= second.src_offset
            &&& first.dst_offset + attributes[i].uploaded_bytes() <= second.dst_offset
        }),
{
    let n = attributes.len() as int;
    lemma_ends_grow(attributes, i + 1, j);
    lemma_ends_grow(attributes, j + 1, n);
    lemma_rounded_up(upload_end(attributes, i) as int, 4);
    lemma_rounded_up(upload_end(attributes, j) as int, 4);
}

/// Every attribute of a converted buffer lies within an uploaded vertex. Those that became floats
/// start on a boundary of four bytes, in every vertex.
pub proof fn law_converted_floats_are_aligned(
    attributes: Seq<AttributeDefinition>,
    element_size: usize,
    i: int,
)
    requires
        representable(attributes, element_size),
        any_converted(attributes),
        0 <= i < attributes.len(),
    ensures
        converted_stride(attributes, element_size) % 4 == 0,
        converted_stride(attributes, element_size) >= element_size,
        remap_of(attributes, i).dst_offset + attributes[i].uploaded_bytes() <= converted_stride(
            attributes,
            element_size,
        ),
        attributes[i].converted() ==> remap_of(attributes, i).dst_offset % 4 == 0,
{
    let n = attributes.len() as int;
    lemma_ends_grow(attributes, i + 1, n);
    lemma_rounded_up(upload_end(attributes, i) as int, 4);
    lemma_rounded_up(upload_end(attributes, n) as int, 4);
    lemma_rounded_up(element_size as int, 4);
}

/// A buffer in which nothing has to become floats is uploaded as it is: every attribute stays where
/// it was.
pub proof fn law_other_buffers_stay_as_they_are(attributes: Seq<AttributeDefinition>, i: int)
    requires
        !any_converted(attributes),
        0 <= i <= attributes.len(),
    ensures
        upload_end(attributes, i) == source_end(attributes, i),
        i < attributes.len() ==> remap_of(attributes, i).dst_offset == remap_of(
            attributes,
            i,
        ).src_offset,
    decreases i,
{
    if i < attributes.len() {
        assert(!attributes[i].converted());
    }
    if i > 0 {
        law_other_buffers_stay_as_they_are(attributes, i - 1);
        assert(!attributes[i - 1].converted());
    }
}

/// Data whose vertices have room for all attributes can be converted, as long as the result can be
/// allocated.
pub proof fn law_whole_vertices_are_accepted(
    attributes: Seq<AttributeDefinition>,
    element_size: usize,
    conversion: VertexConversion,
    len: nat,
)
    requires
        representable(attributes, element_size),
        is_conversion_of(Some(conversion), attributes, element_size),
        0 < element_size,
        source_end(attributes, attributes.len() as int) <= element_size,
        conversion.vertex_count(len as int) * conversion.dst_stride <= isize::MAX,
    ensures
        conversion.accepts(len),
{
    let n = attributes.len() as int;
    assert forall|i: int| 0 <= i < conversion.attributes@.len() implies (
    #[trigger] conversion.attributes@[i]).fits(
        conversion.src_stride as nat,
        conversion.dst_stride as nat,
    ) by {
        law_converted_floats_are_aligned(attributes, element_size, i);
        lemma_ends_grow(attributes, i + 1, n);
    }
    lemma_rounded_up(element_size as int, 4);
    lemma_rounded_up(upload_end(attributes, n) as int, 4);
}

/// The bytes of an attribute are what that attribute put there, since no later one covers them.
proof fn lemma_byte_of_attribute(
    attributes: Seq<AttributeDefinition>,
    element_size: usize,
    src: Seq<u8>,
    i: int,
    n: int,
    p: int,
)
    requires
        representable(attributes, element_size),
        0 <= i < n <= attributes.len(),
        remap_of(attributes, i).covers(p),
    ensures
        uploaded_byte(remaps_of(attributes).take(n), src, p) == remap_of(attributes, i).byte_at(
            src,
            p,
        ),
    decreases n,
{
    let remaps = remaps_of(attributes).take(n);
    assert(remaps.last() == remap_of(attributes, n - 1));
    assert(remaps.drop_last() =~= remaps_of(attributes).take(n - 1));
    if n - 1 > i {
        law_attributes_do_not_overlap(attributes, element_size, i, n - 1);
        lemma_byte_of_attribute(attributes, element_size, src, i, n - 1, p);
    }
}

/// What the shader reads of a converted buffer is what the engine wrote: component `c` of attribute
/// `i` of vertex `v` stands, at the offset and stride the layout gives, as a float of the same value
/// if the attribute is converted, and byte for byte as it was if it is not.
pub proof fn law_components_read_back(
    attributes: Seq<AttributeDefinition>,
    element_size: usize,
    conversion: VertexConversion,
    data: Seq<u8>,
    v: int,
    i: int,
    c: int,
)
    requires
        representable(attributes, element_size),
        is_conversion_of(Some(conversion), attributes, element_size),
        conversion.accepts(data.len()),
        0 <= v < conversion.vertex_count(data.len() as int),
        0 <= i < attributes.len(),
        0 <= c < attributes[i].component_count,
    ensures
        ({
            let remap = remap_of(attributes, i);
            let at = v * conversion.dst_stride + remap.dst_offset + c * remap.step();
            &&& 0 <= at
            &&& at + remap.step() <= conversion.converted(data).len()
            &&& conversion.converted(data).subrange(at, at + remap.step()) == remap.component(
                conversion.vertex(data, v),
                c,
            )
        }),
{
    let remap = remap_of(attributes, i);
    let step = remap.step() as int;
    let stride = conversion.dst_stride as int;
    let count = conversion.vertex_count(data.len() as int);
    let src = conversion.vertex(data, v);
    let at = v * stride + remap.dst_offset + c * step;
    let cc = attributes[i].component_count as int;
    law_converted_floats_are_aligned(attributes, element_size, i);
    assert(0 <= c * step && c * step + step <= cc * step) by (nonlinear_arith)
        requires
            0 <= c < cc,
            step > 0,
    ;
    assert(0 <= v * stride && v * stride + stride <= count * stride) by (nonlinear_arith)
        requires
            0 <= v < count,
            stride > 0,
    ;
    let out = conversion.converted(data);
    lemma_component_len(conversion, data, v, remap, c, attributes, i);
    let part = out.subrange(at, at + step);
    assert forall|k: int| 0 <= k < step implies #[trigger] part[k] == remap.component(src, c)[k] by {
        assert(part[k] == out[at + k]);
        let p = remap.dst_offset + c * step + k;
        lemma_fundamental_div_mod_converse(at + k, stride, v, p);
        lemma_fundamental_div_mod_converse(c * step + k, step, c, k);
        lemma_byte_of_attribute(
            attributes,
            element_size,
            src,
            i,
            attributes.len() as int,
            p,
        );
        assert(remaps_of(attributes).take(attributes.len() as int) =~= remaps_of(attributes));
    }
    assert(part =~= remap.component(src, c));
}

/// A component takes up as many bytes as the layout gives it.
proof fn lemma_component_len(
    conversion: VertexConversion,
    data: Seq<u8>,
    v: int,
    remap: AttributeRemap,
    c: int,
    attributes: Seq<AttributeDefinition>,
    i: int,
)
    requires
        conversion.accepts(data.len()),
        conversion.attributes@ == remaps_of(attributes),
        0 <= i < attributes.len(),
        remap == remap_of(attributes, i),
        0 <= v < conversion.vertex_count(data.len() as int),
        0 <= c < remap.component_count,
    ensures
        remap.component(conversion.vertex(data, v), c).len() == remap.step(),
{
    let stride = conversion.src_stride as int;
    let count = conversion.vertex_count(data.len() as int);
    lemma_fundamental_div_mod(data.len() as int, stride);
    assert(0 <= v * stride && v * stride + stride <= stride * count) by (nonlinear_arith)
        requires
            0 <= v < count,
            stride > 0,
    ;
    assert(conversion.attributes@[i] == remap);
    let size = remap.kind.bytes() as int;
    let cc = remap.component_count as int;
    assert(0 <= c * size && c * size + size <= cc * size) by (nonlinear_arith)
        requires
            0 <= c < cc,
            size > 0,
    ;
}

/// An attribute keeps its kind and its components, and becomes floats just if it holds integers that
/// are not normalized. The first starts each vertex; each other starts where the one before it ends,
/// in the engine's data always, in the uploaded data unless it becomes floats: those start at the
/// first multiple of four from there on.
pub proof fn law_attributes_follow_one_another(
    attributes: Seq<AttributeDefinition>,
    element_size: usize,
    i: int,
)
    requires
        representable(attributes, element_size),
        0 <= i < attributes.len(),
    ensures
        ({
            let remap = remap_of(attributes, i);
            let attribute = attributes[i];
            &&& remap.kind == attribute.kind
            &&& remap.component_count == attribute.component_count
            &&& remap.convert <==> !attribute.normalized && !(attribute.kind is Float)
            &&& i == 0 ==> remap.src_offset == 0 && remap.dst_offset == 0
            &&& i > 0 ==> {
                let last = remap_of(attributes, i - 1);
                let end = last.dst_offset + last.component_count * uploaded_size(last);
                &&& remap.src_offset == last.src_offset + last.component_count * last.kind.bytes()
                &&& !remap.convert ==> remap.dst_offset == end
                &&& remap.convert ==> remap.dst_offset % 4 == 0 && end <= remap.dst_offset < end + 4
            }
        }),
{
    lemma_ends_grow(attributes, i, attributes.len() as int);
    lemma_ends_grow(attributes, i + 1, attributes.len() as int);
    lemma_rounded_up(upload_end(attributes, i) as int, 4);
    assert(source_end(attributes, 0) == 0 && upload_end(attributes, 0) == 0);
    if i > 0 {
        lemma_ends_grow(attributes, i - 1, attributes.len() as int);
        lemma_rounded_up(upload_end(attributes, i - 1) as int, 4);
        let last = remap_of(attributes, i - 1);
        assert(uploaded_size(last) == upload_bytes(last.kind, last.convert));
    }
}

/// A vertex of a converted buffer is no smaller than in the engine's data and has room for all
/// attributes; its size is the first multiple of four for which that is so.
pub proof fn law_converted_vertices_have_the_least_size(
    attributes: Seq<AttributeDefinition>,
    element_size: usize,
    size: int,
)
    requires
        representable(attributes, element_size),
        attributes.len() > 0,
        size % 4 == 0,
        size >= element_size,
        ({
            let last = remap_of(attributes, attributes.len() - 1);
            size >= last.dst_offset + last.component_count * uploaded_size(last)
        }),
    ensures
        ({
            let last = remap_of(attributes, attributes.len() - 1);
            let stride = converted_stride(attributes, element_size);
            &&& stride % 4 == 0
            &&& element_size <= stride <= size
            &&& last.dst_offset + last.component_count * uploaded_size(last) <= stride
        }),
{
    let n = attributes.len() as int;
    let last = remap_of(attributes, n - 1);
    let end = upload_end(attributes, n);
    lemma_ends_grow(attributes, n - 1, n);
    lemma_rounded_up(upload_end(attributes, n - 1) as int, 4);
    assert(uploaded_size(last) == upload_bytes(last.kind, last.convert));
    assert(last.dst_offset + last.component_count * uploaded_size(last) == end);
    let longest = if end > element_size {
        end as int
    } else {
        element_size as int
    };
    law_rounding_up_stops_at_the_first_multiple(longest, 4, size);
}

/// A vertex buffer is converted just if one of its attributes holds integers that are not
/// normalized; a conversion takes vertices of the engine's size to vertices as large as the layout
/// says, attribute by attribute.
pub proof fn law_layouts_and_conversions_agree(
    layout: VertexBufferLayout,
    conversion: Option<VertexConversion>,
    attributes: Seq<AttributeDefinition>,
    element_size: usize,
)
    requires
        is_layout_of(layout, attributes, element_size),
        is_conversion_of(conversion, attributes, element_size),
    ensures
        conversion is Some <==> exists|i: int|
            0 <= i < attributes.len() && !(#[trigger] attributes[i]).normalized
                && !(attributes[i].kind is Float),
        conversion is None ==> layout.array_stride == element_size,
        conversion matches Some(c) ==> {
            &&& c.src_stride == element_size
            &&& c.dst_stride == layout.array_stride
            &&& c.dst_stride == converted_stride(attributes, element_size)
            &&& c.attributes@.len() == attributes.len()
            &&& forall|i: int|
                0 <= i < attributes.len() ==> #[trigger] c.attributes@[i] == remap_of(attributes, i)
        },
{
    if conversion is Some {
        let i = choose|i: int| 0 <= i < attributes.len() && (#[trigger] attributes[i]).converted();
        assert(!attributes[i].normalized && !(attributes[i].kind is Float));
    } else {
        assert forall|i: int| 0 <= i < attributes.len() implies !(!(
        #[trigger] attributes[i]).normalized && !(attributes[i].kind is Float)) by {
            assert(!attributes[i].converted());
        }
    }
}

/// The graphics card reads each attribute under its own location, where it was uploaded to, in the
/// format for it. The buffer steps by instances just if one of its attributes belongs to instances.
pub proof fn law_layouts_read_each_attribute(
    layout: VertexBufferLayout,
    attributes: Seq<AttributeDefinition>,
    element_size: usize,
    i: int,
)
    requires
        is_layout_of(layout, attributes, element_size),
        0 <= i < attributes.len(),
    ensures
        layout.attributes@.len() == attributes.len(),
        layout.attributes@[i].shader_location == attributes[i].location,
        layout.attributes@[i].offset == remap_of(attributes, i).dst_offset,
        layout.attributes@[i].format == format_of(
            attributes[i].kind,
            attributes[i].component_count as int,
            attributes[i].normalized,
        ),
        layout.step_mode == VertexStepMode::Instance <==> exists|j: int|
            0 <= j < attributes.len() && (#[trigger] attributes[j]).divisor != 0,
        layout.step_mode == VertexStepMode::Vertex <==> forall|j: int|
            0 <= j < attributes.len() ==> (#[trigger] attributes[j]).divisor == 0,
{
    if any_instanced(attributes) {
        let j = choose|j: int| 0 <= j < attributes.len() && (#[trigger] attributes[j]).divisor > 0;
        assert(attributes[j].divisor != 0);
    } else {
        assert forall|j: int| 0 <= j < attributes.len() implies (#[trigger] attributes[j]).divisor
            == 0 by {
            assert(!(attributes[j].divisor > 0));
        }
    }
}

/// Whatever lies well within what this machine can count is laid out.
pub proof fn law_ordinary_vertices_can_be_laid_out(
    attributes: Seq<AttributeDefinition>,
    element_size: usize,
    limit: nat,
)
    requires
        forall|i: int|
            0 <= i < attributes.len() ==> (#[trigger] attributes[i]).component_count <= limit,
        attributes.len() * (4 * limit + 4) <= usize::MAX - 4,
        element_size <= usize::MAX - 4,
    ensures
        representable(attributes, element_size),
{
    lemma_ends_are_bounded(attributes, limit, attributes.len() as int);
    lemma_rounded_up(upload_end(attributes, attributes.len() as int) as int, 4);
    lemma_rounded_up(element_size as int, 4);
    let n = attributes.len() as int;
    assert(n * (4 * limit + 4) <= usize::MAX - 4);
}

proof fn lemma_ends_are_bounded(attributes: Seq<AttributeDefinition>, limit: nat, n: int)
    requires
        0 <= n <= attributes.len(),
        forall|i: int|
            0 <= i < attributes.len() ==> (#[trigger] attributes[i]).component_count <= limit,
    ensures
        source_end(attributes, n) <= n * (4 * limit + 4),
        upload_end(attributes, n) <= n * (4 * limit + 4),
    decreases n,
{
    if n > 0 {
        lemma_ends_are_bounded(attributes, limit, n - 1);
        lemma_rounded_up(upload_end(attributes, n - 1) as int, 4);
        let a = attributes[n - 1];
        let count = a.component_count as int;
        let size = a.kind.bytes() as int;
        let step = upload_bytes(a.kind, a.converted()) as int;
        assert(count * size <= 4 * limit && count * step <= 4 * limit) by (nonlinear_arith)
            requires
                0 <= count <= limit,
                0 <= size <= 4,
                0 <= step <= 4,
        ;
        let one = (4 * limit + 4) as int;
        assert(n * one == (n - 1) * one + one) by (nonlinear_arith);
    }
}

} // verus!
