//! Geometry on the graphics card: vertex buffers, and an index (element) buffer for indexed
//! drawing.
use crate::bytes::{cast_words, words_in_memory};
use crate::server::WgpuGraphicsServer;
use crate::text::{append, chars, decimal, string_of, to_decimal};
use crate::texture::FrameworkError;
use crate::vertex_conversion::{can_rewrite, rewritten, VertexConversion};
use crate::vertex_format::AttributeDefinition;
use crate::vertex_layout::{
    any_converted, can_lay_out, converted_stride, is_conversion_of, is_layout_of,
    plan_vertex_buffer, remaps_of, representable, VertexBufferLayout,
};
use vstd::prelude::*;
use vstd::slice::slice_to_vec;

verus! {

/// What the indices of an index buffer make up.
#[derive(Clone, Copy, Debug, PartialEq, Eq, Structural)]
pub enum ElementKind {
    Triangle,
    Line,
    Point,
}

/// The indices of a triangle's vertices.
#[derive(Clone, Copy, Debug)]
pub struct TriangleDefinition(pub [u32; 3]);

/// The elements of an index buffer.
pub enum ElementsDescriptor<'a> {
    Triangles(&'a [TriangleDefinition]),
    Lines(&'a [[u32; 2]]),
    Points(&'a [u32]),
}

/// The indices of triangles, one triangle after another.
pub open spec fn triangle_indices(triangles: Seq<TriangleDefinition>) -> Seq<u32> {
    Seq::new(3 * triangles.len(), |i: int| triangles[i / 3].0@[i % 3])
}

/// The indices of lines, one line after another.
pub open spec fn line_indices(lines: Seq<[u32; 2]>) -> Seq<u32> {
    Seq::new(2 * lines.len(), |i: int| lines[i / 2]@[i % 2])
}

/// The indices of triangles, one triangle after another.
pub fn flatten_triangles(triangles: &[TriangleDefinition]) -> (indices: Vec<u32>)
    ensures
        indices@ == triangle_indices(triangles@),
{
    let mut indices: Vec<u32> = Vec::new();
    let mut i: usize = 0;
    while i < triangles.len()
        invariant
            i <= triangles@.len(),
            indices@ == triangle_indices(triangles@).take(3 * i),
        decreases triangles@.len() - i,
    {
        let triangle: TriangleDefinition = triangles[i];
        indices.push(triangle.0[0]);
        indices.push(triangle.0[1]);
        indices.push(triangle.0[2]);
        assert(indices@ =~= triangle_indices(triangles@).take(3 * (i + 1)));
        i = i + 1;
    }
    assert(triangle_indices(triangles@).take(3 * i) =~= triangle_indices(triangles@));
    indices
}

/// The indices of lines, one line after another.
pub fn flatten_lines(lines: &[[u32; 2]]) -> (indices: Vec<u32>)
    ensures
        indices@ == line_indices(lines@),
{
    let mut indices: Vec<u32> = Vec::new();
    let mut i: usize = 0;
    while i < lines.len()
        invariant
            i <= lines@.len(),
            indices@ == line_indices(lines@).take(2 * i),
        decreases lines@.len() - i,
    {
        let line: [u32; 2] = lines[i];
        indices.push(line[0]);
        indices.push(line[1]);
        assert(indices@ =~= line_indices(lines@).take(2 * (i + 1)));
        i = i + 1;
    }
    assert(line_indices(lines@).take(2 * i) =~= line_indices(lines@));
    indices
}

impl<'a> ElementsDescriptor<'a> {
    /// What the elements are.
    pub open spec fn kind(self) -> ElementKind {
        match self {
            ElementsDescriptor::Triangles(_) => ElementKind::Triangle,
            ElementsDescriptor::Lines(_) => ElementKind::Line,
            ElementsDescriptor::Points(_) => ElementKind::Point,
        }
    }

    /// How many elements there are.
    pub open spec fn count(self) -> nat {
        match self {
            ElementsDescriptor::Triangles(t) => t@.len(),
            ElementsDescriptor::Lines(l) => l@.len(),
            ElementsDescriptor::Points(p) => p@.len(),
        }
    }

    /// The indices of all elements, one element after another.
    pub open spec fn indices(self) -> Seq<u32> {
        match self {
            ElementsDescriptor::Triangles(t) => triangle_indices(t@),
            ElementsDescriptor::Lines(l) => line_indices(l@),
            ElementsDescriptor::Points(p) => p@,
        }
    }

    /// What the elements are.
    pub fn element_kind(&self) -> (kind: ElementKind)
        ensures
            kind == self.kind(),
    {
        match self {
            ElementsDescriptor::Triangles(_) => ElementKind::Triangle,
            ElementsDescriptor::Lines(_) => ElementKind::Line,
            ElementsDescriptor::Points(_) => ElementKind::Point,
        }
    }

    /// How many elements there are, and their bytes as the graphics card reads them.
    fn count_and_bytes(&self) -> (result: (usize, Vec<u8>))
        ensures
            result.0 == self.count(),
            result.1@ == words_in_memory(self.indices()),
    {
        match self {
            ElementsDescriptor::Triangles(t) => (
                t.len(),
                cast_words(flatten_triangles(t).as_slice()),
            ),
            ElementsDescriptor::Lines(l) => (l.len(), cast_words(flatten_lines(l).as_slice())),
            ElementsDescriptor::Points(p) => (p.len(), cast_words(p)),
        }
    }
}

/// One vertex buffer to make: its attributes, the size of a vertex, and its data if there is any
/// yet.
pub struct VertexBufferDescriptor<'a> {
    pub attributes: &'a [AttributeDefinition],
    pub element_size: usize,
    pub bytes: Option<&'a [u8]>,
}

impl<'a> VertexBufferDescriptor<'a> {
    /// The buffer can be made: its layouts can be, and its data, if it has to be converted, lies
    /// within them.
    pub open spec fn valid(self) -> bool {
        &&& representable(self.attributes@, self.element_size)
        &&& self.bytes is Some && any_converted(self.attributes@) ==> can_rewrite(
            self.element_size as int,
            converted_stride(self.attributes@, self.element_size) as int,
            remaps_of(self.attributes@),
            self.bytes->0@.len(),
        )
    }

    /// True if the buffer can be made.
    pub fn is_valid(&self) -> (result: bool)
        ensures
            result == self.valid(),
    {
        if !can_lay_out(self.attributes, self.element_size) {
            return false;
        }
        let (_, conversion) = plan_vertex_buffer(self.attributes, self.element_size);
        match (conversion, self.bytes) {
            (Some(conversion), Some(bytes)) => conversion.can_convert(bytes.len()),
            _ => true,
        }
    }

    /// The data as it is uploaded.
    pub open spec fn contents(self) -> Seq<u8> {
        match self.bytes {
            Some(bytes) => uploaded_data(self.attributes@, self.element_size, bytes@),
            None => seq![],
        }
    }
}

/// Geometry to make.
pub struct GpuGeometryBufferDescriptor<'a> {
    pub name: &'a str,
    pub elements: ElementsDescriptor<'a>,
    pub buffers: &'a [VertexBufferDescriptor<'a>],
}

/// `data` as it is uploaded to a vertex buffer with these attributes.
pub open spec fn uploaded_data(
    attributes: Seq<AttributeDefinition>,
    element_size: usize,
    data: Seq<u8>,
) -> Seq<u8> {
    if any_converted(attributes) {
        rewritten(
            element_size as int,
            converted_stride(attributes, element_size) as int,
            remaps_of(attributes),
            data,
        )
    } else {
        data
    }
}

/// The size of a buffer made for `len` bytes: a buffer is never empty.
pub open spec fn buffer_size(len: nat) -> nat {
    if len == 0 {
        1
    } else {
        len
    }
}

/// A buffer to create, and what to write into it. Nothing is written if the contents are empty.
pub struct BufferCreation {
    pub label: Option<String>,
    pub size: u64,
    pub contents: Vec<u8>,
}

impl BufferCreation {
    /// A buffer just large enough for its contents, under this label.
    pub open spec fn is_for(self, label: Option<Seq<char>>, contents: Seq<u8>) -> bool {
        &&& self.contents@ == contents
        &&& self.size == buffer_size(contents.len())
        &&& match label {
            Some(text) => self.label is Some && self.label->0@ == text,
            None => self.label is None,
        }
    }

    fn new(label: Option<String>, contents: Vec<u8>) -> (creation: Self)
        ensures
            creation.label == label,
            creation.contents == contents,
            creation.size == buffer_size(contents@.len()),
    {
        let len: usize = contents.len();
        let size: u64 = if len == 0 {
            1
        } else {
            len as u64
        };
        BufferCreation { label, size, contents }
    }
}

/// A write into a buffer, which is made again first if it has become too small.
pub struct BufferWrite {
    pub bytes: Vec<u8>,
    /// The size of the buffer to make in place of the one there is.
    pub recreate: Option<u64>,
}

/// What it takes to change a buffer. Commands recorded before a write must not see its data, so
/// they are submitted first.
pub struct BufferUpdate {
    pub submit: bool,
    pub write: Option<BufferWrite>,
}

impl BufferUpdate {
    /// Nothing is done.
    pub open spec fn is_nothing(self) -> bool {
        !self.submit && self.write is None
    }

    /// What was recorded is submitted, then `bytes` are written into a buffer of `size` bytes, or
    /// into one made in its place if they do not fit.
    pub open spec fn is_write(self, bytes: Seq<u8>, size: u64) -> bool {
        &&& self.submit
        &&& self.write is Some
        &&& self.write->0.bytes@ == bytes
        &&& self.write->0.recreate == if bytes.len() <= size {
            None::<u64>
        } else {
            Some(bytes.len() as u64)
        }
    }
}

/// The size of a buffer of `size` bytes after `len` bytes were written.
pub open spec fn size_after_write(size: u64, len: nat) -> nat {
    if len <= size {
        size as nat
    } else {
        len
    }
}

/// Writes bytes into a buffer of `size` bytes: returns the update and the size that the buffer has
/// from then on.
fn write_into(size: u64, bytes: Vec<u8>) -> (result: (BufferUpdate, u64))
    ensures
        result.0.is_write(bytes@, size),
        result.1 == size_after_write(size, bytes@.len()),
{
    let len: u64 = bytes.len() as u64;
    if len <= size {
        (BufferUpdate { submit: true, write: Some(BufferWrite { bytes, recreate: None }) }, size)
    } else {
        (BufferUpdate { submit: true, write: Some(BufferWrite { bytes, recreate: Some(len) }) }, len)
    }
}

/// The buffers to create for new geometry.
pub struct GeometryUpload {
    pub vertex_buffers: Vec<BufferCreation>,
    pub element_buffer: BufferCreation,
}

/// The label of vertex buffer `i` of the geometry called `name`.
pub open spec fn vertex_buffer_label(named: bool, name: Seq<char>, i: int) -> Option<Seq<char>> {
    if named {
        Some(name + "VB"@ + decimal(i as nat))
    } else {
        None
    }
}

/// The label of the index buffer of the geometry called `name`.
pub open spec fn element_buffer_label(named: bool, name: Seq<char>) -> Option<Seq<char>> {
    if named {
        Some(name + "IB"@)
    } else {
        None
    }
}

/// Geometry on the graphics card: how large its vertex buffers and its index buffer are, how they
/// are read, and how the data of each vertex buffer is rewritten before upload, if at all.
/// Supports triangles, lines, and points as element types.
pub struct WgpuGeometryBuffer {
    pub vertex_buffers: Vec<u64>,
    pub vertex_buffer_layouts: Vec<VertexBufferLayout>,
    pub conversions: Vec<Option<VertexConversion>>,
    pub element_buffer: u64,
    pub element_count: usize,
    pub element_kind: ElementKind,
}

/// `data` as a conversion leaves it, if there is one.
pub open spec fn after_conversion(
    conversion: Option<VertexConversion>,
    data: Seq<u8>,
) -> Seq<u8> {
    match conversion {
        Some(c) => c.converted(data),
        None => data,
    }
}

/// `data` as a conversion leaves it, if there is one.
fn convert_data(conversion: &Option<VertexConversion>, data: &[u8]) -> (bytes: Vec<u8>)
    requires
        conversion matches Some(c) ==> c.accepts(data@.len()),
    ensures
        bytes@ == after_conversion(*conversion, data@),
{
    match conversion {
        Some(c) => c.convert(data),
        None => slice_to_vec(data),
    }
}

/// `this` is the geometry that the descriptor asks for, and `upload` is what to create for it.
pub open spec fn is_made_from(
    this: WgpuGeometryBuffer,
    upload: GeometryUpload,
    server: WgpuGraphicsServer,
    desc: GpuGeometryBufferDescriptor,
) -> bool {
    &&& this.well_formed()
    &&& this.vertex_buffers@.len() == desc.buffers@.len()
    &&& forall|i: int|
        0 <= i < desc.buffers@.len() ==> this.buffer_matches(i, #[trigger] desc.buffers@[i])
    &&& this.element_count == desc.elements.count()
    &&& this.element_kind == desc.elements.kind()
    &&& this.element_buffer == upload.element_buffer.size
    &&& upload.vertex_buffers@.len() == desc.buffers@.len()
    &&& forall|i: int|
        0 <= i < desc.buffers@.len() ==> (#[trigger] upload.vertex_buffers@[i]).is_for(
            vertex_buffer_label(server.named_objects, desc.name@, i),
            desc.buffers@[i].contents(),
        )
    &&& upload.element_buffer.is_for(
        element_buffer_label(server.named_objects, desc.name@),
        words_in_memory(desc.elements.indices()),
    )
}

impl WgpuGeometryBuffer {
    /// Every vertex buffer has a size, a layout, and a place for its conversion.
    pub open spec fn well_formed(&self) -> bool {
        &&& self.vertex_buffer_layouts@.len() == self.vertex_buffers@.len()
        &&& self.conversions@.len() == self.vertex_buffers@.len()
    }

    /// Data of `len` bytes can be uploaded to vertex buffer `buffer_idx`: it can be converted, if it
    /// has to be.
    pub open spec fn accepts(&self, buffer_idx: int, len: nat) -> bool {
        buffer_idx < self.conversions@.len() ==> (self.conversions@[buffer_idx] matches Some(c)
            ==> c.accepts(len))
    }

    /// True if data of `len` bytes can be uploaded to vertex buffer `buffer_idx`.
    pub fn can_accept(&self, buffer_idx: usize, len: usize) -> (result: bool)
        ensures
            result == self.accepts(buffer_idx as int, len as nat),
    {
        if buffer_idx >= self.conversions.len() {
            return true;
        }
        match &self.conversions[buffer_idx] {
            Some(conversion) => conversion.can_convert(len),
            None => true,
        }
    }

    /// Vertex buffer `i` is read and converted as its descriptor says, and is as large as its data.
    pub open spec fn buffer_matches(&self, i: int, descriptor: VertexBufferDescriptor) -> bool {
        &&& self.vertex_buffers@[i] == buffer_size(descriptor.contents().len())
        &&& is_layout_of(
            self.vertex_buffer_layouts@[i],
            descriptor.attributes@,
            descriptor.element_size,
        )
        &&& is_conversion_of(
            self.conversions@[i],
            descriptor.attributes@,
            descriptor.element_size,
        )
    }

    /// Creates a new geometry buffer from the given descriptor.
    ///
    /// Plans vertex buffers with their attribute layouts and an index buffer, and returns what to
    /// create on the graphics card for them.
    pub fn new(
        server: &WgpuGraphicsServer,
        desc: &GpuGeometryBufferDescriptor,
    ) -> (result: Result<(Self, GeometryUpload), FrameworkError>)
        requires
            forall|i: int| 0 <= i < desc.buffers@.len() ==> (#[trigger] desc.buffers@[i]).valid(),
        ensures
            result is Ok,
            result matches Ok((this, upload)) ==> is_made_from(this, upload, *server, *desc),
    {
        let mut this = WgpuGeometryBuffer {
            vertex_buffers: Vec::new(),
            vertex_buffer_layouts: Vec::new(),
            conversions: Vec::new(),
            element_buffer: 0,
            element_count: 0,
            element_kind: desc.elements.element_kind(),
        };
        let mut creations: Vec<BufferCreation> = Vec::new();
        let mut i: usize = 0;
        while i < desc.buffers.len()
            invariant
                i <= desc.buffers@.len(),
                forall|j: int|
                    0 <= j < desc.buffers@.len() ==> (#[trigger] desc.buffers@[j]).valid(),
                this.well_formed(),
                this.vertex_buffers@.len() == i,
                this.element_kind == desc.elements.kind(),
                forall|j: int|
                    0 <= j < i ==> this.buffer_matches(j, #[trigger] desc.buffers@[j]),
                creations@.len() == i,
                forall|j: int|
                    0 <= j < i ==> (#[trigger] creations@[j]).is_for(
                        vertex_buffer_label(server.named_objects, desc.name@, j),
                        desc.buffers@[j].contents(),
                    ),
            decreases desc.buffers@.len() - i,
        {
            let ghost before = this;
            let buf: &VertexBufferDescriptor = &desc.buffers[i];
            let (layout, conversion) = plan_vertex_buffer(buf.attributes, buf.element_size);
            let contents: Vec<u8> = match buf.bytes {
                Some(bytes) => convert_data(&conversion, bytes),
                None => Vec::new(),
            };
            assert(contents@ =~= buf.contents());
            let label: Option<String> = if server.named_objects {
                let mut text = chars(desc.name);
                append(&mut text, chars("VB").as_slice());
                append(&mut text, to_decimal(i).as_slice());
                Some(string_of(text.as_slice()))
            } else {
                None
            };
            let creation = BufferCreation::new(label, contents);
            this.vertex_buffers.push(creation.size);
            this.vertex_buffer_layouts.push(layout);
            this.conversions.push(conversion);
            creations.push(creation);
            proof {
                assert forall|j: int| 0 <= j < i + 1 implies this.buffer_matches(
                    j,
                    #[trigger] desc.buffers@[j],
                ) by {
                    if j < i {
                        assert(before.buffer_matches(j, desc.buffers@[j]));
                    }
                }
            }
            i = i + 1;
        }
        let (element_count, element_data) = desc.elements.count_and_bytes();
        let label: Option<String> = if server.named_objects {
            let mut text = chars(desc.name);
            append(&mut text, chars("IB").as_slice());
            Some(string_of(text.as_slice()))
        } else {
            None
        };
        let element_buffer = BufferCreation::new(label, element_data);
        this.element_buffer = element_buffer.size;
        this.element_count = element_count;
        Ok((this, GeometryUpload { vertex_buffers: creations, element_buffer }))
    }

    /// Returns the number of elements (triangles, lines, or points) in the index buffer.
    pub fn element_count(&self) -> (count: usize)
        ensures
            count == self.element_count,
    {
        self.element_count
    }

    /// Returns the type of elements stored in the index buffer.
    pub fn element_kind(&self) -> (kind: ElementKind)
        ensures
            kind == self.element_kind,
    {
        self.element_kind
    }

    /// Returns the sizes of the vertex buffers.
    pub fn vertex_buffers(&self) -> (sizes: &Vec<u64>)
        ensures
            sizes == self.vertex_buffers,
    {
        &self.vertex_buffers
    }

    /// Returns the vertex buffer layout descriptors for all vertex buffers.
    pub fn vertex_buffer_layouts(&self) -> (layouts: &[VertexBufferLayout])
        ensures
            layouts@ == self.vertex_buffer_layouts@,
    {
        self.vertex_buffer_layouts.as_slice()
    }

    /// Returns the size of the index (element) buffer.
    pub fn element_buffer(&self) -> (size: u64)
        ensures
            size == self.element_buffer,
    {
        self.element_buffer
    }

    /// The elements of `after` are `count` elements with these indices, written by `update`; all
    /// else is as it was in `before`. Without a server nothing is written, nor is the count changed.
    pub open spec fn elements_written(
        before: Self,
        after: Self,
        update: BufferUpdate,
        server_alive: bool,
        count: nat,
        indices: Seq<u32>,
    ) -> bool {
        if server_alive {
            &&& update.is_write(words_in_memory(indices), before.element_buffer)
            &&& after.element_count == count
            &&& after.element_buffer == size_after_write(
                before.element_buffer,
                words_in_memory(indices).len(),
            )
            &&& after.element_kind == before.element_kind
            &&& after.vertex_buffers == before.vertex_buffers
            &&& after.vertex_buffer_layouts == before.vertex_buffer_layouts
            &&& after.conversions == before.conversions
        } else {
            update.is_nothing() && after == before
        }
    }

    /// The elements of `after` are these, written by `update`; all else is as it was in `before`.
    pub open spec fn elements_replaced(
        before: Self,
        after: Self,
        update: BufferUpdate,
        server_alive: bool,
        elements: ElementsDescriptor,
    ) -> bool {
        Self::elements_written(
            before,
            after,
            update,
            server_alive,
            elements.count(),
            elements.indices(),
        )
    }

    /// Writes index data to the element buffer, recreating it if the new data is larger
    /// than the current buffer capacity.
    fn write_element_data(
        &mut self,
        server_alive: bool,
        count: usize,
        indices: &[u32],
    ) -> (update: BufferUpdate)
        ensures
            Self::elements_written(
                *old(self),
                *final(self),
                update,
                server_alive,
                count as nat,
                indices@,
            ),
    {
        if !server_alive {
            return BufferUpdate { submit: false, write: None };
        }
        self.element_count = count;
        let (update, size) = write_into(self.element_buffer, cast_words(indices));
        self.element_buffer = size;
        update
    }

    /// The data of vertex buffer `buffer_idx` of `after` is `data`, converted if the buffer's
    /// attributes ask for it and written by `update`; all else is as it was in `before`. A buffer that
    /// does not exist is not written to, and without a server none is.
    pub open spec fn data_replaced(
        before: Self,
        after: Self,
        update: BufferUpdate,
        server_alive: bool,
        buffer_idx: int,
        data: Seq<u8>,
    ) -> bool {
        &&& after.vertex_buffer_layouts == before.vertex_buffer_layouts
        &&& after.conversions == before.conversions
        &&& after.element_buffer == before.element_buffer
        &&& after.element_count == before.element_count
        &&& after.element_kind == before.element_kind
        &&& if !server_alive {
            &&& update.is_nothing()
            &&& after.vertex_buffers == before.vertex_buffers
        } else if buffer_idx >= before.vertex_buffers@.len() {
            &&& update.submit
            &&& update.write is None
            &&& after.vertex_buffers == before.vertex_buffers
        } else {
            let bytes = after_conversion(before.conversions@[buffer_idx], data);
            let size = before.vertex_buffers@[buffer_idx];
            &&& update.is_write(bytes, size)
            &&& after.vertex_buffers@ == before.vertex_buffers@.update(
                buffer_idx,
                size_after_write(size, bytes.len()) as u64,
            )
        }
    }

    /// Replaces the data of a vertex buffer, which is made again if it has become too small. The
    /// data is converted first, if the buffer's attributes ask for it. A buffer that does not exist
    /// is not written to, and without a server none is.
    pub fn set_buffer_data(
        &mut self,
        server_alive: bool,
        buffer_idx: usize,
        data: &[u8],
    ) -> (update: BufferUpdate)
        requires
            old(self).well_formed(),
            old(self).accepts(buffer_idx as int, data@.len()),
        ensures
            final(self).well_formed(),
            Self::data_replaced(
                *old(self),
                *final(self),
                update,
                server_alive,
                buffer_idx as int,
                data@,
            ),
    {
        if !server_alive {
            return BufferUpdate { submit: false, write: None };
        }
        if buffer_idx >= self.vertex_buffers.len() {
            return BufferUpdate { submit: true, write: None };
        }
        let bytes = convert_data(&self.conversions[buffer_idx], data);
        let (update, size) = write_into(self.vertex_buffers[buffer_idx], bytes);
        self.vertex_buffers.set(buffer_idx, size);
        update
    }

    /// Replaces the elements by triangles.
    pub fn set_triangles(
        &mut self,
        server_alive: bool,
        triangles: &[TriangleDefinition],
    ) -> (update: BufferUpdate)
        ensures
            Self::elements_replaced(
                *old(self),
                *final(self),
                update,
                server_alive,
                ElementsDescriptor::Triangles(triangles),
            ),
    {
        self.write_element_data(
            server_alive,
            triangles.len(),
            flatten_triangles(triangles).as_slice(),
        )
    }

    /// Replaces the elements by lines.
    pub fn set_lines(&mut self, server_alive: bool, lines: &[[u32; 2]]) -> (update: BufferUpdate)
        ensures
            Self::elements_replaced(
                *old(self),
                *final(self),
                update,
                server_alive,
                ElementsDescriptor::Lines(lines),
            ),
    {
        self.write_element_data(server_alive, lines.len(), flatten_lines(lines).as_slice())
    }

    /// Replaces the elements by points.
    pub fn set_points(&mut self, server_alive: bool, points: &[u32]) -> (update: BufferUpdate)
        ensures
            Self::elements_replaced(
                *old(self),
                *final(self),
                update,
                server_alive,
                ElementsDescriptor::Points(points),
            ),
    {
        self.write_element_data(server_alive, points.len(), points)
    }
}

/// Data that replaces a vertex buffer's is uploaded as it would have been when the buffer was made:
/// the layout the buffer was given then still fits it.
pub proof fn law_later_data_is_uploaded_alike(
    conversion: Option<VertexConversion>,
    attributes: Seq<AttributeDefinition>,
    element_size: usize,
    data: Seq<u8>,
)
    requires
        representable(attributes, element_size),
        is_conversion_of(conversion, attributes, element_size),
    ensures
        after_conversion(conversion, data) == uploaded_data(attributes, element_size, data),
{
}

/// Commands recorded before a write never see its data: no update writes without submitting them
/// first. A write fits its buffer, and no write makes a buffer smaller.
pub proof fn law_writes_follow_a_submit_and_fit(update: BufferUpdate, bytes: Seq<u8>, size: u64)
    requires
        update.is_write(bytes, size),
        bytes.len() <= u64::MAX,
    ensures
        update.submit,
        bytes.len() <= size_after_write(size, bytes.len()),
        size <= size_after_write(size, bytes.len()),
        size_after_write(size, bytes.len()) == match update.write->0.recreate {
            Some(new_size) => new_size as nat,
            None => size as nat,
        },
{
}

/// Indices stand in the order of the elements, and in each element in the order of its corners: those
/// of triangle `i` from `3 * i` on, those of line `i` from `2 * i` on.
pub proof fn law_indices_keep_their_order(
    triangles: Seq<TriangleDefinition>,
    lines: Seq<[u32; 2]>,
    i: int,
)
    ensures
        triangle_indices(triangles).len() == 3 * triangles.len(),
        line_indices(lines).len() == 2 * lines.len(),
        0 <= i < triangles.len() ==> {
            &&& triangle_indices(triangles)[3 * i] == triangles[i].0[0]
            &&& triangle_indices(triangles)[3 * i + 1] == triangles[i].0[1]
            &&& triangle_indices(triangles)[3 * i + 2] == triangles[i].0[2]
        },
        0 <= i < lines.len() ==> {
            &&& line_indices(lines)[2 * i] == lines[i][0]
            &&& line_indices(lines)[2 * i + 1] == lines[i][1]
        },
{
}

/// What new geometry has of its elements: their kind, their number, and their indices, four bytes
/// each.
pub proof fn law_new_geometry_has_its_elements(
    this: WgpuGeometryBuffer,
    upload: GeometryUpload,
    server: WgpuGraphicsServer,
    desc: GpuGeometryBufferDescriptor,
)
    requires
        is_made_from(this, upload, server, desc),
    ensures
        ({
            let bytes = upload.element_buffer.contents@;
            &&& match desc.elements {
                ElementsDescriptor::Triangles(t) => {
                    &&& this.element_kind is Triangle
                    &&& this.element_count == t@.len()
                    &&& bytes == words_in_memory(triangle_indices(t@))
                    &&& bytes.len() == 12 * t@.len()
                },
                ElementsDescriptor::Lines(l) => {
                    &&& this.element_kind is Line
                    &&& this.element_count == l@.len()
                    &&& bytes == words_in_memory(line_indices(l@))
                    &&& bytes.len() == 8 * l@.len()
                },
                ElementsDescriptor::Points(p) => {
                    &&& this.element_kind is Point
                    &&& this.element_count == p@.len()
                    &&& bytes == words_in_memory(p@)
                    &&& bytes.len() == 4 * p@.len()
                },
            }
            &&& bytes.len() <= upload.element_buffer.size
            &&& bytes.len() > 0 ==> upload.element_buffer.size == bytes.len()
            &&& upload.element_buffer.size >= 1
            &&& this.element_buffer == upload.element_buffer.size
        }),
{
}

/// What new geometry has of its vertices: one buffer for each that was described, just as large as
/// its data or one byte for none, filled with that data, converted where its attributes ask for it,
/// and read by the layout of those attributes.
pub proof fn law_new_geometry_has_its_vertices(
    this: WgpuGeometryBuffer,
    upload: GeometryUpload,
    server: WgpuGraphicsServer,
    desc: GpuGeometryBufferDescriptor,
    i: int,
)
    requires
        is_made_from(this, upload, server, desc),
        0 <= i < desc.buffers@.len(),
        desc.buffers@[i].valid(),
    ensures
        ({
            let buffer = desc.buffers@[i];
            let creation = upload.vertex_buffers@[i];
            &&& this.vertex_buffers@.len() == desc.buffers@.len()
            &&& upload.vertex_buffers@.len() == desc.buffers@.len()
            &&& this.vertex_buffers@[i] == creation.size
            &&& creation.size == if creation.contents@.len() > 0 {
                creation.contents@.len()
            } else {
                1
            }
            &&& buffer.bytes is None ==> creation.contents@.len() == 0
            &&& buffer.bytes matches Some(bytes) ==> match this.conversions@[i] {
                Some(conversion) => creation.contents@ == conversion.converted(bytes@),
                None => creation.contents@ == bytes@,
            }
            &&& is_layout_of(
                this.vertex_buffer_layouts@[i],
                buffer.attributes@,
                buffer.element_size,
            )
            &&& is_conversion_of(this.conversions@[i], buffer.attributes@, buffer.element_size)
        }),
{
    assert(this.buffer_matches(i, desc.buffers@[i]));
    assert(upload.vertex_buffers@[i].is_for(
        vertex_buffer_label(server.named_objects, desc.name@, i),
        desc.buffers@[i].contents(),
    ));
}

/// Buffers are named after the geometry, and vertex buffers by their number, just if objects are
/// given names at all.
pub proof fn law_buffers_are_named_after_their_geometry(
    this: WgpuGeometryBuffer,
    upload: GeometryUpload,
    server: WgpuGraphicsServer,
    desc: GpuGeometryBufferDescriptor,
    i: int,
)
    requires
        is_made_from(this, upload, server, desc),
        0 <= i < desc.buffers@.len(),
    ensures
        server.named_objects ==> {
            &&& upload.element_buffer.label matches Some(label) && label@ == desc.name@ + seq![
                'I',
                'B',
            ]
            &&& upload.vertex_buffers@[i].label matches Some(label) && label@ == desc.name@ + seq![
                'V',
                'B',
            ] + decimal(i as nat)
        },
        !server.named_objects ==> {
            &&& upload.element_buffer.label is None
            &&& upload.vertex_buffers@[i].label is None
        },
{
    reveal_strlit("IB");
    reveal_strlit("VB");
    assert("IB"@ =~= seq!['I', 'B']);
    assert("VB"@ =~= seq!['V', 'B']);
    assert(upload.vertex_buffers@[i].is_for(
        vertex_buffer_label(server.named_objects, desc.name@, i),
        desc.buffers@[i].contents(),
    ));
}

/// Replacing the data of a buffer touches no other buffer, nor any layout or element. The buffer then
/// has room for the data, and is made again just if it had too little. The data is converted if the
/// buffer was made with attributes that ask for it. Where there is no such buffer nothing is written;
/// where there is no server nothing is done at all.
pub proof fn law_replacing_data_touches_one_buffer(
    before: WgpuGeometryBuffer,
    after: WgpuGeometryBuffer,
    update: BufferUpdate,
    server_alive: bool,
    buffer_idx: int,
    data: Seq<u8>,
    other: int,
)
    requires
        before.well_formed(),
        0 <= buffer_idx,
        WgpuGeometryBuffer::data_replaced(before, after, update, server_alive, buffer_idx, data),
        data.len() <= u64::MAX,
        before.accepts(buffer_idx, data.len()),
        0 <= other < before.vertex_buffers@.len(),
    ensures
        after.vertex_buffers@.len() == before.vertex_buffers@.len(),
        other != buffer_idx ==> after.vertex_buffers@[other] == before.vertex_buffers@[other],
        after.conversions == before.conversions,
        after.vertex_buffer_layouts == before.vertex_buffer_layouts,
        after.element_count == before.element_count && after.element_kind == before.element_kind
            && after.element_buffer == before.element_buffer,
        update.submit == server_alive,
        update.write is Some <==> server_alive && buffer_idx < before.vertex_buffers@.len(),
        update.write is None ==> after.vertex_buffers == before.vertex_buffers,
        update.write matches Some(write) ==> {
            let had = before.vertex_buffers@[buffer_idx];
            let has = after.vertex_buffers@[buffer_idx];
            &&& match before.conversions@[buffer_idx] {
                Some(conversion) => write.bytes@ == conversion.converted(data),
                None => write.bytes@ == data,
            }
            &&& write.recreate is Some <==> write.bytes@.len() > had
            &&& write.recreate is None ==> has == had
            &&& write.recreate matches Some(size) ==> has == size && size == write.bytes@.len()
            &&& write.bytes@.len() <= has
        },
{
    if update.write is Some {
        let bytes = after_conversion(before.conversions@[buffer_idx], data);
        assert(bytes.len() <= u64::MAX);
    }
}

/// Replacing the elements writes all their indices, four bytes each, and counts them; it touches no
/// vertex buffer. The index buffer then has room for them, and is made again just if it had too
/// little. Without a server nothing is done, nor is anything counted.
pub proof fn law_replacing_elements_touches_no_vertices(
    before: WgpuGeometryBuffer,
    after: WgpuGeometryBuffer,
    update: BufferUpdate,
    server_alive: bool,
    count: nat,
    indices: Seq<u32>,
)
    requires
        WgpuGeometryBuffer::elements_written(
            before,
            after,
            update,
            server_alive,
            count,
            indices,
        ),
        4 * indices.len() <= u64::MAX,
    ensures
        after.vertex_buffers == before.vertex_buffers,
        after.vertex_buffer_layouts == before.vertex_buffer_layouts,
        after.conversions == before.conversions,
        after.element_kind == before.element_kind,
        update.submit == server_alive,
        update.write is Some <==> server_alive,
        !server_alive ==> after == before,
        update.write matches Some(write) ==> {
            &&& write.bytes@ == words_in_memory(indices)
            &&& write.bytes@.len() == 4 * indices.len()
            &&& after.element_count == count
            &&& write.recreate is Some <==> write.bytes@.len() > before.element_buffer
            &&& write.recreate is None ==> after.element_buffer == before.element_buffer
            &&& write.recreate matches Some(size) ==> after.element_buffer == size && size
                == write.bytes@.len()
        },
{
}

/// Elements that are replaced are counted as elements, and all their indices are written: three for
/// each triangle, two for each line, one for each point.
pub proof fn law_replaced_elements_are_counted(
    before: WgpuGeometryBuffer,
    after: WgpuGeometryBuffer,
    update: BufferUpdate,
    elements: ElementsDescriptor,
)
    requires
        WgpuGeometryBuffer::elements_replaced(before, after, update, true, elements),
    ensures
        update.submit,
        update.write matches Some(write) && match elements {
            ElementsDescriptor::Triangles(t) => {
                &&& after.element_count == t@.len()
                &&& write.bytes@ == words_in_memory(triangle_indices(t@))
                &&& write.bytes@.len() == 12 * t@.len()
            },
            ElementsDescriptor::Lines(l) => {
                &&& after.element_count == l@.len()
                &&& write.bytes@ == words_in_memory(line_indices(l@))
                &&& write.bytes@.len() == 8 * l@.len()
            },
            ElementsDescriptor::Points(p) => {
                &&& after.element_count == p@.len()
                &&& write.bytes@ == words_in_memory(p@)
                &&& write.bytes@.len() == 4 * p@.len()
            },
        },
{
}

/// A buffer can be made just if its layouts can be, and its data, if there is any that has to be
/// converted, can be converted. Later data can be uploaded just if it can be converted, if it has to
/// be.
pub proof fn law_data_fits_its_attributes(
    buffer: VertexBufferDescriptor,
    conversion: Option<VertexConversion>,
    geometry: WgpuGeometryBuffer,
    buffer_idx: int,
    len: nat,
)
    requires
        representable(buffer.attributes@, buffer.element_size),
        is_conversion_of(conversion, buffer.attributes@, buffer.element_size),
        0 <= buffer_idx,
    ensures
        buffer.valid() <==> match (conversion, buffer.bytes) {
            (Some(c), Some(bytes)) => c.accepts(bytes@.len()),
            _ => true,
        },
        geometry.accepts(buffer_idx, len) <==> buffer_idx >= geometry.conversions@.len()
            || match geometry.conversions@[buffer_idx] {
            Some(c) => c.accepts(len),
            None => true,
        },
{
}

} // verus!
