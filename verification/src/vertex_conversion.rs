//! How vertex data is rewritten on upload, so that integers the shader must see as floats are
//! floats.
use crate::bytes::{law_words_read_back, le_bytes, to_le_bytes};
use crate::float_bits::{from_integer, is_nearest, lemma_nearest_is_unique, nearest};
use crate::vertex_format::{upload_bytes, AttributeKind};
use vstd::arithmetic::div_mod::{lemma_fundamental_div_mod, lemma_fundamental_div_mod_converse};
use vstd::prelude::*;
use vstd::slice::slice_subrange;

verus! {

/// Where one attribute lives in the engine's vertex data and in the uploaded data.
#[derive(Clone, Copy, Debug, PartialEq, Eq, Structural)]
pub struct AttributeRemap {
    pub kind: AttributeKind,
    pub component_count: usize,
    pub convert: bool,
    pub src_offset: usize,
    pub dst_offset: usize,
}

impl AttributeRemap {
    /// The bytes one component takes up in the uploaded data.
    pub open spec fn step(self) -> nat {
        upload_bytes(self.kind, self.convert)
    }

    /// The attribute lies within a vertex of either layout, and is not converted if it is made of
    /// floats.
    pub open spec fn fits(self, src_stride: nat, dst_stride: nat) -> bool {
        self.component_count > 0 ==> {
            &&& self.src_offset + self.component_count * self.kind.bytes() <= src_stride
            &&& self.dst_offset + self.component_count * self.step() <= dst_stride
            &&& self.convert ==> self.kind != AttributeKind::Float
        }
    }

    /// True if the attribute lies within a vertex of either layout, and is not converted if it is
    /// made of floats.
    pub fn lies_within(&self, src_stride: usize, dst_stride: usize) -> (result: bool)
        ensures
            result == self.fits(src_stride as nat, dst_stride as nat),
    {
        if self.component_count == 0 {
            return true;
        }
        let count: u128 = self.component_count as u128;
        let size: u128 = self.kind.size() as u128;
        let step: u128 = if self.convert {
            4
        } else {
            size
        };
        proof {
            assert(0 <= count * size <= count * 4) by (nonlinear_arith)
                requires
                    0 <= count,
                    0 <= size <= 4,
            ;
            assert(0 <= count * step <= count * 4) by (nonlinear_arith)
                requires
                    0 <= count,
                    0 <= step <= 4,
            ;
        }
        self.src_offset as u128 + count * size <= src_stride as u128 && self.dst_offset as u128
            + count * step <= dst_stride as u128 && !(self.convert && match self.kind {
            AttributeKind::Float => true,
            _ => false,
        })
    }

    /// The integer that component `c` holds in a vertex of the engine's data.
    pub open spec fn integer(self, src: Seq<u8>, c: int) -> nat {
        let s = self.src_offset + c * self.kind.bytes();
        match self.kind {
            AttributeKind::UnsignedByte => src[s] as nat,
            AttributeKind::UnsignedShort => (src[s] + 0x100 * src[s + 1]) as nat,
            _ => (src[s] + 0x100 * src[s + 1] + 0x1_0000 * src[s + 2] + 0x100_0000 * src[s
                + 3]) as nat,
        }
    }

    /// The bytes of component `c` in the uploaded data: a float of the same value where it is
    /// converted, else the bytes it has in the engine's data.
    pub open spec fn component(self, src: Seq<u8>, c: int) -> Seq<u8> {
        if self.convert {
            le_bytes(nearest(self.integer(src, c)))
        } else {
            let s = self.src_offset + c * self.kind.bytes();
            src.subrange(s, s + self.kind.bytes())
        }
    }

    /// Byte `p` of an uploaded vertex belongs to this attribute.
    pub open spec fn covers(self, p: int) -> bool {
        self.dst_offset <= p < self.dst_offset + self.component_count * self.step()
    }

    /// What the attribute puts at byte `p` of an uploaded vertex.
    pub open spec fn byte_at(self, src: Seq<u8>, p: int) -> u8 {
        let k = p - self.dst_offset;
        self.component(src, k / (self.step() as int))[k % (self.step() as int)]
    }

    /// The bytes of component `c` in the uploaded data.
    fn convert_component(&self, src: &[u8], c: usize) -> (bytes: Vec<u8>)
        requires
            c < self.component_count,
            self.src_offset + self.component_count * self.kind.bytes() <= src@.len(),
            self.convert ==> self.kind != AttributeKind::Float,
        ensures
            bytes@ == self.component(src@, c as int),
            bytes@.len() == self.step(),
    {
        let size: usize = self.kind.size();
        proof {
            assert(src@.len() == src.len());
            let n = self.component_count as int;
            assert(c * size + size <= n * size) by (nonlinear_arith)
                requires
                    c + 1 <= n,
                    size >= 0,
            ;
            assert(0 <= c * size) by (nonlinear_arith)
                requires
                    size >= 0,
                    c >= 0,
            ;
        }
        let s: usize = self.src_offset + c * size;
        let mut bytes: Vec<u8> = Vec::new();
        if self.convert {
            let value: u64 = match self.kind {
                AttributeKind::UnsignedByte => src[s] as u64,
                AttributeKind::UnsignedShort => src[s] as u64 + 0x100 * (src[s + 1] as u64),
                _ => src[s] as u64 + 0x100 * (src[s + 1] as u64) + 0x1_0000 * (src[s + 2] as u64)
                    + 0x100_0000 * (src[s + 3] as u64),
            };
            assert(value == self.integer(src@, c as int));
            let float = to_le_bytes(from_integer(value).0);
            bytes.push(float[0]);
            bytes.push(float[1]);
            bytes.push(float[2]);
            bytes.push(float[3]);
            assert(bytes@ =~= float@);
        } else {
            let mut j: usize = 0;
            while j < size
                invariant
                    j <= size,
                    s + size <= src@.len() == src.len(),
                    bytes@ == src@.subrange(s as int, s + j),
                decreases size - j,
            {
                bytes.push(src[s + j]);
                assert(bytes@ =~= src@.subrange(s as int, s + j + 1));
                j = j + 1;
            }
        }
        bytes
    }

    /// Puts the attribute of one vertex where it lives in the uploaded data.
    fn write(&self, src: &[u8], dst: &mut Vec<u8>)
        requires
            self.fits(src@.len(), old(dst)@.len()),
        ensures
            final(dst)@.len() == old(dst)@.len(),
            forall|p: int|
                0 <= p < final(dst)@.len() ==> #[trigger] final(dst)@[p] == if self.covers(p) {
                    self.byte_at(src@, p)
                } else {
                    old(dst)@[p]
                },
    {
        let step: usize = if self.convert {
            4
        } else {
            self.kind.size()
        };
        let mut c: usize = 0;
        while c < self.component_count
            invariant
                c <= self.component_count,
                step == self.step(),
                0 < step <= 4,
                self.fits(src@.len(), old(dst)@.len()),
                dst@.len() == old(dst)@.len(),
                forall|p: int|
                    0 <= p < dst@.len() ==> #[trigger] dst@[p] == if self.dst_offset <= p
                        < self.dst_offset + c * step {
                        self.byte_at(src@, p)
                    } else {
                        old(dst)@[p]
                    },
            decreases self.component_count - c,
        {
            let bytes = self.convert_component(src, c);
            proof {
                assert(dst@.len() == dst.len());
                let n = self.component_count as int;
                assert(c * step + step <= n * step) by (nonlinear_arith)
                    requires
                        c + 1 <= n,
                        step >= 0,
                ;
                assert(0 <= c * step) by (nonlinear_arith)
                    requires
                        step >= 0,
                        c >= 0,
                ;
                assert((c + 1) * step == c * step + step) by (nonlinear_arith);
            }
            let d: usize = self.dst_offset + c * step;
            let mut j: usize = 0;
            while j < step
                invariant
                    j <= step,
                    step == self.step(),
                    0 < step <= 4,
                    c < self.component_count,
                    d == self.dst_offset + c * step,
                    d + step <= old(dst)@.len(),
                    bytes@ == self.component(src@, c as int),
                    bytes@.len() == step,
                    dst@.len() == old(dst)@.len(),
                    forall|p: int|
                        0 <= p < dst@.len() ==> #[trigger] dst@[p] == if self.dst_offset <= p < d
                            + j {
                            self.byte_at(src@, p)
                        } else {
                            old(dst)@[p]
                        },
                decreases step - j,
            {
                proof {
                    assert(dst@.len() == dst.len());
                    lemma_fundamental_div_mod_converse(
                        c * step + j,
                        step as int,
                        c as int,
                        j as int,
                    );
                }
                dst.set(d + j, bytes[j]);
                j = j + 1;
            }
            c = c + 1;
        }
    }
}

/// What the attributes put at byte `p` of an uploaded vertex: where several cover it, the last of
/// them, and zero where none does.
pub open spec fn uploaded_byte(attributes: Seq<AttributeRemap>, src: Seq<u8>, p: int) -> u8
    decreases attributes.len(),
{
    if attributes.len() == 0 {
        0
    } else if attributes.last().covers(p) {
        attributes.last().byte_at(src, p)
    } else {
        uploaded_byte(attributes.drop_last(), src, p)
    }
}

/// Vertex `v` of data whose vertices take up `stride` bytes.
pub open spec fn vertex_of(data: Seq<u8>, stride: int, v: int) -> Seq<u8> {
    data.subrange(v * stride, v * stride + stride)
}

/// `data` with its whole vertices rewritten, attribute by attribute.
pub open spec fn rewritten(
    src_stride: int,
    dst_stride: int,
    attributes: Seq<AttributeRemap>,
    data: Seq<u8>,
) -> Seq<u8> {
    Seq::new(
        (data.len() as int / src_stride * dst_stride) as nat,
        |i: int|
            uploaded_byte(attributes, vertex_of(data, src_stride, i / dst_stride), i % dst_stride),
    )
}

/// Data of `len` bytes can be rewritten: vertices have a size in either layout, the attributes lie
/// within them if there is a vertex at all, and the result can be allocated.
pub open spec fn can_rewrite(
    src_stride: int,
    dst_stride: int,
    attributes: Seq<AttributeRemap>,
    len: nat,
) -> bool {
    &&& src_stride > 0
    &&& dst_stride > 0
    &&& len >= src_stride ==> forall|i: int|
        0 <= i < attributes.len() ==> (#[trigger] attributes[i]).fits(
            src_stride as nat,
            dst_stride as nat,
        )
    &&& len as int / src_stride * dst_stride <= isize::MAX
}

/// How a vertex buffer's data is rewritten before upload, for buffers with attributes that need
/// to become floats.
#[derive(Debug)]
pub struct VertexConversion {
    pub src_stride: usize,
    pub dst_stride: usize,
    pub attributes: Vec<AttributeRemap>,
}

impl VertexConversion {
    /// Vertex `v` of data laid out with the source stride.
    pub open spec fn vertex(&self, data: Seq<u8>, v: int) -> Seq<u8> {
        vertex_of(data, self.src_stride as int, v)
    }

    /// How many whole vertices `len` bytes of data hold.
    pub open spec fn vertex_count(&self, len: int) -> int {
        len / self.src_stride as int
    }

    /// `data` in the converted layout.
    pub open spec fn converted(&self, data: Seq<u8>) -> Seq<u8> {
        rewritten(self.src_stride as int, self.dst_stride as int, self.attributes@, data)
    }

    /// Data of `len` bytes can be converted.
    pub open spec fn accepts(&self, len: nat) -> bool {
        can_rewrite(self.src_stride as int, self.dst_stride as int, self.attributes@, len)
    }

    /// True if data of `len` bytes can be converted.
    pub fn can_convert(&self, len: usize) -> (result: bool)
        ensures
            result == self.accepts(len as nat),
    {
        if self.src_stride == 0 || self.dst_stride == 0 {
            return false;
        }
        let count: u128 = (len / self.src_stride) as u128;
        let stride: u128 = self.dst_stride as u128;
        proof {
            assert(0 <= count * stride <= 0xffff_ffff_ffff_ffff * 0xffff_ffff_ffff_ffff)
                by (nonlinear_arith)
                requires
                    0 <= count <= 0xffff_ffff_ffff_ffff,
                    0 <= stride <= 0xffff_ffff_ffff_ffff,
            ;
        }
        if count * stride > isize::MAX as u128 {
            return false;
        }
        if len < self.src_stride {
            return true;
        }
        let mut i: usize = 0;
        while i < self.attributes.len()
            invariant
                i <= self.attributes@.len(),
                len >= self.src_stride,
                forall|j: int|
                    0 <= j < i ==> (#[trigger] self.attributes@[j]).fits(
                        self.src_stride as nat,
                        self.dst_stride as nat,
                    ),
            decreases self.attributes@.len() - i,
        {
            if !self.attributes[i].lies_within(self.src_stride, self.dst_stride) {
                return false;
            }
            i = i + 1;
        }
        true
    }

    /// Rewrites one vertex.
    fn convert_vertex(&self, src: &[u8]) -> (dst: Vec<u8>)
        requires
            src@.len() == self.src_stride,
            forall|i: int|
                0 <= i < self.attributes@.len() ==> (#[trigger] self.attributes@[i]).fits(
                    self.src_stride as nat,
                    self.dst_stride as nat,
                ),
        ensures
            dst@.len() == self.dst_stride,
            forall|p: int|
                0 <= p < dst@.len() ==> #[trigger] dst@[p] == uploaded_byte(
                    self.attributes@,
                    src@,
                    p,
                ),
    {
        let mut dst: Vec<u8> = vec![0u8; self.dst_stride];
        let mut a: usize = 0;
        assert forall|p: int| 0 <= p < dst@.len() implies #[trigger] dst@[p] == uploaded_byte(
            self.attributes@.take(0),
            src@,
            p,
        ) by {
            assert(cloned(0u8, dst@[p]));
        }
        while a < self.attributes.len()
            invariant
                a <= self.attributes@.len(),
                src@.len() == self.src_stride,
                forall|i: int|
                    0 <= i < self.attributes@.len() ==> (#[trigger] self.attributes@[i]).fits(
                        self.src_stride as nat,
                        self.dst_stride as nat,
                    ),
                dst@.len() == self.dst_stride,
                forall|p: int|
                    0 <= p < dst@.len() ==> #[trigger] dst@[p] == uploaded_byte(
                        self.attributes@.take(a as int),
                        src@,
                        p,
                    ),
            decreases self.attributes@.len() - a,
        {
            let ghost before = dst@;
            self.attributes[a].write(src, &mut dst);
            proof {
                let next = self.attributes@.take(a + 1);
                assert(next.drop_last() =~= self.attributes@.take(a as int));
                assert(next.last() == self.attributes@[a as int]);
                assert forall|p: int| 0 <= p < dst@.len() implies #[trigger] dst@[p]
                    == uploaded_byte(next, src@, p) by {
                    assert(before[p] == uploaded_byte(next.drop_last(), src@, p));
                }
            }
            a = a + 1;
        }
        assert(self.attributes@.take(a as int) =~= self.attributes@);
        dst
    }

    /// Rewrites vertex data laid out with the source stride into the converted layout.
    pub fn convert(&self, data: &[u8]) -> (out: Vec<u8>)
        requires
            self.accepts(data@.len()),
        ensures
            out@ == self.converted(data@),
    {
        let count: usize = data.len() / self.src_stride;
        let mut out: Vec<u8> = Vec::new();
        let mut v: usize = 0;
        let ghost src_stride = self.src_stride as int;
        let ghost dst_stride = self.dst_stride as int;
        assert(0 * dst_stride == 0);
        while v < count
            invariant
                v <= count,
                self.accepts(data@.len()),
                data@.len() == data.len(),
                count == data@.len() / self.src_stride as nat,
                src_stride == self.src_stride,
                dst_stride == self.dst_stride,
                out@.len() == v * dst_stride,
                forall|i: int|
                    0 <= i < out@.len() ==> #[trigger] out@[i] == self.converted(data@)[i],
            decreases count - v,
        {
            proof {
                lemma_fundamental_div_mod(data@.len() as int, src_stride);
                assert(v * src_stride + src_stride <= count * src_stride) by (nonlinear_arith)
                    requires
                        v + 1 <= count,
                        src_stride > 0,
                ;
                assert(count * src_stride == src_stride * count) by (nonlinear_arith);
                assert(0 <= v * src_stride) by (nonlinear_arith)
                    requires
                        v >= 0,
                        src_stride > 0,
                ;
                assert(v * dst_stride + dst_stride <= count * dst_stride) by (nonlinear_arith)
                    requires
                        v + 1 <= count,
                        dst_stride > 0,
                ;
                assert((v + 1) * dst_stride == v * dst_stride + dst_stride) by (nonlinear_arith);
                assert(src_stride <= data@.len()) by (nonlinear_arith)
                    requires
                        v * src_stride + src_stride <= data@.len(),
                        v * src_stride >= 0,
                ;
            }
            let start: usize = v * self.src_stride;
            let src = slice_subrange(data, start, start + self.src_stride);
            let mut dst = self.convert_vertex(src);
            let ghost vertex = dst@;
            let ghost before = out@;
            out.append(&mut dst);
            proof {
                assert forall|i: int| 0 <= i < out@.len() implies #[trigger] out@[i]
                    == self.converted(data@)[i] by {
                    if i < before.len() {
                        assert(out@[i] == before[i]);
                    } else {
                        let p = i - before.len();
                        assert(out@[i] == vertex[p]);
                        lemma_fundamental_div_mod_converse(i, dst_stride, v as int, p);
                    }
                }
            }
            v = v + 1;
        }
        assert(out@ =~= self.converted(data@));
        out
    }
}

/// Component `c` of an attribute holds `value` in a vertex of the engine's data: its bytes stand there
/// one after another from the attribute's offset on, the least significant one first.
pub open spec fn holds_integer(remap: AttributeRemap, src: Seq<u8>, c: int, value: nat) -> bool {
    match remap.kind {
        AttributeKind::UnsignedByte => {
            let s = remap.src_offset + c;
            &&& src[s] == value
        },
        AttributeKind::UnsignedShort => {
            let s = remap.src_offset + 2 * c;
            &&& value <= 0xffff
            &&& src[s] == value % 0x100
            &&& src[s + 1] == value / 0x100
        },
        AttributeKind::UnsignedInt => {
            let s = remap.src_offset + 4 * c;
            &&& value <= u32::MAX
            &&& src[s] == le_bytes(value as u32)[0]
            &&& src[s + 1] == le_bytes(value as u32)[1]
            &&& src[s + 2] == le_bytes(value as u32)[2]
            &&& src[s + 3] == le_bytes(value as u32)[3]
        },
        AttributeKind::Float => false,
    }
}

/// Reading an integer undoes writing it, least significant byte first.
pub proof fn law_integers_read_back(remap: AttributeRemap, src: Seq<u8>, c: int, value: nat)
    requires
        holds_integer(remap, src, c, value),
    ensures
        remap.integer(src, c) == value,
{
    law_words_read_back(value as u32);
    assert(c * 1 == c && c * 2 == 2 * c && c * 4 == 4 * c) by (nonlinear_arith);
}

/// An integer that is converted becomes the float nearest to it, least significant byte first:
/// whatever the integer is, and whichever component of whichever attribute it is.
pub proof fn law_integers_become_the_nearest_floats(
    remap: AttributeRemap,
    src: Seq<u8>,
    c: int,
    value: nat,
    bits: u32,
)
    requires
        remap.convert,
        holds_integer(remap, src, c, value),
        is_nearest(value, bits),
    ensures
        ({
            let bytes = remap.component(src, c);
            &&& bytes.len() == 4
            &&& bytes[0] + 256 * bytes[1] + 65536 * bytes[2] + 16777216 * bytes[3] == bits
        }),
{
    law_integers_read_back(remap, src, c, value);
    lemma_nearest_is_unique(value, bits, nearest(value));
    law_words_read_back(bits);
}

/// The size of one component in the uploaded data: that of a float if it is converted, else its own.
pub open spec fn uploaded_size(remap: AttributeRemap) -> int {
    if remap.convert || remap.kind is Float || remap.kind is UnsignedInt {
        4
    } else if remap.kind is UnsignedShort {
        2
    } else {
        1
    }
}

/// Byte `p` of an uploaded vertex lies within the components of an attribute.
pub open spec fn is_within(remap: AttributeRemap, p: int) -> bool {
    remap.dst_offset <= p < remap.dst_offset + remap.component_count * uploaded_size(remap)
}

/// Where attribute `a` is the last to lie over a byte, it decides it: byte `k` of component `c` of
/// vertex `v` stands at that vertex, that attribute's offset, and that component, in the uploaded
/// data, and is byte `k` of the same component of the same vertex of the engine's data if it is not
/// converted.
pub proof fn law_components_go_to_their_places(
    conversion: VertexConversion,
    data: Seq<u8>,
    v: int,
    a: int,
    c: int,
    k: int,
)
    requires
        conversion.src_stride > 0,
        0 <= v,
        v * conversion.src_stride + conversion.src_stride <= data.len(),
        0 <= a < conversion.attributes@.len(),
        0 <= c < conversion.attributes@[a].component_count,
        0 <= k < uploaded_size(conversion.attributes@[a]),
        conversion.attributes@[a].fits(
            conversion.src_stride as nat,
            conversion.dst_stride as nat,
        ),
        forall|b: int|
            a < b < conversion.attributes@.len() ==> !is_within(
                #[trigger] conversion.attributes@[b],
                conversion.attributes@[a].dst_offset + c * uploaded_size(conversion.attributes@[a])
                    + k,
            ),
    ensures
        ({
            let remap = conversion.attributes@[a];
            let size = uploaded_size(remap);
            let at = v * conversion.dst_stride + remap.dst_offset + c * size + k;
            let start = v * conversion.src_stride;
            let vertex = data.subrange(start, start + conversion.src_stride);
            &&& 0 <= at < conversion.converted(data).len()
            &&& remap.convert ==> conversion.converted(data)[at] == remap.component(vertex, c)[k]
            &&& !remap.convert ==> conversion.converted(data)[at] == data[start + remap.src_offset
                + c * size + k]
        }),
{
    let remap = conversion.attributes@[a];
    let size = uploaded_size(remap);
    assert(size == remap.step());
    let n = remap.component_count as int;
    let src = conversion.src_stride as int;
    let dst = conversion.dst_stride as int;
    let p = remap.dst_offset + c * size + k;
    assert(0 <= c * size && c * size + size <= n * size) by (nonlinear_arith)
        requires
            0 <= c < n,
            size > 0,
    ;
    assert(0 <= p < dst);
    let count = data.len() as int / src;
    lemma_fundamental_div_mod(data.len() as int, src);
    assert(v < count) by (nonlinear_arith)
        requires
            v * src + src <= data.len(),
            data.len() == src * count + data.len() as int % src,
            data.len() as int % src < src,
            src > 0,
    ;
    assert(0 <= v * dst && v * dst + dst <= count * dst) by (nonlinear_arith)
        requires
            0 <= v < count,
            dst > 0,
    ;
    assert(0 <= v * src) by (nonlinear_arith)
        requires
            0 <= v,
            src > 0,
    ;
    lemma_fundamental_div_mod_converse(v * dst + p, dst, v, p);
    lemma_fundamental_div_mod_converse(c * size + k, size, c, k);
    let vertex = data.subrange(v * src, v * src + src);
    lemma_last_attribute_decides(conversion.attributes@, vertex, a, p);
    if !remap.convert {
        let s = remap.src_offset + c * size;
        assert(vertex.subrange(s, s + size)[k] == data[v * src + s + k]);
    }
}

/// The last attribute that lies over a byte decides it.
proof fn lemma_last_attribute_decides(
    attributes: Seq<AttributeRemap>,
    src: Seq<u8>,
    a: int,
    p: int,
)
    requires
        0 <= a < attributes.len(),
        attributes[a].covers(p),
        forall|b: int| a < b < attributes.len() ==> !(#[trigger] attributes[b]).covers(p),
    ensures
        uploaded_byte(attributes, src, p) == attributes[a].byte_at(src, p),
    decreases attributes.len(),
{
    if a < attributes.len() - 1 {
        assert(!attributes.last().covers(p));
        lemma_last_attribute_decides(attributes.drop_last(), src, a, p);
    }
}

/// As many vertices come out as whole ones went in, each of the converted size. A byte that lies
/// within no attribute is zero.
pub proof fn law_bytes_between_attributes_are_zero(
    conversion: VertexConversion,
    data: Seq<u8>,
    v: int,
    p: int,
)
    requires
        conversion.src_stride > 0,
        conversion.dst_stride > 0,
        0 <= v,
        v * conversion.src_stride + conversion.src_stride <= data.len(),
        0 <= p < conversion.dst_stride,
        forall|b: int|
            0 <= b < conversion.attributes@.len() ==> !is_within(
                #[trigger] conversion.attributes@[b],
                p,
            ),
    ensures
        conversion.converted(data).len() == data.len() as int / conversion.src_stride as int
            * conversion.dst_stride,
        0 <= v * conversion.dst_stride + p < conversion.converted(data).len(),
        conversion.converted(data)[v * conversion.dst_stride + p] == 0,
{
    let src = conversion.src_stride as int;
    let dst = conversion.dst_stride as int;
    let count = data.len() as int / src;
    lemma_fundamental_div_mod(data.len() as int, src);
    assert(v < count) by (nonlinear_arith)
        requires
            v * src + src <= data.len(),
            data.len() == src * count + data.len() as int % src,
            data.len() as int % src < src,
            src > 0,
    ;
    assert(0 <= v * dst && v * dst + dst <= count * dst) by (nonlinear_arith)
        requires
            0 <= v < count,
            dst > 0,
    ;
    lemma_fundamental_div_mod_converse(v * dst + p, dst, v, p);
    lemma_no_attribute_decides(
        conversion.attributes@,
        vertex_of(data, src, v),
        p,
    );
}

proof fn lemma_no_attribute_decides(attributes: Seq<AttributeRemap>, src: Seq<u8>, p: int)
    requires
        forall|b: int| 0 <= b < attributes.len() ==> !is_within(#[trigger] attributes[b], p),
    ensures
        uploaded_byte(attributes, src, p) == 0,
    decreases attributes.len(),
{
    if attributes.len() > 0 {
        assert(!is_within(attributes.last(), p));
        lemma_no_attribute_decides(attributes.drop_last(), src, p);
    }
}

/// Data can be converted just if vertices have a size, every attribute that has components lies
/// within a vertex of either layout wherever there is a vertex, no float is converted, and the
/// result can be allocated.
pub proof fn law_data_that_can_be_converted(conversion: VertexConversion, len: nat)
    ensures
        conversion.accepts(len) <==> {
            &&& conversion.src_stride >= 1
            &&& conversion.dst_stride >= 1
            &&& len as int / conversion.src_stride as int * conversion.dst_stride <= isize::MAX
            &&& len < conversion.src_stride || forall|a: int|
                0 <= a < conversion.attributes@.len() ==> {
                    let remap = #[trigger] conversion.attributes@[a];
                    let n = remap.component_count;
                    n == 0 || {
                        &&& remap.src_offset + n * remap.kind.bytes() <= conversion.src_stride
                        &&& remap.dst_offset + n * uploaded_size(remap) <= conversion.dst_stride
                        &&& !(remap.convert && remap.kind is Float)
                    }
                }
        },
{
    if conversion.accepts(len) && len >= conversion.src_stride {
        assert forall|a: int| 0 <= a < conversion.attributes@.len() implies {
            let remap = #[trigger] conversion.attributes@[a];
            let n = remap.component_count;
            n == 0 || {
                &&& remap.src_offset + n * remap.kind.bytes() <= conversion.src_stride
                &&& remap.dst_offset + n * uploaded_size(remap) <= conversion.dst_stride
                &&& !(remap.convert && remap.kind is Float)
            }
        } by {
            assert(uploaded_size(conversion.attributes@[a]) == conversion.attributes@[a].step());
        }
    }
}

} // verus!
