//! Copying depth by drawing, for WebGL. The GL backend copies a texture by reading it as a
//! framebuffer's color, which a depth texture cannot be, so WebGL refuses every depth copy. Drawing
//! the source depth as the fragment depth copies it instead. Stencil is not copied: no draw can
//! write it.
use crate::float_bits::{
    from_integer, is_nearest, lemma_nearest_is_unique, magnitude, nearest, F32Bits,
};
use vstd::arithmetic::power2::{lemma2_to64, lemma_pow2_adds, pow2};
use vstd::prelude::*;

verus! {

/// The formats that hold depth.
#[derive(Clone, Copy, Debug, PartialEq, Eq, Structural)]
pub enum DepthFormat {
    Depth16Unorm,
    Depth24Plus,
    Depth24PlusStencil8,
    Depth32Float,
    Depth32FloatStencil8,
}

impl DepthFormat {
    /// The format holds stencil as well as depth.
    pub open spec fn holds_stencil(self) -> bool {
        self == DepthFormat::Depth24PlusStencil8 || self == DepthFormat::Depth32FloatStencil8
    }

    /// `wgpu::TextureFormat::has_stencil_aspect`: true for the two formats that hold stencil
    /// as well as depth, and false for those that hold depth alone.
    #[verifier::external_body]
    fn has_stencil_aspect(self) -> (result: bool)
        ensures
            result == self.holds_stencil(),
    {
        let format = match self {
            DepthFormat::Depth16Unorm => wgpu::TextureFormat::Depth16Unorm,
            DepthFormat::Depth24Plus => wgpu::TextureFormat::Depth24Plus,
            DepthFormat::Depth24PlusStencil8 => wgpu::TextureFormat::Depth24PlusStencil8,
            DepthFormat::Depth32Float => wgpu::TextureFormat::Depth32Float,
            DepthFormat::Depth32FloatStencil8 => wgpu::TextureFormat::Depth32FloatStencil8,
        };
        format.has_stencil_aspect()
    }
}

/// The number zero, where a viewport's range of depth begins.
pub const NEAREST_DEPTH: u32 = 0;

/// The number one, where a viewport's range of depth ends.
pub const FARTHEST_DEPTH: u32 = 0x3f80_0000;

/// A pass that copies depth by drawing one triangle over the whole viewport.
pub struct DepthCopyPass {
    /// The pipeline to draw with, counted in the order in which pipelines were made.
    pub pipeline: usize,
    /// The pipeline has to be made first.
    pub make_pipeline: bool,
    /// The level of the source to read.
    pub source_level: u32,
    /// The level of the destination to draw into.
    pub dest_level: u32,
    /// The destination's stencil is loaded and stored again, as its depth is.
    pub keep_stencil: bool,
    /// The viewport: x, y, width and height in texels, then the range of depth.
    pub viewport: [F32Bits; 6],
    /// The texels to draw: x, y, width and height.
    pub scissor: [u32; 4],
}

/// The pipelines that copy depth, one for each depth format copied into: the format that each was
/// made for.
pub struct DepthCopy {
    pub formats: Vec<DepthFormat>,
}

/// The formats for which there are pipelines once depth was copied into `format`.
pub open spec fn formats_after(formats: Seq<DepthFormat>, format: DepthFormat) -> Seq<DepthFormat> {
    if formats.contains(format) {
        formats
    } else {
        formats.push(format)
    }
}

/// The viewport over these texels, with the whole range of depth.
pub open spec fn viewport_over(x: u32, y: u32, width: u32, height: u32) -> Seq<F32Bits> {
    seq![
        F32Bits(nearest(x as nat)),
        F32Bits(nearest(y as nat)),
        F32Bits(nearest(width as nat)),
        F32Bits(nearest(height as nat)),
        F32Bits(NEAREST_DEPTH),
        F32Bits(FARTHEST_DEPTH),
    ]
}

/// `pass` copies these texels into that level of a destination of that format. There were pipelines
/// for `before`, and are for `after`.
pub open spec fn is_copy(
    pass: DepthCopyPass,
    before: Seq<DepthFormat>,
    after: Seq<DepthFormat>,
    format: DepthFormat,
    dest_level: u32,
    x: u32,
    y: u32,
    width: u32,
    height: u32,
) -> bool {
    &&& after == formats_after(before, format)
    &&& pass.pipeline < after.len()
    &&& after[pass.pipeline as int] == format
    &&& pass.make_pipeline <==> !before.contains(format)
    &&& pass.source_level == 0
    &&& pass.dest_level == dest_level
    &&& pass.keep_stencil == format.holds_stencil()
    &&& pass.viewport@ == viewport_over(x, y, width, height)
    &&& pass.scissor@ == seq![x, y, width, height]
}

impl DepthCopy {
    /// No format has two pipelines.
    pub open spec fn well_formed(&self) -> bool {
        self.formats@.no_duplicates()
    }

    /// No pipelines yet.
    pub fn new() -> (copier: Self)
        ensures
            copier.well_formed(),
            copier.formats@ == Seq::<DepthFormat>::empty(),
    {
        DepthCopy { formats: Vec::new() }
    }

    /// The place of the pipeline for a format.
    fn find(&self, format: DepthFormat) -> (place: Option<usize>)
        ensures
            match place {
                Some(i) => i < self.formats@.len() && self.formats@[i as int] == format,
                None => !self.formats@.contains(format),
            },
    {
        let mut i: usize = 0;
        while i < self.formats.len()
            invariant
                i <= self.formats@.len(),
                forall|j: int| 0 <= j < i ==> self.formats@[j] != format,
            decreases self.formats@.len() - i,
        {
            if self.formats[i] == format {
                return Some(i);
            }
            i = i + 1;
        }
        None
    }

    /// A pass that copies depth from level 0 of the source into level `dest_level` of a destination
    /// of this format, over `width` by `height` texels from (`x`, `y`) in both.
    pub fn copy(
        &mut self,
        format: DepthFormat,
        dest_level: u32,
        x: u32,
        y: u32,
        width: u32,
        height: u32,
    ) -> (pass: DepthCopyPass)
        requires
            old(self).well_formed(),
        ensures
            final(self).well_formed(),
            is_copy(
                pass,
                old(self).formats@,
                final(self).formats@,
                format,
                dest_level,
                x,
                y,
                width,
                height,
            ),
    {
        let (pipeline, make_pipeline): (usize, bool) = match self.find(format) {
            Some(place) => (place, false),
            None => {
                let place: usize = self.formats.len();
                self.formats.push(format);
                (place, true)
            },
        };
        let viewport = [
            from_integer(x as u64),
            from_integer(y as u64),
            from_integer(width as u64),
            from_integer(height as u64),
            F32Bits(NEAREST_DEPTH),
            F32Bits(FARTHEST_DEPTH),
        ];
        assert(viewport@ =~= viewport_over(x, y, width, height));
        let scissor: [u32; 4] = [x, y, width, height];
        assert(scissor@ =~= seq![x, y, width, height]);
        DepthCopyPass {
            pipeline,
            make_pipeline,
            source_level: 0,
            dest_level,
            keep_stencil: format.has_stencil_aspect(),
            viewport,
            scissor,
        }
    }
}

/// Each format gets one pipeline: copying into a format again makes none, and a pipeline that was
/// made stays in its place whatever is copied into later.
pub proof fn law_pipelines_are_made_once(formats: Seq<DepthFormat>, format: DepthFormat, i: int)
    requires
        formats.no_duplicates(),
    ensures
        formats_after(formats, format).no_duplicates(),
        formats_after(formats, format).contains(format),
        formats_after(formats_after(formats, format), format) == formats_after(formats, format),
        0 <= i < formats.len() ==> formats_after(formats, format)[i] == formats[i],
{
    if !formats.contains(format) {
        assert(formats.push(format)[formats.len() as int] == format);
    }
}

/// The viewport covers the texels that are drawn, each of which is one of those to copy: number `i` of
/// the viewport is the float nearest to number `i` of the scissor rectangle, which is what was asked
/// for, and the range of depth is all of it, from 0 to 1.
pub proof fn law_viewports_cover_the_texels(
    pass: DepthCopyPass,
    before: Seq<DepthFormat>,
    after: Seq<DepthFormat>,
    format: DepthFormat,
    dest_level: u32,
    x: u32,
    y: u32,
    width: u32,
    height: u32,
    i: int,
    bits: u32,
)
    requires
        is_copy(pass, before, after, format, dest_level, x, y, width, height),
        0 <= i < 4,
        is_nearest(pass.scissor[i] as nat, bits),
    ensures
        pass.scissor[0] == x && pass.scissor[1] == y && pass.scissor[2] == width && pass.scissor[3]
            == height,
        pass.viewport[i] == F32Bits(bits),
        pass.viewport[4] == F32Bits(0),
        pass.viewport[5] == F32Bits(0x3f80_0000),
        magnitude(pass.viewport[4].0 as nat) == 0,
        magnitude(pass.viewport[5].0 as nat) == pow2(149),
{
    let value = pass.scissor@[i] as nat;
    assert(pass.scissor@[i] == pass.scissor[i]);
    assert(pass.viewport@[i] == F32Bits(nearest(value)));
    lemma_nearest_is_unique(value, bits, nearest(value));
    assert(pass.viewport@[4] == F32Bits(0));
    assert(pass.viewport@[5] == F32Bits(0x3f80_0000));
    assert(magnitude(0x3f80_0000) == 0x80_0000 * pow2(126)) by {
        assert(0x3f80_0000nat / 0x80_0000 == 127);
        assert(0x3f80_0000nat % 0x80_0000 == 0);
    }
    lemma2_to64();
    lemma_pow2_adds(23, 126);
}

/// Depth is read from the first level of the source and drawn into the level that was asked for.
/// Stencil is kept just where there is any.
pub proof fn law_copies_keep_stencil(
    pass: DepthCopyPass,
    before: Seq<DepthFormat>,
    after: Seq<DepthFormat>,
    format: DepthFormat,
    dest_level: u32,
    x: u32,
    y: u32,
    width: u32,
    height: u32,
)
    requires
        is_copy(pass, before, after, format, dest_level, x, y, width, height),
    ensures
        pass.source_level == 0,
        pass.dest_level == dest_level,
        pass.keep_stencil <==> match format {
            DepthFormat::Depth16Unorm => false,
            DepthFormat::Depth24Plus => false,
            DepthFormat::Depth24PlusStencil8 => true,
            DepthFormat::Depth32Float => false,
            DepthFormat::Depth32FloatStencil8 => true,
        },
{
}

/// A copy is drawn with the pipeline for its format, which is made just if there is none yet, and is
/// then the last; two copies into the same format are drawn with the same pipeline, however many
/// others were made between them.
pub proof fn law_a_format_keeps_its_pipeline(
    first: DepthCopyPass,
    second: DepthCopyPass,
    start: Seq<DepthFormat>,
    between: Seq<DepthFormat>,
    later: Seq<DepthFormat>,
    end: Seq<DepthFormat>,
    format: DepthFormat,
    levels: (u32, u32),
    texels: [u32; 4],
    other_texels: [u32; 4],
)
    requires
        start.no_duplicates(),
        is_copy(
            first,
            start,
            between,
            format,
            levels.0,
            texels[0],
            texels[1],
            texels[2],
            texels[3],
        ),
        later.no_duplicates(),
        between.is_prefix_of(later),
        is_copy(
            second,
            later,
            end,
            format,
            levels.1,
            other_texels[0],
            other_texels[1],
            other_texels[2],
            other_texels[3],
        ),
    ensures
        first.make_pipeline ==> first.pipeline == start.len(),
        !first.make_pipeline ==> first.pipeline < start.len() && start[first.pipeline as int]
            == format,
        second.pipeline == first.pipeline,
        !second.make_pipeline,
        end == later,
{
    assert(later[first.pipeline as int] == between[first.pipeline as int]);
    assert(later.contains(format));
    if first.make_pipeline && first.pipeline < start.len() {
        assert(start[first.pipeline as int] == format);
    }
}

} // verus!
