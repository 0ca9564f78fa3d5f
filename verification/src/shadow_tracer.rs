//! The passes that trace shadow rays and smooth the result.
use crate::bytes::{
    cast_words, law_low_bits_are_what_is_left, low_bits, low_word, words_in_memory,
};
use crate::float_bits::{from_integer, is_nearest, lemma_nearest_is_unique, nearest, F32Bits};
use crate::server::WgpuGraphicsServer;
use crate::texture::{GpuTextureDescriptor, GpuTextureKind, PixelKind};
use vstd::prelude::*;

verus! {

/// The light a shadow ray is traced towards.
#[derive(Clone, Copy, Debug)]
pub enum ShadowRayLight {
    /// The sun: infinitely far away, so every ray runs the same way.
    Directional {
        /// The direction light travels *towards* the surface.
        direction: [F32Bits; 3],
        /// How far a shadow ray reaches, in meters.
        reach: F32Bits,
        /// How big the sun looks, as the tangent of the angle from its middle to its edge. A
        /// bigger sun casts softer shadows; zero gives hard ones.
        angular_size: F32Bits,
    },
    /// A lamp or a torch: rays run to the light's position, and pixels out of its reach are
    /// left lit, since it lights nothing there.
    Positional {
        /// Where the light is, in world space.
        position: [F32Bits; 3],
        /// How far the light reaches, in meters.
        radius: F32Bits,
        /// The radius of the part that glows, in meters. A bigger light casts softer shadows;
        /// zero gives hard ones.
        size: F32Bits,
    },
}

/// What a shadow ray needs to know: where the camera was, and where the light is.
#[derive(Clone, Copy, Debug)]
pub struct ShadowRayParameters {
    /// Turns a screen position and depth back into a world position.
    pub inverse_view_projection: [[F32Bits; 4]; 4],
    /// The light the rays are traced towards.
    pub light: ShadowRayLight,
    /// How far off the surface a ray starts, in meters, so a surface does not shadow itself.
    pub bias: F32Bits,
    /// True when render targets are stored top row first, which is how this backend stores them.
    pub flip_v: bool,
    /// The only pixels to trace, as x, y, width and height with the origin at the top left.
    /// Pixels outside it are left lit. A lamp lights a small part of the screen, and this keeps
    /// it from paying for rays everywhere else.
    pub scissor: Option<[u32; 4]>,
    /// Rays per pixel, spread over the light's size. One gives hard shadows. More give soft
    /// edges, and the mask is then blurred to smooth out the differences between neighboring
    /// pixels.
    pub samples: u32,
}

/// The number zero.
pub const ZERO: u32 = 0;

/// The number minus one.
pub const MINUS_ONE: u32 = 0xbf80_0000;

/// The number one, which a mask holds where the light reaches.
pub const LIT: u32 = 0x3f80_0000;

/// How far off a pixel's plane a neighbor may lie and still be blurred with it: a twentieth of a
/// meter.
pub const BLUR_PLANE_TOLERANCE: u32 = 0x3d4c_cccd;

/// The lesser of two numbers.
pub open spec fn least(a: u32, b: u32) -> u32 {
    if a <= b {
        a
    } else {
        b
    }
}

/// A scissor rectangle clamped to a target of this size, which a scissor rectangle has to lie
/// within.
pub open spec fn clamped(scissor: [u32; 4], width: u32, height: u32) -> [u32; 4] {
    let x = least(scissor[0], width);
    let y = least(scissor[1], height);
    [x, y, least(scissor[2], (width - x) as u32), least(scissor[3], (height - y) as u32)]
}

/// The lesser of two numbers.
fn min(a: u32, b: u32) -> (result: u32)
    ensures
        result == least(a, b),
{
    if a <= b {
        a
    } else {
        b
    }
}

/// A scissor rectangle clamped to a target of this size.
pub fn clamp_scissor(scissor: [u32; 4], width: u32, height: u32) -> (result: [u32; 4])
    ensures
        result == clamped(scissor, width, height),
{
    let x: u32 = min(scissor[0], width);
    let y: u32 = min(scissor[1], height);
    [x, y, min(scissor[2], width - x), min(scissor[3], height - y)]
}

/// A pixel lies in a rectangle.
pub open spec fn holds_pixel(rectangle: [u32; 4], px: int, py: int) -> bool {
    &&& rectangle[0] <= px < rectangle[0] + rectangle[2]
    &&& rectangle[1] <= py < rectangle[1] + rectangle[3]
}

/// A clamped scissor rectangle lies within the target, and holds just those pixels of the target
/// that it held before.
pub proof fn law_clamped_scissors_lie_within_the_target(
    scissor: [u32; 4],
    width: u32,
    height: u32,
    px: int,
    py: int,
)
    ensures
        ({
            let c = clamped(scissor, width, height);
            &&& c[0] + c[2] <= width
            &&& c[1] + c[3] <= height
            &&& holds_pixel(c, px, py) <==> holds_pixel(scissor, px, py) && 0 <= px < width && 0
                <= py < height
        }),
{
}

/// What a shader binding is bound to.
#[derive(Clone, Copy, Debug, PartialEq, Eq, Structural)]
pub enum BindingType {
    AccelerationStructure,
    DepthTexture,
    /// A texture of floats that is not filtered.
    FloatTexture,
    NonFilteringSampler,
    Uniform,
}

/// One binding of a shader, which its fragment stage sees.
#[derive(Clone, Copy, Debug, PartialEq, Eq, Structural)]
pub struct BindGroupLayoutEntry {
    pub binding: u32,
    pub ty: BindingType,
}

/// The kinds of textures that are bound.
#[derive(Clone, Copy, Debug, PartialEq, Eq, Structural)]
pub enum TextureSampleType {
    Depth,
    NonFiltering,
}

/// A binding for a texture.
pub fn texture_entry(binding: u32, sample_type: TextureSampleType) -> (entry: BindGroupLayoutEntry)
    ensures
        entry.binding == binding,
        entry.ty == match sample_type {
            TextureSampleType::Depth => BindingType::DepthTexture,
            TextureSampleType::NonFiltering => BindingType::FloatTexture,
        },
{
    let ty = match sample_type {
        TextureSampleType::Depth => BindingType::DepthTexture,
        TextureSampleType::NonFiltering => BindingType::FloatTexture,
    };
    BindGroupLayoutEntry { binding, ty }
}

/// A binding for uniforms.
pub fn uniform_entry(binding: u32) -> (entry: BindGroupLayoutEntry)
    ensures
        entry == (BindGroupLayoutEntry { binding, ty: BindingType::Uniform }),
{
    BindGroupLayoutEntry { binding, ty: BindingType::Uniform }
}

/// What a pass can bind.
#[derive(Clone, Copy, Debug, PartialEq, Eq, Structural)]
pub enum Resource {
    Scene,
    Depth,
    Sampler,
    Uniforms,
    Normals,
    /// The texture that soft shadows are blurred from.
    Blurred,
}

impl Resource {
    /// What a binding for the resource has to be.
    pub open spec fn binding_type(self) -> BindingType {
        match self {
            Resource::Scene => BindingType::AccelerationStructure,
            Resource::Depth => BindingType::DepthTexture,
            Resource::Sampler => BindingType::NonFilteringSampler,
            Resource::Uniforms => BindingType::Uniform,
            Resource::Normals | Resource::Blurred => BindingType::FloatTexture,
        }
    }
}

/// The bindings of the pass that traces rays, in order.
pub open spec fn ray_resources() -> Seq<Resource> {
    seq![
        Resource::Scene,
        Resource::Depth,
        Resource::Sampler,
        Resource::Uniforms,
        Resource::Normals,
    ]
}

/// The bindings of the pass that blurs shadows into the mask, in order.
pub open spec fn blur_resources() -> Seq<Resource> {
    seq![Resource::Blurred, Resource::Depth, Resource::Normals, Resource::Uniforms]
}

/// The layout for bindings that are bound to these resources, in order from zero.
pub open spec fn layout_for(resources: Seq<Resource>) -> Seq<BindGroupLayoutEntry> {
    Seq::new(
        resources.len(),
        |i: int| BindGroupLayoutEntry { binding: i as u32, ty: resources[i].binding_type() },
    )
}

/// A texture that a pass draws a mask into: single-channel, the size of the screen.
#[derive(Clone, Copy, Debug, PartialEq, Eq, Structural)]
pub enum MaskTexture {
    /// The result, whatever the light.
    Mask,
    /// What is blurred: the rays of soft shadows are traced into it, and it is then blurred into the
    /// mask.
    Blurred,
}

impl MaskTexture {
    /// The name a texture is created under.
    pub fn name(self) -> (name: String)
        ensures
            name@ == match self {
                MaskTexture::Mask => "RayTracedShadowMask"@,
                MaskTexture::Blurred => "RayTracedShadowMaskBlurred"@,
            },
    {
        match self {
            MaskTexture::Mask => "RayTracedShadowMask".to_owned(),
            MaskTexture::Blurred => "RayTracedShadowMaskBlurred".to_owned(),
        }
    }

    /// What its pixels hold: a single channel.
    pub fn pixel_kind(self) -> (kind: PixelKind)
        ensures
            kind == PixelKind::R8,
            kind.channels() == 1,
    {
        PixelKind::R8
    }
}

/// The passes that trace the rays and smooth the result, kept between frames so their pipelines
/// are built once: the layouts of their bindings, and the shapes of the textures they draw into,
/// once there are any.
pub struct ShadowTracer {
    pub layout: Vec<BindGroupLayoutEntry>,
    pub blur_layout: Vec<BindGroupLayoutEntry>,
    pub mask: Option<GpuTextureKind>,
    pub blurred: Option<GpuTextureKind>,
}

/// `tracer` is a tracer that has drawn nothing yet, or none without ray tracing hardware.
pub open spec fn is_new_tracer(tracer: Option<ShadowTracer>, server: WgpuGraphicsServer) -> bool {
    &&& tracer is Some <==> server.ray_tracing
    &&& tracer matches Some(t) ==> {
        &&& t.layout@ == layout_for(ray_resources())
        &&& t.blur_layout@ == layout_for(blur_resources())
        &&& t.mask is None
        &&& t.blurred is None
    }
}

impl WgpuGraphicsServer {
    /// Creates the passes that trace shadow rays, or [`None`] without ray tracing hardware.
    pub fn create_shadow_tracer(&self) -> (tracer: Option<ShadowTracer>)
        ensures
            is_new_tracer(tracer, *self),
    {
        if !self.ray_tracing {
            return None;
        }
        let mut layout: Vec<BindGroupLayoutEntry> = Vec::new();
        layout.push(BindGroupLayoutEntry { binding: 0, ty: BindingType::AccelerationStructure });
        layout.push(texture_entry(1, TextureSampleType::Depth));
        layout.push(BindGroupLayoutEntry { binding: 2, ty: BindingType::NonFilteringSampler });
        layout.push(uniform_entry(3));
        layout.push(texture_entry(4, TextureSampleType::NonFiltering));
        assert(layout@ =~= layout_for(ray_resources()));
        let mut blur_layout: Vec<BindGroupLayoutEntry> = Vec::new();
        blur_layout.push(texture_entry(0, TextureSampleType::NonFiltering));
        blur_layout.push(texture_entry(1, TextureSampleType::Depth));
        blur_layout.push(texture_entry(2, TextureSampleType::NonFiltering));
        blur_layout.push(uniform_entry(3));
        assert(blur_layout@ =~= layout_for(blur_resources()));
        Some(ShadowTracer { layout, blur_layout, mask: None, blurred: None })
    }
}

/// A light as the shader takes it: for the sun a direction, for a lamp a position and a radius.
#[derive(Clone, Copy, Debug)]
pub struct LightUniforms {
    pub direction: [F32Bits; 3],
    pub reach: F32Bits,
    pub position: [F32Bits; 3],
    pub radius: F32Bits,
    pub positional: u32,
    pub size: F32Bits,
}

/// A light as the shader takes it.
pub open spec fn light_uniforms(light: ShadowRayLight) -> LightUniforms {
    match light {
        ShadowRayLight::Directional { direction, reach, angular_size } => LightUniforms {
            direction,
            reach,
            position: [F32Bits(ZERO), F32Bits(ZERO), F32Bits(ZERO)],
            radius: F32Bits(ZERO),
            positional: 0,
            size: angular_size,
        },
        ShadowRayLight::Positional { position, radius, size } => LightUniforms {
            direction: [F32Bits(ZERO), F32Bits(MINUS_ONE), F32Bits(ZERO)],
            reach: radius,
            position,
            radius,
            positional: 1,
            size,
        },
    }
}

/// A light as the shader takes it.
pub fn to_light_uniforms(light: ShadowRayLight) -> (uniforms: LightUniforms)
    ensures
        uniforms == light_uniforms(light),
{
    match light {
        ShadowRayLight::Directional { direction, reach, angular_size } => LightUniforms {
            direction,
            reach,
            position: [F32Bits(ZERO), F32Bits(ZERO), F32Bits(ZERO)],
            radius: F32Bits(ZERO),
            positional: 0,
            size: angular_size,
        },
        ShadowRayLight::Positional { position, radius, size } => LightUniforms {
            direction: [F32Bits(ZERO), F32Bits(MINUS_ONE), F32Bits(ZERO)],
            reach: radius,
            position,
            radius,
            positional: 1,
            size,
        },
    }
}

/// A matrix as words, column by column.
pub open spec fn matrix_words(matrix: [[F32Bits; 4]; 4]) -> Seq<u32> {
    Seq::new(16, |i: int| matrix[i / 4][i % 4].0)
}

/// A flag as a word.
pub open spec fn flag(value: bool) -> u32 {
    if value {
        1
    } else {
        0
    }
}

/// The uniforms of the pass that traces rays, word by word in the order of the shader's struct.
pub open spec fn ray_words(parameters: ShadowRayParameters, width: nat, height: nat) -> Seq<u32> {
    let light = light_uniforms(parameters.light);
    matrix_words(parameters.inverse_view_projection) + seq![
        light.direction[0].0,
        light.direction[1].0,
        light.direction[2].0,
        light.reach.0,
        nearest(width),
        nearest(height),
        parameters.bias.0,
        flag(parameters.flip_v),
        light.position[0].0,
        light.position[1].0,
        light.position[2].0,
        light.radius.0,
        light.positional,
        if parameters.samples == 0 {
            1
        } else {
            parameters.samples
        },
        light.size.0,
        0,
    ]
}

/// The uniforms of the pass that blurs the mask, word by word in the order of the shader's struct.
pub open spec fn blur_words(parameters: ShadowRayParameters, width: nat, height: nat) -> Seq<u32> {
    matrix_words(parameters.inverse_view_projection) + seq![
        nearest(width),
        nearest(height),
        flag(parameters.flip_v),
        BLUR_PLANE_TOLERANCE,
    ]
}

/// A matrix as words, column by column.
fn to_matrix_words(matrix: &[[F32Bits; 4]; 4]) -> (words: Vec<u32>)
    ensures
        words@ == matrix_words(*matrix),
{
    let mut words: Vec<u32> = Vec::new();
    let mut column: usize = 0;
    while column < 4
        invariant
            column <= 4,
            words@ == matrix_words(*matrix).take(4 * column),
        decreases 4 - column,
    {
        let c: [F32Bits; 4] = matrix[column];
        words.push(c[0].0);
        words.push(c[1].0);
        words.push(c[2].0);
        words.push(c[3].0);
        assert(words@ =~= matrix_words(*matrix).take(4 * (column + 1)));
        column = column + 1;
    }
    assert(matrix_words(*matrix).take(16) =~= matrix_words(*matrix));
    words
}

/// The uniforms of the pass that traces rays.
pub fn ray_uniforms(parameters: &ShadowRayParameters, width: usize, height: usize) -> (bytes: Vec<
    u8,
>)
    ensures
        bytes@ == words_in_memory(ray_words(*parameters, width as nat, height as nat)),
{
    let light = to_light_uniforms(parameters.light);
    let mut words: Vec<u32> = to_matrix_words(&parameters.inverse_view_projection);
    words.push(light.direction[0].0);
    words.push(light.direction[1].0);
    words.push(light.direction[2].0);
    words.push(light.reach.0);
    words.push(from_integer(width as u64).0);
    words.push(from_integer(height as u64).0);
    words.push(parameters.bias.0);
    words.push(if parameters.flip_v { 1 } else { 0 });
    words.push(light.position[0].0);
    words.push(light.position[1].0);
    words.push(light.position[2].0);
    words.push(light.radius.0);
    words.push(light.positional);
    words.push(if parameters.samples == 0 { 1 } else { parameters.samples });
    words.push(light.size.0);
    words.push(0);
    assert(words@ =~= ray_words(*parameters, width as nat, height as nat));
    cast_words(words.as_slice())
}

/// The uniforms of the pass that blurs the mask.
pub fn blur_uniforms(parameters: &ShadowRayParameters, width: usize, height: usize) -> (bytes: Vec<
    u8,
>)
    ensures
        bytes@ == words_in_memory(blur_words(*parameters, width as nat, height as nat)),
{
    let mut words: Vec<u32> = to_matrix_words(&parameters.inverse_view_projection);
    words.push(from_integer(width as u64).0);
    words.push(from_integer(height as u64).0);
    words.push(if parameters.flip_v { 1 } else { 0 });
    words.push(BLUR_PLANE_TOLERANCE);
    assert(words@ =~= blur_words(*parameters, width as nat, height as nat));
    cast_words(words.as_slice())
}

/// A resource bound for a pass.
#[derive(Clone, Copy, Debug, PartialEq, Eq, Structural)]
pub struct Binding {
    pub binding: u32,
    pub resource: Resource,
}

/// The resources bound in order from zero.
pub open spec fn bindings_of(resources: Seq<Resource>) -> Seq<Binding> {
    Seq::new(resources.len(), |i: int| Binding { binding: i as u32, resource: resources[i] })
}

/// A pass that clears its target and draws a full-screen triangle into it, within the scissor
/// rectangle if there is one.
pub struct MaskPass {
    pub target: MaskTexture,
    /// What every pixel of the target is set to first.
    pub clear: F32Bits,
    pub scissor: Option<[u32; 4]>,
    pub uniforms: Vec<u8>,
    pub bindings: Vec<Binding>,
}

/// A pass that clears its target and draws nothing.
#[derive(Clone, Copy, Debug, PartialEq, Eq, Structural)]
pub struct ClearPass {
    pub target: MaskTexture,
    /// What every pixel of the target is set to.
    pub clear: F32Bits,
}

impl ClearPass {
    /// The pass that makes a texture lit at every pixel.
    pub fn lit(target: MaskTexture) -> (pass: Self)
        ensures
            pass.target == target,
            pass.clear == F32Bits(LIT),
    {
        ClearPass { target, clear: F32Bits(LIT) }
    }
}

/// What a trace does next, or how it ended.
#[derive(Clone, Copy, Debug, PartialEq, Eq, Structural)]
pub enum Step {
    /// Create a mask texture of the size of the screen.
    Create(MaskTexture),
    /// Record the pass that makes a texture lit at every pixel. No ray is traced.
    Clear(MaskTexture),
    /// See whether the textures for depth and normals, and the mask, are this backend's.
    Inspect,
    /// See whether the texture that is blurred is this backend's.
    InspectBlurred,
    /// Record the pass that traces rays into a texture, after all that was recorded before: the depth
    /// it reads is written by that.
    DrawRays(MaskTexture),
    /// Record the pass that blurs what was traced into the mask.
    DrawBlur,
    /// Return a texture, or none.
    Return(Option<MaskTexture>),
    /// Return the error that creating a texture ended in.
    Fail,
}

/// What came of a step.
#[derive(Clone, Copy, Debug, PartialEq, Eq, Structural)]
pub enum Outcome {
    /// A texture of this shape was created.
    Created(GpuTextureKind),
    /// No texture could be created.
    NotCreated,
    /// The textures are this backend's, or not.
    Inspected(bool),
    /// A pass was recorded.
    Recorded,
}

/// One trace of shadow rays, on its way.
pub struct Trace {
    pub parameters: ShadowRayParameters,
    pub width: usize,
    pub height: usize,
    pub step: Step,
}

/// A texture of this shape has to be created before a mask of this size can be drawn.
pub open spec fn misfits(slot: Option<GpuTextureKind>, width: usize, height: usize) -> bool {
    slot != Some(GpuTextureKind::Rectangle { width, height })
}

/// Soft shadows were asked for.
pub open spec fn is_soft(parameters: ShadowRayParameters) -> bool {
    parameters.samples > 1
}

/// The pixels to trace, clamped to the screen.
pub open spec fn traced_pixels(
    parameters: ShadowRayParameters,
    width: usize,
    height: usize,
) -> Option<[u32; 4]> {
    match parameters.scissor {
        Some(scissor) => Some(
            clamped(scissor, low_bits(width as int), low_bits(height as int)),
        ),
        None => None,
    }
}

/// The light reaches nothing on screen.
pub open spec fn is_off_screen(
    parameters: ShadowRayParameters,
    width: usize,
    height: usize,
) -> bool {
    traced_pixels(parameters, width, height) matches Some(scissor) && (scissor[2] == 0 || scissor[3]
        == 0)
}

/// The texture that the rays are traced into if all goes well: the mask itself for hard shadows, the
/// one that is blurred into the mask for soft ones.
pub open spec fn ray_texture(parameters: ShadowRayParameters) -> MaskTexture {
    if is_soft(parameters) {
        MaskTexture::Blurred
    } else {
        MaskTexture::Mask
    }
}

/// What is next once there are all textures to draw into. Pixels that no ray is traced for are left
/// lit: if the light reaches nothing on screen, all of them are.
pub open spec fn step_with_textures(
    parameters: ShadowRayParameters,
    width: usize,
    height: usize,
) -> Step {
    if is_off_screen(parameters, width, height) {
        Step::Clear(MaskTexture::Mask)
    } else {
        Step::Inspect
    }
}

/// What is next once there is a mask to draw into.
pub open spec fn step_with_mask(
    blurred: Option<GpuTextureKind>,
    parameters: ShadowRayParameters,
    width: usize,
    height: usize,
) -> Step {
    if is_soft(parameters) && misfits(blurred, width, height) {
        Step::Create(MaskTexture::Blurred)
    } else {
        step_with_textures(parameters, width, height)
    }
}

/// What is first.
pub open spec fn first_step(
    mask: Option<GpuTextureKind>,
    blurred: Option<GpuTextureKind>,
    parameters: ShadowRayParameters,
    width: usize,
    height: usize,
) -> Step {
    if misfits(mask, width, height) {
        Step::Create(MaskTexture::Mask)
    } else {
        step_with_mask(blurred, parameters, width, height)
    }
}

/// The outcome is one that the step can have.
pub open spec fn is_outcome_of(outcome: Outcome, step: Step) -> bool {
    match step {
        Step::Create(_) => outcome is Created || outcome is NotCreated,
        Step::Inspect | Step::InspectBlurred => outcome is Inspected,
        Step::Clear(_) | Step::DrawRays(_) | Step::DrawBlur => outcome is Recorded,
        Step::Return(_) | Step::Fail => false,
    }
}

/// What follows a step that had this outcome.
pub open spec fn next_step(
    step: Step,
    outcome: Outcome,
    blurred: Option<GpuTextureKind>,
    parameters: ShadowRayParameters,
    width: usize,
    height: usize,
) -> Step {
    match step {
        Step::Create(texture) => if outcome is NotCreated {
            Step::Fail
        } else if texture == MaskTexture::Mask {
            step_with_mask(blurred, parameters, width, height)
        } else {
            step_with_textures(parameters, width, height)
        },
        Step::Clear(texture) => Step::Return(Some(texture)),
        Step::Inspect => if outcome != Outcome::Inspected(true) {
            Step::Return(None)
        } else if is_soft(parameters) {
            Step::InspectBlurred
        } else {
            Step::DrawRays(MaskTexture::Mask)
        },
        Step::InspectBlurred => if outcome == Outcome::Inspected(true) {
            Step::DrawRays(MaskTexture::Blurred)
        } else {
            Step::DrawRays(MaskTexture::Mask)
        },
        Step::DrawRays(texture) => if texture == MaskTexture::Blurred {
            Step::DrawBlur
        } else {
            Step::Return(Some(MaskTexture::Mask))
        },
        Step::DrawBlur => Step::Return(Some(MaskTexture::Mask)),
        Step::Return(_) | Step::Fail => step,
    }
}

/// A texture that was created takes its slot.
pub open spec fn slot_after(
    slot: Option<GpuTextureKind>,
    texture: MaskTexture,
    step: Step,
    outcome: Outcome,
) -> Option<GpuTextureKind> {
    match outcome {
        Outcome::Created(kind) if step == Step::Create(texture) => Some(kind),
        _ => slot,
    }
}

/// True if a texture has to be created before a mask of this size can be drawn.
fn needs_texture(slot: &Option<GpuTextureKind>, width: usize, height: usize) -> (result: bool)
    ensures
        result == misfits(*slot, width, height),
{
    match slot {
        Some(GpuTextureKind::Rectangle { width: w, height: h }) => *w != width || *h != height,
        _ => true,
    }
}

/// The descriptor is that of a mask texture for a screen of this size.
pub open spec fn is_descriptor_of(
    descriptor: GpuTextureDescriptor,
    texture: MaskTexture,
    width: usize,
    height: usize,
) -> bool {
    &&& descriptor.name@ == match texture {
        MaskTexture::Mask => "RayTracedShadowMask"@,
        MaskTexture::Blurred => "RayTracedShadowMaskBlurred"@,
    }
    &&& descriptor.kind == (GpuTextureKind::Rectangle { width, height })
    &&& descriptor.pixel_kind == PixelKind::R8
    &&& descriptor.pixel_kind.channels() == 1
}

/// The pass traces rays into `target` for a screen of this size.
pub open spec fn is_ray_pass(
    pass: MaskPass,
    target: MaskTexture,
    parameters: ShadowRayParameters,
    width: usize,
    height: usize,
) -> bool {
    &&& pass.target == target
    &&& pass.clear == F32Bits(LIT)
    &&& pass.scissor == traced_pixels(parameters, width, height)
    &&& pass.uniforms@ == words_in_memory(ray_words(parameters, width as nat, height as nat))
    &&& pass.bindings@ == bindings_of(ray_resources())
}

/// The pass blurs what was traced into the mask, for a screen of this size.
pub open spec fn is_blur_pass(
    pass: MaskPass,
    parameters: ShadowRayParameters,
    width: usize,
    height: usize,
) -> bool {
    &&& pass.target == MaskTexture::Mask
    &&& pass.clear == F32Bits(LIT)
    &&& pass.scissor == traced_pixels(parameters, width, height)
    &&& pass.uniforms@ == words_in_memory(blur_words(parameters, width as nat, height as nat))
    &&& pass.bindings@ == bindings_of(blur_resources())
}

impl Trace {
    /// The pixels to trace, clamped to the screen.
    fn pixels(&self) -> (scissor: Option<[u32; 4]>)
        ensures
            scissor == traced_pixels(self.parameters, self.width, self.height),
    {
        match self.parameters.scissor {
            Some(scissor) => Some(
                clamp_scissor(scissor, low_word(self.width as u64), low_word(self.height as u64)),
            ),
            None => None,
        }
    }

    /// What is next once there are all textures to draw into.
    fn with_textures(&self) -> (step: Step)
        ensures
            step == step_with_textures(self.parameters, self.width, self.height),
    {
        match self.pixels() {
            Some(scissor) => if scissor[2] == 0 || scissor[3] == 0 {
                Step::Clear(MaskTexture::Mask)
            } else {
                Step::Inspect
            },
            None => Step::Inspect,
        }
    }

    /// The texture to create for a mask: single-channel, of the size of the screen.
    pub fn texture_to_create(&self, texture: MaskTexture) -> (descriptor: GpuTextureDescriptor)
        ensures
            is_descriptor_of(descriptor, texture, self.width, self.height),
    {
        GpuTextureDescriptor {
            name: texture.name(),
            kind: GpuTextureKind::Rectangle { width: self.width, height: self.height },
            pixel_kind: texture.pixel_kind(),
        }
    }

    /// The pass that traces rays into a texture.
    pub fn ray_pass(&self, target: MaskTexture) -> (pass: MaskPass)
        ensures
            is_ray_pass(pass, target, self.parameters, self.width, self.height),
    {
        let mut bindings: Vec<Binding> = Vec::new();
        bindings.push(Binding { binding: 0, resource: Resource::Scene });
        bindings.push(Binding { binding: 1, resource: Resource::Depth });
        bindings.push(Binding { binding: 2, resource: Resource::Sampler });
        bindings.push(Binding { binding: 3, resource: Resource::Uniforms });
        bindings.push(Binding { binding: 4, resource: Resource::Normals });
        assert(bindings@ =~= bindings_of(ray_resources()));
        MaskPass {
            target,
            clear: F32Bits(LIT),
            scissor: self.pixels(),
            uniforms: ray_uniforms(&self.parameters, self.width, self.height),
            bindings,
        }
    }

    /// The pass that blurs what was traced into the mask.
    pub fn blur_pass(&self) -> (pass: MaskPass)
        ensures
            is_blur_pass(pass, self.parameters, self.width, self.height),
    {
        let mut bindings: Vec<Binding> = Vec::new();
        bindings.push(Binding { binding: 0, resource: Resource::Blurred });
        bindings.push(Binding { binding: 1, resource: Resource::Depth });
        bindings.push(Binding { binding: 2, resource: Resource::Normals });
        bindings.push(Binding { binding: 3, resource: Resource::Uniforms });
        assert(bindings@ =~= bindings_of(blur_resources()));
        MaskPass {
            target: MaskTexture::Mask,
            clear: F32Bits(LIT),
            scissor: self.pixels(),
            uniforms: blur_uniforms(&self.parameters, self.width, self.height),
            bindings,
        }
    }
}

/// `trace` is where a trace for this depth texture starts.
pub open spec fn is_start(
    trace: Trace,
    tracer: ShadowTracer,
    depth: GpuTextureKind,
    parameters: ShadowRayParameters,
) -> bool {
    &&& trace.parameters == parameters
    &&& match depth {
        GpuTextureKind::Rectangle { width, height } => {
            &&& trace.width == width
            &&& trace.height == height
            &&& trace.step == first_step(tracer.mask, tracer.blurred, parameters, width, height)
        },
        _ => trace.step == Step::Return(None),
    }
}

/// What a step that had this outcome makes of a tracer and its trace.
pub open spec fn is_advanced(
    tracer_before: ShadowTracer,
    tracer_after: ShadowTracer,
    before: Trace,
    after: Trace,
    outcome: Outcome,
) -> bool {
    &&& after.parameters == before.parameters
    &&& after.width == before.width
    &&& after.height == before.height
    &&& after.step == next_step(
        before.step,
        outcome,
        tracer_after.blurred,
        before.parameters,
        before.width,
        before.height,
    )
    &&& tracer_after.mask == slot_after(
        tracer_before.mask,
        MaskTexture::Mask,
        before.step,
        outcome,
    )
    &&& tracer_after.blurred == slot_after(
        tracer_before.blurred,
        MaskTexture::Blurred,
        before.step,
        outcome,
    )
    &&& tracer_after.layout == tracer_before.layout
    &&& tracer_after.blur_layout == tracer_before.blur_layout
}

impl ShadowTracer {
    /// Starts to trace shadow rays for each pixel of a screen with this depth texture. What comes of
    /// it is a mask: 1 where the light reaches, 0 where the geometry blocks it, and in between where
    /// it blocks part of the light. There is none if the depth texture is not rectangular.
    ///
    /// The same texture is returned every time, so each trace overwrites the previous mask. That
    /// is fine for reading it right after, as the renderer does for one light at a time: the GPU
    /// runs the work in the order it was recorded.
    pub fn trace(&self, depth: GpuTextureKind, parameters: ShadowRayParameters) -> (trace: Trace)
        ensures
            is_start(trace, *self, depth, parameters),
    {
        let (width, height): (usize, usize) = match depth {
            GpuTextureKind::Rectangle { width, height } => (width, height),
            _ => {
                return Trace { parameters, width: 0, height: 0, step: Step::Return(None) };
            },
        };
        let mut trace = Trace { parameters, width, height, step: Step::Inspect };
        let step = if needs_texture(&self.mask, width, height) {
            Step::Create(MaskTexture::Mask)
        } else {
            self.with_mask(&trace)
        };
        trace.step = step;
        trace
    }

    /// What is next once there is a mask to draw into.
    fn with_mask(&self, trace: &Trace) -> (step: Step)
        ensures
            step == step_with_mask(self.blurred, trace.parameters, trace.width, trace.height),
    {
        if trace.parameters.samples > 1 && needs_texture(&self.blurred, trace.width, trace.height) {
            Step::Create(MaskTexture::Blurred)
        } else {
            trace.with_textures()
        }
    }

    /// Goes on with a trace after what came of its last step.
    pub fn advance(&mut self, trace: &mut Trace, outcome: Outcome)
        requires
            is_outcome_of(outcome, old(trace).step),
        ensures
            is_advanced(*old(self), *final(self), *old(trace), *final(trace), outcome),
    {
        let step: Step = match (trace.step, outcome) {
            (Step::Create(MaskTexture::Mask), Outcome::Created(kind)) => {
                self.mask = Some(kind);
                self.with_mask(trace)
            },
            (Step::Create(MaskTexture::Blurred), Outcome::Created(kind)) => {
                self.blurred = Some(kind);
                trace.with_textures()
            },
            (Step::Create(_), _) => Step::Fail,
            (Step::Clear(texture), _) => Step::Return(Some(texture)),
            (Step::Inspect, Outcome::Inspected(true)) => if trace.parameters.samples > 1 {
                Step::InspectBlurred
            } else {
                Step::DrawRays(MaskTexture::Mask)
            },
            (Step::Inspect, _) => Step::Return(None),
            (Step::InspectBlurred, Outcome::Inspected(true)) => Step::DrawRays(
                MaskTexture::Blurred,
            ),
            (Step::InspectBlurred, _) => Step::DrawRays(MaskTexture::Mask),
            (Step::DrawRays(MaskTexture::Blurred), _) => Step::DrawBlur,
            (Step::DrawRays(MaskTexture::Mask), _) => Step::Return(Some(MaskTexture::Mask)),
            (Step::DrawBlur, _) => Step::Return(Some(MaskTexture::Mask)),
            (step, _) => step,
        };
        trace.step = step;
    }
}

/// What is bound for a pass agrees with the layout of its bindings: there is one resource for each
/// binding, of the type that the layout asks for, and no binding is bound twice.
pub proof fn law_bindings_agree_with_layouts(resources: Seq<Resource>, i: int, j: int)
    requires
        resources.len() <= u32::MAX,
        0 <= i < resources.len(),
        0 <= j < resources.len(),
    ensures
        bindings_of(resources).len() == layout_for(resources).len(),
        bindings_of(resources)[i].binding == layout_for(resources)[i].binding,
        bindings_of(resources)[i].resource.binding_type() == layout_for(resources)[i].ty,
        bindings_of(resources)[i].binding == bindings_of(resources)[j].binding ==> i == j,
{
}

/// At least one ray is traced for each pixel, however few were asked for; where more were, as many
/// as were asked for.
pub proof fn law_at_least_one_ray_is_traced(
    parameters: ShadowRayParameters,
    width: nat,
    height: nat,
)
    ensures
        ray_words(parameters, width, height)[29] >= 1,
        parameters.samples >= 1 ==> ray_words(parameters, width, height)[29]
            == parameters.samples,
{
}

/// The uniforms of both passes fill whole blocks of sixteen bytes.
pub proof fn law_uniforms_fill_whole_blocks(
    parameters: ShadowRayParameters,
    width: nat,
    height: nat,
)
    ensures
        words_in_memory(ray_words(parameters, width, height)).len() == 128,
        words_in_memory(blur_words(parameters, width, height)).len() == 80,
{
}

/// How many steps a trace has left at most.
pub open spec fn steps_left(step: Step) -> nat {
    match step {
        Step::Create(MaskTexture::Mask) => 6,
        Step::Create(MaskTexture::Blurred) => 5,
        Step::Inspect => 4,
        Step::InspectBlurred => 3,
        Step::DrawRays(_) => 2,
        Step::DrawBlur | Step::Clear(_) => 1,
        Step::Return(_) | Step::Fail => 0,
    }
}

/// Every trace ends: whatever comes of a step, fewer steps are left.
pub proof fn law_traces_end(
    step: Step,
    outcome: Outcome,
    blurred: Option<GpuTextureKind>,
    parameters: ShadowRayParameters,
    width: usize,
    height: usize,
)
    requires
        is_outcome_of(outcome, step),
    ensures
        steps_left(next_step(step, outcome, blurred, parameters, width, height)) < steps_left(step),
{
}

/// The textures that a trace needs for its result have the size of the screen.
pub open spec fn textures_fit(
    mask: Option<GpuTextureKind>,
    blurred: Option<GpuTextureKind>,
    parameters: ShadowRayParameters,
    width: usize,
    height: usize,
) -> bool {
    &&& !misfits(mask, width, height)
    &&& is_soft(parameters) ==> !misfits(blurred, width, height)
}

/// A trace is where it may be: it clears or draws only into textures of the size of the screen; it
/// traces rays if the light reaches something there and clears if not; it blurs only soft shadows.
pub open spec fn is_sound(
    step: Step,
    mask: Option<GpuTextureKind>,
    blurred: Option<GpuTextureKind>,
    parameters: ShadowRayParameters,
    width: usize,
    height: usize,
) -> bool {
    match step {
        Step::Create(MaskTexture::Mask) => true,
        Step::Create(MaskTexture::Blurred) => {
            &&& is_soft(parameters)
            &&& !misfits(mask, width, height)
        },
        Step::Clear(texture) => {
            &&& texture == MaskTexture::Mask
            &&& textures_fit(mask, blurred, parameters, width, height)
            &&& is_off_screen(parameters, width, height)
        },
        Step::DrawRays(texture) => {
            &&& texture == MaskTexture::Blurred ==> is_soft(parameters)
            &&& textures_fit(mask, blurred, parameters, width, height)
            &&& !is_off_screen(parameters, width, height)
        },
        Step::Inspect => {
            &&& textures_fit(mask, blurred, parameters, width, height)
            &&& !is_off_screen(parameters, width, height)
        },
        Step::InspectBlurred | Step::DrawBlur => {
            &&& is_soft(parameters)
            &&& textures_fit(mask, blurred, parameters, width, height)
            &&& !is_off_screen(parameters, width, height)
        },
        Step::Return(Some(texture)) => {
            &&& texture == MaskTexture::Mask
            &&& textures_fit(mask, blurred, parameters, width, height)
        },
        Step::Return(None) | Step::Fail => true,
    }
}

/// Every trace clears or draws only into textures of the size of the screen, traces rays only if the
/// light reaches something there, and blurs only soft shadows: it is so at first and after each
/// step, as long as textures that are created have the size that was asked for.
pub proof fn law_traces_stay_sound(
    step: Step,
    outcome: Outcome,
    mask: Option<GpuTextureKind>,
    blurred: Option<GpuTextureKind>,
    parameters: ShadowRayParameters,
    width: usize,
    height: usize,
)
    requires
        is_outcome_of(outcome, step),
        outcome matches Outcome::Created(kind) ==> kind == (GpuTextureKind::Rectangle {
            width,
            height,
        }),
    ensures
        is_sound(
            first_step(mask, blurred, parameters, width, height),
            mask,
            blurred,
            parameters,
            width,
            height,
        ),
        is_sound(step, mask, blurred, parameters, width, height) ==> {
            let mask_after = slot_after(mask, MaskTexture::Mask, step, outcome);
            let blurred_after = slot_after(blurred, MaskTexture::Blurred, step, outcome);
            is_sound(
                next_step(step, outcome, blurred_after, parameters, width, height),
                mask_after,
                blurred_after,
                parameters,
                width,
                height,
            )
        },
{
}

/// A light that reaches nothing on screen leaves every pixel lit: its trace inspects and draws
/// nothing, and returns no texture but the mask, which it has just cleared.
pub proof fn law_off_screen_traces_clear_what_they_return(
    step: Step,
    outcome: Outcome,
    mask: Option<GpuTextureKind>,
    blurred: Option<GpuTextureKind>,
    parameters: ShadowRayParameters,
    width: usize,
    height: usize,
)
    requires
        is_off_screen(parameters, width, height),
        is_sound(step, mask, blurred, parameters, width, height),
        is_outcome_of(outcome, step),
    ensures
        ({
            let result = MaskTexture::Mask;
            let first = first_step(mask, blurred, parameters, width, height);
            let next = next_step(step, outcome, blurred, parameters, width, height);
            &&& first is Create || first == Step::Clear(result)
            &&& next is Create || next == Step::Clear(result) || next is Return || next is Fail
            &&& next is Return ==> step == Step::Clear(result) && next == Step::Return(Some(result))
        }),
{
}

/// The outcome is what a step is taken for.
pub open spec fn is_success(outcome: Outcome) -> bool {
    !(outcome is NotCreated) && outcome != Outcome::Inspected(false)
}

/// A trace in which every step succeeds never fails, nor does it return nothing: it returns the mask,
/// which hard shadows were traced into and soft ones were blurred into.
pub proof fn law_successful_traces_return_the_result(
    step: Step,
    outcome: Outcome,
    mask: Option<GpuTextureKind>,
    blurred: Option<GpuTextureKind>,
    parameters: ShadowRayParameters,
    width: usize,
    height: usize,
)
    requires
        is_sound(step, mask, blurred, parameters, width, height),
        is_outcome_of(outcome, step),
        is_success(outcome),
    ensures
        ({
            let first = first_step(mask, blurred, parameters, width, height);
            let next = next_step(step, outcome, blurred, parameters, width, height);
            &&& !(first is Fail)
            &&& !(next is Fail)
            &&& !(first is Return)
            &&& next matches Step::Return(texture) ==> texture == Some(MaskTexture::Mask)
            &&& next matches Step::DrawRays(texture) ==> texture == ray_texture(parameters)
            &&& step == Step::DrawRays(ray_texture(parameters)) && is_soft(parameters) ==> next
                == Step::DrawBlur
        }),
{
}

/// After a trace that returned a texture, the next trace for a screen of the same size creates none,
/// unless it is the first with soft shadows.
pub proof fn law_textures_are_reused(
    texture: MaskTexture,
    mask: Option<GpuTextureKind>,
    blurred: Option<GpuTextureKind>,
    parameters: ShadowRayParameters,
    next: ShadowRayParameters,
    width: usize,
    height: usize,
)
    requires
        is_sound(Step::Return(Some(texture)), mask, blurred, parameters, width, height),
        is_soft(next) ==> is_soft(parameters),
    ensures
        !(first_step(mask, blurred, next, width, height) is Create),
{
}

/// How far a trace has come: the textures there are, what is next, and how many textures it has made
/// for the mask.
pub struct Progress {
    pub mask: Option<GpuTextureKind>,
    pub blurred: Option<GpuTextureKind>,
    pub step: Step,
    pub masks_made: nat,
}

/// How far a trace has come with these outcomes, from these textures on.
pub open spec fn progress(
    mask: Option<GpuTextureKind>,
    blurred: Option<GpuTextureKind>,
    parameters: ShadowRayParameters,
    width: usize,
    height: usize,
    outcomes: Seq<Outcome>,
) -> Progress
    decreases outcomes.len(),
{
    if outcomes.len() == 0 {
        let step = first_step(mask, blurred, parameters, width, height);
        Progress { mask, blurred, step, masks_made: 0 }
    } else {
        let so_far = progress(mask, blurred, parameters, width, height, outcomes.drop_last());
        let outcome = outcomes.last();
        let blurred_after = slot_after(
            so_far.blurred,
            MaskTexture::Blurred,
            so_far.step,
            outcome,
        );
        Progress {
            mask: slot_after(so_far.mask, MaskTexture::Mask, so_far.step, outcome),
            blurred: blurred_after,
            step: next_step(so_far.step, outcome, blurred_after, parameters, width, height),
            masks_made: if so_far.step == Step::Create(MaskTexture::Mask) && outcome is Created {
                so_far.masks_made + 1
            } else {
                so_far.masks_made
            },
        }
    }
}

/// Each outcome is one that its step can have, and textures that are created have the size that was
/// asked for.
pub open spec fn are_outcomes(
    mask: Option<GpuTextureKind>,
    blurred: Option<GpuTextureKind>,
    parameters: ShadowRayParameters,
    width: usize,
    height: usize,
    outcomes: Seq<Outcome>,
) -> bool
    decreases outcomes.len(),
{
    outcomes.len() > 0 ==> {
        let so_far = progress(mask, blurred, parameters, width, height, outcomes.drop_last());
        &&& are_outcomes(mask, blurred, parameters, width, height, outcomes.drop_last())
        &&& is_outcome_of(outcomes.last(), so_far.step)
        &&& outcomes.last() matches Outcome::Created(kind) ==> kind == (GpuTextureKind::Rectangle {
            width,
            height,
        })
    }
}

/// A trace is sound however far it has come. If there was a mask of the size of the screen, it is
/// kept.
proof fn lemma_progress_is_sound(
    mask: Option<GpuTextureKind>,
    blurred: Option<GpuTextureKind>,
    parameters: ShadowRayParameters,
    width: usize,
    height: usize,
    outcomes: Seq<Outcome>,
)
    requires
        are_outcomes(mask, blurred, parameters, width, height, outcomes),
    ensures
        ({
            let now = progress(mask, blurred, parameters, width, height, outcomes);
            &&& is_sound(now.step, now.mask, now.blurred, parameters, width, height)
            &&& !misfits(mask, width, height) ==> now.masks_made == 0 && now.mask == mask
                && now.step != Step::Create(MaskTexture::Mask)
        }),
    decreases outcomes.len(),
{
    if outcomes.len() > 0 {
        lemma_progress_is_sound(mask, blurred, parameters, width, height, outcomes.drop_last());
    }
}

/// The same texture is returned every time: of two traces for screens of one size, one after the
/// other, that both return a texture, the second returns the one that the first returned, and makes
/// no other in its place. So it overwrites the previous mask, whichever of them are soft.
pub proof fn law_the_same_texture_is_returned(
    mask: Option<GpuTextureKind>,
    blurred: Option<GpuTextureKind>,
    width: usize,
    height: usize,
    parameters: ShadowRayParameters,
    outcomes: Seq<Outcome>,
    next_parameters: ShadowRayParameters,
    next_outcomes: Seq<Outcome>,
)
    requires
        are_outcomes(mask, blurred, parameters, width, height, outcomes),
        ({
            let first = progress(mask, blurred, parameters, width, height, outcomes);
            let second = progress(
                first.mask,
                first.blurred,
                next_parameters,
                width,
                height,
                next_outcomes,
            );
            &&& first.step matches Step::Return(Some(_))
            &&& are_outcomes(
                first.mask,
                first.blurred,
                next_parameters,
                width,
                height,
                next_outcomes,
            )
            &&& second.step matches Step::Return(Some(_))
        }),
    ensures
        ({
            let first = progress(mask, blurred, parameters, width, height, outcomes);
            let second = progress(
                first.mask,
                first.blurred,
                next_parameters,
                width,
                height,
                next_outcomes,
            );
            &&& second.step == first.step
            &&& first.step == Step::Return(Some(MaskTexture::Mask))
            &&& second.masks_made == 0
        }),
{
    let first = progress(mask, blurred, parameters, width, height, outcomes);
    lemma_progress_is_sound(mask, blurred, parameters, width, height, outcomes);
    lemma_progress_is_sound(
        first.mask,
        first.blurred,
        next_parameters,
        width,
        height,
        next_outcomes,
    );
}

/// Where a trace draws into part of the screen only, that part is not empty and lies within the
/// textures it draws into, whatever was asked for.
pub proof fn law_passes_draw_within_the_screen(
    parameters: ShadowRayParameters,
    width: usize,
    height: usize,
)
    requires
        !is_off_screen(parameters, width, height),
    ensures
        traced_pixels(parameters, width, height) matches Some(pixels) ==> {
            &&& pixels[2] > 0
            &&& pixels[3] > 0
            &&& pixels[0] + pixels[2] <= width
            &&& pixels[1] + pixels[3] <= height
        },
{
}

/// Where a shader's uniforms hold the light: the sun its direction, component by component, its reach
/// and its size, and no position; a lamp its position, component by component, its radius both as
/// reach and as radius, and its size, and a direction that points down.
pub proof fn law_uniforms_hold_the_light(
    parameters: ShadowRayParameters,
    width: nat,
    height: nat,
    i: int,
)
    requires
        0 <= i < 3,
    ensures
        ({
            let words = ray_words(parameters, width, height);
            match parameters.light {
                ShadowRayLight::Directional { direction, reach, angular_size } => {
                    &&& words[16 + i] == direction[i].0
                    &&& words[19] == reach.0
                    &&& words[24 + i] == 0
                    &&& words[27] == 0
                    &&& words[28] == 0
                    &&& words[30] == angular_size.0
                },
                ShadowRayLight::Positional { position, radius, size } => {
                    &&& words[16 + i] == if i == 1 {
                        0xbf80_0000
                    } else {
                        0u32
                    }
                    &&& words[19] == radius.0
                    &&& words[24 + i] == position[i].0
                    &&& words[27] == radius.0
                    &&& words[28] == 1
                    &&& words[30] == size.0
                },
            }
        }),
{
}

/// Where a shader's uniforms hold the camera and the screen: entry `row` of column `column` of the
/// matrix at `4 * column + row`, then, behind the light where there is one, the size of the screen as
/// the nearest floats, the bias, and whether rows are stored top first.
pub proof fn law_uniforms_hold_the_camera(
    parameters: ShadowRayParameters,
    width: nat,
    height: nat,
    column: int,
    row: int,
    w: u32,
    h: u32,
)
    requires
        0 <= column < 4,
        0 <= row < 4,
        is_nearest(width, w),
        is_nearest(height, h),
    ensures
        ({
            let rays = ray_words(parameters, width, height);
            let blur = blur_words(parameters, width, height);
            let entry = parameters.inverse_view_projection[column][row].0;
            &&& rays.len() == 32
            &&& blur.len() == 20
            &&& rays[4 * column + row] == entry
            &&& blur[4 * column + row] == entry
            &&& rays[20] == w && rays[21] == h
            &&& blur[16] == w && blur[17] == h
            &&& rays[22] == parameters.bias.0
            &&& rays[23] == if parameters.flip_v {
                1
            } else {
                0u32
            }
            &&& blur[18] == rays[23]
            &&& blur[19] == 0x3d4c_cccd
            &&& rays[31] == 0
        }),
{
    lemma_nearest_is_unique(width, w, nearest(width));
    lemma_nearest_is_unique(height, h, nearest(height));
    let k = 4 * column + row;
    assert(k / 4 == column && k % 4 == row);
    assert(matrix_words(parameters.inverse_view_projection)[k]
        == parameters.inverse_view_projection[column][row].0);
}

/// A pass carries the words of its uniforms, four bytes each, clears its target to lit, and draws
/// within the pixels to trace. Rays read the scene, depth, a sampler, the uniforms and normals; the
/// blur reads what was traced, depth, normals and the uniforms, and draws into the mask.
pub proof fn law_passes_carry_their_inputs(
    rays: MaskPass,
    blur: MaskPass,
    target: MaskTexture,
    parameters: ShadowRayParameters,
    width: usize,
    height: usize,
    i: int,
)
    requires
        is_ray_pass(rays, target, parameters, width, height),
        is_blur_pass(blur, parameters, width, height),
        0 <= i,
    ensures
        rays.target == target,
        blur.target is Mask,
        rays.clear.0 == 0x3f80_0000 && blur.clear.0 == 0x3f80_0000,
        rays.uniforms@.len() == 128 && blur.uniforms@.len() == 80,
        i < 128 ==> rays.uniforms@[i] == words_in_memory(
            seq![ray_words(parameters, width as nat, height as nat)[i / 4]],
        )[i % 4],
        i < 80 ==> blur.uniforms@[i] == words_in_memory(
            seq![blur_words(parameters, width as nat, height as nat)[i / 4]],
        )[i % 4],
        rays.bindings@.len() == 5 && blur.bindings@.len() == 4,
        i < 5 ==> rays.bindings@[i].binding == i,
        i < 4 ==> blur.bindings@[i].binding == i,
        rays.bindings@[0].resource is Scene && rays.bindings@[1].resource is Depth
            && rays.bindings@[2].resource is Sampler && rays.bindings@[3].resource is Uniforms
            && rays.bindings@[4].resource is Normals,
        blur.bindings@[0].resource is Blurred && blur.bindings@[1].resource is Depth
            && blur.bindings@[2].resource is Normals && blur.bindings@[3].resource is Uniforms,
        rays.scissor == blur.scissor,
        rays.scissor is None <==> parameters.scissor is None,
        rays.scissor == traced_pixels(parameters, width, height),
{
}

/// The pixels to trace are those of the screen that were asked for, where not all were. None are left
/// just if no pixel of the screen was asked for.
pub proof fn law_pixels_on_screen_are_traced(
    parameters: ShadowRayParameters,
    width: usize,
    height: usize,
    px: int,
    py: int,
)
    requires
        width <= u32::MAX,
        height <= u32::MAX,
    ensures
        parameters.scissor is None ==> traced_pixels(parameters, width, height) is None
            && !is_off_screen(parameters, width, height),
        parameters.scissor matches Some(asked) ==> {
            &&& traced_pixels(parameters, width, height) matches Some(traced) && (holds_pixel(
                traced,
                px,
                py,
            ) <==> asked[0] <= px < asked[0] + asked[2] && asked[1] <= py < asked[1] + asked[3]
                && 0 <= px < width && 0 <= py < height)
            &&& is_off_screen(parameters, width, height) <==> asked[2] == 0 || asked[3] == 0
                || asked[0] >= width || asked[1] >= height
        },
{
    law_low_bits_are_what_is_left(width as int);
    law_low_bits_are_what_is_left(height as int);
    if let Some(asked) = parameters.scissor {
        law_clamped_scissors_lie_within_the_target(asked, width as u32, height as u32, px, py);
    }
}

/// Shadows are soft from two rays per pixel on. A texture is kept just if it is a rectangle of the
/// size of the screen.
pub proof fn law_soft_shadows_and_textures_that_fit(
    parameters: ShadowRayParameters,
    slot: Option<GpuTextureKind>,
    width: usize,
    height: usize,
)
    ensures
        is_soft(parameters) <==> parameters.samples != 0 && parameters.samples != 1,
        !misfits(slot, width, height) <==> (slot matches Some(kind)
            && kind matches GpuTextureKind::Rectangle { width: w, height: h } && w == width && h
            == height),
{
}

/// A trace is of the screen that the depth texture covers; without a rectangular one it returns
/// nothing. It first sees to the mask, then, for soft shadows alone, to the texture that is blurred.
pub proof fn law_traces_start_with_their_textures(
    trace: Trace,
    tracer: ShadowTracer,
    depth: GpuTextureKind,
    parameters: ShadowRayParameters,
)
    requires
        is_start(trace, tracer, depth, parameters),
    ensures
        trace.parameters == parameters,
        match depth {
            GpuTextureKind::Rectangle { width, height } => {
                let mask_fits = tracer.mask == Some(depth);
                let blurred_fits = tracer.blurred == Some(depth);
                &&& trace.width == width && trace.height == height
                &&& !mask_fits ==> trace.step == Step::Create(MaskTexture::Mask)
                &&& mask_fits && parameters.samples >= 2 && !blurred_fits ==> trace.step
                    == Step::Create(MaskTexture::Blurred)
                &&& mask_fits && (parameters.samples < 2 || blurred_fits) ==> if is_off_screen(
                    parameters,
                    width,
                    height,
                ) {
                    trace.step == Step::Clear(MaskTexture::Mask)
                } else {
                    trace.step == Step::Inspect
                }
            },
            _ => trace.step == Step::Return(None),
        },
{
}

/// What each outcome leads to. A texture that was created takes its place, and nothing else takes
/// it; without one the trace fails. Nothing is returned where a texture that is read, or the mask,
/// is another backend's. Where only the one that is blurred is, the rays are drawn into the mask.
pub proof fn law_outcomes_lead_on(
    tracer: ShadowTracer,
    after: ShadowTracer,
    before_trace: Trace,
    trace: Trace,
    outcome: Outcome,
)
    requires
        is_advanced(tracer, after, before_trace, trace, outcome),
        is_outcome_of(outcome, before_trace.step),
    ensures
        trace.parameters == before_trace.parameters && trace.width == before_trace.width
            && trace.height == before_trace.height,
        after.layout == tracer.layout && after.blur_layout == tracer.blur_layout,
        !(outcome is Created) ==> after.mask == tracer.mask && after.blurred == tracer.blurred,
        outcome matches Outcome::Created(kind) ==> match before_trace.step {
            Step::Create(MaskTexture::Mask) => after.mask == Some(kind) && after.blurred
                == tracer.blurred,
            _ => after.blurred == Some(kind) && after.mask == tracer.mask,
        },
        outcome is NotCreated ==> trace.step is Fail,
        match before_trace.step {
            Step::Inspect => match outcome {
                Outcome::Inspected(true) => if trace.parameters.samples >= 2 {
                    trace.step is InspectBlurred
                } else {
                    trace.step == Step::DrawRays(MaskTexture::Mask)
                },
                _ => trace.step == Step::Return(None),
            },
            Step::InspectBlurred => match outcome {
                Outcome::Inspected(true) => trace.step == Step::DrawRays(MaskTexture::Blurred),
                _ => trace.step == Step::DrawRays(MaskTexture::Mask),
            },
            Step::DrawRays(MaskTexture::Blurred) => trace.step is DrawBlur,
            Step::DrawRays(MaskTexture::Mask) => trace.step == Step::Return(
                Some(MaskTexture::Mask),
            ),
            Step::DrawBlur => trace.step == Step::Return(Some(MaskTexture::Mask)),
            Step::Clear(texture) => trace.step == Step::Return(Some(texture)),
            _ => true,
        },
        before_trace.step is Create && outcome is Created ==> {
            let screen = GpuTextureKind::Rectangle { width: trace.width, height: trace.height };
            let off = is_off_screen(trace.parameters, trace.width, trace.height);
            if before_trace.step == Step::Create(MaskTexture::Mask) && trace.parameters.samples >= 2
                && after.blurred != Some(screen) {
                trace.step == Step::Create(MaskTexture::Blurred)
            } else if off {
                trace.step == Step::Clear(MaskTexture::Mask)
            } else {
                trace.step is Inspect
            }
        },
{
}

/// A new tracer has no textures; its bindings are numbered from zero, each of the type of what is
/// bound there.
pub proof fn law_new_tracers_have_their_layouts(
    tracer: Option<ShadowTracer>,
    server: WgpuGraphicsServer,
    i: int,
)
    requires
        is_new_tracer(tracer, server),
        0 <= i,
    ensures
        tracer is None <==> !server.ray_tracing,
        tracer matches Some(t) ==> {
            &&& t.mask is None && t.blurred is None
            &&& t.layout@.len() == 5 && t.blur_layout@.len() == 4
            &&& i < 5 ==> t.layout@[i].binding == i
            &&& i < 4 ==> t.blur_layout@[i].binding == i
            &&& t.layout@[0].ty is AccelerationStructure
            &&& t.layout@[1].ty is DepthTexture
            &&& t.layout@[2].ty is NonFilteringSampler
            &&& t.layout@[3].ty is Uniform
            &&& t.layout@[4].ty is FloatTexture
            &&& t.blur_layout@[0].ty is FloatTexture
            &&& t.blur_layout@[1].ty is DepthTexture
            &&& t.blur_layout@[2].ty is FloatTexture
            &&& t.blur_layout@[3].ty is Uniform
        },
{
}

/// Mask textures are of one channel and of the size of the screen, and no two share a name.
pub proof fn law_mask_textures_are_of_the_screens_size(
    mask: GpuTextureDescriptor,
    blurred: GpuTextureDescriptor,
    width: usize,
    height: usize,
)
    requires
        is_descriptor_of(mask, MaskTexture::Mask, width, height),
        is_descriptor_of(blurred, MaskTexture::Blurred, width, height),
    ensures
        mask.kind == (GpuTextureKind::Rectangle { width, height }) && blurred.kind == mask.kind,
        mask.pixel_kind is R8 && blurred.pixel_kind is R8,
        !misfits(Some(mask.kind), width, height),
        blurred.name@ == mask.name@ + seq!['B', 'l', 'u', 'r', 'r', 'e', 'd'],
        mask.name@ == "RayTracedShadowMask"@,
{
    reveal_strlit("RayTracedShadowMask");
    reveal_strlit("RayTracedShadowMaskBlurred");
    assert("RayTracedShadowMaskBlurred"@ =~= "RayTracedShadowMask"@ + seq![
        'B',
        'l',
        'u',
        'r',
        'r',
        'e',
        'd',
    ]);
}

} // verus!
