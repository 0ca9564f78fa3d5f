use fyrox_graphics_wgpu::float_bits::F32Bits;
use fyrox_graphics_wgpu::raytracing::RayTracedScene;
use fyrox_graphics_wgpu::server::WgpuGraphicsServer;
use fyrox_graphics_wgpu::shadow_tracer::{
    clamp_scissor, to_light_uniforms, BindGroupLayoutEntry, BindingType, ClearPass, MaskTexture,
    Outcome, Resource, ShadowRayLight, ShadowRayParameters, ShadowTracer, Step, Trace,
};
use fyrox_graphics_wgpu::texture::{GpuTextureKind, PixelKind};

fn server(ray_tracing: bool) -> WgpuGraphicsServer {
    WgpuGraphicsServer {
        ray_tracing,
        named_objects: false,
    }
}

fn f(value: f32) -> F32Bits {
    F32Bits(value.to_bits())
}

fn scene(vertices: &[f32], indices: &[u32]) -> Option<RayTracedScene> {
    let vertices: Vec<F32Bits> = vertices.iter().map(|v| f(*v)).collect();
    server(true).build_ray_traced_scene(&vertices, indices).unwrap()
}

#[test]
fn scenes_are_built_from_triangles() {
    let vertices = [0.0, 1.0, 2.0, 3.0, 4.0, 5.0, 6.0, 7.5, -8.0];
    let built = scene(&vertices, &[0, 1, 2, 2]).unwrap();
    assert_eq!(built.triangle_count(), 1);
    assert_eq!(built.vertex_count, 3);
    assert_eq!(built.index_count, 4);
    let bytes: Vec<u8> = vertices.iter().flat_map(|v: &f32| v.to_ne_bytes()).collect();
    assert_eq!(built.vertices, bytes);
    let bytes: Vec<u8> = [0u32, 1, 2, 2].iter().flat_map(|v| v.to_ne_bytes()).collect();
    assert_eq!(built.indices, bytes);
    assert_eq!(built.instances.len(), 1);
    let transform = built.instances[0].transform.map(|bits| f32::from_bits(bits.0));
    assert_eq!(
        transform,
        [1.0, 0.0, 0.0, 0.0, 0.0, 1.0, 0.0, 0.0, 0.0, 0.0, 1.0, 0.0]
    );
    assert_eq!(built.instances[0].custom_data, 0);
    assert_eq!(built.instances[0].mask, 0xff);
}

#[test]
fn nothing_is_built_without_hardware_or_triangles() {
    assert!(scene(&[], &[0, 1, 2]).is_none());
    assert!(scene(&[1.0, 2.0, 3.0], &[0, 0]).is_none());
    assert!(server(false)
        .build_ray_traced_scene(&[f(1.0); 3], &[0, 0, 0])
        .unwrap()
        .is_none());
    assert!(server(false).create_shadow_tracer().is_none());
}

fn tracer() -> ShadowTracer {
    server(true).create_shadow_tracer().unwrap()
}

fn entry(binding: u32, ty: BindingType) -> BindGroupLayoutEntry {
    BindGroupLayoutEntry { binding, ty }
}

#[test]
fn tracers_start_without_textures() {
    let tracer = tracer();
    assert_eq!(
        tracer.layout,
        vec![
            entry(0, BindingType::AccelerationStructure),
            entry(1, BindingType::DepthTexture),
            entry(2, BindingType::NonFilteringSampler),
            entry(3, BindingType::Uniform),
            entry(4, BindingType::FloatTexture),
        ]
    );
    assert_eq!(
        tracer.blur_layout,
        vec![
            entry(0, BindingType::FloatTexture),
            entry(1, BindingType::DepthTexture),
            entry(2, BindingType::FloatTexture),
            entry(3, BindingType::Uniform),
        ]
    );
    assert!(tracer.mask.is_none() && tracer.blurred.is_none());
    assert_eq!(MaskTexture::Mask.name(), "RayTracedShadowMask");
    assert_eq!(MaskTexture::Blurred.name(), "RayTracedShadowMaskBlurred");
}

fn parameters(samples: u32, scissor: Option<[u32; 4]>) -> ShadowRayParameters {
    let mut matrix = [[f(0.0); 4]; 4];
    for column in 0..4 {
        for row in 0..4 {
            matrix[column][row] = f((4 * column + row) as f32);
        }
    }
    ShadowRayParameters {
        inverse_view_projection: matrix,
        light: ShadowRayLight::Positional {
            position: [f(1.5), f(2.5), f(3.5)],
            radius: f(10.0),
            size: f(0.25),
        },
        bias: f(0.125),
        flip_v: true,
        scissor,
        samples,
    }
}

const SCREEN: GpuTextureKind = GpuTextureKind::Rectangle {
    width: 640,
    height: 480,
};

/// Runs a trace in which everything goes well, and returns the steps it took.
fn run(tracer: &mut ShadowTracer, mut trace: Trace) -> Vec<Step> {
    let mut steps = vec![trace.step];
    loop {
        let outcome = match trace.step {
            Step::Create(_) => Outcome::Created(GpuTextureKind::Rectangle {
                width: trace.width,
                height: trace.height,
            }),
            Step::Inspect | Step::InspectBlurred => Outcome::Inspected(true),
            Step::Clear(_) | Step::DrawRays(_) | Step::DrawBlur => Outcome::Recorded,
            Step::Return(_) | Step::Fail => return steps,
        };
        tracer.advance(&mut trace, outcome);
        steps.push(trace.step);
    }
}

#[test]
fn hard_shadows_are_not_blurred() {
    let mut tracer = tracer();
    let trace = tracer.trace(SCREEN, parameters(1, None));
    assert_eq!(
        run(&mut tracer, trace),
        vec![
            Step::Create(MaskTexture::Mask),
            Step::Inspect,
            Step::DrawRays(MaskTexture::Mask),
            Step::Return(Some(MaskTexture::Mask)),
        ]
    );
    assert_eq!(tracer.mask, Some(SCREEN));
    assert_eq!(tracer.blurred, None);
}

#[test]
fn soft_shadows_are_blurred_and_textures_reused() {
    let mut tracer = tracer();
    let trace = tracer.trace(SCREEN, parameters(2, None));
    assert_eq!(
        run(&mut tracer, trace),
        vec![
            Step::Create(MaskTexture::Mask),
            Step::Create(MaskTexture::Blurred),
            Step::Inspect,
            Step::InspectBlurred,
            Step::DrawRays(MaskTexture::Blurred),
            Step::DrawBlur,
            Step::Return(Some(MaskTexture::Mask)),
        ]
    );
    let trace = tracer.trace(SCREEN, parameters(8, None));
    assert_eq!(trace.step, Step::Inspect);
    let trace = tracer.trace(SCREEN, parameters(0, None));
    assert_eq!(trace.step, Step::Inspect);
    // A screen of another size needs other textures.
    let trace = tracer.trace(
        GpuTextureKind::Rectangle {
            width: 640,
            height: 481,
        },
        parameters(8, None),
    );
    assert_eq!(trace.step, Step::Create(MaskTexture::Mask));
}

#[test]
fn lights_off_screen_leave_every_pixel_lit() {
    let mut tracer = tracer();
    let trace = tracer.trace(SCREEN, parameters(1, Some([640, 0, 10, 10])));
    assert_eq!(
        run(&mut tracer, trace),
        vec![
            Step::Create(MaskTexture::Mask),
            Step::Clear(MaskTexture::Mask),
            Step::Return(Some(MaskTexture::Mask)),
        ]
    );
    let trace = tracer.trace(SCREEN, parameters(4, Some([0, 479, 10, 0])));
    assert_eq!(
        run(&mut tracer, trace),
        vec![
            Step::Create(MaskTexture::Blurred),
            Step::Clear(MaskTexture::Mask),
            Step::Return(Some(MaskTexture::Mask)),
        ]
    );
}

#[test]
fn the_same_texture_is_returned_every_time() {
    let mut tracer = tracer();
    for samples in [1, 2, 0, 64] {
        let trace = tracer.trace(SCREEN, parameters(samples, None));
        let steps = run(&mut tracer, trace);
        assert_eq!(steps.last(), Some(&Step::Return(Some(MaskTexture::Mask))));
        let made = steps.contains(&Step::Create(MaskTexture::Mask));
        assert_eq!(made, samples == 1);
    }
}

#[test]
fn the_previous_mask_is_cleared_off_screen() {
    let mut tracer = tracer();
    let trace = tracer.trace(SCREEN, parameters(1, None));
    run(&mut tracer, trace);
    for scissor in [[640, 0, 1, 1], [0, 480, 1, 1], [5, 5, 0, 1], [5, 5, 1, 0]] {
        let trace = tracer.trace(SCREEN, parameters(1, Some(scissor)));
        assert_eq!(
            run(&mut tracer, trace),
            vec![
                Step::Clear(MaskTexture::Mask),
                Step::Return(Some(MaskTexture::Mask)),
            ]
        );
    }
    let pass = ClearPass::lit(MaskTexture::Blurred);
    assert_eq!(pass.target, MaskTexture::Blurred);
    assert_eq!(f32::from_bits(pass.clear.0), 1.0);
}

#[test]
fn masks_have_a_single_channel() {
    let trace = tracer().trace(SCREEN, parameters(1, None));
    for texture in [MaskTexture::Mask, MaskTexture::Blurred] {
        assert_eq!(texture.pixel_kind(), PixelKind::R8);
        let descriptor = trace.texture_to_create(texture);
        assert_eq!(descriptor.name, texture.name());
        assert_eq!(descriptor.kind, SCREEN);
        assert_eq!(descriptor.pixel_kind, PixelKind::R8);
    }
}

#[test]
fn traces_can_end_early() {
    let mut tracer = tracer();
    let depth = GpuTextureKind::Cube { size: 4 };
    assert_eq!(tracer.trace(depth, parameters(1, None)).step, Step::Return(None));

    let mut trace = tracer.trace(SCREEN, parameters(2, None));
    tracer.advance(&mut trace, Outcome::NotCreated);
    assert_eq!(trace.step, Step::Fail);
    assert_eq!(tracer.mask, None);

    let mut trace = tracer.trace(SCREEN, parameters(2, None));
    tracer.advance(&mut trace, Outcome::Created(SCREEN));
    tracer.advance(&mut trace, Outcome::NotCreated);
    assert_eq!(trace.step, Step::Fail);
    assert_eq!(tracer.mask, Some(SCREEN));
    assert_eq!(tracer.blurred, None);

    let mut trace = tracer.trace(SCREEN, parameters(2, None));
    assert_eq!(trace.step, Step::Create(MaskTexture::Blurred));
    tracer.advance(&mut trace, Outcome::Created(SCREEN));
    tracer.advance(&mut trace, Outcome::Inspected(false));
    assert_eq!(trace.step, Step::Return(None));

    let mut trace = tracer.trace(SCREEN, parameters(2, None));
    tracer.advance(&mut trace, Outcome::Inspected(true));
    assert_eq!(trace.step, Step::InspectBlurred);
    tracer.advance(&mut trace, Outcome::Inspected(false));
    assert_eq!(trace.step, Step::DrawRays(MaskTexture::Mask));
    tracer.advance(&mut trace, Outcome::Recorded);
    assert_eq!(trace.step, Step::Return(Some(MaskTexture::Mask)));
}

fn words(bytes: &[u8]) -> Vec<u32> {
    bytes
        .chunks_exact(4)
        .map(|c| u32::from_ne_bytes([c[0], c[1], c[2], c[3]]))
        .collect()
}

fn bits(values: &[f32]) -> Vec<u32> {
    values.iter().map(|v| v.to_bits()).collect()
}

#[test]
fn passes_carry_their_uniforms() {
    let tracer = tracer();
    let trace = tracer.trace(SCREEN, parameters(0, Some([600, 10, 100, 20])));
    assert_eq!(trace.ray_pass(MaskTexture::Blurred).target, MaskTexture::Blurred);
    let pass = trace.ray_pass(MaskTexture::Mask);
    assert_eq!(pass.target, MaskTexture::Mask);
    assert_eq!(f32::from_bits(pass.clear.0), 1.0);
    assert_eq!(pass.scissor, Some([600, 10, 40, 20]));
    let matrix: Vec<f32> = (0..16).map(|i| i as f32).collect();
    let mut expected = bits(&matrix);
    expected.extend(bits(&[0.0, -1.0, 0.0, 10.0, 640.0, 480.0, 0.125]));
    expected.push(1);
    expected.extend(bits(&[1.5, 2.5, 3.5, 10.0]));
    expected.extend([1, 1]);
    expected.extend(bits(&[0.25]));
    expected.push(0);
    assert_eq!(words(&pass.uniforms), expected);
    assert_eq!(pass.uniforms.len(), 128);
    let bound: Vec<(u32, Resource)> =
        pass.bindings.iter().map(|b| (b.binding, b.resource)).collect();
    assert_eq!(
        bound,
        vec![
            (0, Resource::Scene),
            (1, Resource::Depth),
            (2, Resource::Sampler),
            (3, Resource::Uniforms),
            (4, Resource::Normals),
        ]
    );

    let pass = trace.blur_pass();
    assert_eq!(pass.target, MaskTexture::Mask);
    assert_eq!(f32::from_bits(pass.clear.0), 1.0);
    assert_eq!(pass.scissor, Some([600, 10, 40, 20]));
    let mut expected = bits(&matrix);
    expected.extend(bits(&[640.0, 480.0]));
    expected.push(1);
    expected.extend(bits(&[0.05]));
    assert_eq!(words(&pass.uniforms), expected);
    let bound: Vec<(u32, Resource)> =
        pass.bindings.iter().map(|b| (b.binding, b.resource)).collect();
    assert_eq!(
        bound,
        vec![
            (0, Resource::Blurred),
            (1, Resource::Depth),
            (2, Resource::Normals),
            (3, Resource::Uniforms),
        ]
    );
}

#[test]
fn the_sun_has_a_direction_alone() {
    let sun = to_light_uniforms(ShadowRayLight::Directional {
        direction: [f(1.0), f(2.0), f(3.0)],
        reach: f(100.0),
        angular_size: f(0.5),
    });
    assert_eq!(sun.direction, [f(1.0), f(2.0), f(3.0)]);
    assert_eq!(sun.reach, f(100.0));
    assert_eq!(sun.position, [f(0.0); 3]);
    assert_eq!(sun.radius, f(0.0));
    assert_eq!(sun.positional, 0);
    assert_eq!(sun.size, f(0.5));
}

#[test]
fn as_many_rays_are_traced_as_were_asked_for() {
    let tracer = tracer();
    for (asked, traced) in [(0, 1), (1, 1), (2, 2), (64, 64)] {
        let pass = tracer
            .trace(SCREEN, parameters(asked, None))
            .ray_pass(MaskTexture::Mask);
        assert_eq!(words(&pass.uniforms)[29], traced);
        assert_eq!(pass.scissor, None);
    }
}

#[test]
fn scissors_are_clamped_to_the_target() {
    assert_eq!(clamp_scissor([1, 2, 3, 4], 10, 10), [1, 2, 3, 4]);
    assert_eq!(clamp_scissor([8, 9, 30, 40], 10, 10), [8, 9, 2, 1]);
    assert_eq!(clamp_scissor([20, 30, 5, 5], 10, 10), [10, 10, 0, 0]);
    assert_eq!(clamp_scissor([0, 0, u32::MAX, u32::MAX], 10, 20), [0, 0, 10, 20]);
}
