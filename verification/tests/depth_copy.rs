use fyrox_graphics_wgpu::depth_copy::{DepthCopy, DepthFormat};

#[test]
fn each_format_gets_one_pipeline() {
    let mut copier = DepthCopy::new();
    let first = copier.copy(DepthFormat::Depth32Float, 0, 0, 0, 1, 1);
    assert_eq!((first.pipeline, first.make_pipeline), (0, true));
    let second = copier.copy(DepthFormat::Depth24PlusStencil8, 0, 0, 0, 1, 1);
    assert_eq!((second.pipeline, second.make_pipeline), (1, true));
    let again = copier.copy(DepthFormat::Depth32Float, 0, 0, 0, 1, 1);
    assert_eq!((again.pipeline, again.make_pipeline), (0, false));
    assert_eq!(
        copier.formats,
        vec![DepthFormat::Depth32Float, DepthFormat::Depth24PlusStencil8]
    );
}

#[test]
fn stencil_is_kept_where_there_is_any() {
    let mut copier = DepthCopy::new();
    for (format, keeps) in [
        (DepthFormat::Depth16Unorm, false),
        (DepthFormat::Depth24Plus, false),
        (DepthFormat::Depth24PlusStencil8, true),
        (DepthFormat::Depth32Float, false),
        (DepthFormat::Depth32FloatStencil8, true),
    ] {
        assert_eq!(copier.copy(format, 0, 0, 0, 1, 1).keep_stencil, keeps, "{format:?}");
    }
}

#[test]
fn copies_cover_their_texels() {
    let mut copier = DepthCopy::new();
    let pass = copier.copy(DepthFormat::Depth24Plus, 3, 5, 6, 700, u32::MAX);
    assert_eq!(pass.source_level, 0);
    assert_eq!(pass.dest_level, 3);
    assert_eq!(pass.scissor, [5, 6, 700, u32::MAX]);
    let viewport: Vec<f32> = pass.viewport.iter().map(|v| f32::from_bits(v.0)).collect();
    assert_eq!(viewport, vec![5.0, 6.0, 700.0, u32::MAX as f32, 0.0, 1.0]);
}
