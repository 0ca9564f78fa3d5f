use fyrox_graphics_wgpu::geometry_buffer::{
    flatten_lines, flatten_triangles, ElementKind, ElementsDescriptor, GpuGeometryBufferDescriptor,
    TriangleDefinition, VertexBufferDescriptor, WgpuGeometryBuffer,
};
use fyrox_graphics_wgpu::server::WgpuGraphicsServer;
use fyrox_graphics_wgpu::vertex_conversion::{AttributeRemap, VertexConversion};
use fyrox_graphics_wgpu::vertex_format::{
    attribute_format, needs_float_conversion, AttributeDefinition, AttributeKind, VertexFormat,
};
use fyrox_graphics_wgpu::vertex_layout::{can_lay_out, plan_vertex_buffer, VertexStepMode};

fn remap(
    kind: AttributeKind,
    component_count: usize,
    convert: bool,
    src_offset: usize,
    dst_offset: usize,
) -> AttributeRemap {
    AttributeRemap {
        kind,
        component_count,
        convert,
        src_offset,
        dst_offset,
    }
}

#[test]
fn integer_attributes_become_floats_by_value() {
    // A skinned vertex: position (3 f32), bone weights (4 f32), bone indices (4 u8).
    let conversion = VertexConversion {
        src_stride: 32,
        dst_stride: 44,
        attributes: vec![
            remap(AttributeKind::Float, 3, false, 0, 0),
            remap(AttributeKind::Float, 4, false, 12, 12),
            remap(AttributeKind::UnsignedByte, 4, true, 28, 28),
        ],
    };

    let mut vertex = Vec::new();
    for v in [1.0f32, 2.0, 3.0, 0.25, 0.25, 0.25, 0.25] {
        vertex.extend_from_slice(&v.to_le_bytes());
    }
    vertex.extend_from_slice(&[0, 7, 42, 255]);
    let data = [vertex.clone(), vertex].concat();

    let out = conversion.convert(&data);
    assert_eq!(out.len(), 2 * 44);
    for chunk in out.chunks_exact(44) {
        let f = |i: usize| f32::from_le_bytes(chunk[i..i + 4].try_into().unwrap());
        assert_eq!([f(0), f(4), f(8)], [1.0, 2.0, 3.0]);
        assert_eq!(f(12), 0.25);
        assert_eq!([f(28), f(32), f(36), f(40)], [0.0, 7.0, 42.0, 255.0]);
    }
}

#[test]
fn only_non_normalized_integers_are_converted() {
    assert!(needs_float_conversion(AttributeKind::UnsignedByte, false));
    assert!(needs_float_conversion(AttributeKind::UnsignedShort, false));
    assert!(!needs_float_conversion(AttributeKind::UnsignedByte, true));
    assert!(!needs_float_conversion(AttributeKind::Float, false));
    assert_eq!(
        attribute_format(AttributeKind::UnsignedByte, 4, false),
        VertexFormat::Float32x4
    );
    assert_eq!(
        attribute_format(AttributeKind::UnsignedByte, 4, true),
        VertexFormat::Unorm8x4
    );
}

fn attribute(
    location: u32,
    kind: AttributeKind,
    component_count: usize,
    normalized: bool,
    divisor: u32,
) -> AttributeDefinition {
    AttributeDefinition {
        location,
        kind,
        component_count,
        normalized,
        divisor,
    }
}

const NAMED: WgpuGraphicsServer = WgpuGraphicsServer {
    ray_tracing: false,
    named_objects: true,
};

const UNNAMED: WgpuGraphicsServer = WgpuGraphicsServer {
    ray_tracing: false,
    named_objects: false,
};

#[test]
fn every_format_has_its_place() {
    assert_eq!(
        attribute_format(AttributeKind::Float, 1, false),
        VertexFormat::Float32
    );
    assert_eq!(
        attribute_format(AttributeKind::Float, 2, true),
        VertexFormat::Float32x2
    );
    assert_eq!(
        attribute_format(AttributeKind::Float, 3, false),
        VertexFormat::Float32x3
    );
    assert_eq!(
        attribute_format(AttributeKind::Float, 4, true),
        VertexFormat::Float32x4
    );
    assert_eq!(
        attribute_format(AttributeKind::Float, 5, false),
        VertexFormat::Float32x4
    );
    assert_eq!(
        attribute_format(AttributeKind::UnsignedByte, 2, false),
        VertexFormat::Float32x2
    );
    assert_eq!(
        attribute_format(AttributeKind::UnsignedByte, 2, true),
        VertexFormat::Float32x4
    );
    assert_eq!(
        attribute_format(AttributeKind::UnsignedShort, 2, true),
        VertexFormat::Unorm16x2
    );
    assert_eq!(
        attribute_format(AttributeKind::UnsignedShort, 4, true),
        VertexFormat::Unorm16x4
    );
    assert_eq!(
        attribute_format(AttributeKind::UnsignedShort, 3, true),
        VertexFormat::Float32x4
    );
    assert_eq!(
        attribute_format(AttributeKind::UnsignedShort, 3, false),
        VertexFormat::Float32x3
    );
    assert_eq!(
        attribute_format(AttributeKind::UnsignedInt, 1, true),
        VertexFormat::Uint32
    );
    assert_eq!(
        attribute_format(AttributeKind::UnsignedInt, 2, true),
        VertexFormat::Uint32x2
    );
    assert_eq!(
        attribute_format(AttributeKind::UnsignedInt, 3, true),
        VertexFormat::Uint32x3
    );
    assert_eq!(
        attribute_format(AttributeKind::UnsignedInt, 4, true),
        VertexFormat::Uint32x4
    );
    assert_eq!(
        attribute_format(AttributeKind::UnsignedInt, 1, false),
        VertexFormat::Float32
    );
}

#[test]
fn wide_integers_are_read_least_byte_first() {
    let conversion = VertexConversion {
        src_stride: 6,
        dst_stride: 8,
        attributes: vec![
            remap(AttributeKind::UnsignedShort, 1, true, 0, 0),
            remap(AttributeKind::UnsignedInt, 1, true, 2, 4),
        ],
    };
    let out = conversion.convert(&[0x34, 0x12, 0xff, 0xff, 0xff, 0xff]);
    assert_eq!(out[0..4], (0x1234 as f32).to_le_bytes());
    assert_eq!(out[4..8], (u32::MAX as f32).to_le_bytes());
}

#[test]
fn stray_bytes_after_the_last_vertex_are_dropped() {
    let conversion = VertexConversion {
        src_stride: 2,
        dst_stride: 4,
        attributes: vec![remap(AttributeKind::UnsignedByte, 1, true, 1, 0)],
    };
    assert_eq!(
        conversion.convert(&[9, 3, 9, 4, 9]),
        [3.0f32.to_le_bytes(), 4.0f32.to_le_bytes()].concat()
    );
    assert_eq!(conversion.convert(&[9]), Vec::<u8>::new());
}

#[test]
fn bytes_no_attribute_covers_become_zero() {
    let conversion = VertexConversion {
        src_stride: 2,
        dst_stride: 8,
        attributes: vec![remap(AttributeKind::UnsignedByte, 1, true, 0, 4)],
    };
    assert_eq!(
        conversion.convert(&[1, 200]),
        [[0u8; 4], 1.0f32.to_le_bytes()].concat()
    );
}

#[test]
fn a_skinned_vertex_is_laid_out_anew() {
    let attributes = [
        attribute(0, AttributeKind::Float, 3, false, 0),
        attribute(1, AttributeKind::UnsignedByte, 3, true, 0),
        attribute(5, AttributeKind::UnsignedByte, 4, false, 0),
    ];
    let (layout, conversion) = plan_vertex_buffer(&attributes, 19);
    // Floats up to 12, bytes up to 15, then the converted floats on a boundary of four.
    let conversion = conversion.unwrap();
    assert_eq!(conversion.src_stride, 19);
    assert_eq!(conversion.dst_stride, 32);
    assert_eq!(
        conversion.attributes,
        vec![
            remap(AttributeKind::Float, 3, false, 0, 0),
            remap(AttributeKind::UnsignedByte, 3, false, 12, 12),
            remap(AttributeKind::UnsignedByte, 4, true, 15, 16),
        ]
    );
    assert_eq!(layout.array_stride, 32);
    assert_eq!(layout.step_mode, VertexStepMode::Vertex);
    assert_eq!(layout.attributes.len(), 3);
    assert_eq!(layout.attributes[2].format, VertexFormat::Float32x4);
    assert_eq!(layout.attributes[2].offset, 16);
    assert_eq!(layout.attributes[2].shader_location, 5);
}

#[test]
fn a_vertex_of_floats_is_left_as_it_is() {
    let attributes = [
        attribute(0, AttributeKind::Float, 3, false, 0),
        attribute(1, AttributeKind::Float, 2, false, 1),
    ];
    let (layout, conversion) = plan_vertex_buffer(&attributes, 24);
    assert!(conversion.is_none());
    assert_eq!(layout.array_stride, 24);
    assert_eq!(layout.step_mode, VertexStepMode::Instance);
    assert_eq!(layout.attributes[1].offset, 12);
}

#[test]
fn a_stride_longer_than_its_attributes_is_kept() {
    let attributes = [attribute(0, AttributeKind::UnsignedByte, 1, false, 0)];
    let (layout, conversion) = plan_vertex_buffer(&attributes, 21);
    assert_eq!(layout.array_stride, 24);
    assert_eq!(conversion.unwrap().dst_stride, 24);
}

fn native(words: &[u32]) -> Vec<u8> {
    words.iter().flat_map(|w| w.to_ne_bytes()).collect()
}

#[test]
fn geometry_is_uploaded() {
    let floats = [attribute(0, AttributeKind::Float, 1, false, 0)];
    let bones = [attribute(1, AttributeKind::UnsignedByte, 2, false, 0)];
    let triangles = [TriangleDefinition([0, 1, 2]), TriangleDefinition([2, 1, 0x01020304])];
    let buffers = [
        VertexBufferDescriptor {
            attributes: &floats,
            element_size: 4,
            bytes: Some(&[1, 2, 3, 4]),
        },
        VertexBufferDescriptor {
            attributes: &bones,
            element_size: 2,
            bytes: Some(&[5, 6]),
        },
        VertexBufferDescriptor {
            attributes: &floats,
            element_size: 4,
            bytes: None,
        },
    ];
    let desc = GpuGeometryBufferDescriptor {
        name: "Mesh",
        elements: ElementsDescriptor::Triangles(&triangles),
        buffers: &buffers,
    };
    let (geometry, upload) = WgpuGeometryBuffer::new(&NAMED, &desc).unwrap();
    assert_eq!(geometry.element_count(), 2);
    assert_eq!(geometry.element_kind(), ElementKind::Triangle);
    assert_eq!(geometry.element_buffer(), 24);
    assert_eq!(*geometry.vertex_buffers(), vec![4, 8, 1]);
    assert_eq!(geometry.vertex_buffer_layouts()[1].array_stride, 8);
    assert_eq!(upload.vertex_buffers[0].label.as_deref(), Some("MeshVB0"));
    assert_eq!(upload.vertex_buffers[0].contents, vec![1, 2, 3, 4]);
    assert_eq!(upload.vertex_buffers[1].label.as_deref(), Some("MeshVB1"));
    assert_eq!(
        upload.vertex_buffers[1].contents,
        [5.0f32.to_le_bytes(), 6.0f32.to_le_bytes()].concat()
    );
    assert_eq!(upload.vertex_buffers[2].label.as_deref(), Some("MeshVB2"));
    assert_eq!(upload.vertex_buffers[2].size, 1);
    assert!(upload.vertex_buffers[2].contents.is_empty());
    assert_eq!(upload.element_buffer.label.as_deref(), Some("MeshIB"));
    assert_eq!(
        upload.element_buffer.contents,
        native(&[0, 1, 2, 2, 1, 0x01020304])
    );

    let (_, upload) = WgpuGeometryBuffer::new(&UNNAMED, &desc).unwrap();
    assert!(upload.vertex_buffers[0].label.is_none());
    assert!(upload.element_buffer.label.is_none());
}

#[test]
fn labels_count_past_nine() {
    let floats = [attribute(0, AttributeKind::Float, 1, false, 0)];
    let mut buffers = Vec::new();
    for _ in 0..12 {
        buffers.push(VertexBufferDescriptor {
            attributes: &floats,
            element_size: 4,
            bytes: None,
        });
    }
    let desc = GpuGeometryBufferDescriptor {
        name: "ü",
        elements: ElementsDescriptor::Points(&[]),
        buffers: &buffers,
    };
    let (geometry, upload) = WgpuGeometryBuffer::new(&NAMED, &desc).unwrap();
    assert_eq!(upload.vertex_buffers[11].label.as_deref(), Some("üVB11"));
    assert_eq!(upload.element_buffer.size, 1);
    assert_eq!(geometry.element_count(), 0);
    assert_eq!(geometry.element_kind(), ElementKind::Point);
}

fn one_bone_buffer() -> WgpuGeometryBuffer {
    let bones = [attribute(1, AttributeKind::UnsignedByte, 1, false, 0)];
    let desc = GpuGeometryBufferDescriptor {
        name: "Bones",
        elements: ElementsDescriptor::Lines(&[[0, 1]]),
        buffers: &[VertexBufferDescriptor {
            attributes: &bones,
            element_size: 1,
            bytes: Some(&[1, 2]),
        }],
    };
    WgpuGeometryBuffer::new(&UNNAMED, &desc).unwrap().0
}

#[test]
fn later_data_is_converted_alike() {
    let mut geometry = one_bone_buffer();
    let update = geometry.set_buffer_data(true, 0, &[7, 8]);
    assert!(update.submit);
    let write = update.write.unwrap();
    assert_eq!(
        write.bytes,
        [7.0f32.to_le_bytes(), 8.0f32.to_le_bytes()].concat()
    );
    assert_eq!(write.recreate, None);

    // A buffer that has become too small is made again, and never shrinks.
    let write = geometry.set_buffer_data(true, 0, &[1, 2, 3]).write.unwrap();
    assert_eq!(write.recreate, Some(12));
    assert_eq!(*geometry.vertex_buffers(), vec![12]);
    let write = geometry.set_buffer_data(true, 0, &[1]).write.unwrap();
    assert_eq!(write.recreate, None);
    assert_eq!(*geometry.vertex_buffers(), vec![12]);
}

#[test]
fn buffers_that_do_not_exist_are_not_written() {
    let mut geometry = one_bone_buffer();
    let update = geometry.set_buffer_data(true, 1, &[7, 8]);
    assert!(update.submit);
    assert!(update.write.is_none());
    let update = geometry.set_buffer_data(false, 0, &[7, 8, 9]);
    assert!(!update.submit);
    assert!(update.write.is_none());
    assert_eq!(*geometry.vertex_buffers(), vec![8]);
}

#[test]
fn elements_are_replaced() {
    let mut geometry = one_bone_buffer();
    assert_eq!(geometry.element_kind(), ElementKind::Line);
    assert_eq!(geometry.element_buffer(), 8);
    let update = geometry.set_points(true, &[3, 0x0a0b0c0d]);
    assert!(update.submit);
    let write = update.write.unwrap();
    assert_eq!(write.bytes, native(&[3, 0x0a0b0c0d]));
    assert_eq!(write.recreate, None);
    assert_eq!(geometry.element_count(), 2);

    let write = geometry
        .set_triangles(true, &[TriangleDefinition([4, 5, 6])])
        .write
        .unwrap();
    assert_eq!(write.bytes, native(&[4, 5, 6]));
    assert_eq!(write.recreate, Some(12));
    assert_eq!(geometry.element_buffer(), 12);
    assert_eq!(geometry.element_count(), 1);

    let write = geometry.set_lines(true, &[[7, 8]]).write.unwrap();
    assert_eq!(write.bytes, native(&[7, 8]));
    assert_eq!(geometry.element_buffer(), 12);

    let update = geometry.set_points(false, &[1, 2, 3, 4, 5]);
    assert!(!update.submit && update.write.is_none());
    assert_eq!(geometry.element_count(), 1);
    assert_eq!(geometry.element_kind(), ElementKind::Line);
}

#[test]
fn indices_follow_one_another() {
    assert_eq!(
        flatten_triangles(&[TriangleDefinition([1, 2, 3]), TriangleDefinition([4, 5, 6])]),
        vec![1, 2, 3, 4, 5, 6]
    );
    assert_eq!(flatten_lines(&[[1, 2], [3, 4]]), vec![1, 2, 3, 4]);
}

#[test]
fn data_that_does_not_fit_is_told_apart() {
    let bones = [attribute(1, AttributeKind::UnsignedByte, 4, false, 0)];
    let buffer = |element_size: usize, bytes: Option<&'static [u8]>| VertexBufferDescriptor {
        attributes: &bones,
        element_size,
        bytes,
    };
    assert!(buffer(4, Some(&[1, 2, 3, 4])).is_valid());
    assert!(buffer(3, Some(&[1, 2])).is_valid());
    assert!(!buffer(3, Some(&[1, 2, 3])).is_valid());
    assert!(!buffer(0, Some(&[])).is_valid());
    assert!(buffer(0, None).is_valid());
    assert!(!buffer(usize::MAX, None).is_valid());

    let huge = [attribute(1, AttributeKind::Float, usize::MAX / 2, false, 0)];
    assert!(!can_lay_out(&huge, 4));
    assert!(can_lay_out(&bones, 4));

    let geometry = one_bone_buffer();
    assert!(geometry.can_accept(0, 5));
    assert!(geometry.can_accept(1, 5));
    assert!(!geometry.can_accept(0, usize::MAX));
}

#[test]
fn floats_are_never_converted() {
    let conversion = VertexConversion {
        src_stride: 4,
        dst_stride: 4,
        attributes: vec![remap(AttributeKind::Float, 1, true, 0, 0)],
    };
    assert!(!conversion.can_convert(4));
    assert!(conversion.can_convert(3));
    assert!(remap(AttributeKind::UnsignedInt, 1, true, 0, 0).lies_within(4, 4));
    assert!(!remap(AttributeKind::UnsignedInt, 1, true, 1, 0).lies_within(4, 4));
    assert!(!remap(AttributeKind::UnsignedByte, 2, true, 0, 0).lies_within(2, 4));
    assert!(remap(AttributeKind::UnsignedByte, 0, true, 9, 9).lies_within(2, 4));
}
