use fyrox_graphics_wgpu::read_buffer::{
    can_transfer, unpad_rows, ColorAttachment, Rows, Transfer, WgpuAsyncReadBuffer,
};
use fyrox_graphics_wgpu::server::WgpuGraphicsServer;
use fyrox_graphics_wgpu::texture::{FrameworkError, GpuTextureKind};

fn server(named_objects: bool) -> WgpuGraphicsServer {
    WgpuGraphicsServer {
        ray_tracing: false,
        named_objects,
    }
}

fn rectangle(width: usize, height: usize) -> ColorAttachment {
    ColorAttachment {
        kind: GpuTextureKind::Rectangle { width, height },
        of_this_backend: true,
    }
}

fn message<T>(result: Result<T, FrameworkError>) -> String {
    match result {
        Ok(_) => "no error".into(),
        Err(FrameworkError::GraphicsServerUnavailable) => "no server".into(),
        Err(FrameworkError::Custom(text)) => text,
    }
}

#[test]
fn buffers_are_created_for_their_pixels() {
    let (buffer, creation) = WgpuAsyncReadBuffer::new(&server(true), "Pick", 4, 6).unwrap();
    assert_eq!(creation.size, 24);
    assert_eq!(creation.label.as_deref(), Some("Pick"));
    assert!(!buffer.is_request_running());
    assert_eq!(buffer.bytes_to_map(true), None);
    let (_, creation) = WgpuAsyncReadBuffer::new(&server(false), "Pick", 4, 0).unwrap();
    assert_eq!(creation.size, 1);
    assert!(creation.label.is_none());
}

#[test]
fn transfers_are_padded_and_read_back() {
    let (mut buffer, _) = WgpuAsyncReadBuffer::new(&server(false), "", 4, 6).unwrap();
    let transfer = buffer
        .schedule_pixels_transfer(true, &[rectangle(9, 9), rectangle(3, 2)], 1)
        .unwrap();
    assert_eq!(
        transfer,
        Some(Transfer {
            submit: true,
            recreate: Some(256 + 12),
            bytes_per_row: 256,
            rows_per_image: 2,
            width: 3,
            height: 2,
        })
    );
    assert!(buffer.is_request_running());
    assert_eq!(buffer.bytes_to_map(true), Some(268));
    assert_eq!(buffer.bytes_to_map(false), None);

    // While a transfer is under way no other is scheduled, whatever is asked for.
    assert_eq!(buffer.schedule_pixels_transfer(false, &[], 0).unwrap(), None);

    let mut mapped = vec![0xee; 268];
    for i in 0..12 {
        mapped[i] = i as u8;
        mapped[256 + i] = 100 + i as u8;
    }
    let pixels = buffer.try_read(Some(&mapped)).unwrap();
    let expected: Vec<u8> = (0..12).chain(100..112).collect();
    assert_eq!(pixels, expected);
    assert!(!buffer.is_request_running());
    assert_eq!(buffer.try_read(Some(&mapped)), None);

    // The buffer has room for the same transfer now.
    let transfer = buffer
        .schedule_pixels_transfer(true, &[rectangle(3, 2)], 0)
        .unwrap();
    assert_eq!(transfer.unwrap().recreate, None);
    assert_eq!(buffer.try_read(None), None);
    assert!(!buffer.is_request_running());
}

#[test]
fn transfers_end_in_errors() {
    let (mut buffer, _) = WgpuAsyncReadBuffer::new(&server(false), "", 4, 6).unwrap();
    let line = ColorAttachment {
        kind: GpuTextureKind::Line { length: 4 },
        of_this_backend: true,
    };
    let foreign = ColorAttachment {
        of_this_backend: false,
        ..rectangle(1, 1)
    };
    let attachments = [rectangle(1, 1), line, foreign];
    assert_eq!(message(buffer.schedule_pixels_transfer(false, &attachments, 0)), "no server");
    assert_eq!(
        message(buffer.schedule_pixels_transfer(true, &attachments, 3)),
        "No color attachment"
    );
    assert_eq!(
        message(buffer.schedule_pixels_transfer(true, &attachments, 2)),
        "Expected WgpuTexture"
    );
    assert_eq!(
        message(buffer.schedule_pixels_transfer(true, &attachments, 1)),
        "Only rectangular textures"
    );
    assert!(!buffer.is_request_running());
    assert_eq!(message(buffer.schedule_pixels_transfer(true, &attachments, 0)), "no error");
}

#[test]
fn rows_that_need_no_padding_get_none() {
    let (mut buffer, _) = WgpuAsyncReadBuffer::new(&server(false), "", 4, 128).unwrap();
    let transfer = buffer
        .schedule_pixels_transfer(true, &[rectangle(64, 2)], 0)
        .unwrap()
        .unwrap();
    assert_eq!(transfer.bytes_per_row, 256);
    assert_eq!(transfer.recreate, None);
    assert_eq!(buffer.bytes_to_map(true), Some(512));
}

#[test]
fn empty_images_read_as_zeroes() {
    let (mut buffer, _) = WgpuAsyncReadBuffer::new(&server(false), "", 1, 3).unwrap();
    buffer
        .schedule_pixels_transfer(true, &[rectangle(5, 0)], 0)
        .unwrap();
    assert_eq!(buffer.bytes_to_map(true), Some(1));
    assert_eq!(buffer.try_read(Some(&[9])), Some(vec![0, 0, 0]));
}

#[test]
fn images_are_cut_or_filled_to_the_buffer() {
    let rows = Rows {
        count: 2,
        row: 2,
        padded_row: 3,
    };
    let mapped = [1, 2, 9, 3, 4];
    assert_eq!(rows.copied(), 5);
    assert_eq!(unpad_rows(&mapped, rows, 4), vec![1, 2, 3, 4]);
    assert_eq!(unpad_rows(&mapped, rows, 3), vec![1, 2, 3]);
    assert_eq!(unpad_rows(&mapped, rows, 6), vec![1, 2, 3, 4, 0, 0]);
}

#[test]
fn images_that_cannot_be_counted_are_told_apart() {
    let kind = |width: usize, height: usize| GpuTextureKind::Rectangle { width, height };
    assert!(can_transfer(kind(3, 2), 4));
    assert!(can_transfer(kind(0, usize::MAX), 4));
    assert!(!can_transfer(kind(usize::MAX, 0), 1));
    assert!(!can_transfer(kind(1, usize::MAX), 1));
    assert!(!can_transfer(kind(usize::MAX, usize::MAX), usize::MAX));
    assert!(can_transfer(GpuTextureKind::Cube { size: usize::MAX }, usize::MAX));

    let rows = Rows {
        count: 3,
        row: 2,
        padded_row: 256,
    };
    assert!(rows.starts_within(4));
    assert!(!rows.starts_within(3));
}
