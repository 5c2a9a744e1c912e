use wayland_qubes::proto::{Outbound, Rectangle};
use wayland_qubes::shell::{
    ack_configure_message, commit_create_message, title_message, BufferAssignment, BufferInfo, Damage, LineCopy,
    Region, ShmError, SurfaceData,
};

fn surface(w: i32, h: i32, scale: i32) -> SurfaceData<u8> {
    let mut s: SurfaceData<u8> = SurfaceData::new(2);
    assert_eq!(s.process_new_buffers(BufferAssignment::NewBuffer { buffer: 1, width: w, height: h }, scale), None);
    s
}

#[test]
fn damage_with_valid_buffer() {
    let s = surface(1, 1, 1);
    let info = BufferInfo { offset: 0, width: 1, height: 1, stride: 4 };
    let damage = vec![Damage::Surface(Region { x: 0, y: 0, w: 1, h: 1 })];
    let r = s.update_buffer(4, info, &damage, None);
    assert_eq!(
        r,
        Ok(vec![LineCopy { src: 0, dst: 0, len: 4, image: Rectangle { x: 0, y: 0, width: 1, height: 1 } }])
    );
}

#[test]
fn damage_with_out_of_range_stride() {
    let s = surface(4, 5, 1);
    let info = BufferInfo { offset: 0, width: 4, height: 5, stride: 4 };
    let damage = vec![Damage::Buffer(Region { x: 0, y: 0, w: 1, h: 1 })];
    assert_eq!(s.update_buffer(16, info, &damage, None), Err(ShmError::InvalidStride));
    let info = BufferInfo { offset: 0, width: 1, height: 5, stride: 4 };
    assert_eq!(s.update_buffer(16, info, &damage, None), Err(ShmError::InvalidStride));
}

#[test]
fn stride_overflow_is_invalid_stride() {
    let s = surface(0x4000, 0x10000, 1);
    let info = BufferInfo { offset: 0, width: 0x4000, height: 0x10000, stride: 0x10000 };
    let damage = vec![Damage::Buffer(Region { x: 0, y: 0, w: 1, h: 1 })];
    assert_eq!(s.update_buffer(0x7fff_ffff, info, &damage, None), Err(ShmError::InvalidStride));
}

#[test]
fn oversized_pool_is_invalid_fd() {
    let s = surface(1, 1, 1);
    let info = BufferInfo { offset: 0, width: 1, height: 1, stride: 4 };
    let damage = vec![Damage::Buffer(Region { x: 0, y: 0, w: 1, h: 1 })];
    assert_eq!(s.update_buffer(0x8000_0000, info, &damage, None), Err(ShmError::InvalidFd));
}

#[test]
fn bad_layouts_are_refused() {
    let s = surface(2, 2, 1);
    let damage = vec![Damage::Buffer(Region { x: 0, y: 0, w: 1, h: 1 })];
    for info in [
        BufferInfo { offset: -1, width: 2, height: 2, stride: 8 },
        BufferInfo { offset: 0, width: 0, height: 2, stride: 8 },
        BufferInfo { offset: 0, width: 2, height: 0, stride: 8 },
        BufferInfo { offset: 0, width: 2, height: 2, stride: 7 },
        BufferInfo { offset: 1, width: 2, height: 2, stride: 8 },
    ] {
        assert_eq!(s.update_buffer(16, info, &damage, None), Err(ShmError::InvalidStride));
    }
}

#[test]
fn damage_is_clipped_and_copied_by_line() {
    let s = surface(4, 3, 1);
    let info = BufferInfo { offset: 8, width: 4, height: 3, stride: 20 };
    let damage = vec![Damage::Buffer(Region { x: 2, y: 1, w: 10, h: 10 })];
    let lines = s.update_buffer(8 + 60, info, &damage, None).unwrap();
    let image = Rectangle { x: 2, y: 1, width: 2, height: 2 };
    assert_eq!(
        lines,
        vec![
            LineCopy { src: 8 + 8 + 20, dst: 4 * (2 + 4), len: 8, image },
            LineCopy { src: 8 + 8 + 40, dst: 4 * (2 + 8), len: 8, image },
        ]
    );
    for l in &lines {
        assert!(l.dst + l.len <= 4 * 4 * 3);
        assert!(l.src + l.len <= 68);
        assert!(l.image.x + l.image.width <= 4 && l.image.y + l.image.height <= 3);
    }
}

#[test]
fn surface_damage_is_scaled() {
    let s = surface(4, 4, 2);
    let info = BufferInfo { offset: 0, width: 4, height: 4, stride: 16 };
    let damage = vec![Damage::Surface(Region { x: 1, y: 1, w: 1, h: 1 })];
    let lines = s.update_buffer(64, info, &damage, None).unwrap();
    let image = Rectangle { x: 2, y: 2, width: 2, height: 2 };
    assert_eq!(
        lines,
        vec![
            LineCopy { src: 8 + 32, dst: 4 * (2 + 8), len: 8, image },
            LineCopy { src: 8 + 48, dst: 4 * (2 + 12), len: 8, image },
        ]
    );
    let huge = vec![Damage::Surface(Region { x: 0, y: 0, w: i32::MAX, h: 1 })];
    let lines = s.update_buffer(64, info, &huge, None).unwrap();
    let image = Rectangle { x: 0, y: 0, width: 4, height: 2 };
    assert_eq!(
        lines,
        vec![LineCopy { src: 0, dst: 0, len: 16, image }, LineCopy { src: 16, dst: 16, len: 16, image }]
    );
    let far = vec![Damage::Surface(Region { x: i32::MAX, y: 0, w: 1, h: 1 })];
    assert_eq!(s.update_buffer(64, info, &far, None), Err(ShmError::InvalidStride));
    let negative = vec![Damage::Surface(Region { x: 0, y: 0, w: -1, h: 1 })];
    assert_eq!(s.update_buffer(64, info, &negative, None), Err(ShmError::InvalidStride));
}

#[test]
fn geometry_shifts_the_copy() {
    let s = surface(4, 4, 1);
    let info = BufferInfo { offset: 0, width: 4, height: 4, stride: 16 };
    let damage = vec![Damage::Buffer(Region { x: 0, y: 0, w: 4, h: 4 })];
    let geometry = Some(Region { x: 1, y: 2, w: 2, h: 2 });
    let lines = s.update_buffer(64, info, &damage, geometry).unwrap();
    let image = Rectangle { x: 0, y: 0, width: 3, height: 2 };
    assert_eq!(
        lines,
        vec![
            LineCopy { src: 4 + 32, dst: 0, len: 12, image },
            LineCopy { src: 4 + 48, dst: 16, len: 12, image },
        ]
    );
}

#[test]
fn bad_damage_rectangle_aborts_the_commit() {
    let s = surface(2, 2, 1);
    let info = BufferInfo { offset: 0, width: 2, height: 2, stride: 8 };
    for bad in [
        Region { x: 0, y: 0, w: 0, h: 1 },
        Region { x: 0, y: 0, w: 1, h: -1 },
        Region { x: -1, y: 0, w: 1, h: 1 },
        Region { x: 0, y: 3, w: 1, h: 1 },
    ] {
        let damage = vec![Damage::Buffer(Region { x: 0, y: 0, w: 1, h: 1 }), Damage::Buffer(bad)];
        assert_eq!(s.update_buffer(16, info, &damage, None), Err(ShmError::InvalidStride));
    }
}

#[test]
fn empty_damage_copies_nothing() {
    let s = surface(2, 2, 1);
    let info = BufferInfo { offset: 0, width: 2, height: 2, stride: 8 };
    assert_eq!(s.update_buffer(16, info, &vec![], None), Ok(vec![]));
}

#[test]
fn buffers_are_replaced_and_removed() {
    let mut s: SurfaceData<u8> = SurfaceData::new(3);
    assert_eq!(s.size(), None);
    assert_eq!(s.process_new_buffers(BufferAssignment::NewBuffer { buffer: 1, width: 10, height: 6 }, 2), None);
    assert_eq!(s.buffer_dimensions, Some((10, 6)));
    assert_eq!(s.size(), Some((5, 3)));
    assert_eq!(s.process_new_buffers(BufferAssignment::NewBuffer { buffer: 2, width: 4, height: 4 }, 1), Some(1));
    assert_eq!(s.process_new_buffers(BufferAssignment::Removed, 1), Some(2));
    assert_eq!(s.buffer, None);
    assert_eq!(s.buffer_dimensions, None);
    assert_eq!(s.window, 3);
    s.buffer_dimensions = Some((-3, 2));
    s.buffer_scale = 1;
    assert_eq!(s.size(), Some((-3, 2)));
    s.buffer_scale = -2;
    assert_eq!(s.size(), Some((1, -1)));
    s.buffer_scale = 0;
    assert_eq!(s.size(), None);
    s.buffer_dimensions = Some((i32::MIN, 2));
    s.buffer_scale = -1;
    assert_eq!(s.size(), None);
}

#[test]
fn title_is_padded_and_cut() {
    let m = title_message(2, &b"Qubes Demo Rust GUI Agent".to_vec());
    match m {
        Outbound::SetTitle { window, title } => {
            assert_eq!(window, 2);
            assert_eq!(title.len(), 128);
            assert_eq!(&title[..25], b"Qubes Demo Rust GUI Agent");
            assert!(title[25..].iter().all(|&b| b == 0));
        }
        _ => panic!("not a title"),
    }
    match title_message(4, &vec![7u8; 300]) {
        Outbound::SetTitle { title, .. } => assert_eq!(title, vec![7u8; 128]),
        _ => panic!("not a title"),
    }
}

#[test]
fn ack_configure_is_at_least_one_pixel() {
    let r = |w, h| Outbound::Configure {
        window: 2,
        configure: wayland_qubes::proto::Configure {
            rectangle: Rectangle { x: 0, y: 0, width: w, height: h },
            override_redirect: 0,
        },
    };
    assert_eq!(ack_configure_message(2, Some((640, 480))), r(640, 480));
    assert_eq!(ack_configure_message(2, Some((0, -3))), r(1, 1));
    assert_eq!(ack_configure_message(2, None), r(1, 1));
    assert_eq!(
        commit_create_message(5),
        Outbound::Create { window: 5, rectangle: Rectangle { x: 0, y: 0, width: 256, height: 256 }, parent: None, override_redirect: 0 }
    );
}
