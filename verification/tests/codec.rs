use egui_wings::codec::{
    copy_bytes, put_blob, put_bool, put_option_blob, put_option_u32, put_u32, put_u64, take_blob,
    take_bool, take_option_blob, take_option_u32, take_u32, take_u64,
};
use egui_wings::frame::{
    check_distinct_ids, decode_frame, encode_frame, put_viewport, take_viewport,
    take_viewports, FrameSnapshot, ViewportStateSnapshot,
};

fn viewport(id: u64, state: &[u8]) -> ViewportStateSnapshot {
    ViewportStateSnapshot {
        id,
        pixels_per_point: 0x3f80_0000,
        max_texture_side: 2048,
        state: state.to_vec(),
    }
}

fn frame() -> FrameSnapshot {
    FrameSnapshot {
        memory: vec![1, 2, 3],
        new_font_definitions: Some(vec![9]),
        options: vec![],
        preload_font_glyphs: true,
        new_zoom_factor: Some(0x4000_0000),
        last_viewport: 7,
        viewports: vec![viewport(7, b"ab"), viewport(8, b"")],
    }
}

fn same_viewport(a: &ViewportStateSnapshot, b: &ViewportStateSnapshot) -> bool {
    a.id == b.id
        && a.pixels_per_point == b.pixels_per_point
        && a.max_texture_side == b.max_texture_side
        && a.state == b.state
}

#[test]
fn integers_are_little_endian() {
    let mut out = vec![0xaa];
    put_u64(&mut out, 0x0102_0304_0506_0708);
    put_u32(&mut out, 0x0a0b_0c0d);
    assert_eq!(out, vec![0xaa, 8, 7, 6, 5, 4, 3, 2, 1, 0x0d, 0x0c, 0x0b, 0x0a]);
    assert_eq!(take_u64(&out, 1), Some((0x0102_0304_0506_0708, 9)));
    assert_eq!(take_u32(&out, 9), Some((0x0a0b_0c0d, 13)));
}

#[test]
fn truncated_integers_do_not_read() {
    let bytes = vec![1, 2, 3, 4, 5, 6, 7, 8];
    assert_eq!(take_u64(&bytes, 0), Some((0x0807_0605_0403_0201, 8)));
    assert_eq!(take_u64(&bytes, 1), None);
    assert_eq!(take_u64(&bytes, 8), None);
    assert_eq!(take_u64(&bytes, 9), None);
    assert_eq!(take_u64(&bytes, usize::MAX), None);
    assert_eq!(take_u32(&bytes, 4), Some((0x0807_0605, 8)));
    assert_eq!(take_u32(&bytes, 5), None);
    assert_eq!(take_u32(&bytes, usize::MAX), None);
}

#[test]
fn truth_values_are_one_byte() {
    let mut out = Vec::new();
    put_bool(&mut out, true);
    put_bool(&mut out, false);
    out.push(2);
    assert_eq!(out, vec![1, 0, 2]);
    assert_eq!(take_bool(&out, 0), Some((true, 1)));
    assert_eq!(take_bool(&out, 1), Some((false, 2)));
    assert_eq!(take_bool(&out, 2), None);
    assert_eq!(take_bool(&out, 3), None);
}

#[test]
fn byte_strings_carry_their_length() {
    let mut out = Vec::new();
    put_blob(&mut out, &vec![0xde, 0xad]);
    put_blob(&mut out, &Vec::new());
    assert_eq!(out, vec![2, 0, 0, 0, 0, 0, 0, 0, 0xde, 0xad, 0, 0, 0, 0, 0, 0, 0, 0]);
    assert_eq!(take_blob(&out, 0), Some((vec![0xde, 0xad], 10)));
    assert_eq!(take_blob(&out, 10), Some((Vec::new(), 18)));
    assert_eq!(take_blob(&out, 11), None);
}

#[test]
fn byte_string_longer_than_the_buffer_does_not_read() {
    let bytes = vec![3, 0, 0, 0, 0, 0, 0, 0, 1, 2];
    assert_eq!(take_blob(&bytes, 0), None);
    let huge = vec![0xff, 0xff, 0xff, 0xff, 0xff, 0xff, 0xff, 0xff, 1];
    assert_eq!(take_blob(&huge, 0), None);
}

#[test]
fn optional_values_carry_a_tag() {
    let mut out = Vec::new();
    put_option_u32(&mut out, Some(5));
    put_option_u32(&mut out, None);
    put_option_blob(&mut out, &Some(vec![7]));
    put_option_blob(&mut out, &None);
    assert_eq!(out, vec![1, 5, 0, 0, 0, 0, 1, 1, 0, 0, 0, 0, 0, 0, 0, 7, 0]);
    assert_eq!(take_option_u32(&out, 0), Some((Some(5), 5)));
    assert_eq!(take_option_u32(&out, 5), Some((None, 6)));
    assert_eq!(take_option_blob(&out, 6), Some((Some(vec![7]), 16)));
    assert_eq!(take_option_blob(&out, 16), Some((None, 17)));
    assert_eq!(take_option_blob(&out, 17), None);
    assert_eq!(take_option_u32(&vec![1, 0, 0], 0), None);
    assert_eq!(take_option_u32(&vec![2, 0, 0, 0, 0], 0), None);
}

#[test]
fn copy_has_the_same_bytes() {
    assert_eq!(copy_bytes(&vec![1, 2, 3]), vec![1, 2, 3]);
    assert_eq!(copy_bytes(&Vec::new()), Vec::<u8>::new());
}

#[test]
fn viewport_is_written_field_by_field() {
    let mut out = Vec::new();
    put_viewport(&mut out, &viewport(0x0102, b"xy"));
    let expected = vec![
        2, 1, 0, 0, 0, 0, 0, 0, // id
        0, 0, 0x80, 0x3f, // scale
        0, 8, 0, 0, 0, 0, 0, 0, // texture limit
        2, 0, 0, 0, 0, 0, 0, 0, b'x', b'y', // state
    ];
    assert_eq!(out, expected);
    let (read, next) = take_viewport(&out, 0).unwrap();
    assert!(same_viewport(&read, &viewport(0x0102, b"xy")));
    assert_eq!(next, 30);
    assert!(take_viewport(&out[..29].to_vec(), 0).is_none());
}

#[test]
fn viewports_are_read_in_order() {
    let mut out = Vec::new();
    put_viewport(&mut out, &viewport(1, b"a"));
    put_viewport(&mut out, &viewport(2, b"bc"));
    let (read, next) = take_viewports(&out, 0, 2).unwrap();
    assert_eq!(next, out.len());
    assert_eq!(read.len(), 2);
    assert!(same_viewport(&read[0], &viewport(1, b"a")));
    assert!(same_viewport(&read[1], &viewport(2, b"bc")));
    assert!(take_viewports(&out, 0, 3).is_none());
    assert!(take_viewports(&out, 0, u64::MAX).is_none());
    let (none, at) = take_viewports(&out, 5, 0).unwrap();
    assert!(none.is_empty());
    assert_eq!(at, 5);
}

#[test]
fn frame_is_read_back_as_written() {
    let bytes = encode_frame(&frame());
    let read = decode_frame(&bytes).unwrap();
    let expected = frame();
    assert_eq!(read.memory, expected.memory);
    assert_eq!(read.new_font_definitions, expected.new_font_definitions);
    assert_eq!(read.options, expected.options);
    assert_eq!(read.preload_font_glyphs, expected.preload_font_glyphs);
    assert_eq!(read.new_zoom_factor, expected.new_zoom_factor);
    assert_eq!(read.last_viewport, expected.last_viewport);
    assert_eq!(read.viewports.len(), 2);
    assert!(same_viewport(&read.viewports[0], &expected.viewports[0]));
    assert!(same_viewport(&read.viewports[1], &expected.viewports[1]));
}

#[test]
fn frame_bytes_are_exact() {
    let small = FrameSnapshot {
        memory: vec![0xaa],
        new_font_definitions: None,
        options: vec![0xbb],
        preload_font_glyphs: false,
        new_zoom_factor: None,
        last_viewport: 3,
        viewports: vec![],
    };
    let expected = vec![
        1, 0, 0, 0, 0, 0, 0, 0, 0xaa, // memory
        0,    // no pending font definitions
        1, 0, 0, 0, 0, 0, 0, 0, 0xbb, // options
        0,    // no preloading
        0,    // no zoom factor
        3, 0, 0, 0, 0, 0, 0, 0, // last viewport
        0, 0, 0, 0, 0, 0, 0, 0, // no viewports
    ];
    assert_eq!(encode_frame(&small), expected);
}

#[test]
fn malformed_frames_are_not_read() {
    let bytes = encode_frame(&frame());
    assert!(decode_frame(&Vec::new()).is_none());
    for length in 0..bytes.len() {
        assert!(decode_frame(&bytes[..length].to_vec()).is_none());
    }
    let mut longer = bytes.clone();
    longer.push(0);
    assert!(decode_frame(&longer).is_none());
    let mut bad_tag = bytes.clone();
    bad_tag[11] = 2;
    assert!(decode_frame(&bad_tag).is_none());
}

#[test]
fn frame_with_two_viewports_of_one_id_is_not_read() {
    let mut twice = frame();
    twice.viewports = vec![viewport(7, b"a"), viewport(8, b"b"), viewport(7, b"c")];
    assert!(!check_distinct_ids(&twice.viewports));
    assert!(decode_frame(&encode_frame(&twice)).is_none());
    assert!(check_distinct_ids(&frame().viewports));
    assert!(check_distinct_ids(&Vec::new()));
}
