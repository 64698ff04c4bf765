use base64::Engine as _;
use terminator::rdp::{
    decode_utf16le_text, describe_connect_error, drain_backend_actions, encode_frame, pack_rect, paste_request,
    remote_clipboard_event, BackendAction, ClipboardCall, FrameImage, LocalClipboard, RdpEvent, Rect,
};

#[test]
fn rect_union_covers_both() {
    let a = Rect { left: 10, top: 10, right: 20, bottom: 20 };
    let b = Rect { left: 5, top: 15, right: 15, bottom: 30 };
    let u = a.union(b);
    assert_eq!((u.left, u.top, u.right, u.bottom), (5, 10, 20, 30));
}

#[test]
fn rect_union_is_idempotent() {
    let a = Rect { left: 1, top: 2, right: 3, bottom: 4 };
    let u = a.union(a);
    assert_eq!((u.left, u.top, u.right, u.bottom), (1, 2, 3, 4));
}

#[test]
fn single_pixel_rect_has_extent_one() {
    let img = FrameImage::new(4, 4, 4);
    let ev = encode_frame(&img, Rect { left: 2, top: 3, right: 2, bottom: 3 }).expect("in bounds");
    match ev {
        RdpEvent::Frame { x, y, w, h, .. } => assert_eq!((x, y, w, h), (2, 3, 1, 1)),
        other => panic!("expected a frame, got {other:?}"),
    }
}

#[test]
fn encode_frame_packs_rows_tightly() {
    let img = FrameImage::new(4, 8, 8);
    let ev = encode_frame(&img, Rect { left: 1, top: 1, right: 4, bottom: 2 }).expect("in bounds");
    match ev {
        RdpEvent::Frame { w, h, rgba, .. } => {
            let bytes = base64::engine::general_purpose::STANDARD.decode(rgba).expect("valid base64");
            assert_eq!((w, h), (4, 2));
            // Tightly packed: exactly w*h*4, not the strided span.
            assert_eq!(bytes.len(), 4 * 2 * 4);
        }
        other => panic!("expected a frame, got {other:?}"),
    }
}

#[test]
fn out_of_bounds_rect_is_clamped() {
    let img = FrameImage::new(4, 4, 4);
    let ev = encode_frame(&img, Rect { left: 0, top: 0, right: 99, bottom: 99 }).expect("clamped");
    match ev {
        RdpEvent::Frame { w, h, .. } => assert_eq!((w, h), (4, 4)),
        other => panic!("expected a frame, got {other:?}"),
    }
}

#[test]
fn packing_cuts_each_row_out_of_its_stride() {
    // 3x2 image, one byte per pixel, rows padded to a stride of 4.
    let data = vec![1, 2, 3, 0, 4, 5, 6, 0];
    let img = FrameImage::from_parts(3, 2, 1, 4, data).expect("consistent layout");
    let p = pack_rect(&img, Rect { left: 1, top: 0, right: 2, bottom: 1 }).expect("in bounds");
    assert_eq!((p.x, p.y, p.w, p.h), (1, 0, 2, 2));
    assert_eq!(p.pixels, vec![2, 3, 5, 6]);
}

#[test]
fn frame_pixels_travel_as_base64_of_the_packed_rows() {
    let data = vec![1, 2, 3, 0, 4, 5, 6, 0];
    let img = FrameImage::from_parts(3, 2, 1, 4, data).unwrap();
    match encode_frame(&img, Rect { left: 0, top: 1, right: 2, bottom: 1 }).unwrap() {
        RdpEvent::Frame { rgba, .. } => assert_eq!(rgba, "BAUG"),
        other => panic!("expected a frame, got {other:?}"),
    }
}

#[test]
fn empty_images_and_inverted_rects_give_no_frame() {
    let empty = FrameImage::new(4, 0, 4);
    assert!(encode_frame(&empty, Rect { left: 0, top: 0, right: 1, bottom: 1 }).is_none());
    let img = FrameImage::new(4, 4, 4);
    assert!(pack_rect(&img, Rect { left: 3, top: 0, right: 1, bottom: 1 }).is_none());
}

#[test]
fn inconsistent_layouts_are_refused() {
    assert!(FrameImage::from_parts(3, 2, 1, 2, vec![0; 4]).is_none());
    assert!(FrameImage::from_parts(3, 2, 1, 4, vec![0; 7]).is_none());
}

#[test]
fn clipboard_text_drops_the_nul_terminator_and_odd_byte() {
    let bytes = [b'h', 0, b'i', 0, 0, 0, 0x41];
    assert_eq!(decode_utf16le_text(&bytes), "hi");
    // A lone surrogate becomes the replacement character.
    assert_eq!(decode_utf16le_text(&[0x00, 0xd8]), "\u{fffd}");
}

#[test]
fn connection_errors_get_a_hint() {
    assert_eq!(
        describe_connect_error("CredSSP failed"),
        "CredSSP failed (check the username, password, and domain)"
    );
    assert_eq!(
        describe_connect_error("SSL_NOT_ALLOWED_BY_SERVER"),
        "SSL_NOT_ALLOWED_BY_SERVER (this server does not support TLS; Terminator requires it)"
    );
    assert_eq!(describe_connect_error("connection reset"), "connection reset");
}

#[test]
fn server_gets_the_text_set_last() {
    let mut clip = LocalClipboard::new();
    let calls = drain_backend_actions(
        vec![
            BackendAction::SetLocalClipboard { text: "first".to_string() },
            BackendAction::InitiatePaste { format_id: 13 },
            BackendAction::SetLocalClipboard { text: "second".to_string() },
            BackendAction::InitiateCopy,
            BackendAction::SubmitFormatData { format_id: 13 },
        ],
        &mut clip,
    );
    assert_eq!(calls.len(), 5);
    assert!(matches!(calls[0], ClipboardCall::AdvertiseText));
    assert!(matches!(calls[1], ClipboardCall::Paste { format_id: 13 }));
    assert!(matches!(calls[2], ClipboardCall::AdvertiseText));
    assert!(matches!(calls[3], ClipboardCall::AdvertiseText));
    match &calls[4] {
        ClipboardCall::SubmitText { text } => assert_eq!(text, "second"),
        other => panic!("unexpected {other:?}"),
    }
}

#[test]
fn nothing_set_yet_submits_empty_text_and_other_formats_are_ignored() {
    let mut clip = LocalClipboard::new();
    match clip.apply(BackendAction::SubmitFormatData { format_id: 13 }) {
        ClipboardCall::SubmitText { text } => assert_eq!(text, ""),
        other => panic!("unexpected {other:?}"),
    }
    assert!(matches!(clip.apply(BackendAction::SubmitFormatData { format_id: 1 }), ClipboardCall::Ignore));
}

#[test]
fn only_unicode_text_is_pasted() {
    assert!(matches!(paste_request(&vec![1, 13, 7]), Some(BackendAction::InitiatePaste { format_id: 13 })));
    assert!(paste_request(&vec![1, 7]).is_none());
    assert!(paste_request(&vec![]).is_none());
}

#[test]
fn remote_clipboard_answer_becomes_an_event() {
    assert!(remote_clipboard_event(true, &[0x68, 0x00]).is_none());
    match remote_clipboard_event(false, &[0x68, 0x00, 0x69, 0x00, 0x00, 0x00]) {
        Some(RdpEvent::RemoteClipboard { text }) => assert_eq!(text, "hi"),
        other => panic!("unexpected {other:?}"),
    }
}
