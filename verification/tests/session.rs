use vnc_server::update::{framebuffer_update, write_empty_update, write_update_header};
use vnc_server::{
    ClientMessage, ClientState, MessageReader, Rect, SharedFrame, UpdateRequest, UpdateSession,
    VncInputEvent, VncPixelFormat,
};

fn rect(x: u16, y: u16, width: u16, height: u16) -> Rect {
    Rect { x, y, width, height }
}

fn read(stream: &[u8]) -> (MessageReader, Vec<ClientMessage>, usize) {
    let mut reader = MessageReader::new();
    let mut messages = Vec::new();
    let mut at = 0;
    while !reader.is_closed() && at + reader.needed() <= stream.len() {
        let n = reader.needed();
        if let Some(message) = reader.feed(&stream[at..at + n]) {
            messages.push(message);
        }
        at += n;
    }
    (reader, messages, at)
}

#[test]
fn pixel_format_is_read() {
    let stream = [0, 9, 9, 9, 16, 16, 0, 1, 0, 31, 0, 63, 0, 31, 11, 5, 0, 0, 0, 0];
    let (reader, messages, at) = read(&stream);
    assert_eq!((reader, at, messages.len()), (MessageReader::Type, 20, 1));
    match &messages[0] {
        ClientMessage::SetPixelFormat(f) => {
            assert_eq!((f.bpp, f.r_max, f.g_max, f.b_max), (16, 31, 63, 31));
            assert_eq!((f.r_shift, f.g_shift, f.b_shift, f.big_endian), (11, 5, 0, false));
        }
        other => panic!("{:?}", other),
    }
}

#[test]
fn encodings_are_skipped_in_chunks() {
    let mut stream = vec![2, 0, 0x01, 0x80];
    stream.resize(4 + 0x180 * 4, 0xff);
    stream.extend_from_slice(&[5, 1, 0, 2, 0, 3]);
    let (reader, messages, at) = read(&stream);
    assert_eq!((reader, at, messages.len()), (MessageReader::Type, stream.len(), 1));
    assert!(matches!(
        messages[0],
        ClientMessage::Input(VncInputEvent::Pointer { button_mask: 1, x: 2, y: 3 })
    ));
    let mut reader = MessageReader::new();
    reader.feed(&[2]);
    reader.feed(&[0, 0x01, 0x80]);
    assert_eq!(reader.needed(), 1024);
    reader.feed(&[0; 1024]);
    assert_eq!(reader, MessageReader::Discard { remaining: 512 });
    assert_eq!(reader.needed(), 512);
    reader.feed(&[0; 512]);
    assert_eq!(reader, MessageReader::Type);
}

#[test]
fn an_empty_list_of_encodings_is_skipped() {
    let (reader, messages, at) = read(&[2, 0, 0, 0, 4, 1, 0, 0, 0, 0, 0xff, 0x0d]);
    assert_eq!((reader, at, messages.len()), (MessageReader::Type, 12, 1));
    assert!(matches!(
        messages[0],
        ClientMessage::Input(VncInputEvent::Key { down: true, key: 0xff0d })
    ));
}

#[test]
fn update_requests_are_read() {
    let stream = [3, 1, 0, 1, 0, 2, 3, 0x20, 1, 0xe0, 3, 0, 0, 0, 0, 0, 0, 4, 0, 5];
    let (_, messages, _) = read(&stream);
    assert_eq!(messages.len(), 2);
    match (&messages[0], &messages[1]) {
        (ClientMessage::UpdateRequest(a), ClientMessage::UpdateRequest(b)) => {
            assert_eq!(*a, UpdateRequest { incremental: true, rect: rect(1, 2, 800, 480) });
            assert_eq!(*b, UpdateRequest { incremental: false, rect: rect(0, 0, 4, 5) });
        }
        other => panic!("{:?}", other),
    }
}

#[test]
fn clipboard_text_is_read_even_if_empty() {
    let (reader, messages, _) = read(&[6, 0, 0, 0, 0, 0, 0, 2, b'h', b'i', 6, 0, 0, 0, 0, 0, 0, 0]);
    assert_eq!((reader, messages.len()), (MessageReader::Type, 2));
    assert!(matches!(
        &messages[0],
        ClientMessage::Input(VncInputEvent::ClientCutText(text)) if text == b"hi"
    ));
    assert!(matches!(
        &messages[1],
        ClientMessage::Input(VncInputEvent::ClientCutText(text)) if text.is_empty()
    ));
}

#[test]
fn an_unknown_message_closes_the_reader() {
    for kind in [1u8, 7, 255] {
        let (reader, messages, at) = read(&[4, 0, 0, 0, 0, 0, 0, 9, kind, 4, 0, 0, 0, 0, 0, 0, 9]);
        assert_eq!((reader, at, messages.len()), (MessageReader::Closed, 9, 1));
        assert_eq!(reader.needed(), 0);
    }
}

#[test]
fn a_client_state_notes_what_is_asked() {
    let mut state = ClientState::new();
    assert!(state.format.is_native());
    assert!(state.take_request().is_none());
    let first = UpdateRequest { incremental: false, rect: rect(0, 0, 1, 1) };
    let second = UpdateRequest { incremental: true, rect: rect(0, 0, 2, 2) };
    assert!(state.apply(ClientMessage::UpdateRequest(first)).is_none());
    assert!(state.apply(ClientMessage::UpdateRequest(second)).is_none());
    let mut format = VncPixelFormat::native();
    format.bpp = 16;
    assert!(state.apply(ClientMessage::SetPixelFormat(format)).is_none());
    assert_eq!(state.format, format);
    let event = state.apply(ClientMessage::Input(VncInputEvent::Key { down: false, key: 3 }));
    assert!(matches!(event, Some(VncInputEvent::Key { down: false, key: 3 })));
    assert_eq!(state.take_request(), Some(second));
    assert!(state.take_request().is_none());
}

#[test]
fn update_messages_have_their_heads() {
    let mut out = Vec::new();
    write_update_header(&mut out, rect(1, 0x0203, 4, 5));
    assert_eq!(out, [0, 0, 0, 1, 0, 1, 2, 3, 0, 4, 0, 5, 0, 0, 0, 0]);
    let mut out = Vec::new();
    write_empty_update(&mut out);
    assert_eq!(out, [0, 0, 0, 0]);
    let message = framebuffer_update(
        &[1, 2, 3, 4, 5, 6, 7, 8],
        2,
        rect(1, 0, 1, 1),
        &VncPixelFormat::native(),
    );
    assert_eq!(message, [0, 0, 0, 1, 0, 1, 0, 0, 0, 1, 0, 1, 0, 0, 0, 0, 5, 6, 7, 8]);
}

#[test]
fn a_request_off_the_screen_gets_an_empty_update() {
    let mut session = UpdateSession::new(4, 4);
    let reply = session.accept(UpdateRequest { incremental: false, rect: rect(4, 0, 2, 2) });
    assert_eq!(reply, Some(vec![0, 0, 0, 0]));
    assert!(session.active.is_none());
}

#[test]
fn a_full_request_is_cut_down_and_answered_at_once() {
    let mut session = UpdateSession::new(4, 4);
    let mut frame = SharedFrame::new(4, 4);
    frame.publish(&[1u8; 64]);
    assert!(session.accept(UpdateRequest { incremental: false, rect: rect(2, 1, 9, 9) }).is_none());
    assert_eq!(session.poll(&frame), Some(rect(2, 1, 2, 3)));
    assert_eq!(session.last_seq, 1);
    assert!(session.active.is_none());
}

#[test]
fn an_incremental_request_waits_for_damage_where_it_asked() {
    let mut session = UpdateSession::new(4, 4);
    let mut frame = SharedFrame::new(4, 4);
    session.accept(UpdateRequest { incremental: true, rect: rect(0, 0, 2, 4) });
    assert_eq!(session.poll(&frame), None);
    let mut pixels = vec![0u8; 64];
    pixels[3 * 4] = 1;
    frame.publish(&pixels);
    assert_eq!(session.poll(&frame), None);
    assert_eq!(session.last_seq, 1);
    pixels[(2 * 4 + 1) * 4] = 1;
    pixels[(2 * 4 + 2) * 4] = 1;
    frame.publish(&pixels);
    assert_eq!(session.poll(&frame), Some(rect(1, 2, 1, 1)));
    assert_eq!(session.last_seq, 2);
    assert!(session.active.is_none());
}

#[test]
fn a_client_that_paints_what_it_is_sent_shows_the_frame() {
    let (w, h) = (5usize, 4usize);
    let mut session = UpdateSession::new(5, 4);
    let mut frame = SharedFrame::new(5, 4);
    let mut canvas = vec![0u8; w * h * 4];
    let mut pixels = canvas.clone();
    for step in 0..20usize {
        let i = (step * 13) % (w * h);
        pixels[i * 4] = step as u8 + 1;
        pixels[((i * 3) % (w * h)) * 4 + 2] = step as u8;
        frame.publish(&pixels);
        if step % 3 == 0 {
            continue;
        }
        session.accept(UpdateRequest { incremental: true, rect: rect(0, 0, 5, 4) });
        if let Some(r) = session.poll(&frame) {
            let message = framebuffer_update(frame.data(), w, r, &VncPixelFormat::native());
            for j in 0..r.height as usize {
                for i in 0..r.width as usize {
                    let from = 16 + (j * r.width as usize + i) * 4;
                    let to = ((r.y as usize + j) * w + r.x as usize + i) * 4;
                    canvas[to..to + 4].copy_from_slice(&message[from..from + 4]);
                }
            }
        }
        assert_eq!(canvas, pixels);
    }
}
