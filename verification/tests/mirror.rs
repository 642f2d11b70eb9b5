use phimakor::bytes::{push_i32, push_u16, push_u32, push_u64, read_be};
use phimakor::digest::{base64_encode, sha1};
use phimakor::http::{
    body_of, body_prefix, body_wanted, find_blank, head_state, header, index_response, next_chunk,
    ok_head, package_head, read_head, route, serve_music, switching, HeadState, MusicReply, Route,
    BAD_REQUEST, CHUNK, CONTROL_OK, MAX_HEAD, NOT_FOUND,
};
use phimakor::mirror::{
    builtin_tex_names, ctrl_of, newest_ctrl, pack_snapshot, pack_texture, parse_ctrl_json,
    publishable, stream_step, texture_slots, texture_source, textures_end, FrameState, LineState,
    MirrorCtrl, MirrorServer, NoteState, StreamStep, TextureSource, BUILTIN_COUNT, MAX_SNAP_BYTES, NAN_BITS,
    PACK_INTERVAL,
};
use phimakor::websocket::{
    ws_accept, ws_binary_frame, ws_feed, ws_recv_text, WsOutcome, WsPhase, MAX_TEXT,
};

fn hex(bytes: &[u8]) -> String {
    bytes.iter().map(|b| format!("{b:02x}")).collect()
}

#[test]
fn sha1_of_known_texts() {
    assert_eq!(hex(&sha1(b"")), "da39a3ee5e6b4b0d3255bfef95601890afd80709");
    assert_eq!(hex(&sha1(b"abc")), "a9993e364706816aba3e25717850c26c9cd0d89d");
    assert_eq!(
        hex(&sha1(b"abcdbcdecdefdefgefghfghighijhijkijkljklmklmnlmnomnopnopq")),
        "84983e441c3bd26ebaae4aa1f95129e5e54670f1"
    );
    assert_eq!(hex(&sha1(&vec![b'a'; 1000])), "291e9a6c66994949b57ba5e650361e98fc36b1ba");
}

#[test]
fn base64_of_known_texts() {
    assert_eq!(base64_encode(b""), "");
    assert_eq!(base64_encode(b"f"), "Zg==");
    assert_eq!(base64_encode(b"fo"), "Zm8=");
    assert_eq!(base64_encode(b"foo"), "Zm9v");
    assert_eq!(base64_encode(b"foobar"), "Zm9vYmFy");
    assert_eq!(base64_encode(&[0xfb, 0xff, 0xbf]), "+/+/");
}

#[test]
fn handshake_key_of_the_standard() {
    assert_eq!(ws_accept("dGhlIHNhbXBsZSBub25jZQ=="), "s3pPLMBiTxaQ9kYGzzhZRbK+xOo=");
}

#[test]
fn binary_frames_of_all_lengths() {
    assert_eq!(ws_binary_frame(&[1, 2, 3]), vec![0x82, 3, 1, 2, 3]);
    assert_eq!(&ws_binary_frame(&[7; 125])[..2], &[0x82, 125]);
    assert_eq!(&ws_binary_frame(&[7; 126])[..4], &[0x82, 126, 0, 126]);
    assert_eq!(&ws_binary_frame(&vec![7; 65535])[..4], &[0x82, 126, 255, 255]);
    assert_eq!(&ws_binary_frame(&vec![7; 65536])[..10], &[0x82, 127, 0, 0, 0, 0, 0, 1, 0, 0]);
    assert_eq!(ws_binary_frame(&vec![7; 65536]).len(), 10 + 65536);
}

fn client_frame(text: &str, mask: [u8; 4]) -> Vec<u8> {
    let p = text.as_bytes();
    let mut f = vec![0x81u8];
    if p.len() < 126 {
        f.push(0x80 | p.len() as u8);
    } else if p.len() <= 0xFFFF {
        f.push(0x80 | 126);
        f.extend_from_slice(&(p.len() as u16).to_be_bytes());
    } else {
        f.push(0x80 | 127);
        f.extend_from_slice(&(p.len() as u64).to_be_bytes());
    }
    f.extend_from_slice(&mask);
    for (i, b) in p.iter().enumerate() {
        f.push(b ^ mask[i % 4]);
    }
    f
}

#[test]
fn client_texts_are_read_back() {
    for text in ["", "pause", "往返测试"] {
        let mut stream = client_frame(text, [1, 2, 3, 250]);
        let n = stream.len();
        stream.extend_from_slice(b"rest");
        assert_eq!(ws_recv_text(&stream), Some((text.to_string(), n)));
    }
    let long = "x".repeat(300);
    assert_eq!(
        ws_recv_text(&client_frame(&long, [9, 8, 7, 6])),
        Some((long.clone(), 300 + 8))
    );
    let longest = "y".repeat(MAX_TEXT);
    assert_eq!(
        ws_recv_text(&client_frame(&longest, [9, 8, 7, 6])),
        Some((longest.clone(), MAX_TEXT + 14))
    );
    let too_long = "z".repeat(MAX_TEXT + 1);
    assert_eq!(ws_recv_text(&client_frame(&too_long, [0, 0, 0, 0])), None);
}

#[test]
fn what_is_no_text_is_refused() {
    assert_eq!(ws_recv_text(&ws_binary_frame(b"hello")), None);
    assert_eq!(ws_recv_text(&[0x81]), None);
    assert_eq!(ws_recv_text(&[0x81, 2, 0xff, 0xfe]), None);
    assert_eq!(ws_recv_text(&[0x81, 2, b'o', b'k']), Some(("ok".to_string(), 4)));
    assert!(matches!(
        ws_feed(&WsPhase::Head, &[0x81, 0x80 | 126]),
        WsOutcome::More(WsPhase::Len16 { masked: true })
    ));
    assert!(matches!(ws_feed(&WsPhase::Head, &[0x88, 0]), WsOutcome::Refused));
    assert!(matches!(
        ws_feed(&WsPhase::Len16 { masked: false }, &[0, 200]),
        WsOutcome::More(WsPhase::Body { len: 200, mask: None })
    ));
}

#[test]
fn heads_end_at_the_first_empty_line() {
    assert_eq!(find_blank(b"GET / HTTP/1.1\r\n\r\nbody\r\n\r\n"), Some(14));
    assert_eq!(find_blank(b"GET / HTTP/1.1\r\n"), None);
    assert_eq!(head_state(b"GET / HTTP/1.1\r\n\r\n"), HeadState::Complete);
    assert_eq!(head_state(b"GET"), HeadState::More);
    assert_eq!(head_state(&vec![b'a'; MAX_HEAD]), HeadState::TooLong);
}

#[test]
fn requests_are_read_and_routed() {
    let r = read_head(b"GET /ws HTTP/1.1\r\nHost: x\r\nSec-WebSocket-Key:  abc \r\n\r\n");
    assert_eq!(r.path, "/ws");
    assert_eq!(header(&r.headers, "sec-websocket-key"), Some("abc".to_string()));
    assert_eq!(header(&r.headers, "host"), Some("x".to_string()));
    assert_eq!(header(&r.headers, "range"), None);
    assert!(matches!(route(&r, "m.mp3"), Route::Upgrade { key } if key == "abc"));
    let at = |path: &str| read_head(format!("GET {path} HTTP/1.1\r\n\r\n").as_bytes());
    assert!(matches!(route(&at("/ws"), "m.mp3"), Route::Drop));
    assert!(matches!(route(&at("/"), "m.mp3"), Route::Index));
    assert!(matches!(route(&at("/index.html"), "m.mp3"), Route::Index));
    assert!(matches!(route(&at("/pkg/a.wasm"), "m.mp3"), Route::Package { file } if file == "a.wasm"));
    assert!(matches!(route(&at("/music/m.mp3"), "m.mp3"), Route::Music));
    assert!(matches!(route(&at("/music/../secret"), "m.mp3"), Route::NotFound));
    assert!(matches!(route(&at("/ctrl"), "m.mp3"), Route::Control));
    assert!(matches!(route(&at("/other"), "m.mp3"), Route::NotFound));
}

#[test]
fn heads_that_are_not_utf8_are_read_with_marks() {
    let r = read_head(b"GET /\xff HTTP/1.1\r\nHost: a\r\n\r\n");
    assert_eq!(r.path, "/\u{fffd}");
    assert_eq!(header(&r.headers, "host"), Some("a".to_string()));
}

#[test]
fn answers_have_their_heads() {
    assert_eq!(
        switching("KEY"),
        "HTTP/1.1 101 Switching Protocols\r\nUpgrade: websocket\r\nConnection: Upgrade\r\nSec-WebSocket-Accept: KEY\r\n\r\n"
    );
    assert_eq!(
        ok_head("text/plain", 12),
        "HTTP/1.1 200 OK\r\nContent-Type: text/plain\r\nContent-Length: 12\r\nConnection: close\r\n\r\n"
    );
    assert!(package_head("a.js", 1).contains("application/javascript"));
    assert!(package_head("a.wasm", 1).contains("application/wasm"));
    assert!(package_head("a.bin", 1).contains("application/octet-stream"));
    let page = index_response("曲.mp3");
    let (head, body) = page.split_once("\r\n\r\n").unwrap();
    assert!(head.contains(&format!("Content-Length: {}", body.len())));
    assert!(body.contains("曲.mp3"));
    assert!(!body.contains("__MUSIC__"));
    assert!(NOT_FOUND.starts_with("HTTP/1.1 404"));
    assert!(CONTROL_OK.ends_with("ok"));
    assert!(BAD_REQUEST.starts_with("HTTP/1.1 400"));
}

fn sent(total: u64, range: Option<&str>) -> Option<(String, u64, u64)> {
    match serve_music(total, &range.map(|s| s.to_string())) {
        MusicReply::Send { head, start, len } => Some((head, start, len)),
        MusicReply::Unsatisfiable { .. } => None,
    }
}

#[test]
fn music_is_served_by_ranges() {
    let (head, start, len) = sent(1000, None).unwrap();
    assert!(head.starts_with("HTTP/1.1 200 OK"));
    assert_eq!((start, len), (0, 1000));
    let (head, start, len) = sent(1000, Some("bytes=100-199")).unwrap();
    assert!(head.starts_with("HTTP/1.1 206"));
    assert!(head.contains("Content-Range: bytes 100-199/1000"));
    assert_eq!((start, len), (100, 100));
    let (_, start, len) = sent(1000, Some("bytes=900-")).unwrap();
    assert_eq!((start, len), (900, 100));
    let (_, start, len) = sent(1000, Some("bytes=0-5000")).unwrap();
    assert_eq!((start, len), (0, 1000));
    let (head, start, len) = sent(1000, Some("bytes=-100")).unwrap();
    assert!(head.contains("Content-Range: bytes 900-999/1000"));
    assert!(head.contains("Content-Length: 100\r\n"));
    assert_eq!((start, len), (900, 100));
    let (_, start, len) = sent(1000, Some("bytes=-5000")).unwrap();
    assert_eq!((start, len), (0, 1000));
    let (_, start, len) = sent(1000, Some("bytes=-")).unwrap();
    assert_eq!((start, len), (0, 1000));
    assert!(sent(1000, Some("bytes=-0")).is_none());
    assert!(sent(1000, Some("bytes=1000-")).is_none());
    assert!(sent(0, None).is_none());
    match serve_music(1000, &Some("bytes=2000-".to_string())) {
        MusicReply::Unsatisfiable { head } => {
            assert!(head.contains("Content-Range: bytes */1000"))
        }
        _ => panic!("out of range"),
    }
    assert_eq!(next_chunk(10), 10);
    assert_eq!(next_chunk(CHUNK + 1), CHUNK as usize);
}

#[test]
fn bodies_have_the_announced_length() {
    let got = b"POST /ctrl HTTP/1.1\r\nContent-Length: 5\r\n\r\nabcdef";
    let r = read_head(got);
    assert_eq!(body_wanted(&r.headers), 5);
    let begun = body_prefix(got);
    assert_eq!(begun, b"abcdef".to_vec());
    assert_eq!(body_of(begun, 5), b"abcde".to_vec());
    let none = read_head(b"POST /ctrl HTTP/1.1\r\n\r\n");
    assert_eq!(body_wanted(&none.headers), 0);
    let huge = read_head(b"POST /ctrl HTTP/1.1\r\nContent-Length: 99999999\r\n\r\n");
    assert_eq!(body_wanted(&huge.headers), 0);
    let most = read_head(b"POST /ctrl HTTP/1.1\r\nContent-Length: 65536\r\n\r\n");
    assert_eq!(body_wanted(&most.headers), 65536);
}

#[test]
fn commands_are_read_from_json() {
    assert!(matches!(parse_ctrl_json(br#"{"a":"pause"}"#), Some(MirrorCtrl::Pause)));
    match parse_ctrl_json(br#"{"a":"seek","t":12.5}"#) {
        Some(MirrorCtrl::Seek(t)) => assert_eq!(f64::from_bits(t), 12.5),
        _ => panic!("a seek"),
    }
    assert!(parse_ctrl_json(br#"{"a":"seek"}"#).is_none());
    assert!(parse_ctrl_json(br#"{"a":"stop"}"#).is_none());
    assert!(parse_ctrl_json(b"no json").is_none());
    assert!(matches!(ctrl_of(&Some("pause".to_string()), None), Some(MirrorCtrl::Pause)));
    assert!(ctrl_of(&None, Some(0)).is_none());
    assert!(newest_ctrl(&vec![]).is_none());
    assert!(matches!(
        newest_ctrl(&vec![MirrorCtrl::Pause, MirrorCtrl::Seek(3)]),
        Some(MirrorCtrl::Seek(3))
    ));
}

#[test]
fn slots_hold_each_texture_once() {
    let lines = vec!["a.png".to_string(), "b.png".to_string(), "a.png".to_string()];
    let slots = texture_slots(&lines);
    assert_eq!(&slots[..BUILTIN_COUNT], &builtin_tex_names()[..]);
    assert_eq!(&slots[BUILTIN_COUNT..], &["a.png".to_string(), "b.png".to_string()]);
    assert!(matches!(texture_source(0), TextureSource::Resource));
    assert!(matches!(texture_source(BUILTIN_COUNT), TextureSource::Chart));
}

#[test]
fn snapshots_have_their_bytes() {
    let slots = texture_slots(&vec!["a.png".to_string()]);
    let frame = FrameState {
        time: 1.5f64.to_bits(),
        lines: vec![LineState {
            x: 0.25f32.to_bits(),
            y: 0.5f32.to_bits(),
            rotation: 0,
            scale_x: 1.0f32.to_bits(),
            scale_y: 1.0f32.to_bits(),
            alpha: 1.0f32.to_bits(),
            z_order: -2,
            texture: Some("a.png".to_string()),
            notes: vec![NoteState {
                kind: 2,
                x: 1,
                y: 2,
                hold_end_y: None,
                alpha: 3,
                scale: 4,
            }],
        }],
    };
    let bytes = pack_snapshot(&frame, 0.7f32.to_bits(), &slots);
    let mut want: Vec<u8> = vec![1];
    want.extend_from_slice(&1.5f64.to_be_bytes());
    want.extend_from_slice(&0.7f32.to_be_bytes());
    want.extend_from_slice(&[0, 1]);
    for v in [0.25f32, 0.5, 0.0, 1.0, 1.0, 1.0] {
        want.extend_from_slice(&v.to_be_bytes());
    }
    want.extend_from_slice(&(-2i32).to_be_bytes());
    want.push(7);
    want.extend_from_slice(&[0, 1]);
    want.push(2);
    want.extend_from_slice(&1u32.to_be_bytes());
    want.extend_from_slice(&2u32.to_be_bytes());
    want.extend_from_slice(&f32::NAN.to_be_bytes());
    want.extend_from_slice(&3u32.to_be_bytes());
    want.extend_from_slice(&4u32.to_be_bytes());
    want.push(4);
    assert_eq!(bytes, want);
    assert_eq!(NAN_BITS, f32::NAN.to_bits());
}

#[test]
fn textures_are_packed_with_their_names() {
    assert_eq!(
        pack_texture("ab", &[9, 8, 7]),
        vec![0, 0, 2, b'a', b'b', 0, 0, 0, 3, 9, 8, 7]
    );
    assert_eq!(textures_end(), vec![0xFF]);
}

#[test]
fn streams_send_what_is_new() {
    assert!(matches!(stream_step(true, 1, 2), StreamStep::Close));
    assert!(matches!(stream_step(false, 1, 2), StreamStep::Send));
    assert!(matches!(stream_step(false, 2, 2), StreamStep::Listen));
    assert!(publishable(MAX_SNAP_BYTES));
    assert!(!publishable(MAX_SNAP_BYTES + 1));
}

#[test]
fn numbers_are_written_big_end_first() {
    let mut v: Vec<u8> = Vec::new();
    push_u16(&mut v, 0x0102);
    push_u32(&mut v, 0x03040506);
    push_u64(&mut v, 0x0708090a0b0c0d0e);
    push_i32(&mut v, -1);
    assert_eq!(v, vec![1, 2, 3, 4, 5, 6, 7, 8, 9, 10, 11, 12, 13, 14, 255, 255, 255, 255]);
    assert_eq!(read_be(&v[2..6]), 0x03040506);
    assert_eq!(read_be(&[]), 0);
}

#[test]
fn mirrors_publish_at_most_thirty_frames_a_second() {
    let mut m = MirrorServer::start(0);
    let frame = FrameState { time: 7, lines: vec![] };
    assert!(!m.tick(&frame, 0, &[], PACK_INTERVAL - 1));
    assert!(m.snap.is_none());
    assert!(m.tick(&frame, 0, &[], PACK_INTERVAL));
    assert_eq!(m.snap_seq, 1);
    assert_eq!(m.snap.as_ref().unwrap(), &pack_snapshot(&frame, 0, &[]));
    assert!(!m.tick(&frame, 0, &[], PACK_INTERVAL + 1));
    m.command_came(MirrorCtrl::Pause);
    m.command_came(MirrorCtrl::Seek(5));
    assert!(matches!(m.poll_ctrl(), Some(MirrorCtrl::Seek(5))));
    assert!(m.poll_ctrl().is_none());
    m.stop();
    assert!(m.stopped);
}
