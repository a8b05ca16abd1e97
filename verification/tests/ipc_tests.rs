use tessera::ipc::{
    decode_browser_to_content, decode_content_to_browser, encode_browser_to_content,
    encode_content_to_browser, BrowserToContent, CodecError, ContentToBrowser,
    InProcessTransport, Viewport,
};

#[test]
fn browser_to_content_roundtrip() {
    let message = BrowserToContent::LoadDocument {
        request_id: 44,
        url: "file:///test.html".to_string(),
        html: "<p>hello</p>".to_string(),
        viewport: Viewport {
            width: 800,
            height: 600,
        },
    };

    let encoded = encode_browser_to_content(&message);
    let decoded = decode_browser_to_content(&encoded).unwrap();
    assert_eq!(decoded, message);
}

#[test]
fn content_to_browser_roundtrip() {
    let message = ContentToBrowser::Log {
        level: 2,
        message: "ready".to_string(),
    };

    let encoded = encode_content_to_browser(&message);
    let decoded = decode_content_to_browser(&encoded).unwrap();
    assert_eq!(decoded, message);
}

#[test]
fn in_process_transport_smoke() {
    let mut transport = InProcessTransport::default();
    transport.send_to_content(&BrowserToContent::Tick { frame_index: 3 });

    let Some(message) = transport.recv_for_content() else {
        panic!("missing content message");
    };

    assert_eq!(message.unwrap(), BrowserToContent::Tick { frame_index: 3 });
}

#[test]
fn tick_wire_bytes_are_exact() {
    let encoded = encode_browser_to_content(&BrowserToContent::Tick { frame_index: 7 });
    assert_eq!(
        encoded,
        vec![1, 0, 0, 0, 2, 7, 0, 0, 0, 0, 0, 0, 0]
    );
}

#[test]
fn shutdown_roundtrips_both_ways() {
    let encoded = encode_browser_to_content(&BrowserToContent::Shutdown);
    assert_eq!(
        decode_browser_to_content(&encoded).unwrap(),
        BrowserToContent::Shutdown
    );

    let encoded = encode_content_to_browser(&ContentToBrowser::AckShutdown);
    assert_eq!(
        decode_content_to_browser(&encoded).unwrap(),
        ContentToBrowser::AckShutdown
    );
}

#[test]
fn document_ready_roundtrip() {
    let message = ContentToBrowser::DocumentReady {
        request_id: 9,
        command_count: 31,
    };
    let encoded = encode_content_to_browser(&message);
    assert_eq!(decode_content_to_browser(&encoded).unwrap(), message);
}

#[test]
fn truncated_input_reports_unexpected_eof() {
    assert_eq!(
        decode_browser_to_content(&[]),
        Err(CodecError::UnexpectedEof)
    );
    assert_eq!(
        decode_browser_to_content(&[1, 0, 0]),
        Err(CodecError::UnexpectedEof)
    );
    assert_eq!(
        decode_browser_to_content(&[1, 0, 0, 0]),
        Err(CodecError::UnexpectedEof)
    );
    assert_eq!(
        decode_browser_to_content(&[1, 0, 0, 0, 2, 7]),
        Err(CodecError::UnexpectedEof)
    );
    assert_eq!(
        decode_content_to_browser(&[1, 0, 0, 0, 1, 9, 0, 0, 0, 0, 0, 0, 0]),
        Err(CodecError::UnexpectedEof)
    );
}

#[test]
fn unknown_tag_reports_invalid_tag() {
    assert_eq!(
        decode_browser_to_content(&[1, 0, 0, 0, 9]),
        Err(CodecError::InvalidTag(9))
    );
    assert_eq!(
        decode_content_to_browser(&[1, 0, 0, 0, 250]),
        Err(CodecError::InvalidTag(250))
    );
}

#[test]
fn malformed_utf8_reports_invalid_utf8() {
    // A Log message whose 2-byte payload is not valid UTF-8.
    let bytes = vec![1, 0, 0, 0, 2, 1, 2, 0, 0, 0, 0xff, 0xfe];
    assert_eq!(
        decode_content_to_browser(&bytes),
        Err(CodecError::InvalidUtf8)
    );
}

#[test]
fn transport_queues_preserve_order() {
    let mut transport = InProcessTransport::default();
    transport.send_to_content(&BrowserToContent::Tick { frame_index: 1 });
    transport.send_to_content(&BrowserToContent::Shutdown);
    transport.send_to_browser(&ContentToBrowser::AckShutdown);

    assert_eq!(
        transport.recv_for_content().unwrap().unwrap(),
        BrowserToContent::Tick { frame_index: 1 }
    );
    assert_eq!(
        transport.recv_for_content().unwrap().unwrap(),
        BrowserToContent::Shutdown
    );
    assert!(transport.recv_for_content().is_none());
    assert_eq!(
        transport.recv_for_browser().unwrap().unwrap(),
        ContentToBrowser::AckShutdown
    );
    assert!(transport.recv_for_browser().is_none());
}
