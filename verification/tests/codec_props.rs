//! Concrete scenarios: framing edge cases, error taxonomy, length
//! computation, and entry exclusivity.
use multipart::boundary::Boundary;
use multipart::decode;
use multipart::encode;
use multipart::lazy;
use multipart::lazy::PayloadStream;
use multipart::wire::octet_stream;
use multipart::MultipartError;

#[test]
fn text_and_file_round_trip() {
    let mut m = encode::Multipart::new();
    m.write_text(b"a".to_vec(), b"hello".to_vec()).unwrap();
    m.write_stream(
        b"f".to_vec(),
        vec![0x00, 0xFF, 0x10],
        Some(b"x.bin".to_vec()),
        Some(b"application/octet-stream".to_vec()),
    )
    .unwrap();
    m.finish().unwrap();
    let boundary = m.boundary().clone();
    let body = m.into_body();

    let mut d = decode::Multipart::new(body, boundary, None).unwrap();
    let h1 = d.read_entry().unwrap().unwrap();
    assert_eq!(h1.name, b"a".to_vec());
    assert!(h1.filename.is_none());
    assert!(h1.content_type.is_none());
    assert_eq!(h1.content_type_or_default(), octet_stream());
    assert_eq!(d.read_to_end(), b"hello".to_vec());
    let h2 = d.read_entry().unwrap().unwrap();
    assert_eq!(h2.name, b"f".to_vec());
    assert_eq!(h2.filename, Some(b"x.bin".to_vec()));
    assert_eq!(h2.content_type, Some(octet_stream()));
    assert_eq!(d.read_to_end(), vec![0x00, 0xFF, 0x10]);
    assert!(d.read_entry().unwrap().is_none());
}

#[test]
fn length_mismatch_is_fatal_at_construction() {
    let body = vec![b'x'; 80];
    match decode::Multipart::new(body, b"abc123".to_vec(), Some(100)) {
        Err(e) => assert_eq!(e, MultipartError::LengthMismatch),
        Ok(_) => panic!("a declared length of 100 over 80 bytes must be refused"),
    }
}

#[test]
fn abandoned_entry_does_not_truncate_next() {
    let mut m = encode::Multipart::new();
    m.write_text(b"first".to_vec(), b"AAAAAAAAAAAAAAAA".to_vec()).unwrap();
    m.write_text(b"second".to_vec(), b"the second payload".to_vec()).unwrap();
    m.finish().unwrap();
    let boundary = m.boundary().clone();
    let body = m.into_body();

    let mut d = decode::Multipart::new(body, boundary, None).unwrap();
    let h1 = d.read_entry().unwrap().unwrap();
    assert_eq!(h1.name, b"first".to_vec());
    // Abandon the first entry after reading 0 bytes of it.
    let h2 = d.read_entry().unwrap().unwrap();
    assert_eq!(h2.name, b"second".to_vec());
    assert_eq!(d.read_to_end(), b"the second payload".to_vec());
    assert!(d.read_entry().unwrap().is_none());
}

#[test]
fn partially_read_entry_does_not_leak_into_next() {
    let mut m = encode::Multipart::new();
    m.write_text(b"first".to_vec(), b"AAAABBBB".to_vec()).unwrap();
    m.write_text(b"second".to_vec(), b"CCCC".to_vec()).unwrap();
    m.finish().unwrap();
    let boundary = m.boundary().clone();
    let body = m.into_body();

    let mut d = decode::Multipart::new(body, boundary, None).unwrap();
    d.read_entry().unwrap().unwrap();
    assert_eq!(d.read_chunk(3), b"AAA".to_vec());
    // Abandon the rest of the first entry.
    let h2 = d.read_entry().unwrap().unwrap();
    assert_eq!(h2.name, b"second".to_vec());
    assert_eq!(d.read_to_end(), b"CCCC".to_vec());
}

#[test]
fn boundary_lookalike_payload_survives() {
    let b = Boundary::generate();
    let boundary = b.as_bytes().clone();
    let mut lookalike = b"--".to_vec();
    lookalike.extend_from_slice(&boundary);

    let mut m = encode::Multipart::with_boundary(b);
    m.write_stream(b"tricky".to_vec(), lookalike.clone(), None, None).unwrap();
    m.finish().unwrap();
    let body = m.into_body();

    let mut d = decode::Multipart::new(body, boundary, None).unwrap();
    let h = d.read_entry().unwrap().unwrap();
    assert_eq!(h.name, b"tricky".to_vec());
    assert_eq!(d.read_to_end(), lookalike);
    assert!(d.read_entry().unwrap().is_none());
}

#[test]
fn delimiter_found_across_single_byte_reads() {
    let mut m = encode::Multipart::new();
    m.write_text(b"a".to_vec(), b"dash--run--data".to_vec()).unwrap();
    m.write_text(b"b".to_vec(), b"tail".to_vec()).unwrap();
    m.finish().unwrap();
    let boundary = m.boundary().clone();
    let body = m.into_body();

    let mut d = decode::Multipart::new(body, boundary, None).unwrap();
    d.read_entry().unwrap().unwrap();
    let mut collected: Vec<u8> = Vec::new();
    loop {
        let piece = d.read_chunk(1);
        if piece.is_empty() {
            break;
        }
        assert_eq!(piece.len(), 1);
        collected.extend_from_slice(&piece);
    }
    // The reader stops exactly at the delimiter, never past it.
    assert_eq!(collected, b"dash--run--data".to_vec());
    let h2 = d.read_entry().unwrap().unwrap();
    assert_eq!(h2.name, b"b".to_vec());
    assert_eq!(d.read_to_end(), b"tail".to_vec());
}

#[test]
fn content_len_known_iff_every_source_declared_one() {
    let mut all_sized = lazy::Multipart::new();
    all_sized.add_text(b"a".to_vec(), b"one".to_vec()).unwrap();
    all_sized
        .add_stream(b"f".to_vec(), PayloadStream::with_len(b"two".to_vec()), None, None)
        .unwrap();
    let mut prepared = all_sized.prepare().unwrap();
    let n = prepared.content_len().unwrap();
    let body = prepared.read_to_end();
    assert_eq!(n as usize, body.len());

    let mut unsized_field = lazy::Multipart::new();
    unsized_field.add_text(b"a".to_vec(), b"one".to_vec()).unwrap();
    unsized_field
        .add_stream(b"f".to_vec(), PayloadStream::without_len(b"two".to_vec()), None, None)
        .unwrap();
    let prepared = unsized_field.prepare().unwrap();
    assert!(prepared.content_len().is_none());
}

#[test]
fn lazy_emits_fields_in_add_order() {
    let mut m = lazy::Multipart::new();
    m.add_text(b"a".to_vec(), b"1".to_vec()).unwrap();
    m.add_stream(b"f".to_vec(), PayloadStream::with_len(b"2".to_vec()), Some(b"f.bin".to_vec()), None)
        .unwrap();
    m.add_text(b"b".to_vec(), b"3".to_vec()).unwrap();
    let mut prepared = m.prepare().unwrap();
    let boundary = prepared.boundary().clone();
    let body = prepared.read_to_end();

    let mut d = decode::Multipart::new(body, boundary, None).unwrap();
    let mut names: Vec<Vec<u8>> = Vec::new();
    while let Some(h) = d.read_entry().unwrap() {
        names.push(h.name.clone());
    }
    assert_eq!(names, vec![b"a".to_vec(), b"f".to_vec(), b"b".to_vec()]);
}

#[test]
fn add_after_finish_is_invalid_state() {
    let mut m = encode::Multipart::new();
    m.write_text(b"a".to_vec(), b"1".to_vec()).unwrap();
    m.finish().unwrap();
    assert_eq!(m.write_text(b"b".to_vec(), b"2".to_vec()), Err(MultipartError::InvalidState));
    assert_eq!(m.finish(), Err(MultipartError::InvalidState));
}

#[test]
fn add_after_prepare_is_invalid_state() {
    let mut m = lazy::Multipart::new();
    m.add_text(b"a".to_vec(), b"1".to_vec()).unwrap();
    m.prepare().unwrap();
    assert_eq!(m.add_text(b"b".to_vec(), b"2".to_vec()), Err(MultipartError::InvalidState));
    assert_eq!(
        m.add_stream(b"c".to_vec(), PayloadStream::with_len(Vec::new()), None, None),
        Err(MultipartError::InvalidState)
    );
    match m.prepare() {
        Err(e) => assert_eq!(e, MultipartError::InvalidState),
        Ok(_) => panic!("a second prepare must be refused"),
    }
}

#[test]
fn bad_boundary_token_is_not_multipart() {
    match decode::Multipart::new(b"anything".to_vec(), Vec::new(), None) {
        Err(e) => assert_eq!(e, MultipartError::NotMultipart),
        Ok(_) => panic!("an empty boundary token must be refused"),
    }
    match Boundary::from_bytes(b"has spaces".to_vec()) {
        Err(e) => assert_eq!(e, MultipartError::NotMultipart),
        Ok(_) => panic!("a token with spaces must be refused"),
    }
}

#[test]
fn malformed_body_fails_then_invalid_state() {
    // Opens with the boundary but never presents a header block.
    let body = b"--tok123\r\ngarbage without a blank line".to_vec();
    let mut d = decode::Multipart::new(body, b"tok123".to_vec(), None).unwrap();
    assert!(matches!(d.read_entry(), Err(MultipartError::MalformedHeader)));
    assert!(matches!(d.read_entry(), Err(MultipartError::InvalidState)));

    // Does not open with the boundary at all.
    let mut d2 = decode::Multipart::new(b"plain text".to_vec(), b"tok123".to_vec(), None).unwrap();
    assert!(matches!(d2.read_entry(), Err(MultipartError::NotMultipart)));
}

#[test]
fn missing_name_is_malformed() {
    let body = b"--tok123\r\nContent-Type: text/plain\r\n\r\nx\r\n--tok123--\r\n".to_vec();
    let mut d = decode::Multipart::new(body, b"tok123".to_vec(), None).unwrap();
    assert!(matches!(d.read_entry(), Err(MultipartError::MalformedHeader)));
}

#[test]
fn unknown_headers_are_ignored() {
    let body = "--tok123\r\nX-Custom: whatever\r\nContent-Disposition: form-data; name=\"n\"\r\n\r\nv\r\n--tok123--\r\n"
        .as_bytes()
        .to_vec();
    let mut d = decode::Multipart::new(body, b"tok123".to_vec(), None).unwrap();
    let h = d.read_entry().unwrap().unwrap();
    assert_eq!(h.name, b"n".to_vec());
    assert_eq!(d.read_to_end(), b"v".to_vec());
    assert!(d.read_entry().unwrap().is_none());
}

#[test]
fn empty_payload_round_trips() {
    let mut m = encode::Multipart::new();
    m.write_stream(b"empty".to_vec(), Vec::new(), None, None).unwrap();
    m.write_text(b"after".to_vec(), b"x".to_vec()).unwrap();
    m.finish().unwrap();
    let boundary = m.boundary().clone();
    let mut d = decode::Multipart::new(m.into_body(), boundary, None).unwrap();
    let h1 = d.read_entry().unwrap().unwrap();
    assert_eq!(h1.name, b"empty".to_vec());
    assert_eq!(d.read_to_end(), Vec::<u8>::new());
    let h2 = d.read_entry().unwrap().unwrap();
    assert_eq!(h2.name, b"after".to_vec());
    assert_eq!(d.read_to_end(), b"x".to_vec());
    assert!(d.read_entry().unwrap().is_none());
}

#[test]
fn generated_boundaries_are_usable_tokens() {
    let b1 = Boundary::generate().into_bytes();
    let b2 = Boundary::generate().into_bytes();
    assert!(b1.len() >= 24 && b1.len() <= 32);
    for c in &b1 {
        assert!(c.is_ascii_alphanumeric());
    }
    // Two fresh tokens colliding is as good as impossible.
    assert_ne!(b1, b2);
}

#[test]
fn wire_layout_is_bit_exact() {
    let b = Boundary::from_bytes(b"tok123".to_vec()).unwrap();
    let mut m = encode::Multipart::with_boundary(b);
    m.write_text(b"a".to_vec(), b"hi".to_vec()).unwrap();
    m.write_stream(b"f".to_vec(), b"zz".to_vec(), Some(b"n.bin".to_vec()), Some(b"text/plain".to_vec()))
        .unwrap();
    m.finish().unwrap();
    let expected = "--tok123\r\nContent-Disposition: form-data; name=\"a\"\r\n\r\nhi\r\n--tok123\r\nContent-Disposition: form-data; name=\"f\"; filename=\"n.bin\"\r\nContent-Type: text/plain\r\n\r\nzz\r\n--tok123--\r\n";
    assert_eq!(m.body().as_slice(), expected.as_bytes());
}

#[test]
fn prepared_stream_reads_in_bounded_chunks() {
    let mut m = lazy::Multipart::new();
    m.add_text(b"a".to_vec(), b"0123456789".to_vec()).unwrap();
    let mut prepared = m.prepare().unwrap();
    let boundary = prepared.boundary().clone();
    let n = prepared.content_len().unwrap();
    let mut collected: Vec<u8> = Vec::new();
    loop {
        let piece = prepared.read_chunk(7);
        if piece.is_empty() {
            break;
        }
        assert!(piece.len() <= 7);
        collected.extend_from_slice(&piece);
    }
    assert_eq!(collected.len(), n as usize);
    // The chunked walk produced the very body a one-shot read declares.
    let mut d = decode::Multipart::new(collected, boundary, Some(n)).unwrap();
    let h = d.read_entry().unwrap().unwrap();
    assert_eq!(h.name, b"a".to_vec());
    assert_eq!(d.read_to_end(), b"0123456789".to_vec());
    assert!(d.read_entry().unwrap().is_none());
}

#[test]
fn entry_chain_reads_in_bounded_chunks() {
    let mut m = encode::Multipart::new();
    m.write_text(b"a".to_vec(), b"abcdefgh".to_vec()).unwrap();
    m.finish().unwrap();
    let boundary = m.boundary().clone();
    let d = decode::Multipart::new(m.into_body(), boundary, None).unwrap();
    let mut entry = d.into_entry().unwrap().unwrap();
    assert_eq!(entry.read_chunk(3), b"abc".to_vec());
    assert_eq!(entry.read_chunk(100), b"defgh".to_vec());
    assert_eq!(entry.read_chunk(3), Vec::<u8>::new());
    assert!(entry.next_entry().unwrap().is_none());
}
