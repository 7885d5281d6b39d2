use interledger::errors::ParseError;
use interledger::oer::{
    peek_var_octet_string, predict_var_octet_string, put_var_octet_string,
    put_var_octet_string_length, read_var_octet_string, skip_var_octet_string,
};

#[test]
fn predict_matches_documented_prefix_sizes() {
    assert_eq!(predict_var_octet_string(0), 1);
    assert_eq!(predict_var_octet_string(127), 1);
    assert_eq!(predict_var_octet_string(128), 2);
    assert_eq!(predict_var_octet_string(16384), 3);
}

#[test]
fn length_prefix_bytes() {
    let mut buf: Vec<u8> = Vec::new();
    put_var_octet_string_length(&mut buf, 0);
    assert_eq!(buf, vec![0]);

    let mut buf: Vec<u8> = Vec::new();
    put_var_octet_string_length(&mut buf, 127);
    assert_eq!(buf, vec![127]);

    let mut buf: Vec<u8> = Vec::new();
    put_var_octet_string_length(&mut buf, 128);
    assert_eq!(buf, vec![0x81, 128]);

    let mut buf: Vec<u8> = Vec::new();
    put_var_octet_string_length(&mut buf, 16384);
    assert_eq!(buf, vec![0x82, 0x40, 0x00]);

    let mut buf: Vec<u8> = Vec::new();
    put_var_octet_string_length(&mut buf, 65536);
    assert_eq!(buf, vec![0x83, 0x01, 0x00, 0x00]);
    assert_eq!(predict_var_octet_string(65536), 4);
}

#[test]
fn octet_string_round_trip() {
    for &len in &[0usize, 1, 127, 128, 300, 16384] {
        let payload = vec![0xABu8; len];
        let mut buf: Vec<u8> = Vec::new();
        put_var_octet_string(&mut buf, &payload);
        assert_eq!(buf.len(), predict_var_octet_string(len) + len);

        let (content, next) = read_var_octet_string(&buf, 0).unwrap();
        assert_eq!(content, &payload[..]);
        assert_eq!(next, buf.len());

        assert_eq!(peek_var_octet_string(&buf, 0).unwrap(), &payload[..]);
        assert_eq!(skip_var_octet_string(&buf, 0).unwrap(), buf.len());
    }
}

#[test]
fn truncated_octet_string_fails() {
    // Declared length 5, only 3 bytes of content.
    let buf: Vec<u8> = vec![5, 1, 2, 3];
    assert_eq!(read_var_octet_string(&buf, 0).unwrap_err(), ParseError::Io);
    // Empty buffer.
    let buf: Vec<u8> = Vec::new();
    assert_eq!(peek_var_octet_string(&buf, 0).unwrap_err(), ParseError::Io);
    // Long form declaring more length bytes than are present.
    let buf: Vec<u8> = vec![0x82, 0x01];
    assert_eq!(skip_var_octet_string(&buf, 0).unwrap_err(), ParseError::Io);
    // Long form whose declared content exceeds the buffer.
    let buf: Vec<u8> = vec![0x81, 200, 1, 2];
    assert_eq!(read_var_octet_string(&buf, 0).unwrap_err(), ParseError::Io);
}

#[test]
fn parse_at_offset() {
    let mut buf: Vec<u8> = vec![0xFF, 0xFF];
    put_var_octet_string(&mut buf, b"hello");
    let (content, next) = read_var_octet_string(&buf, 2).unwrap();
    assert_eq!(content, b"hello");
    assert_eq!(next, buf.len());
}
