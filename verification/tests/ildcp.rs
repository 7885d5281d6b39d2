use interledger::address::Address;
use interledger::errors::ParseError;
use interledger::ildcp::{
    ildcp_destination_address, is_ildcp_request, IldcpRequest, IldcpResponse,
    IldcpResponseBuilder,
};
use interledger::packet::PrepareBuilder;

fn addr(bytes: &[u8]) -> Address {
    Address::try_from(bytes.to_vec()).unwrap()
}

#[test]
fn ildcp_response_round_trip() {
    let response = IldcpResponseBuilder {
        client_address: addr(b"test.alice"),
        asset_scale: 9,
        asset_code: b"USD".to_vec(),
    }
    .build();
    let parsed = IldcpResponse::try_from(response.into_bytes()).unwrap();
    assert_eq!(parsed.client_address().as_bytes(), b"test.alice");
    assert_eq!(parsed.asset_scale(), 9);
    assert_eq!(parsed.asset_code(), b"USD");
}

#[test]
fn ildcp_response_layout() {
    // "test.alice" is 10 bytes, "USD" is 3: one-byte prefixes throughout.
    let response = IldcpResponseBuilder {
        client_address: addr(b"test.alice"),
        asset_scale: 9,
        asset_code: b"USD".to_vec(),
    }
    .build();
    let mut expected: Vec<u8> = vec![10];
    expected.extend_from_slice(b"test.alice");
    expected.push(9);
    expected.push(3);
    expected.extend_from_slice(b"USD");
    assert_eq!(response.into_bytes(), expected);
}

#[test]
fn ildcp_response_rejects_bad_address() {
    // A well-formed octet string whose content breaks the address grammar.
    let mut buffer: Vec<u8> = vec![10];
    buffer.extend_from_slice(b"what.alice");
    buffer.push(9);
    buffer.push(3);
    buffer.extend_from_slice(b"USD");
    let result = IldcpResponse::try_from(buffer);
    assert!(matches!(result, Err(ParseError::InvalidAddress(_))));
}

#[test]
fn ildcp_response_rejects_truncation() {
    assert_eq!(
        IldcpResponse::try_from(Vec::new()).unwrap_err(),
        ParseError::Io
    );
    // Address field present, scale byte missing.
    let mut buffer: Vec<u8> = vec![10];
    buffer.extend_from_slice(b"test.alice");
    assert_eq!(IldcpResponse::try_from(buffer).unwrap_err(), ParseError::Io);
    // Scale present, asset-code field missing.
    let mut buffer: Vec<u8> = vec![10];
    buffer.extend_from_slice(b"test.alice");
    buffer.push(9);
    assert_eq!(IldcpResponse::try_from(buffer).unwrap_err(), ParseError::Io);
}

#[test]
fn request_is_recognized() {
    let prepare = IldcpRequest::new().to_prepare();
    assert!(is_ildcp_request(&prepare));
    assert_eq!(prepare.destination_bytes(), b"peer.config");
    assert_eq!(prepare.amount(), 0);
    assert_eq!(prepare.data(), b"");
}

#[test]
fn recognition_needs_both_fields() {
    let condition = {
        let prepare = IldcpRequest::new().to_prepare();
        prepare.execution_condition()
    };
    // Same condition, wrong destination.
    let wrong_destination = PrepareBuilder {
        destination: addr(b"peer.router"),
        amount: 0,
        execution_condition: condition,
        expires_at: 0,
        data: Vec::new(),
    }
    .build();
    assert!(!is_ildcp_request(&wrong_destination));
    // Right destination, wrong condition.
    let wrong_condition = PrepareBuilder {
        destination: ildcp_destination_address(),
        amount: 0,
        execution_condition: [7u8; 32],
        expires_at: 0,
        data: Vec::new(),
    }
    .build();
    assert!(!is_ildcp_request(&wrong_condition));
}

#[test]
fn request_expiry_is_sixty_seconds() {
    let prepare = IldcpRequest::new().to_prepare_at(1_000_000);
    assert_eq!(prepare.expires_at(), 1_000_000 + 60_000);
}

#[test]
fn response_to_fulfill() {
    let response = IldcpResponseBuilder {
        client_address: addr(b"test.alice"),
        asset_scale: 9,
        asset_code: b"USD".to_vec(),
    }
    .build();
    let buffer = {
        let copy = IldcpResponseBuilder {
            client_address: addr(b"test.alice"),
            asset_scale: 9,
            asset_code: b"USD".to_vec(),
        }
        .build();
        copy.into_bytes()
    };
    let fulfill = response.to_fulfill();
    assert_eq!(fulfill.fulfillment(), [0u8; 32]);
    assert_eq!(fulfill.data(), &buffer[..]);
}
