use interledger::address::Address;
use interledger::packet::{FulfillBuilder, PrepareBuilder, Reject};

fn addr(bytes: &[u8]) -> Address {
    Address::try_from(bytes.to_vec()).unwrap()
}

#[test]
fn prepare_fields_and_wire_layout() {
    let prepare = PrepareBuilder {
        destination: addr(b"test.alice"),
        amount: 5,
        execution_condition: [1u8; 32],
        expires_at: 256,
        data: vec![9, 9],
    }
    .build();
    assert_eq!(prepare.destination().as_bytes(), b"test.alice");
    assert_eq!(prepare.amount(), 5);
    assert_eq!(prepare.execution_condition(), [1u8; 32]);
    assert_eq!(prepare.expires_at(), 256);
    assert_eq!(prepare.data(), &[9, 9]);

    let mut expected: Vec<u8> = vec![10];
    expected.extend_from_slice(b"test.alice");
    expected.extend_from_slice(&[0, 0, 0, 0, 0, 0, 0, 5]);
    expected.extend_from_slice(&[1u8; 32]);
    expected.extend_from_slice(&[0, 0, 0, 0, 0, 0, 1, 0]);
    expected.extend_from_slice(&[2, 9, 9]);
    assert_eq!(prepare.as_bytes(), &expected[..]);
}

#[test]
fn fulfill_fields_and_wire_layout() {
    let fulfill = FulfillBuilder {
        fulfillment: [3u8; 32],
        data: vec![7],
    }
    .build();
    assert_eq!(fulfill.fulfillment(), [3u8; 32]);
    assert_eq!(fulfill.data(), &[7]);

    let mut expected: Vec<u8> = Vec::new();
    expected.extend_from_slice(&[3u8; 32]);
    expected.extend_from_slice(&[1, 7]);
    assert_eq!(fulfill.as_bytes(), &expected[..]);
}

#[test]
fn reject_accessors() {
    let reject = Reject {
        code: *b"F02",
        message: b"unreachable".to_vec(),
    };
    assert_eq!(reject.code(), *b"F02");
    assert_eq!(reject.message(), b"unreachable");
}
