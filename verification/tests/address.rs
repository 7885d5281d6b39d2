use interledger::address::Address;
use interledger::errors::{AddressError, ParseError};

static VALID_ADDRESSES: &'static [&'static [u8]] = &[
    b"test.alice.XYZ.1234.-_~",
    b"g.us-fed.ach.0.acmebank.swx0a0.acmecorp.sales.199.~ipr.cdfa5e16-e759-4ba3-88f6-8b9dc83c1868.2",
    b"g.A",
    b"private.A",
    b"example.A",
    b"peer.A",
    b"self.A",
    b"test.A",
    b"test1.A",
    b"test2.A",
    b"test3.A",
    b"local.A",
];

static INVALID_ADDRESSES: &'static [&'static [u8]] = &[
    b"",
    // Invalid characters.
    b"test.alice 123",
    b"test.alice!123",
    b"test.alice/123",
    b"test.alic\xF0",
    // Bad schemes.
    b"test",        // only a scheme
    b"what.alice",  // invalid scheme
    b"test4.alice", // invalid scheme
    // Invalid separators.
    b"test.",       // only a prefix
    b"test.alice.", // ends in a separator
    b".test.alice", // begins with a separator
    b"test..alice", // double separator
];

fn make_address(length: usize) -> Vec<u8> {
    let mut addr = b"test.".to_vec();
    addr.resize(length, b'_');
    addr
}

#[test]
fn test_try_from() {
    for address in VALID_ADDRESSES {
        let parsed = Address::try_from(address.to_vec());
        assert!(
            parsed.is_ok(),
            "address: {:?}",
            String::from_utf8_lossy(address),
        );
        assert_eq!(
            parsed.unwrap().as_bytes(),
            *address,
            "address: {:?}",
            String::from_utf8_lossy(address),
        );
    }

    let longest_address = &make_address(1023)[..];
    assert_eq!(
        Address::try_from(longest_address.to_vec())
            .unwrap()
            .as_bytes(),
        longest_address,
    );

    for address in INVALID_ADDRESSES {
        assert!(
            Address::try_from(address.to_vec()).is_err(),
            "address: {:?}",
            String::from_utf8_lossy(address),
        );
    }

    let too_long_address = &make_address(1024)[..];
    assert!(Address::try_from(too_long_address.to_vec()).is_err());
}

#[test]
fn test_longest_length_boundary() {
    assert!(Address::try_from(make_address(1023)).is_ok());
    assert_eq!(
        Address::try_from(make_address(1024)),
        Err(ParseError::InvalidAddress(AddressError::InvalidLength(
            1024
        ))),
    );
}

#[test]
fn test_invalid_format_error_kind() {
    assert_eq!(
        Address::try_from(b"what.alice".to_vec()),
        Err(ParseError::InvalidAddress(AddressError::InvalidFormat)),
    );
    assert_eq!(
        Address::try_from(Vec::new()),
        Err(ParseError::InvalidAddress(AddressError::InvalidFormat)),
    );
}

#[test]
fn test_len() {
    assert_eq!(
        Address::from_str("test.alice").unwrap().len(),
        "test.alice".len(),
    );
}

#[test]
fn test_segments() {
    let addr = Address::from_str("test.alice.1234.5789").unwrap();
    let segments = addr.segments();
    let expected: Vec<&[u8]> = vec![b"test", b"alice", b"1234", b"5789"];
    assert_eq!(segments.len(), expected.len());
    for (segment, expected) in segments.iter().zip(expected.iter()) {
        assert_eq!(&segment[..], *expected);
    }
}

#[test]
fn test_eq() {
    let addr1 = Address::from_str("test.alice.1234.5789").unwrap();
    let addr2 = Address::from_str("test.bob").unwrap();
    assert_ne!(addr1, addr2);
    assert_eq!(addr1, addr1);
    assert_eq!(addr2, addr2);
    assert!(addr1 == addr1.clone());
    assert!(addr1 != addr2);
    assert!(addr1.eq(&addr1));
    assert!(addr1.ne(&addr2));
}

#[test]
fn test_with_suffix() {
    assert_eq!(
        Address::from_str("test.alice")
            .unwrap()
            .with_suffix(b"1234")
            .unwrap(),
        Address::from_str("test.alice.1234").unwrap(),
    );
    // invalid suffixes error out
    assert!({
        Address::from_str("test.alice")
            .unwrap()
            .with_suffix(b"12 34")
            .is_err()
    });
    assert!({
        Address::from_str("test.alice")
            .unwrap()
            .with_suffix(b".1234")
            .is_err()
    });
}

#[test]
fn test_display() {
    let addr = Address::from_str("test.alice").unwrap();
    assert_eq!(addr.as_bytes(), b"test.alice");
    assert_eq!(addr.to_bytes(), b"test.alice".to_vec());
}

#[test]
fn test_round_trip_display() {
    for address in VALID_ADDRESSES {
        let parsed = Address::try_from(address.to_vec()).unwrap();
        assert_eq!(parsed.to_bytes(), address.to_vec());
    }
}

#[test]
fn test_ordering_as_map_key() {
    let a = Address::from_str("test.alice").unwrap();
    let b = Address::from_str("test.bob").unwrap();
    let prefix = Address::try_from(b"test.al".to_vec()).unwrap();
    assert!(a < b);
    assert!(prefix < a);
    assert!(a <= a.clone());

    let mut map = std::collections::BTreeMap::new();
    map.insert(b.clone(), 2);
    map.insert(a.clone(), 1);
    let keys: Vec<&Address> = map.keys().collect();
    assert_eq!(keys, vec![&a, &b]);
    assert_eq!(map[&a], 1);
}

#[test]
fn test_error_descriptions() {
    assert_eq!(
        AddressError::InvalidFormat.description(),
        "Invalid address format"
    );
    assert_eq!(
        AddressError::InvalidLength(1024).description(),
        "Invalid address length"
    );
}

#[test]
fn test_eq_bytes() {
    let addr = Address::from_str("test.alice").unwrap();
    assert!(addr.eq_bytes(b"test.alice"));
    assert!(!addr.eq_bytes(b"test.bob"));
}
