use interledger::address::Address;
use interledger::packet::{Fulfill, FulfillBuilder, Reject};
use interledger::settlement::{
    parse_account_id, scale_amount, OutgoingRequest, OutgoingService, SettlementAccount,
    SettlementApi, SettlementDetails, SettlementEngineDetails, SettlementStore,
};

#[derive(Clone)]
struct TestAccount {
    id: u64,
    asset_scale: u8,
    has_engine: bool,
    engine_scale: u8,
}

impl SettlementAccount for TestAccount {
    fn id(&self) -> u64 {
        self.id
    }

    fn asset_scale(&self) -> u8 {
        self.asset_scale
    }

    fn settlement_engine_details(&self) -> Option<SettlementEngineDetails> {
        if self.has_engine {
            Some(SettlementEngineDetails {
                ilp_address: Address::try_from(b"example.engine".to_vec()).unwrap(),
                asset_scale: self.engine_scale,
            })
        } else {
            None
        }
    }
}

struct TestStore {
    accounts: Vec<TestAccount>,
    should_fail: bool,
}

impl SettlementStore<TestAccount> for TestStore {
    fn get_account(&self, account_id: u64) -> Option<TestAccount> {
        self.accounts.iter().find(|a| a.id == account_id).cloned()
    }

    fn update_balance_for_incoming_settlement(&self, _account_id: u64, _amount: u64) -> bool {
        !self.should_fail
    }
}

struct TestOutgoing {
    reject: bool,
}

impl OutgoingService<TestAccount> for TestOutgoing {
    fn send_request(&mut self, request: OutgoingRequest<TestAccount>) -> Result<Fulfill, Reject> {
        if self.reject {
            Err(Reject {
                code: *b"F02",
                message: b"refused".to_vec(),
            })
        } else {
            Ok(FulfillBuilder {
                fulfillment: [0u8; 32],
                data: request.prepare.data().to_vec(),
            }
            .build())
        }
    }
}

fn test_store(should_fail: bool, has_engine: bool) -> TestStore {
    TestStore {
        accounts: vec![TestAccount {
            id: 0,
            asset_scale: 9,
            has_engine,
            engine_scale: 9,
        }],
        should_fail,
    }
}

fn test_api(store: TestStore) -> SettlementApi<TestStore, TestOutgoing, TestAccount> {
    SettlementApi::new(store, TestOutgoing { reject: false })
}

const SETTLEMENT_BODY: SettlementDetails = SettlementDetails {
    amount: 200,
    scale: 9,
};

#[test]
fn settlement_ok() {
    let id = b"0";
    let store = test_store(false, true);
    let api = test_api(store);

    let ret = api.receive_settlement(id, SETTLEMENT_BODY.clone());
    assert!(ret.is_ok());
}

#[test]
fn account_has_no_engine_configured() {
    let id = b"0";
    let store = test_store(false, false);
    let api = test_api(store);

    let ret = api.receive_settlement(id, SETTLEMENT_BODY.clone()).unwrap_err();
    assert_eq!(ret, 404);
}

#[test]
fn engine_rejects() {
    let id = b"0";
    let store = test_store(true, true);
    let api = test_api(store);

    let ret = api.receive_settlement(id, SETTLEMENT_BODY.clone()).unwrap_err();
    assert_eq!(ret, 201);
}

#[test]
fn invalid_account_id() {
    let id = b"-1";
    let store = test_store(false, true);
    let api = test_api(store);

    let ret = api.receive_settlement(id, SETTLEMENT_BODY.clone()).unwrap_err();
    assert_eq!(ret, 404);
}

#[test]
fn account_not_in_store() {
    let id = b"0";
    let store = TestStore {
        accounts: Vec::new(),
        should_fail: false,
    };
    let api = test_api(store);

    let ret = api.receive_settlement(id, SETTLEMENT_BODY.clone()).unwrap_err();
    assert_eq!(ret, 404);
}

#[test]
fn send_outgoing_message_round_trip() {
    let store = test_store(false, true);
    let mut api = test_api(store);

    let ret = api.send_outgoing_message(b"0", b"engine message".to_vec(), 0);
    assert_eq!(ret.unwrap(), b"engine message".to_vec());
}

#[test]
fn send_outgoing_message_rejected() {
    let store = test_store(false, true);
    let mut api = SettlementApi::new(store, TestOutgoing { reject: true });

    let ret = api.send_outgoing_message(b"0", Vec::new(), 0);
    assert_eq!(ret.unwrap_err(), 400);
}

#[test]
fn send_outgoing_message_unknown_account() {
    let store = TestStore {
        accounts: Vec::new(),
        should_fail: false,
    };
    let mut api = test_api(store);

    let ret = api.send_outgoing_message(b"7", Vec::new(), 0);
    assert_eq!(ret.unwrap_err(), 404);
}

#[test]
fn scale_amount_exact_values() {
    // Scaling up: engine scale 6, account scale 9 -> a thousandfold.
    assert_eq!(scale_amount(100, 9, 6), Some(100_000));
    // Scaling down drops the remainder.
    assert_eq!(scale_amount(1_999, 6, 9), Some(1));
    assert_eq!(scale_amount(999, 6, 9), Some(0));
    // Equal scales change nothing.
    assert_eq!(scale_amount(42, 9, 9), Some(42));
    // Overflow is refused.
    assert_eq!(scale_amount(u64::MAX, 9, 6), None);
    assert_eq!(scale_amount(1, 255, 0), None);
    assert_eq!(scale_amount(0, 255, 0), Some(0));
    // A huge downward scale truncates everything away.
    assert_eq!(scale_amount(u64::MAX, 0, 255), Some(0));
}

#[test]
fn parse_account_id_values() {
    assert_eq!(parse_account_id(b"0"), Some(0));
    assert_eq!(parse_account_id(b"184"), Some(184));
    assert_eq!(parse_account_id(b"18446744073709551615"), Some(u64::MAX));
    assert_eq!(parse_account_id(b"18446744073709551616"), None);
    assert_eq!(parse_account_id(b"-1"), None);
    assert_eq!(parse_account_id(b""), None);
    assert_eq!(parse_account_id(b"12a"), None);
}
