//! The settlement endpoint's decision rules: parsing an account id,
//! converting a settled amount between the account's asset scale and the
//! settlement engine's, and the outcome of an incoming settlement or an
//! outgoing engine message.
//!
//! Stores and outgoing services are collaborators supplied by the caller
//! through the traits below; every decision taken here is a function of
//! their answers and is verified for all of them.

use vstd::arithmetic::div_mod::lemma_basic_div;
use vstd::arithmetic::mul::lemma_mul_inequality;
use vstd::prelude::*;
use vstd::slice::slice_index_get;

use crate::packet::{Fulfill, Prepare, PrepareBuilder, Reject};

verus! {

/// How long an engine message stays valid, in milliseconds.
pub const ENGINE_MESSAGE_EXPIRY_MILLIS: u64 = 30000;

/// The body of a settlement notification: the settled amount, in the
/// engine's scale, and that scale.
#[derive(Clone, Copy, Debug, PartialEq, Eq, Structural)]
pub struct SettlementDetails {
    pub amount: u64,
    pub scale: u32,
}

/// What the settlement logic reads of an engine configuration.
pub struct SettlementEngineDetails {
    /// Where the engine's peer endpoint is addressed.
    pub ilp_address: crate::address::Address,
    /// The scale the engine settles in.
    pub asset_scale: u8,
}

/// An account as the settlement endpoint sees it: supplied by the caller's
/// store implementation.
pub trait SettlementAccount {
    fn id(&self) -> u64;

    fn asset_scale(&self) -> u8;

    fn settlement_engine_details(&self) -> Option<SettlementEngineDetails>;
}

/// The caller's account and balance store.
pub trait SettlementStore<A> {
    fn get_account(&self, account_id: u64) -> Option<A>;

    fn update_balance_for_incoming_settlement(&self, account_id: u64, amount: u64) -> bool;
}

/// A request handed to the caller's outgoing service. The from/to accounts
/// and the original amount bypass routing here, so placeholders are
/// acceptable.
pub struct OutgoingRequest<A> {
    pub from: A,
    pub to: A,
    pub original_amount: u64,
    pub prepare: Prepare,
}

/// The caller's outgoing packet service.
pub trait OutgoingService<A> {
    fn send_request(&mut self, request: OutgoingRequest<A>) -> Result<Fulfill, Reject>;
}

/// Ten to the power `e`.
pub open spec fn pow10_spec(e: nat) -> nat
    decreases e,
{
    if e == 0 {
        1
    } else {
        10 * pow10_spec((e - 1) as nat)
    }
}

proof fn lemma_pow10_pos(e: nat)
    ensures
        pow10_spec(e) >= 1,
    decreases e,
{
    if e != 0 {
        lemma_pow10_pos((e - 1) as nat);
    }
}

proof fn lemma_pow10_mono(a: nat, b: nat)
    requires
        a <= b,
    ensures
        pow10_spec(a) <= pow10_spec(b),
    decreases b,
{
    if a < b {
        lemma_pow10_mono(a, (b - 1) as nat);
        lemma_pow10_pos((b - 1) as nat);
    }
}

proof fn lemma_pow10_20()
    ensures
        pow10_spec(18) == 1000000000000000000,
        pow10_spec(19) == 10000000000000000000,
        pow10_spec(20) == 100000000000000000000,
{
    assert(pow10_spec(0) == 1);
    assert(pow10_spec(1) == 10);
    assert(pow10_spec(2) == 100);
    assert(pow10_spec(3) == 1000);
    assert(pow10_spec(4) == 10000);
    assert(pow10_spec(5) == 100000);
    assert(pow10_spec(6) == 1000000);
    assert(pow10_spec(7) == 10000000);
    assert(pow10_spec(8) == 100000000);
    assert(pow10_spec(9) == 1000000000);
    assert(pow10_spec(10) == 10000000000);
    assert(pow10_spec(11) == 100000000000);
    assert(pow10_spec(12) == 1000000000000);
    assert(pow10_spec(13) == 10000000000000);
    assert(pow10_spec(14) == 100000000000000);
    assert(pow10_spec(15) == 1000000000000000);
    assert(pow10_spec(16) == 10000000000000000);
    assert(pow10_spec(17) == 100000000000000000);
    assert(pow10_spec(18) == 1000000000000000000);
    assert(pow10_spec(19) == 10000000000000000000);
    assert(pow10_spec(20) == 100000000000000000000);
}

/// Ten to the power `e`, for exponents whose value fits a u64.
pub fn pow10(e: u32) -> (r: u64)
    requires
        e <= 19,
    ensures
        r == pow10_spec(e as nat),
{
    let mut r: u64 = 1;
    let mut i: u32 = 0;
    while i < e
        invariant
            i <= e,
            e <= 19,
            r == pow10_spec(i as nat),
        decreases e - i,
    {
        proof {
            lemma_pow10_mono(i as nat, 18);
            lemma_pow10_20();
            assert(pow10_spec(18) == 1000000000000000000);
        }
        r = r * 10;
        i = i + 1;
    }
    r
}

/// The settled amount converted from the engine's scale to the account's:
/// scaled up when the account keeps more decimal places, scaled down
/// (dropping the remainder) when it keeps fewer.
pub open spec fn scaled_amount(amount: u64, account_scale: u8, engine_scale: u8) -> int {
    if account_scale >= engine_scale {
        amount * pow10_spec((account_scale - engine_scale) as nat)
    } else {
        amount as int / pow10_spec((engine_scale - account_scale) as nat) as int
    }
}

/// Converts an amount between scales; refuses exactly the amounts whose
/// scaled value does not fit 64 bits.
pub fn scale_amount(amount: u64, account_scale: u8, engine_scale: u8) -> (r: Option<u64>)
    ensures
        r is Some <==> scaled_amount(amount, account_scale, engine_scale) <= u64::MAX,
        r is Some ==> r->0 == scaled_amount(amount, account_scale, engine_scale),
{
    if account_scale >= engine_scale {
        let diff = (account_scale - engine_scale) as u32;
        if diff > 19 {
            if amount == 0 {
                Some(0)
            } else {
                proof {
                    lemma_pow10_mono(20, diff as nat);
                    lemma_pow10_20();
                    lemma_mul_inequality(1, amount as int, pow10_spec(diff as nat) as int);
                }
                None
            }
        } else {
            let p = pow10(diff);
            amount.checked_mul(p)
        }
    } else {
        let diff = (engine_scale - account_scale) as u32;
        if diff > 19 {
            proof {
                lemma_pow10_mono(20, diff as nat);
                lemma_pow10_20();
                lemma_basic_div(amount as int, pow10_spec(diff as nat) as int);
            }
            Some(0)
        } else {
            let p = pow10(diff);
            proof {
                lemma_pow10_pos(diff as nat);
                assert(amount / p <= amount) by (nonlinear_arith)
                    requires
                        p >= 1,
                ;
            }
            Some(amount / p)
        }
    }
}

/// Whether `s` is one or more ASCII decimal digits.
pub open spec fn all_digits(s: Seq<u8>) -> bool {
    s.len() >= 1 && (forall|i: int| 0 <= i < s.len() ==> 48 <= #[trigger] s[i] <= 57)
}

/// The value of an ASCII decimal digit string.
pub open spec fn dec_value(s: Seq<u8>) -> int
    decreases s.len(),
{
    if s.len() == 0 {
        0
    } else {
        dec_value(s.drop_last()) * 10 + (s.last() - 48)
    }
}

proof fn lemma_dec_value_nonneg(s: Seq<u8>)
    requires
        forall|k: int| 0 <= k < s.len() ==> #[trigger] s[k] >= 48,
    ensures
        dec_value(s) >= 0,
    decreases s.len(),
{
    if s.len() > 0 {
        assert forall|k: int| 0 <= k < s.drop_last().len() implies #[trigger] s.drop_last()[k]
            >= 48 by {
            assert(s.drop_last()[k] == s[k]);
        }
        lemma_dec_value_nonneg(s.drop_last());
    }
}

/// Parses an unsigned decimal account id; anything but plain digits, or a
/// value over 64 bits, is rejected.
pub fn parse_account_id(s: &[u8]) -> (r: Option<u64>)
    ensures
        r is Some <==> all_digits(s@) && dec_value(s@) <= u64::MAX,
        r is Some ==> r->0 == dec_value(s@),
{
    let n = s.len();
    if n == 0 {
        return None;
    }
    let mut acc: u64 = 0;
    let mut i: usize = 0;
    while i < n
        invariant
            n == s@.len(),
            i <= n,
            acc == dec_value(s@.subrange(0, i as int)),
            forall|k: int| 0 <= k < i ==> 48 <= #[trigger] s@[k] <= 57,
        decreases n - i,
    {
        let c = *slice_index_get(s, i);
        if c < 48 || c > 57 {
            return None;
        }
        let d = (c - 48) as u64;
        let ghost pre = s@.subrange(0, i as int);
        let ghost ext = s@.subrange(0, i + 1);
        proof {
            assert(ext.drop_last() =~= pre);
            assert(ext.last() == c);
            assert(dec_value(ext) == dec_value(pre) * 10 + d);
        }
        if acc > (u64::MAX - d) / 10 {
            proof {
                if all_digits(s@) {
                    lemma_dec_value_prefix(s@, i + 1);
                }
            }
            return None;
        }
        acc = acc * 10 + d;
        i = i + 1;
    }
    proof {
        assert(s@.subrange(0, n as int) =~= s@);
    }
    Some(acc)
}

/// A digit string's value is never below the value of any of its prefixes.
proof fn lemma_dec_value_prefix(s: Seq<u8>, i: int)
    requires
        0 <= i <= s.len(),
        forall|k: int| 0 <= k < s.len() ==> #[trigger] s[k] >= 48,
    ensures
        dec_value(s) >= dec_value(s.subrange(0, i)),
    decreases s.len() - i,
{
    if i < s.len() {
        lemma_dec_value_prefix(s, i + 1);
        let pre = s.subrange(0, i);
        let ext = s.subrange(0, i + 1);
        assert forall|k: int| 0 <= k < pre.len() implies #[trigger] pre[k] >= 48 by {
            assert(pre[k] == s[k]);
        }
        lemma_dec_value_nonneg(pre);
        assert(ext.drop_last() =~= pre);
        assert(ext.last() == s[i]);
        assert(s[i] >= 48);
        assert(dec_value(ext) == dec_value(pre) * 10 + (ext.last() - 48));
    } else {
        assert(s.subrange(0, i) =~= s);
    }
}

/// The settlement HTTP endpoint, parameterized over the caller's store and
/// outgoing service.
pub struct SettlementApi<S, O, A> {
    pub store: S,
    pub outgoing_handler: O,
    account_type: core::marker::PhantomData<A>,
}

impl<S, O, A> SettlementApi<S, O, A> where
    S: SettlementStore<A>,
    O: OutgoingService<A>,
    A: SettlementAccount + Clone,
 {
    pub fn new(store: S, outgoing_handler: O) -> (r: Self) {
        SettlementApi { store, outgoing_handler, account_type: core::marker::PhantomData }
    }

    /// Handles an incoming settlement notification: the account id must
    /// parse, the account must exist and have an engine configured (404
    /// otherwise), the amount is converted to the account's scale, and a
    /// failed balance update answers 201. An amount whose conversion
    /// overflows answers 500.
    pub fn receive_settlement(&self, account_id: &[u8], body: SettlementDetails) -> (r: Result<
        (),
        u16,
    >)
        ensures
            !(all_digits(account_id@) && dec_value(account_id@) <= u64::MAX) ==> r == Err::<
                (),
                u16,
            >(404u16),
    {
        let amount = body.amount;
        let parsed = match parse_account_id(account_id) {
            Some(id) => id,
            None => {
                return Err(404);
            },
        };
        let account = match self.store.get_account(parsed) {
            Some(a) => a,
            None => {
                return Err(404);
            },
        };
        let engine = match account.settlement_engine_details() {
            Some(d) => d,
            None => {
                return Err(404);
            },
        };
        let scaled = match scale_amount(amount, account.asset_scale(), engine.asset_scale) {
            Some(v) => v,
            None => {
                return Err(500);
            },
        };
        if self.store.update_balance_for_incoming_settlement(account.id(), scaled) {
            Ok(())
        } else {
            Err(201)
        }
    }

    /// Forwards an engine message to the peer's engine: the message rides
    /// as the data of a `Prepare` to the engine's address, tagged with the
    /// peer-protocol condition. A missing account or engine answers 404, a
    /// rejected packet 400; on success the fulfill's payload is handed
    /// back for the caller to interpret.
    pub fn send_outgoing_message(
        &mut self,
        account_id: &[u8],
        body: Vec<u8>,
        now_millis: u64,
    ) -> (r: Result<Vec<u8>, u16>)
        ensures
            !(all_digits(account_id@) && dec_value(account_id@) <= u64::MAX) ==> r == Err::<
                Vec<u8>,
                u16,
            >(404u16),
    {
        let parsed = match parse_account_id(account_id) {
            Some(id) => id,
            None => {
                return Err(404);
            },
        };
        let account = match self.store.get_account(parsed) {
            Some(a) => a,
            None => {
                return Err(404);
            },
        };
        let to_account = account.clone();
        let engine = match account.settlement_engine_details() {
            Some(d) => d,
            None => {
                return Err(404);
            },
        };
        let expires_at = if now_millis <= u64::MAX - ENGINE_MESSAGE_EXPIRY_MILLIS {
            now_millis + ENGINE_MESSAGE_EXPIRY_MILLIS
        } else {
            u64::MAX
        };
        let prepare = PrepareBuilder {
            destination: engine.ilp_address,
            amount: 0,
            execution_condition: crate::ildcp::peer_protocol_condition_bytes(),
            expires_at,
            data: body,
        }.build();
        let request = OutgoingRequest { from: account, to: to_account, original_amount: 0, prepare };
        match self.outgoing_handler.send_request(request) {
            Ok(fulfill) => Ok(vstd::slice::slice_to_vec(fulfill.data())),
            Err(_reject) => Err(400),
        }
    }
}

} // verus!
