//! The peer-configuration protocol: a request/response exchange by which a
//! node learns its own address, asset code and asset scale from a directly
//! connected peer.
//!
//! A `Prepare` is recognized as a configuration request exactly when its
//! destination is the reserved address `peer.config` and its execution
//! condition equals a fixed, public 32-byte constant. The matching reply is
//! a `Fulfill` whose fulfillment is 32 zero bytes and whose payload is the
//! encoded configuration response.

use vstd::pervasive::unreached;
use vstd::prelude::*;
use vstd::slice::{slice_index_get, slice_to_vec};

use crate::address::{is_valid_address, Address, MAX_ADDRESS_LENGTH};
use crate::errors::{AddressError, ParseError};
use crate::oer::{
    predict_var_octet_string, put_var_octet_string, read_var_octet_string, skip_var_octet_string,
    peek_var_octet_string, vos_content, vos_encoding, vos_end, vos_parse,
    lemma_vos_parse_encoding,
};
use crate::packet::{Fulfill, FulfillBuilder, Prepare, PrepareBuilder};

verus! {

/// How long a configuration request stays valid, in milliseconds.
pub const PEER_PROTOCOL_EXPIRY_MILLIS: u64 = 60000;

/// The fulfillment answering a configuration request: 32 zero bytes.
pub open spec fn peer_protocol_fulfillment() -> Seq<u8> {
    Seq::new(32, |i: int| 0u8)
}

/// The fixed execution condition tagging a configuration request: the
/// SHA-256 hash of the all-zero 32-byte fulfillment, published by the
/// protocol.
pub open spec fn peer_protocol_condition() -> Seq<u8> {
    seq![
        102u8,
        104,
        122,
        173,
        248,
        98,
        189,
        119,
        108,
        143,
        193,
        139,
        142,
        159,
        142,
        32,
        8,
        151,
        20,
        133,
        110,
        226,
        51,
        179,
        144,
        42,
        89,
        29,
        13,
        95,
        41,
        37,
    ]
}

/// The reserved destination of a configuration request: `peer.config`.
pub open spec fn ildcp_destination() -> Seq<u8> {
    seq![112u8, 101, 101, 114, 46, 99, 111, 110, 102, 105, 103]
}

/// The all-zero fulfillment as bytes.
pub fn peer_protocol_fulfillment_bytes() -> (r: [u8; 32])
    ensures
        r@ == peer_protocol_fulfillment(),
{
    let r: [u8; 32] = [0u8; 32];
    proof {
        assert(r@ =~= peer_protocol_fulfillment());
    }
    r
}

/// The fixed execution condition as bytes.
pub fn peer_protocol_condition_bytes() -> (r: [u8; 32])
    ensures
        r@ == peer_protocol_condition(),
{
    let r: [u8; 32] = [
        102, 104, 122, 173, 248, 98, 189, 119, 108, 143, 193, 139, 142, 159, 142, 32, 8, 151, 20,
        133, 110, 226, 51, 179, 144, 42, 89, 29, 13, 95, 41, 37,
    ];
    proof {
        assert(r@ =~= peer_protocol_condition());
    }
    r
}

/// The reserved destination satisfies the address grammar.
pub proof fn lemma_ildcp_destination_valid()
    ensures
        is_valid_address(ildcp_destination()),
{
    let s = ildcp_destination();
    assert(s.subrange(0, 0) =~= Seq::<u8>::empty());
    assert(crate::address::dot_split(s.subrange(0, 0)) =~= seq![Seq::<u8>::empty()]);
    assert(s.subrange(0, 1).drop_last() =~= s.subrange(0, 0));
    assert(s.subrange(0, 1).last() == 112);
    assert(crate::address::dot_split(s.subrange(0, 1)) =~~= seq![seq![112u8]]);
    assert(s.subrange(0, 2).drop_last() =~= s.subrange(0, 1));
    assert(s.subrange(0, 2).last() == 101);
    assert(crate::address::dot_split(s.subrange(0, 2)) =~~= seq![seq![112u8, 101]]);
    assert(s.subrange(0, 3).drop_last() =~= s.subrange(0, 2));
    assert(s.subrange(0, 3).last() == 101);
    assert(crate::address::dot_split(s.subrange(0, 3)) =~~= seq![seq![112u8, 101, 101]]);
    assert(s.subrange(0, 4).drop_last() =~= s.subrange(0, 3));
    assert(s.subrange(0, 4).last() == 114);
    assert(crate::address::dot_split(s.subrange(0, 4)) =~~= seq![seq![112u8, 101, 101, 114]]);
    assert(s.subrange(0, 5).drop_last() =~= s.subrange(0, 4));
    assert(s.subrange(0, 5).last() == 46);
    assert(crate::address::dot_split(s.subrange(0, 5)) =~~= seq![
        seq![112u8, 101, 101, 114],
        Seq::<u8>::empty(),
    ]);
    assert(s.subrange(0, 6).drop_last() =~= s.subrange(0, 5));
    assert(s.subrange(0, 6).last() == 99);
    assert(crate::address::dot_split(s.subrange(0, 6)) =~~= seq![
        seq![112u8, 101, 101, 114],
        seq![99u8],
    ]);
    assert(s.subrange(0, 7).drop_last() =~= s.subrange(0, 6));
    assert(s.subrange(0, 7).last() == 111);
    assert(crate::address::dot_split(s.subrange(0, 7)) =~~= seq![
        seq![112u8, 101, 101, 114],
        seq![99u8, 111],
    ]);
    assert(s.subrange(0, 8).drop_last() =~= s.subrange(0, 7));
    assert(s.subrange(0, 8).last() == 110);
    assert(crate::address::dot_split(s.subrange(0, 8)) =~~= seq![
        seq![112u8, 101, 101, 114],
        seq![99u8, 111, 110],
    ]);
    assert(s.subrange(0, 9).drop_last() =~= s.subrange(0, 8));
    assert(s.subrange(0, 9).last() == 102);
    assert(crate::address::dot_split(s.subrange(0, 9)) =~~= seq![
        seq![112u8, 101, 101, 114],
        seq![99u8, 111, 110, 102],
    ]);
    assert(s.subrange(0, 10).drop_last() =~= s.subrange(0, 9));
    assert(s.subrange(0, 10).last() == 105);
    assert(crate::address::dot_split(s.subrange(0, 10)) =~~= seq![
        seq![112u8, 101, 101, 114],
        seq![99u8, 111, 110, 102, 105],
    ]);
    assert(s.subrange(0, 11).drop_last() =~= s.subrange(0, 10));
    assert(s.subrange(0, 11).last() == 103);
    assert(crate::address::dot_split(s.subrange(0, 11)) =~~= seq![
        seq![112u8, 101, 101, 114],
        seq![99u8, 111, 110, 102, 105, 103],
    ]);
    assert(s.subrange(0, 11) =~= s);
    let parts = crate::address::dot_split(s);
    assert(crate::address::is_scheme(parts[0]));
    assert(crate::address::is_segment(parts[1])) by {
        let seg = seq![99u8, 111, 110, 102, 105, 103];
        assert forall|i: int| 0 <= i < seg.len() implies crate::address::is_seg_char(
            #[trigger] seg[i],
        ) by {
            if i == 0 {
                assert(seg[0] == 99);
            } else if i == 1 {
                assert(seg[1] == 111);
            } else if i == 2 {
                assert(seg[2] == 110);
            } else if i == 3 {
                assert(seg[3] == 102);
            } else if i == 4 {
                assert(seg[4] == 105);
            } else {
                assert(seg[5] == 103);
            }
        }
    }
    assert forall|i: int| 1 <= i < parts.len() implies crate::address::is_segment(
        #[trigger] parts[i],
    ) by {
        assert(i == 1);
    }
}

/// The reserved destination as an `Address` value.
pub fn ildcp_destination_address() -> (r: Address)
    ensures
        r@ == ildcp_destination(),
{
    let v: Vec<u8> = vec![112u8, 101, 101, 114, 46, 99, 111, 110, 102, 105, 103];
    proof {
        assert(v@ =~= ildcp_destination());
        lemma_ildcp_destination_valid();
    }
    Address::new_unchecked(v)
}

/// Relies on std::time::SystemTime::now for the wall-clock time, reduced
/// to milliseconds since the Unix epoch; nothing is promised of the value.
#[verifier::external_body]
fn now_unix_millis() -> (r: u64) {
    match std::time::SystemTime::now().duration_since(std::time::UNIX_EPOCH) {
        Ok(elapsed) => elapsed.as_millis() as u64,
        Err(_) => 0,
    }
}

/// Whether `prepare` is a peer-configuration request: its condition is the
/// fixed constant and its destination the reserved address — both must
/// match.
pub fn is_ildcp_request(prepare: &Prepare) -> (r: bool)
    ensures
        r == (prepare.spec_execution_condition() == peer_protocol_condition()
            && prepare.spec_destination() == ildcp_destination()),
{
    let cond = prepare.execution_condition();
    let expected_cond = peer_protocol_condition_bytes();
    let dest_expected: Vec<u8> = vec![112u8, 101, 101, 114, 46, 99, 111, 110, 102, 105, 103];
    proof {
        assert(dest_expected@ =~= ildcp_destination());
    }
    crate::address::bytes_eq(cond.as_slice(), expected_cond.as_slice())
        && crate::address::bytes_eq(prepare.destination_bytes(), dest_expected.as_slice())
}

/// A peer-configuration request. It carries no fields: all of its content
/// is fixed by the protocol.
#[derive(Debug, Default)]
pub struct IldcpRequest {}

impl IldcpRequest {
    pub fn new() -> (r: Self)
        ensures
            r == (IldcpRequest {  }),
    {
        IldcpRequest {  }
    }

    /// The request as a `Prepare` expiring at the given time: destination
    /// `peer.config`, zero amount, the fixed condition, no payload.
    pub fn to_prepare_at(&self, now_millis: u64) -> (r: Prepare)
        ensures
            r.spec_destination() == ildcp_destination(),
            r.spec_amount() == 0,
            r.spec_execution_condition() == peer_protocol_condition(),
            r.spec_data() == Seq::<u8>::empty(),
            r.spec_expires_at() == if now_millis + PEER_PROTOCOL_EXPIRY_MILLIS <= u64::MAX {
                now_millis + PEER_PROTOCOL_EXPIRY_MILLIS
            } else {
                u64::MAX as int
            },
    {
        let expires_at = if now_millis <= u64::MAX - PEER_PROTOCOL_EXPIRY_MILLIS {
            now_millis + PEER_PROTOCOL_EXPIRY_MILLIS
        } else {
            u64::MAX
        };
        let data: Vec<u8> = Vec::new();
        PrepareBuilder {
            destination: ildcp_destination_address(),
            amount: 0,
            execution_condition: peer_protocol_condition_bytes(),
            expires_at,
            data,
        }.build()
    }

    /// The request as a `Prepare` expiring a fixed duration from now; the
    /// clock decides the exact expiry.
    pub fn to_prepare(&self) -> (r: Prepare)
        ensures
            r.spec_destination() == ildcp_destination(),
            r.spec_amount() == 0,
            r.spec_execution_condition() == peer_protocol_condition(),
            r.spec_data() == Seq::<u8>::empty(),
    {
        let now_millis = now_unix_millis();
        self.to_prepare_at(now_millis)
    }
}

/// Whether `buf` parses as a configuration response: an address field that
/// satisfies the grammar, one scale byte, and a well-formed asset-code
/// field.
pub open spec fn ildcp_ok(buf: Seq<u8>) -> bool {
    &&& vos_parse(buf, 0) is Some
    &&& is_valid_address(vos_content(buf, 0))
    &&& vos_end(buf, 0) < buf.len()
    &&& vos_parse(buf, vos_end(buf, 0) + 1) is Some
}

/// The client address carried by a response buffer.
pub open spec fn ildcp_addr(buf: Seq<u8>) -> Seq<u8> {
    vos_content(buf, 0)
}

/// The asset scale carried by a response buffer.
pub open spec fn ildcp_scale(buf: Seq<u8>) -> u8 {
    buf[vos_end(buf, 0)]
}

/// The asset code carried by a response buffer.
pub open spec fn ildcp_code(buf: Seq<u8>) -> Seq<u8> {
    vos_content(buf, vos_end(buf, 0) + 1)
}

/// The wire layout of a configuration response: the client address as a
/// variable octet string, one byte of asset scale, then the asset code as
/// a variable octet string.
pub open spec fn ildcp_response_bytes(addr: Seq<u8>, scale: u8, code: Seq<u8>) -> Seq<u8> {
    vos_encoding(addr) + seq![scale] + vos_encoding(code)
}

/// Round trip: a buffer built from a valid address, a scale and an asset
/// code parses back to exactly those three fields.
pub proof fn lemma_ildcp_response_round_trip(addr: Seq<u8>, scale: u8, code: Seq<u8>)
    requires
        is_valid_address(addr),
        code.len() <= usize::MAX,
    ensures
        ildcp_ok(ildcp_response_bytes(addr, scale, code)),
        ildcp_addr(ildcp_response_bytes(addr, scale, code)) == addr,
        ildcp_scale(ildcp_response_bytes(addr, scale, code)) == scale,
        ildcp_code(ildcp_response_bytes(addr, scale, code)) == code,
        vos_end(ildcp_response_bytes(addr, scale, code), 0) == vos_encoding(addr).len(),
{
    let buf = ildcp_response_bytes(addr, scale, code);
    let ea = vos_encoding(addr);
    let ec = vos_encoding(code);
    assert(buf.subrange(0, ea.len() as int) =~= ea);
    lemma_vos_parse_encoding(buf, 0, addr);
    assert(vos_end(buf, 0) == ea.len());
    assert(vos_content(buf, 0) =~= addr);
    assert(buf[ea.len() as int] == scale);
    let p = ea.len() as int + 1;
    assert(buf.subrange(p, p + ec.len()) =~= ec);
    lemma_vos_parse_encoding(buf, p, code);
    assert(vos_content(buf, p) =~= code);
}

/// A parsed (or built) configuration response. The encoded buffer is
/// retained whole; the asset code is exposed as a slice of it on demand,
/// located by a recorded byte offset.
#[derive(Debug)]
pub struct IldcpResponse {
    buffer: Vec<u8>,
    asset_scale: u8,
    asset_code_offset: usize,
    ilp_address: Address,
}

impl IldcpResponse {
    #[verifier::type_invariant]
    spec fn wf(self) -> bool {
        &&& ildcp_ok(self.buffer@)
        &&& self.ilp_address@ == ildcp_addr(self.buffer@)
        &&& self.asset_scale == ildcp_scale(self.buffer@)
        &&& self.asset_code_offset == vos_end(self.buffer@, 0) + 1
    }

    pub closed spec fn spec_buffer(self) -> Seq<u8> {
        self.buffer@
    }

    pub closed spec fn spec_client_address(self) -> Seq<u8> {
        self.ilp_address@
    }

    pub closed spec fn spec_asset_scale(self) -> u8 {
        self.asset_scale
    }

    pub closed spec fn spec_asset_code(self) -> Seq<u8> {
        ildcp_code(self.buffer@)
    }

    /// Parses a response buffer: the address field (validated against the
    /// grammar — a malformed address is a hard failure), the scale byte,
    /// and the asset-code field, whose offset is recorded without copying
    /// it. Trailing bytes after the asset code are tolerated.
    pub fn try_from(buffer: Vec<u8>) -> (r: Result<IldcpResponse, ParseError>)
        ensures
            match r {
                Ok(resp) => {
                    &&& ildcp_ok(buffer@)
                    &&& resp.spec_buffer() == buffer@
                    &&& resp.spec_client_address() == ildcp_addr(buffer@)
                    &&& resp.spec_asset_scale() == ildcp_scale(buffer@)
                    &&& resp.spec_asset_code() == ildcp_code(buffer@)
                },
                Err(e) => {
                    &&& !ildcp_ok(buffer@)
                    &&& (vos_parse(buffer@, 0) is None ==> e == ParseError::Io)
                    &&& (vos_parse(buffer@, 0) is Some && !is_valid_address(ildcp_addr(buffer@))
                        ==> e == if ildcp_addr(buffer@).len() > MAX_ADDRESS_LENGTH {
                        ParseError::InvalidAddress(
                            AddressError::InvalidLength(ildcp_addr(buffer@).len() as usize),
                        )
                    } else {
                        ParseError::InvalidAddress(AddressError::InvalidFormat)
                    })
                    &&& (vos_parse(buffer@, 0) is Some && is_valid_address(ildcp_addr(buffer@))
                        && !(vos_end(buffer@, 0) < buffer@.len()) ==> e == ParseError::Io)
                    &&& (vos_parse(buffer@, 0) is Some && is_valid_address(ildcp_addr(buffer@))
                        && vos_end(buffer@, 0) < buffer@.len() && vos_parse(
                        buffer@,
                        vos_end(buffer@, 0) + 1,
                    ) is None ==> e == ParseError::Io)
                },
            },
    {
        let s = buffer.as_slice();
        let blen = s.len();
        let (addr_slice, next) = match read_var_octet_string(s, 0) {
            Ok(x) => x,
            Err(e) => {
                return Err(e);
            },
        };
        let ilp_address = match Address::try_from(slice_to_vec(addr_slice)) {
            Ok(a) => a,
            Err(e) => {
                return Err(e);
            },
        };
        if next >= blen {
            return Err(ParseError::Io);
        }
        let asset_scale = *slice_index_get(s, next);
        let asset_code_offset = next + 1;
        match skip_var_octet_string(s, asset_code_offset) {
            Ok(_) => {},
            Err(e) => {
                return Err(e);
            },
        }
        Ok(IldcpResponse { buffer, asset_scale, asset_code_offset, ilp_address })
    }

    /// The client address of the response.
    pub fn client_address(&self) -> (r: Address)
        ensures
            r@ == self.spec_client_address(),
    {
        self.ilp_address.clone()
    }

    /// The asset scale: how many decimal places the peer accounts with.
    pub fn asset_scale(&self) -> (r: u8)
        ensures
            r == self.spec_asset_scale(),
    {
        self.asset_scale
    }

    /// The asset code, as a zero-copy slice of the retained buffer.
    pub fn asset_code(&self) -> (r: &[u8])
        ensures
            r@ == self.spec_asset_code(),
    {
        proof {
            use_type_invariant(self);
        }
        match peek_var_octet_string(self.buffer.as_slice(), self.asset_code_offset) {
            Ok(code) => code,
            Err(_) => unreached(),
        }
    }

    /// The whole encoded response buffer.
    pub fn into_bytes(self) -> (r: Vec<u8>)
        ensures
            r@ == self.spec_buffer(),
    {
        let IldcpResponse { buffer, .. } = self;
        buffer
    }

    /// The response as the matching reply packet: a `Fulfill` carrying the
    /// all-zero fulfillment and the encoded response as payload.
    pub fn to_fulfill(&self) -> (r: Fulfill)
        ensures
            r.spec_fulfillment() == peer_protocol_fulfillment(),
            r.spec_data() == self.spec_buffer(),
    {
        FulfillBuilder {
            fulfillment: peer_protocol_fulfillment_bytes(),
            data: slice_to_vec(self.buffer.as_slice()),
        }.build()
    }
}

impl Clone for IldcpResponse {
    /// A clone carries the same buffer and parsed fields.
    fn clone(&self) -> (r: Self)
        ensures
            r.spec_buffer() == self.spec_buffer(),
            r.spec_client_address() == self.spec_client_address(),
            r.spec_asset_scale() == self.spec_asset_scale(),
            r.spec_asset_code() == self.spec_asset_code(),
    {
        proof {
            use_type_invariant(self);
        }
        IldcpResponse {
            buffer: slice_to_vec(self.buffer.as_slice()),
            asset_scale: self.asset_scale,
            asset_code_offset: self.asset_code_offset,
            ilp_address: self.ilp_address.clone(),
        }
    }
}

impl PartialEq for IldcpResponse {
    /// Responses compare by their encoded buffers; every parsed field is
    /// determined by the buffer.
    fn eq(&self, other: &IldcpResponse) -> (r: bool) {
        crate::address::bytes_eq(self.buffer.as_slice(), other.buffer.as_slice())
    }
}

impl vstd::std_specs::cmp::PartialEqSpecImpl for IldcpResponse {
    open spec fn obeys_eq_spec() -> bool {
        true
    }

    open spec fn eq_spec(&self, other: &IldcpResponse) -> bool {
        self.spec_buffer() == other.spec_buffer()
    }
}

/// Builds a configuration response from a client address, an asset scale
/// and an asset code.
#[derive(Debug)]
pub struct IldcpResponseBuilder {
    pub client_address: Address,
    pub asset_scale: u8,
    pub asset_code: Vec<u8>,
}

impl IldcpResponseBuilder {
    /// Serializes the three fields into one buffer of the exact predicted
    /// size and records the asset-code offset.
    pub fn build(&self) -> (r: IldcpResponse)
        ensures
            r.spec_buffer() == ildcp_response_bytes(
                self.client_address@,
                self.asset_scale,
                self.asset_code@,
            ),
            r.spec_client_address() == self.client_address@,
            r.spec_asset_scale() == self.asset_scale,
            r.spec_asset_code() == self.asset_code@,
    {
        let addr_len = self.client_address.len();
        let code_len = self.asset_code.len();
        let address_size = predict_var_octet_string(addr_len) + addr_len;
        let buf_size = if code_len <= usize::MAX - 16 - address_size {
            1 + address_size + predict_var_octet_string(code_len) + code_len
        } else {
            usize::MAX
        };
        let mut buffer: Vec<u8> = Vec::with_capacity(buf_size);
        put_var_octet_string(&mut buffer, self.client_address.as_bytes());
        buffer.push(self.asset_scale);
        put_var_octet_string(&mut buffer, self.asset_code.as_slice());
        proof {
            use_type_invariant(&self.client_address);
            assert(buffer@ =~= ildcp_response_bytes(
                self.client_address@,
                self.asset_scale,
                self.asset_code@,
            ));
            lemma_ildcp_response_round_trip(
                self.client_address@,
                self.asset_scale,
                self.asset_code@,
            );
        }
        IldcpResponse {
            buffer,
            asset_scale: self.asset_scale,
            asset_code_offset: address_size + 1,
            ilp_address: self.client_address.clone(),
        }
    }
}

} // verus!
