//! The transport-independent packet types: `Prepare` (the request unit),
//! `Fulfill` (the success response) and `Reject` (the failure response).
//!
//! Each packet is built once by a builder that computes the exact buffer
//! size from the codec's length prediction, allocates once, and writes the
//! fields in a fixed order; the packet is immutable thereafter.

use vstd::prelude::*;

use crate::address::Address;
use crate::oer::{predict_var_octet_string, push_bytes, put_var_octet_string, vos_encoding};

verus! {

/// The eight big-endian bytes of a 64-bit value.
pub open spec fn u64_be_bytes(v: u64) -> Seq<u8> {
    seq![
        (v >> 56) as u8,
        (v >> 48) as u8,
        (v >> 40) as u8,
        (v >> 32) as u8,
        (v >> 24) as u8,
        (v >> 16) as u8,
        (v >> 8) as u8,
        v as u8,
    ]
}

/// Appends the big-endian bytes of `v`.
pub fn push_u64_be(buf: &mut Vec<u8>, v: u64)
    ensures
        final(buf)@ == old(buf)@ + u64_be_bytes(v),
{
    buf.push((v >> 56) as u8);
    buf.push((v >> 48) as u8);
    buf.push((v >> 40) as u8);
    buf.push((v >> 32) as u8);
    buf.push((v >> 24) as u8);
    buf.push((v >> 16) as u8);
    buf.push((v >> 8) as u8);
    buf.push(v as u8);
    proof {
        assert(buf@ =~= old(buf)@ + u64_be_bytes(v));
    }
}

/// The wire layout of a `Prepare`: the destination address as a variable
/// octet string, the amount, the 32-byte execution condition, the expiry
/// timestamp in milliseconds, and the data payload as a variable octet
/// string.
pub open spec fn prepare_encoding(
    destination: Seq<u8>,
    amount: u64,
    execution_condition: Seq<u8>,
    expires_at: u64,
    data: Seq<u8>,
) -> Seq<u8> {
    vos_encoding(destination) + u64_be_bytes(amount) + execution_condition + u64_be_bytes(
        expires_at,
    ) + vos_encoding(data)
}

/// The wire layout of a `Fulfill`: the 32-byte fulfillment, then the data
/// payload as a variable octet string.
pub open spec fn fulfill_encoding(fulfillment: Seq<u8>, data: Seq<u8>) -> Seq<u8> {
    fulfillment + vos_encoding(data)
}

/// Saturating addition, used only to pre-size buffers: on any realistic
/// payload the sum is exact.
fn sat_add(a: usize, b: usize) -> (r: usize)
    ensures
        r == if a + b <= usize::MAX {
            a + b
        } else {
            usize::MAX as int
        },
{
    if a <= usize::MAX - b {
        a + b
    } else {
        usize::MAX
    }
}

/// The request unit: destination, amount, execution condition, expiry and
/// an opaque payload, together with its single-allocation wire buffer.
pub struct Prepare {
    destination: Address,
    amount: u64,
    execution_condition: [u8; 32],
    expires_at: u64,
    data: Vec<u8>,
    buffer: Vec<u8>,
}

impl Prepare {
    /// The packet's buffer always carries the exact encoding of its fields.
    #[verifier::type_invariant]
    spec fn wf(self) -> bool {
        self.buffer@ == prepare_encoding(
            self.destination@,
            self.amount,
            self.execution_condition@,
            self.expires_at,
            self.data@,
        )
    }

    pub closed spec fn spec_destination(self) -> Seq<u8> {
        self.destination@
    }

    pub closed spec fn spec_amount(self) -> u64 {
        self.amount
    }

    pub closed spec fn spec_execution_condition(self) -> Seq<u8> {
        self.execution_condition@
    }

    pub closed spec fn spec_expires_at(self) -> u64 {
        self.expires_at
    }

    pub closed spec fn spec_data(self) -> Seq<u8> {
        self.data@
    }

    /// The destination address.
    pub fn destination(&self) -> (r: Address)
        ensures
            r@ == self.spec_destination(),
    {
        self.destination.clone()
    }

    /// The destination address, borrowed as bytes.
    pub fn destination_bytes(&self) -> (r: &[u8])
        ensures
            r@ == self.spec_destination(),
    {
        self.destination.as_bytes()
    }

    /// The amount carried by the packet.
    pub fn amount(&self) -> (r: u64)
        ensures
            r == self.spec_amount(),
    {
        self.amount
    }

    /// The 32-byte execution condition.
    pub fn execution_condition(&self) -> (r: [u8; 32])
        ensures
            r@ == self.spec_execution_condition(),
    {
        self.execution_condition
    }

    /// The absolute expiry, in milliseconds since the Unix epoch.
    pub fn expires_at(&self) -> (r: u64)
        ensures
            r == self.spec_expires_at(),
    {
        self.expires_at
    }

    /// The opaque data payload.
    pub fn data(&self) -> (r: &[u8])
        ensures
            r@ == self.spec_data(),
    {
        self.data.as_slice()
    }

    /// The encoded packet: exactly the wire layout of the fields.
    pub fn as_bytes(&self) -> (r: &[u8])
        ensures
            r@ == prepare_encoding(
                self.spec_destination(),
                self.spec_amount(),
                self.spec_execution_condition(),
                self.spec_expires_at(),
                self.spec_data(),
            ),
    {
        proof {
            use_type_invariant(self);
        }
        self.buffer.as_slice()
    }
}

/// Builds a `Prepare` from owned fields.
pub struct PrepareBuilder {
    pub destination: Address,
    pub amount: u64,
    pub execution_condition: [u8; 32],
    pub expires_at: u64,
    pub data: Vec<u8>,
}

impl PrepareBuilder {
    /// Assembles the packet: one allocation of the exact predicted size,
    /// fields written in the fixed wire order.
    pub fn build(self) -> (r: Prepare)
        ensures
            r.spec_destination() == self.destination@,
            r.spec_amount() == self.amount,
            r.spec_execution_condition() == self.execution_condition@,
            r.spec_expires_at() == self.expires_at,
            r.spec_data() == self.data@,
    {
        let dest_len = self.destination.len();
        let data_len = self.data.len();
        let buf_size = sat_add(
            predict_var_octet_string(dest_len) + dest_len + 8 + 32 + 8,
            sat_add(predict_var_octet_string(data_len), data_len),
        );
        let mut buffer: Vec<u8> = Vec::with_capacity(buf_size);
        put_var_octet_string(&mut buffer, self.destination.as_bytes());
        push_u64_be(&mut buffer, self.amount);
        push_bytes(&mut buffer, self.execution_condition.as_slice());
        push_u64_be(&mut buffer, self.expires_at);
        put_var_octet_string(&mut buffer, self.data.as_slice());
        proof {
            assert(buffer@ =~= prepare_encoding(
                self.destination@,
                self.amount,
                self.execution_condition@,
                self.expires_at,
                self.data@,
            ));
        }
        Prepare {
            destination: self.destination,
            amount: self.amount,
            execution_condition: self.execution_condition,
            expires_at: self.expires_at,
            data: self.data,
            buffer,
        }
    }
}

/// The success response: a 32-byte fulfillment and an opaque payload,
/// together with its wire buffer.
pub struct Fulfill {
    fulfillment: [u8; 32],
    data: Vec<u8>,
    buffer: Vec<u8>,
}

impl Fulfill {
    #[verifier::type_invariant]
    spec fn wf(self) -> bool {
        self.buffer@ == fulfill_encoding(self.fulfillment@, self.data@)
    }

    pub closed spec fn spec_fulfillment(self) -> Seq<u8> {
        self.fulfillment@
    }

    pub closed spec fn spec_data(self) -> Seq<u8> {
        self.data@
    }

    /// The 32-byte fulfillment: the preimage answering a condition.
    pub fn fulfillment(&self) -> (r: [u8; 32])
        ensures
            r@ == self.spec_fulfillment(),
    {
        self.fulfillment
    }

    /// The opaque data payload.
    pub fn data(&self) -> (r: &[u8])
        ensures
            r@ == self.spec_data(),
    {
        self.data.as_slice()
    }

    /// The encoded packet: exactly the wire layout of the fields.
    pub fn as_bytes(&self) -> (r: &[u8])
        ensures
            r@ == fulfill_encoding(self.spec_fulfillment(), self.spec_data()),
    {
        proof {
            use_type_invariant(self);
        }
        self.buffer.as_slice()
    }
}

/// Builds a `Fulfill` from owned fields.
pub struct FulfillBuilder {
    pub fulfillment: [u8; 32],
    pub data: Vec<u8>,
}

impl FulfillBuilder {
    /// Assembles the packet: one allocation of the exact predicted size.
    pub fn build(self) -> (r: Fulfill)
        ensures
            r.spec_fulfillment() == self.fulfillment@,
            r.spec_data() == self.data@,
    {
        let data_len = self.data.len();
        let buf_size = sat_add(32 + predict_var_octet_string(data_len), data_len);
        let mut buffer: Vec<u8> = Vec::with_capacity(buf_size);
        push_bytes(&mut buffer, self.fulfillment.as_slice());
        put_var_octet_string(&mut buffer, self.data.as_slice());
        proof {
            assert(buffer@ =~= fulfill_encoding(self.fulfillment@, self.data@));
        }
        Fulfill { fulfillment: self.fulfillment, data: self.data, buffer }
    }
}

/// The failure response: a three-character error code and a human-readable
/// message.
pub struct Reject {
    pub code: [u8; 3],
    pub message: Vec<u8>,
}

impl Reject {
    /// The error code.
    pub fn code(&self) -> (r: [u8; 3])
        ensures
            r@ == self.code@,
    {
        self.code
    }

    /// The message bytes.
    pub fn message(&self) -> (r: &[u8])
        ensures
            r@ == self.message@,
    {
        self.message.as_slice()
    }
}

} // verus!
