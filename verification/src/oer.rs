//! Variable-length octet strings: length-prefixed byte strings whose length
//! prefix is itself variably sized. Lengths below 128 are encoded as a single
//! byte equal to the length; larger lengths are encoded as a lead byte with
//! the high bit set carrying the count of following big-endian length bytes.
//!
//! The reading side works over a cursor position into an immutable buffer and
//! offers the three access styles the protocol needs: consume-and-return,
//! peek-without-advancing, and skip.

use vstd::prelude::*;
use vstd::arithmetic::mul::lemma_mul_inequality;
use vstd::arithmetic::power::{pow, lemma_pow_positive};
use vstd::slice::{slice_index_get, slice_subrange};

use crate::errors::ParseError;

verus! {

/// The big-endian bytes of `n`, with no leading zero byte; empty for zero.
pub open spec fn be_bytes(n: nat) -> Seq<u8>
    decreases n,
{
    if n == 0 {
        Seq::empty()
    } else {
        be_bytes(n / 256).push((n % 256) as u8)
    }
}

/// The value of a big-endian byte string.
pub open spec fn be_value(s: Seq<u8>) -> nat
    decreases s.len(),
{
    if s.len() == 0 {
        0
    } else {
        be_value(s.drop_last()) * 256 + s.last() as nat
    }
}

/// The length prefix for a payload of `len` bytes.
pub open spec fn length_prefix(len: nat) -> Seq<u8> {
    if len < 128 {
        seq![len as u8]
    } else {
        seq![(128 + be_bytes(len).len()) as u8] + be_bytes(len)
    }
}

/// The full encoding of a payload as a variable octet string.
pub open spec fn vos_encoding(payload: Seq<u8>) -> Seq<u8> {
    length_prefix(payload.len()) + payload
}

/// Parsing a variable octet string at `pos`: the start of the content and
/// its length, or nothing when the buffer is truncated before the declared
/// length is satisfied.
pub open spec fn vos_parse(buf: Seq<u8>, pos: int) -> Option<(int, int)> {
    if !(0 <= pos < buf.len()) {
        None
    } else {
        let b = buf[pos];
        if b < 128 {
            if pos + 1 + b <= buf.len() {
                Some((pos + 1, b as int))
            } else {
                None
            }
        } else {
            let n = b - 128;
            if pos + 1 + n > buf.len() {
                None
            } else {
                let l = be_value(buf.subrange(pos + 1, pos + 1 + n)) as int;
                if pos + 1 + n + l <= buf.len() {
                    Some((pos + 1 + n, l))
                } else {
                    None
                }
            }
        }
    }
}

/// The start of the content of the field at `pos`, when one parses there.
pub open spec fn vos_start(buf: Seq<u8>, pos: int) -> int {
    (vos_parse(buf, pos)->0).0
}

/// The length of the content of the field at `pos`, when one parses there.
pub open spec fn vos_len(buf: Seq<u8>, pos: int) -> int {
    (vos_parse(buf, pos)->0).1
}

/// The position just past the field at `pos`, when one parses there.
pub open spec fn vos_end(buf: Seq<u8>, pos: int) -> int {
    vos_start(buf, pos) + vos_len(buf, pos)
}

/// The content bytes of the field at `pos`, when one parses there.
pub open spec fn vos_content(buf: Seq<u8>, pos: int) -> Seq<u8> {
    buf.subrange(vos_start(buf, pos), vos_end(buf, pos))
}

pub proof fn lemma_be_value_of_be_bytes(n: nat)
    ensures
        be_value(be_bytes(n)) == n,
    decreases n,
{
    if n != 0 {
        lemma_be_value_of_be_bytes(n / 256);
        assert(be_bytes(n).drop_last() =~= be_bytes(n / 256));
    }
}

/// A value below 2^64 never takes more than eight base-256 digits.
pub proof fn lemma_be_bytes_len_u64(n: nat)
    requires
        n < 0x10000000000000000,
    ensures
        be_bytes(n).len() <= 8,
{
    let n1 = n / 256;
    let n2 = n1 / 256;
    let n3 = n2 / 256;
    let n4 = n3 / 256;
    let n5 = n4 / 256;
    let n6 = n5 / 256;
    let n7 = n6 / 256;
    let n8 = n7 / 256;
    assert(n8 == 0);
    assert(be_bytes(n8).len() == 0);
    assert(be_bytes(n7).len() <= 1);
    assert(be_bytes(n6).len() <= 2);
    assert(be_bytes(n5).len() <= 3);
    assert(be_bytes(n4).len() <= 4);
    assert(be_bytes(n3).len() <= 5);
    assert(be_bytes(n2).len() <= 6);
    assert(be_bytes(n1).len() <= 7);
    assert(be_bytes(n).len() <= 8);
}

/// Appending bytes to a big-endian string scales its value up, so the value
/// of the whole string is never below the value of any prefix of it.
pub proof fn lemma_be_value_extend(s: Seq<u8>, t: Seq<u8>)
    ensures
        be_value(s + t) == be_value(s) * pow(256, t.len()) + be_value(t),
    decreases t.len(),
{
    reveal(pow);
    if t.len() == 0 {
        assert(s + t =~= s);
        assert(pow(256, 0) == 1);
    } else {
        lemma_be_value_extend(s, t.drop_last());
        assert((s + t).drop_last() =~= s + t.drop_last());
        assert(pow(256, t.len()) == 256 * pow(256, (t.len() - 1) as nat));
        assert(be_value(s + t) == be_value(s + t.drop_last()) * 256 + t.last());
        assert(be_value(s) * (256 * pow(256, (t.len() - 1) as nat)) == (be_value(s) * pow(
            256,
            (t.len() - 1) as nat,
        )) * 256) by (nonlinear_arith);
    }
}

pub proof fn lemma_be_value_prefix(s: Seq<u8>, i: int)
    requires
        0 <= i <= s.len(),
    ensures
        be_value(s) >= be_value(s.subrange(0, i)),
{
    let pre = s.subrange(0, i);
    let suf = s.subrange(i, s.len() as int);
    assert(s =~= pre + suf);
    lemma_be_value_extend(pre, suf);
    lemma_pow_positive(256, suf.len());
    lemma_mul_inequality(1, pow(256, suf.len()) as int, be_value(pre) as int);
    assert(be_value(pre) * pow(256, suf.len()) >= be_value(pre) * 1) by (nonlinear_arith)
        requires
            pow(256, suf.len()) >= 1,
    ;
}

/// How many bytes the length prefix occupies for a payload of the given
/// size: one byte below 128, afterwards one lead byte plus one byte per
/// base-256 digit of the length.
pub fn predict_var_octet_string(length: usize) -> (r: usize)
    ensures
        r == length_prefix(length as nat).len(),
        length < 128 ==> r == 1,
        128 <= length < 256 ==> r == 2,
        256 <= length < 65536 ==> r == 3,
        1 <= r <= 9,
{
    if length < 128 {
        1
    } else {
        let mut n = length;
        let mut count: usize = 0;
        while n > 0
            invariant
                be_bytes(length as nat).len() == be_bytes(n as nat).len() + count,
                count <= 8,
                n <= length,
            decreases n,
        {
            proof {
                assert(be_bytes(n as nat).len() == be_bytes((n / 256) as nat).len() + 1);
                assert(be_bytes(length as nat).len() <= 8) by {
                    assert(usize::MAX <= u64::MAX);
                    lemma_be_bytes_len_u64(length as nat);
                }
            }
            n = n / 256;
            count = count + 1;
        }
        proof {
            if 128 <= length < 256 {
                assert(be_bytes(length as nat) =~= seq![length as u8]);
            }
            if 256 <= length < 65536 {
                assert(be_bytes((length / 256) as nat) =~= seq![(length / 256) as u8]);
                assert(be_bytes(length as nat).len() == 2);
            }
        }
        1 + count
    }
}

/// Appends every byte of `bytes` to `buf`.
pub fn push_bytes(buf: &mut Vec<u8>, bytes: &[u8])
    ensures
        final(buf)@ == old(buf)@ + bytes@,
{
    let mut i: usize = 0;
    while i < bytes.len()
        invariant
            i <= bytes@.len(),
            buf@ == old(buf)@ + bytes@.subrange(0, i as int),
        decreases bytes@.len() - i,
    {
        let b = *slice_index_get(bytes, i);
        buf.push(b);
        proof {
            assert(bytes@.subrange(0, i + 1) =~= bytes@.subrange(0, i as int).push(b));
        }
        i = i + 1;
    }
    proof {
        assert(bytes@.subrange(0, bytes@.len() as int) =~= bytes@);
    }
}

/// Appends the length prefix for a payload of `length` bytes; the caller
/// then appends the payload itself.
pub fn put_var_octet_string_length(buf: &mut Vec<u8>, length: usize)
    ensures
        final(buf)@ == old(buf)@ + length_prefix(length as nat),
{
    if length < 128 {
        buf.push(length as u8);
        proof {
            assert(old(buf)@ + length_prefix(length as nat) =~= old(buf)@.push(length as u8));
        }
    } else {
        let mut tmp: Vec<u8> = Vec::new();
        let mut n = length;
        while n > 0
            invariant
                be_bytes(length as nat) =~= be_bytes(n as nat) + tmp@.reverse(),
                tmp@.len() == be_bytes(length as nat).len() - be_bytes(n as nat).len(),
                n <= length,
            decreases n,
        {
            let ghost old_tmp = tmp@;
            let b = (n % 256) as u8;
            tmp.push(b);
            proof {
                assert(tmp@.reverse() =~= seq![b] + old_tmp.reverse());
                assert(be_bytes(n as nat) =~= be_bytes((n / 256) as nat).push(b));
                assert(be_bytes((n / 256) as nat) + tmp@.reverse() =~= (be_bytes(
                    (n / 256) as nat,
                ).push(b)) + old_tmp.reverse());
            }
            n = n / 256;
        }
        proof {
            assert(be_bytes(0nat) + tmp@.reverse() =~= tmp@.reverse());
            assert(be_bytes(length as nat) =~= tmp@.reverse());
            assert(tmp@.len() <= 8) by {
                assert(usize::MAX <= u64::MAX);
                lemma_be_bytes_len_u64(length as nat);
            }
        }
        let count = tmp.len();
        buf.push((128 + count) as u8);
        let ghost mid = buf@;
        let mut i = count;
        while i > 0
            invariant
                i <= count,
                count == tmp@.len(),
                buf@ == mid + be_bytes(length as nat).subrange(0, (count - i) as int),
                be_bytes(length as nat) =~= tmp@.reverse(),
                count == be_bytes(length as nat).len(),
                mid == old(buf)@.push((128 + count) as u8),
            decreases i,
        {
            i = i - 1;
            let b = tmp[i];
            buf.push(b);
            proof {
                assert(b == tmp@.reverse()[count - i - 1]);
                assert(be_bytes(length as nat).subrange(0, count - i) =~= be_bytes(
                    length as nat,
                ).subrange(0, (count - i - 1) as int).push(b));
            }
        }
        proof {
            assert(be_bytes(length as nat).subrange(0, count as int) =~= be_bytes(length as nat));
            assert(length_prefix(length as nat) =~= seq![(128 + count) as u8] + be_bytes(
                length as nat,
            ));
            assert(buf@ =~= old(buf)@ + length_prefix(length as nat));
        }
    }
}

/// Appends the full variable-octet-string encoding of `payload`.
pub fn put_var_octet_string(buf: &mut Vec<u8>, payload: &[u8])
    ensures
        final(buf)@ == old(buf)@ + vos_encoding(payload@),
{
    put_var_octet_string_length(buf, payload.len());
    push_bytes(buf, payload);
    proof {
        assert(old(buf)@ + vos_encoding(payload@) =~= (old(buf)@ + length_prefix(payload@.len()))
            + payload@);
    }
}

/// Whenever a parse succeeds, the content range lies inside the buffer.
pub proof fn lemma_vos_parse_bounds(buf: Seq<u8>, pos: int)
    requires
        vos_parse(buf, pos) is Some,
    ensures
        0 <= pos < buf.len(),
        pos < vos_start(buf, pos),
        0 <= vos_len(buf, pos),
        vos_end(buf, pos) <= buf.len(),
{
}

/// Finds the content of the variable octet string at `pos`: its start
/// offset and length. Fails exactly when no well-formed field lies there.
pub fn locate_var_octet_string(buf: &[u8], pos: usize) -> (r: Result<(usize, usize), ParseError>)
    ensures
        match r {
            Ok((start, len)) => vos_parse(buf@, pos as int) == Some((start as int, len as int))
                && start == vos_start(buf@, pos as int) && len == vos_len(buf@, pos as int),
            Err(e) => vos_parse(buf@, pos as int) is None && e == ParseError::Io,
        },
{
    if pos >= buf.len() {
        return Err(ParseError::Io);
    }
    let b = *slice_index_get(buf, pos);
    if b < 128 {
        let len = b as usize;
        if len <= buf.len() - pos - 1 {
            Ok((pos + 1, len))
        } else {
            Err(ParseError::Io)
        }
    } else {
        let blen = buf.len();
        let n = (b - 128) as usize;
        if n > blen - pos - 1 {
            return Err(ParseError::Io);
        }
        // Bytes left for the content once the prefix is consumed.
        let cap = blen - pos - 1 - n;
        let ghost digits = buf@.subrange(pos + 1, pos + 1 + n);
        let mut acc: u128 = 0;
        let mut i: usize = 0;
        while i < n
            invariant
                i <= n,
                blen == buf@.len(),
                pos + 1 + n <= blen,
                cap == blen - pos - 1 - n,
                b == buf@[pos as int],
                b >= 128,
                n == b - 128,
                acc == be_value(buf@.subrange(pos + 1, pos + 1 + i)),
                acc <= cap,
                digits == buf@.subrange(pos + 1, pos + 1 + n),
            decreases n - i,
        {
            let byte = *slice_index_get(buf, pos + 1 + i);
            let ghost pre = buf@.subrange(pos + 1, pos + 1 + i);
            let ghost ext = buf@.subrange(pos + 1, pos + 1 + i + 1);
            proof {
                assert(ext.drop_last() =~= pre);
                assert(ext.last() == byte);
                assert(be_value(ext) == be_value(pre) * 256 + byte);
            }
            acc = acc * 256 + byte as u128;
            proof {
                assert(acc == be_value(ext));
            }
            if acc > cap as u128 {
                proof {
                    assert(digits.subrange(0, i + 1) =~= ext);
                    lemma_be_value_prefix(digits, i + 1);
                    assert(be_value(digits) >= be_value(ext));
                }
                return Err(ParseError::Io);
            }
            i = i + 1;
        }
        proof {
            assert(buf@.subrange(pos + 1, pos + 1 + i) =~= digits);
        }
        let len = acc as usize;
        Ok((pos + 1 + n, len))
    }
}

/// Returns the content of the variable octet string at `pos` without
/// advancing past it.
pub fn peek_var_octet_string<'a>(buf: &'a [u8], pos: usize) -> (r: Result<&'a [u8], ParseError>)
    ensures
        match r {
            Ok(content) => vos_parse(buf@, pos as int) is Some && content@ == vos_content(
                buf@,
                pos as int,
            ),
            Err(e) => vos_parse(buf@, pos as int) is None && e == ParseError::Io,
        },
{
    let blen = buf.len();
    match locate_var_octet_string(buf, pos) {
        Ok((start, len)) => {
            proof {
                lemma_vos_parse_bounds(buf@, pos as int);
                assert(start + len <= blen);
            }
            Ok(slice_subrange(buf, start, start + len))
        },
        Err(e) => Err(e),
    }
}

/// Returns the content of the variable octet string at `pos` together with
/// the position just past it.
pub fn read_var_octet_string<'a>(buf: &'a [u8], pos: usize) -> (r: Result<
    (&'a [u8], usize),
    ParseError,
>)
    ensures
        match r {
            Ok((content, next)) => {
                &&& vos_parse(buf@, pos as int) is Some
                &&& content@ == vos_content(buf@, pos as int)
                &&& next == vos_end(buf@, pos as int)
            },
            Err(e) => vos_parse(buf@, pos as int) is None && e == ParseError::Io,
        },
{
    let blen = buf.len();
    match locate_var_octet_string(buf, pos) {
        Ok((start, len)) => {
            proof {
                lemma_vos_parse_bounds(buf@, pos as int);
                assert(start + len <= blen);
            }
            Ok((slice_subrange(buf, start, start + len), start + len))
        },
        Err(e) => Err(e),
    }
}

/// Advances past the variable octet string at `pos` without materializing
/// its content.
pub fn skip_var_octet_string(buf: &[u8], pos: usize) -> (r: Result<usize, ParseError>)
    ensures
        match r {
            Ok(next) => vos_parse(buf@, pos as int) is Some && next == vos_end(buf@, pos as int),
            Err(e) => vos_parse(buf@, pos as int) is None && e == ParseError::Io,
        },
{
    let blen = buf.len();
    match locate_var_octet_string(buf, pos) {
        Ok((start, len)) => {
            proof {
                lemma_vos_parse_bounds(buf@, pos as int);
                assert(start + len <= blen);
            }
            Ok(start + len)
        },
        Err(e) => Err(e),
    }
}

/// Round trip: a buffer that carries the encoding of `payload` at `pos`
/// parses back to exactly that payload.
pub proof fn lemma_vos_parse_encoding(buf: Seq<u8>, pos: int, payload: Seq<u8>)
    requires
        0 <= pos,
        payload.len() < 0x10000000000000000,
        pos + vos_encoding(payload).len() <= buf.len(),
        buf.subrange(pos, pos + vos_encoding(payload).len()) == vos_encoding(payload),
    ensures
        vos_parse(buf, pos) == Some(
            (pos + length_prefix(payload.len()).len(), payload.len() as int),
        ),
        buf.subrange(
            pos + length_prefix(payload.len()).len(),
            pos + length_prefix(payload.len()).len() + payload.len(),
        ) == payload,
{
    let l = payload.len() as int;
    let prefix = length_prefix(payload.len());
    let enc = vos_encoding(payload);
    let sub = buf.subrange(pos, pos + enc.len());
    assert(buf[pos] == sub[0]);
    if l < 128 {
        assert(enc[0] == l as u8);
        assert(buf.subrange(pos + 1, pos + 1 + l) =~= sub.subrange(1, 1 + l));
        assert(enc.subrange(1, 1 + l) =~= payload);
    } else {
        lemma_be_bytes_len_u64(payload.len());
        assert(be_bytes(payload.len()).len() >= 1);
        let n = be_bytes(payload.len()).len() as int;
        assert(prefix[0] == (128 + n) as u8);
        assert(128 + n <= 136);
        assert(enc[0] == 128 + n);
        assert(buf.subrange(pos + 1, pos + 1 + n) =~= sub.subrange(1, 1 + n));
        assert(enc.subrange(1, 1 + n) =~= be_bytes(payload.len()));
        lemma_be_value_of_be_bytes(payload.len());
        assert(buf.subrange(pos + 1 + n, pos + 1 + n + l) =~= sub.subrange(1 + n, 1 + n + l));
        assert(enc.subrange(1 + n, 1 + n + l) =~= payload);
    }
}

} // verus!
