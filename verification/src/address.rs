//! ILP addresses: dot-separated hierarchical names with a constrained first
//! segment and a bounded total length.
//!
//! The grammar is `scheme ("." segment)+`, where the scheme is one of ten
//! fixed words and a segment is one or more of `[a-zA-Z0-9_~-]`. An
//! `Address` value exists only after the grammar and the length bound have
//! been checked: there is no reachable unvalidated state.

use vstd::prelude::*;
use vstd::slice::{slice_index_get, slice_subrange, slice_to_vec};
use vstd::string::StringSliceAdditionalSpecFns;

use crate::errors::{AddressError, ParseError};
use crate::oer::push_bytes;

verus! {

/// The longest address accepted, in bytes.
pub const MAX_ADDRESS_LENGTH: usize = 1023;

/// The separator between segments: an ASCII dot.
pub const SEPARATOR: u8 = 46;

/// Whether `c` may occur in an address segment: ASCII letters, digits,
/// underscore, tilde and hyphen.
pub open spec fn is_seg_char(c: u8) -> bool {
    ||| (97 <= c && c <= 122)  // a-z
    ||| (65 <= c && c <= 90)  // A-Z
    ||| (48 <= c && c <= 57)  // 0-9
    ||| c == 95  // _
    ||| c == 126  // ~
    ||| c == 45  // -

}

/// A well-formed segment: nonempty, made of segment characters only.
pub open spec fn is_segment(s: Seq<u8>) -> bool {
    s.len() >= 1 && all_seg_chars(s)
}

/// Every byte of `s` is a segment character.
pub open spec fn all_seg_chars(s: Seq<u8>) -> bool {
    forall|i: int| 0 <= i < s.len() ==> is_seg_char(#[trigger] s[i])
}

/// The ten words allowed as the first segment of an address.
pub open spec fn is_scheme(s: Seq<u8>) -> bool {
    ||| s == seq![103u8]  // g
    ||| s == seq![112u8, 114, 105, 118, 97, 116, 101]  // private
    ||| s == seq![101u8, 120, 97, 109, 112, 108, 101]  // example
    ||| s == seq![112u8, 101, 101, 114]  // peer
    ||| s == seq![115u8, 101, 108, 102]  // self
    ||| s == seq![116u8, 101, 115, 116]  // test
    ||| s == seq![116u8, 101, 115, 116, 49]  // test1
    ||| s == seq![116u8, 101, 115, 116, 50]  // test2
    ||| s == seq![116u8, 101, 115, 116, 51]  // test3
    ||| s == seq![108u8, 111, 99, 97, 108]  // local

}

/// Splitting a byte string on the separator. The result always has at least
/// one part; separators at the edges or doubled produce empty parts.
pub open spec fn dot_split(s: Seq<u8>) -> Seq<Seq<u8>>
    decreases s.len(),
{
    if s.len() == 0 {
        seq![Seq::empty()]
    } else {
        let parts = dot_split(s.drop_last());
        if s.last() == SEPARATOR {
            parts.push(Seq::empty())
        } else {
            parts.update(parts.len() - 1, parts.last().push(s.last()))
        }
    }
}

/// The address grammar: at least two parts, the first a scheme, every
/// later one a well-formed segment.
pub open spec fn is_valid_format(s: Seq<u8>) -> bool {
    let parts = dot_split(s);
    &&& parts.len() >= 2
    &&& is_scheme(parts[0])
    &&& (forall|i: int| 1 <= i < parts.len() ==> is_segment(#[trigger] parts[i]))
}

/// A valid address: within the length bound and matching the grammar.
pub open spec fn is_valid_address(s: Seq<u8>) -> bool {
    s.len() <= MAX_ADDRESS_LENGTH && is_valid_format(s)
}

/// Every middle part (neither the scheme nor the last part) is a
/// well-formed segment.
pub open spec fn mids_ok(parts: Seq<Seq<u8>>) -> bool {
    forall|i: int| 1 <= i < parts.len() - 1 ==> is_segment(#[trigger] parts[i])
}

pub proof fn lemma_dot_split_len(s: Seq<u8>)
    ensures
        dot_split(s).len() >= 1,
    decreases s.len(),
{
    if s.len() > 0 {
        lemma_dot_split_len(s.drop_last());
    }
}

proof fn lemma_mids_ok_push(parts: Seq<Seq<u8>>, x: Seq<u8>)
    requires
        parts.len() >= 1,
    ensures
        mids_ok(parts.push(x)) == (mids_ok(parts) && (parts.len() >= 2 ==> is_segment(
            parts.last(),
        ))),
{
    let parts2 = parts.push(x);
    if mids_ok(parts) && (parts.len() >= 2 ==> is_segment(parts.last())) {
        assert forall|i: int| 1 <= i < parts2.len() - 1 implies is_segment(#[trigger] parts2[i]) by {
            if i < parts.len() - 1 {
                assert(is_segment(parts[i]));
            } else {
                assert(i == parts.len() - 1);
                assert(parts2[i] == parts.last());
            }
        }
    }
    if mids_ok(parts2) {
        assert forall|i: int| 1 <= i < parts.len() - 1 implies is_segment(#[trigger] parts[i]) by {
            assert(parts2[i] == parts[i]);
            assert(is_segment(parts2[i]));
        }
        if parts.len() >= 2 {
            assert(parts2[parts.len() - 1] == parts.last());
            assert(is_segment(parts2[parts.len() - 1]));
        }
    }
}

proof fn lemma_mids_ok_update_last(parts: Seq<Seq<u8>>, x: Seq<u8>)
    requires
        parts.len() >= 1,
    ensures
        mids_ok(parts.update(parts.len() - 1, x)) == mids_ok(parts),
{
    let parts2 = parts.update(parts.len() - 1, x);
    if mids_ok(parts) {
        assert forall|i: int| 1 <= i < parts2.len() - 1 implies is_segment(#[trigger] parts2[i]) by {
            assert(parts2[i] == parts[i]);
        }
    }
    if mids_ok(parts2) {
        assert forall|i: int| 1 <= i < parts.len() - 1 implies is_segment(#[trigger] parts[i]) by {
            assert(parts2[i] == parts[i]);
            assert(is_segment(parts2[i]));
        }
    }
}

proof fn lemma_all_seg_chars_push(s: Seq<u8>, c: u8)
    ensures
        all_seg_chars(s.push(c)) == (all_seg_chars(s) && is_seg_char(c)),
{
    let s2 = s.push(c);
    if all_seg_chars(s) && is_seg_char(c) {
        assert forall|i: int| 0 <= i < s2.len() implies is_seg_char(#[trigger] s2[i]) by {
            if i < s.len() {
                assert(s2[i] == s[i]);
            } else {
                assert(s2[i] == c);
            }
        }
    }
    if all_seg_chars(s2) {
        assert forall|i: int| 0 <= i < s.len() implies is_seg_char(#[trigger] s[i]) by {
            assert(s2[i] == s[i]);
            assert(is_seg_char(s2[i]));
        }
        assert(s2[s.len() as int] == c);
        assert(is_seg_char(s2[s.len() as int]));
    }
}

/// The trailing-segment split of the grammar's quantifier: all parts after
/// the scheme are segments exactly when the middle ones and the last one
/// are.
proof fn lemma_segments_split(parts: Seq<Seq<u8>>)
    requires
        parts.len() >= 2,
    ensures
        (forall|i: int| 1 <= i < parts.len() ==> is_segment(#[trigger] parts[i])) == (mids_ok(parts)
            && is_segment(parts.last())),
{
    if mids_ok(parts) && is_segment(parts.last()) {
        assert forall|i: int| 1 <= i < parts.len() implies is_segment(#[trigger] parts[i]) by {
            if i < parts.len() - 1 {
                assert(is_segment(parts[i]));
            } else {
                assert(parts[i] == parts.last());
            }
        }
    }
}

/// Whether `s` is one of the ten scheme words.
pub fn is_scheme_bytes(s: &[u8]) -> (r: bool)
    ensures
        r == is_scheme(s@),
{
    let n = s.len();
    if n == 1 {
        let b0 = *slice_index_get(s, 0);
        let r = b0 == 103;
        proof {
            if b0 == 103 {
                assert(s@ =~= seq![103u8]);
            }
        }
        r
    } else if n == 4 {
        let b0 = *slice_index_get(s, 0);
        let b1 = *slice_index_get(s, 1);
        let b2 = *slice_index_get(s, 2);
        let b3 = *slice_index_get(s, 3);
        let peer = b0 == 112 && b1 == 101 && b2 == 101 && b3 == 114;
        let slf = b0 == 115 && b1 == 101 && b2 == 108 && b3 == 102;
        let test = b0 == 116 && b1 == 101 && b2 == 115 && b3 == 116;
        proof {
            if peer {
                assert(s@ =~= seq![112u8, 101, 101, 114]);
            }
            if slf {
                assert(s@ =~= seq![115u8, 101, 108, 102]);
            }
            if test {
                assert(s@ =~= seq![116u8, 101, 115, 116]);
            }
        }
        peer || slf || test
    } else if n == 5 {
        let b0 = *slice_index_get(s, 0);
        let b1 = *slice_index_get(s, 1);
        let b2 = *slice_index_get(s, 2);
        let b3 = *slice_index_get(s, 3);
        let b4 = *slice_index_get(s, 4);
        let test_pre = b0 == 116 && b1 == 101 && b2 == 115 && b3 == 116;
        let test1 = test_pre && b4 == 49;
        let test2 = test_pre && b4 == 50;
        let test3 = test_pre && b4 == 51;
        let local = b0 == 108 && b1 == 111 && b2 == 99 && b3 == 97 && b4 == 108;
        proof {
            if test1 {
                assert(s@ =~= seq![116u8, 101, 115, 116, 49]);
            }
            if test2 {
                assert(s@ =~= seq![116u8, 101, 115, 116, 50]);
            }
            if test3 {
                assert(s@ =~= seq![116u8, 101, 115, 116, 51]);
            }
            if local {
                assert(s@ =~= seq![108u8, 111, 99, 97, 108]);
            }
        }
        test1 || test2 || test3 || local
    } else if n == 7 {
        let b0 = *slice_index_get(s, 0);
        let b1 = *slice_index_get(s, 1);
        let b2 = *slice_index_get(s, 2);
        let b3 = *slice_index_get(s, 3);
        let b4 = *slice_index_get(s, 4);
        let b5 = *slice_index_get(s, 5);
        let b6 = *slice_index_get(s, 6);
        let private = b0 == 112 && b1 == 114 && b2 == 105 && b3 == 118 && b4 == 97 && b5 == 116
            && b6 == 101;
        let example = b0 == 101 && b1 == 120 && b2 == 97 && b3 == 109 && b4 == 112 && b5 == 108
            && b6 == 101;
        proof {
            if private {
                assert(s@ =~= seq![112u8, 114, 105, 118, 97, 116, 101]);
            }
            if example {
                assert(s@ =~= seq![101u8, 120, 97, 109, 112, 108, 101]);
            }
        }
        private || example
    } else {
        false
    }
}

fn seg_char(c: u8) -> (r: bool)
    ensures
        r == is_seg_char(c),
{
    (97 <= c && c <= 122) || (65 <= c && c <= 90) || (48 <= c && c <= 57) || c == 95 || c == 126
        || c == 45
}

/// Whether `s` matches the address grammar, checked in one pass.
pub fn check_format(s: &[u8]) -> (r: bool)
    ensures
        r == is_valid_format(s@),
{
    let n = s.len();
    let mut scheme_ok = false;
    let mut have_dot = false;
    let mut mid_ok = true;
    let mut cur_all = true;
    let mut seg_start: usize = 0;
    let mut j: usize = 0;
    proof {
        assert(s@.subrange(0, 0) =~= Seq::<u8>::empty());
    }
    while j < n
        invariant
            n == s@.len(),
            j <= n,
            seg_start <= j,
            dot_split(s@.subrange(0, j as int)).len() >= 1,
            have_dot == (dot_split(s@.subrange(0, j as int)).len() >= 2),
            !have_dot ==> seg_start == 0 && !scheme_ok && mid_ok,
            have_dot ==> scheme_ok == is_scheme(dot_split(s@.subrange(0, j as int))[0]),
            have_dot ==> mid_ok == mids_ok(dot_split(s@.subrange(0, j as int))),
            dot_split(s@.subrange(0, j as int)).last() == s@.subrange(seg_start as int, j as int),
            cur_all == all_seg_chars(dot_split(s@.subrange(0, j as int)).last()),
        decreases n - j,
    {
        let ghost parts = dot_split(s@.subrange(0, j as int));
        let c = *slice_index_get(s, j);
        proof {
            assert(s@.subrange(0, j + 1).drop_last() =~= s@.subrange(0, j as int));
            assert(s@.subrange(0, j + 1).last() == c);
        }
        if c == SEPARATOR {
            let ghost parts2 = dot_split(s@.subrange(0, j + 1));
            proof {
                assert(parts2 == parts.push(Seq::<u8>::empty()));
                lemma_mids_ok_push(parts, Seq::empty());
            }
            if !have_dot {
                let scheme_part = slice_subrange(s, 0, j);
                scheme_ok = is_scheme_bytes(scheme_part);
                have_dot = true;
                proof {
                    assert(parts[0] == parts.last());
                    assert(parts2[0] == parts[0]);
                    assert(parts[0] =~= scheme_part@);
                }
            } else {
                let seg_len = j - seg_start;
                mid_ok = mid_ok && cur_all && seg_len > 0;
                proof {
                    assert(is_segment(parts.last()) == (cur_all && seg_len > 0));
                    assert(parts2[0] == parts[0]);
                }
            }
            seg_start = j + 1;
            cur_all = true;
            proof {
                assert(parts2.last() =~= s@.subrange(j + 1, j + 1));
            }
        } else {
            let ghost parts2 = dot_split(s@.subrange(0, j + 1));
            cur_all = cur_all && seg_char(c);
            proof {
                assert(parts2 == parts.update(parts.len() - 1, parts.last().push(c)));
                lemma_mids_ok_update_last(parts, parts.last().push(c));
                lemma_all_seg_chars_push(parts.last(), c);
                assert(parts2.last() == parts.last().push(c));
                assert(parts2.last() =~= s@.subrange(seg_start as int, j + 1));
                if have_dot {
                    assert(parts.len() >= 2);
                    assert(parts2[0] == parts[0]);
                }
                assert(parts2.len() == parts.len());
            }
        }
        j = j + 1;
    }
    proof {
        assert(s@.subrange(0, n as int) =~= s@);
        if have_dot {
            lemma_segments_split(dot_split(s@));
            assert(is_segment(dot_split(s@).last()) == (cur_all && n - seg_start > 0));
        }
    }
    let last_len = n - seg_start;
    have_dot && scheme_ok && mid_ok && cur_all && last_len > 0
}

/// An ILP address: an immutable validated byte string.
#[derive(Debug, Hash, Ord)]
pub struct Address {
    bytes: Vec<u8>,
}

impl Eq for Address {
}

impl Clone for Address {
    /// A clone carries exactly the same bytes.
    fn clone(&self) -> (r: Self)
        ensures
            r@ == self@,
    {
        proof {
            use_type_invariant(self);
        }
        Address { bytes: slice_to_vec(self.bytes.as_slice()) }
    }
}

impl View for Address {
    type V = Seq<u8>;

    closed spec fn view(&self) -> Seq<u8> {
        self.bytes@
    }
}

impl Address {
    /// Every live address satisfies the grammar and the length bound; this
    /// is proved at every construction site.
    #[verifier::type_invariant]
    pub open spec fn well_formed(self) -> bool {
        is_valid_address(self@)
    }

    /// Validates `bytes` as an ILP address: rejects anything over the
    /// length bound, then anything that does not match the grammar.
    pub fn try_from(bytes: Vec<u8>) -> (r: Result<Address, ParseError>)
        ensures
            match r {
                Ok(a) => a@ == bytes@ && is_valid_address(bytes@),
                Err(e) => {
                    &&& !is_valid_address(bytes@)
                    &&& bytes@.len() > MAX_ADDRESS_LENGTH ==> e == ParseError::InvalidAddress(
                        AddressError::InvalidLength(bytes@.len() as usize),
                    )
                    &&& bytes@.len() <= MAX_ADDRESS_LENGTH ==> e == ParseError::InvalidAddress(
                        AddressError::InvalidFormat,
                    )
                },
            },
    {
        if bytes.len() > MAX_ADDRESS_LENGTH {
            return Err(ParseError::InvalidAddress(AddressError::InvalidLength(bytes.len())));
        }
        if check_format(bytes.as_slice()) {
            Ok(Address { bytes })
        } else {
            Err(ParseError::InvalidAddress(AddressError::InvalidFormat))
        }
    }

    /// Validates a string as an ILP address; the grammar decides over its
    /// UTF-8 bytes.
    pub fn from_str(src: &str) -> (r: Result<Address, ParseError>)
        ensures
            match r {
                Ok(a) => a@ == src.spec_bytes() && is_valid_address(src.spec_bytes()),
                Err(e) => {
                    &&& !is_valid_address(src.spec_bytes())
                    &&& src.spec_bytes().len() > MAX_ADDRESS_LENGTH ==> e
                        == ParseError::InvalidAddress(
                        AddressError::InvalidLength(src.spec_bytes().len() as usize),
                    )
                    &&& src.spec_bytes().len() <= MAX_ADDRESS_LENGTH ==> e
                        == ParseError::InvalidAddress(AddressError::InvalidFormat)
                },
            },
    {
        Address::try_from(slice_to_vec(src.as_bytes()))
    }

    /// Creates an address without re-validating: the caller must have
    /// proved validity already. This is the checked analogue of an
    /// unchecked constructor; unverified callers must not reach it with
    /// untrusted input.
    pub fn new_unchecked(bytes: Vec<u8>) -> (r: Address)
        requires
            is_valid_address(bytes@),
        ensures
            r@ == bytes@,
    {
        Address { bytes }
    }

    /// The length of the address in bytes.
    pub fn len(&self) -> (r: usize)
        ensures
            r == self@.len(),
            1 <= r <= MAX_ADDRESS_LENGTH,
    {
        proof {
            use_type_invariant(self);
            if self.bytes@.len() == 0 {
                assert(dot_split(self.bytes@).len() == 1);
            }
        }
        self.bytes.len()
    }

    /// The address bytes, borrowed.
    pub fn as_bytes(&self) -> (r: &[u8])
        ensures
            r@ == self@,
    {
        self.bytes.as_slice()
    }

    /// A copy of the address bytes.
    pub fn to_bytes(&self) -> (r: Vec<u8>)
        ensures
            r@ == self@,
    {
        slice_to_vec(self.bytes.as_slice())
    }

    /// The segments of the address, in order: everything between the
    /// separators, the scheme first.
    pub fn segments(&self) -> (r: Vec<Vec<u8>>)
        ensures
            r@.len() == dot_split(self@).len(),
            forall|i: int| 0 <= i < r@.len() ==> r@[i]@ == dot_split(self@)[i],
    {
        let s = self.bytes.as_slice();
        let n = s.len();
        let mut out: Vec<Vec<u8>> = Vec::new();
        let mut cur: Vec<u8> = Vec::new();
        let mut j: usize = 0;
        proof {
            assert(s@.subrange(0, 0) =~= Seq::<u8>::empty());
        }
        while j < n
            invariant
                n == s@.len(),
                j <= n,
                dot_split(s@.subrange(0, j as int)).len() == out@.len() + 1,
                forall|i: int|
                    0 <= i < out@.len() ==> out@[i]@ == dot_split(s@.subrange(0, j as int))[i],
                cur@ == dot_split(s@.subrange(0, j as int)).last(),
            decreases n - j,
        {
            let ghost parts = dot_split(s@.subrange(0, j as int));
            let c = *slice_index_get(s, j);
            proof {
                assert(s@.subrange(0, j + 1).drop_last() =~= s@.subrange(0, j as int));
                assert(s@.subrange(0, j + 1).last() == c);
            }
            let ghost parts2 = dot_split(s@.subrange(0, j + 1));
            if c == SEPARATOR {
                let ghost old_out = out@;
                let ghost old_cur = cur@;
                proof {
                    assert(parts2 == parts.push(Seq::<u8>::empty()));
                }
                out.push(cur);
                cur = Vec::new();
                proof {
                    assert forall|i: int| 0 <= i < out@.len() implies out@[i]@ == parts2[i] by {
                        if i < old_out.len() {
                            assert(out@[i] == old_out[i]);
                            assert(parts2[i] == parts[i]);
                        } else {
                            assert(out@[i]@ == old_cur);
                            assert(parts2[i] == parts.last());
                        }
                    }
                }
            } else {
                proof {
                    assert(parts2 == parts.update(parts.len() - 1, parts.last().push(c)));
                }
                cur.push(c);
                proof {
                    assert forall|i: int| 0 <= i < out@.len() implies out@[i]@ == parts2[i] by {
                        assert(parts2[i] == parts[i]);
                    }
                }
            }
            j = j + 1;
        }
        proof {
            assert(s@.subrange(0, n as int) =~= s@);
        }
        out.push(cur);
        out
    }

    /// Appends `"." + suffix` and re-validates the whole result; a suffix
    /// that breaks the grammar is rejected, not silently accepted.
    pub fn with_suffix(&self, suffix: &[u8]) -> (r: Result<Address, ParseError>)
        ensures
            match r {
                Ok(a) => a@ == self@ + seq![SEPARATOR] + suffix@ && is_valid_address(
                    self@ + seq![SEPARATOR] + suffix@,
                ),
                Err(e) => {
                    &&& !is_valid_address(self@ + seq![SEPARATOR] + suffix@)
                    &&& self@.len() + 1 + suffix@.len() > MAX_ADDRESS_LENGTH ==> e
                        == ParseError::InvalidAddress(
                        AddressError::InvalidLength((self@.len() + 1 + suffix@.len()) as usize),
                    )
                    &&& self@.len() + 1 + suffix@.len() <= MAX_ADDRESS_LENGTH ==> e
                        == ParseError::InvalidAddress(AddressError::InvalidFormat)
                },
            },
    {
        proof {
            use_type_invariant(self);
        }
        let mut combined = self.to_bytes();
        combined.push(SEPARATOR);
        push_bytes(&mut combined, suffix);
        proof {
            assert(combined@ =~= self@ + seq![SEPARATOR] + suffix@);
        }
        Address::try_from(combined)
    }

    /// Byte-exact comparison against a raw byte string.
    pub fn eq_bytes(&self, other: &[u8]) -> (r: bool)
        ensures
            r == (self@ == other@),
    {
        bytes_eq(self.bytes.as_slice(), other)
    }
}

/// Byte-wise equality of two byte strings.
pub fn bytes_eq(a: &[u8], b: &[u8]) -> (r: bool)
    ensures
        r == (a@ == b@),
{
    if a.len() != b.len() {
        return false;
    }
    let n = a.len();
    let mut i: usize = 0;
    while i < n
        invariant
            n == a@.len(),
            n == b@.len(),
            i <= n,
            forall|k: int| 0 <= k < i ==> a@[k] == b@[k],
        decreases n - i,
    {
        if *slice_index_get(a, i) != *slice_index_get(b, i) {
            return false;
        }
        i = i + 1;
    }
    proof {
        assert(a@ =~= b@);
    }
    true
}

/// Lexicographic order on byte strings: the order addresses sort by as
/// map keys.
pub open spec fn lex_cmp(a: Seq<u8>, b: Seq<u8>) -> core::cmp::Ordering
    decreases a.len(),
{
    if a.len() == 0 && b.len() == 0 {
        core::cmp::Ordering::Equal
    } else if a.len() == 0 {
        core::cmp::Ordering::Less
    } else if b.len() == 0 {
        core::cmp::Ordering::Greater
    } else if a[0] < b[0] {
        core::cmp::Ordering::Less
    } else if a[0] > b[0] {
        core::cmp::Ordering::Greater
    } else {
        lex_cmp(a.subrange(1, a.len() as int), b.subrange(1, b.len() as int))
    }
}

/// Compares two byte strings lexicographically.
pub fn bytes_cmp(a: &[u8], b: &[u8]) -> (r: core::cmp::Ordering)
    ensures
        r == lex_cmp(a@, b@),
{
    let alen = a.len();
    let blen = b.len();
    let mut i: usize = 0;
    proof {
        assert(a@.subrange(0, alen as int) =~= a@);
        assert(b@.subrange(0, blen as int) =~= b@);
    }
    while i < alen && i < blen
        invariant
            i <= alen,
            i <= blen,
            alen == a@.len(),
            blen == b@.len(),
            lex_cmp(a@, b@) == lex_cmp(
                a@.subrange(i as int, alen as int),
                b@.subrange(i as int, blen as int),
            ),
        decreases alen - i,
    {
        let ghost sa = a@.subrange(i as int, alen as int);
        let ghost sb = b@.subrange(i as int, blen as int);
        let x = *slice_index_get(a, i);
        let y = *slice_index_get(b, i);
        proof {
            assert(sa[0] == x);
            assert(sb[0] == y);
        }
        if x < y {
            return core::cmp::Ordering::Less;
        }
        if x > y {
            return core::cmp::Ordering::Greater;
        }
        proof {
            assert(sa.subrange(1, sa.len() as int) =~= a@.subrange(i + 1, alen as int));
            assert(sb.subrange(1, sb.len() as int) =~= b@.subrange(i + 1, blen as int));
        }
        i = i + 1;
    }
    proof {
        if i == alen {
            assert(a@.subrange(i as int, alen as int).len() == 0);
        }
        if i == blen {
            assert(b@.subrange(i as int, blen as int).len() == 0);
        }
    }
    if alen == blen {
        core::cmp::Ordering::Equal
    } else if alen < blen {
        core::cmp::Ordering::Less
    } else {
        core::cmp::Ordering::Greater
    }
}

impl PartialEq for Address {
    /// Addresses compare by exact byte content.
    fn eq(&self, other: &Address) -> (r: bool) {
        bytes_eq(self.bytes.as_slice(), other.bytes.as_slice())
    }
}

impl PartialOrd for Address {
    /// Addresses order lexicographically by their bytes.
    fn partial_cmp(&self, other: &Address) -> (r: Option<core::cmp::Ordering>) {
        Some(bytes_cmp(self.bytes.as_slice(), other.bytes.as_slice()))
    }
}

impl vstd::std_specs::cmp::PartialOrdSpecImpl for Address {
    open spec fn obeys_partial_cmp_spec() -> bool {
        true
    }

    open spec fn partial_cmp_spec(&self, other: &Address) -> Option<core::cmp::Ordering> {
        Some(lex_cmp(self@, other@))
    }
}

impl vstd::std_specs::cmp::PartialEqSpecImpl for Address {
    open spec fn obeys_eq_spec() -> bool {
        true
    }

    open spec fn eq_spec(&self, other: &Address) -> bool {
        self@ == other@
    }
}

/// Segment characters never collide with the separator, so a well-formed
/// segment holds no separator byte.
pub proof fn lemma_segment_has_no_separator(t: Seq<u8>)
    requires
        is_segment(t),
    ensures
        forall|i: int| 0 <= i < t.len() ==> t[i] != SEPARATOR,
{
    assert forall|i: int| 0 <= i < t.len() implies t[i] != SEPARATOR by {
        assert(is_seg_char(t[i]));
    }
}

/// Splitting distributes over appending a separator and a separator-free
/// tail: the tail becomes exactly one new part.
pub proof fn lemma_dot_split_append_segment(s: Seq<u8>, t: Seq<u8>)
    requires
        forall|i: int| 0 <= i < t.len() ==> t[i] != SEPARATOR,
    ensures
        dot_split(s + seq![SEPARATOR] + t) == dot_split(s).push(t),
    decreases t.len(),
{
    if t.len() == 0 {
        let u = s + seq![SEPARATOR] + t;
        assert(u =~= s + seq![SEPARATOR]);
        assert(u.drop_last() =~= s);
        assert(u.last() == SEPARATOR);
        assert(t =~= Seq::<u8>::empty());
    } else {
        lemma_dot_split_append_segment(s, t.drop_last());
        let u = s + seq![SEPARATOR] + t;
        assert(u.drop_last() =~= s + seq![SEPARATOR] + t.drop_last());
        assert(u.last() == t.last());
        assert(t[t.len() - 1] != SEPARATOR);
        let prev = dot_split(s).push(t.drop_last());
        lemma_dot_split_len(s);
        assert(prev.last() == t.drop_last());
        assert(dot_split(u) == prev.update(prev.len() - 1, t.drop_last().push(t.last())));
        assert(t.drop_last().push(t.last()) =~= t);
        assert(prev.update(prev.len() - 1, t) =~= dot_split(s).push(t));
    }
}

/// Suffixing a valid address with a separator and a well-formed segment
/// keeps it valid, as long as the result stays within the length bound.
pub proof fn lemma_valid_address_extend(s: Seq<u8>, t: Seq<u8>)
    requires
        is_valid_address(s),
        is_segment(t),
        s.len() + 1 + t.len() <= MAX_ADDRESS_LENGTH,
    ensures
        is_valid_address(s + seq![SEPARATOR] + t),
{
    lemma_segment_has_no_separator(t);
    lemma_dot_split_append_segment(s, t);
    let parts = dot_split(s);
    let parts2 = dot_split(s + seq![SEPARATOR] + t);
    assert(parts2 == parts.push(t));
    assert(parts2[0] == parts[0]);
    assert forall|i: int| 1 <= i < parts2.len() implies is_segment(#[trigger] parts2[i]) by {
        if i < parts.len() {
            assert(parts2[i] == parts[i]);
            assert(is_segment(parts[i]));
        } else {
            assert(parts2[i] == t);
        }
    }
}

} // verus!
