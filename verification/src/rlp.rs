//! Recursive length prefix items: the format as spec functions, the calls that
//! read and write single items, and the facts that relate the two.
use alloy_rlp::{Decodable, Encodable};
use vstd::prelude::*;

verus! {

/// Why an item could not be read.
#[derive(Clone, Copy, Debug, PartialEq, Eq)]
pub enum RlpError {
    Overflow,
    LeadingZero,
    InputTooShort,
    NonCanonicalSingleByte,
    NonCanonicalSize,
    UnexpectedLength,
    UnexpectedString,
    UnexpectedList,
    ListLengthMismatch { expected: usize, got: usize },
    Custom(&'static str),
}

/// `x` in base 256, most significant digit first, without leading zeros.
pub open spec fn be_bytes(x: nat) -> Seq<u8>
    decreases x,
{
    if x == 0 {
        Seq::empty()
    } else {
        be_bytes(x / 256).push((x % 256) as u8)
    }
}

/// The number that `s` spells in base 256.
pub open spec fn be_value(s: Seq<u8>) -> nat
    decreases s.len(),
{
    if s.len() == 0 {
        0
    } else {
        be_value(s.drop_last()) * 256 + s.last() as nat
    }
}

/// The header of an item with `n` payload bytes.
#[verifier::opaque]
pub open spec fn rlp_header(list: bool, n: nat) -> Seq<u8> {
    if n < 56 {
        seq![((if list { 0xc0int } else { 0x80int }) + n) as u8]
    } else {
        seq![((if list { 0xf7int } else { 0xb7int }) + be_bytes(n).len()) as u8] + be_bytes(n)
    }
}

/// A byte string as an item.
pub open spec fn rlp_string(b: Seq<u8>) -> Seq<u8> {
    if b.len() == 1 && b[0] < 0x80 {
        b
    } else {
        rlp_header(false, b.len()) + b
    }
}

/// A list whose items, one behind the other, are `payload`.
pub open spec fn rlp_list(payload: Seq<u8>) -> Seq<u8> {
    rlp_header(true, payload.len()) + payload
}

/// An unsigned integer as an item.
pub open spec fn rlp_uint(x: nat) -> Seq<u8> {
    rlp_string(be_bytes(x))
}

/// A flag as an item.
pub open spec fn rlp_bool(b: bool) -> Seq<u8> {
    rlp_uint(if b { 1 } else { 0 })
}

/// A header that was read: whether the item is a list, how many payload bytes
/// it has, and how many bytes the header took.
pub struct HeaderParts {
    pub list: bool,
    pub payload: nat,
    pub consumed: nat,
}

/// What a header read at the front of `s` gives.
pub open spec fn header_decode(s: Seq<u8>) -> Result<HeaderParts, RlpError> {
    if s.len() == 0 {
        Err(RlpError::InputTooShort)
    } else if s[0] < 0x80 {
        Ok(HeaderParts { list: false, payload: 1, consumed: 0 })
    } else if s[0] < 0xb8 {
        let n = (s[0] - 0x80) as nat;
        if s.len() < 1 + n {
            Err(RlpError::InputTooShort)
        } else if n == 1 && s[1] < 0x80 {
            Err(RlpError::NonCanonicalSingleByte)
        } else {
            Ok(HeaderParts { list: false, payload: n, consumed: 1 })
        }
    } else if s[0] < 0xc0 || s[0] >= 0xf8 {
        let list = s[0] >= 0xf8;
        let k = (s[0] - (if list { 0xf7int } else { 0xb7int })) as nat;
        let n = be_value(s.subrange(1, 1 + k as int));
        if s.len() < 1 + k {
            Err(RlpError::InputTooShort)
        } else if s[1] == 0 {
            Err(RlpError::LeadingZero)
        } else if n > usize::MAX {
            Err(RlpError::Custom("Input too big"))
        } else if n < 56 {
            Err(RlpError::NonCanonicalSize)
        } else if s.len() < 1 + k + n {
            Err(RlpError::InputTooShort)
        } else {
            Ok(HeaderParts { list, payload: n, consumed: 1 + k })
        }
    } else {
        let n = (s[0] - 0xc0) as nat;
        if s.len() < 1 + n {
            Err(RlpError::InputTooShort)
        } else {
            Ok(HeaderParts { list: true, payload: n, consumed: 1 })
        }
    }
}

/// What reading one item at the front of `s` gives: its payload and what
/// follows it.
#[verifier::opaque]
pub open spec fn item_decode(s: Seq<u8>, list: bool) -> Result<(Seq<u8>, Seq<u8>), RlpError> {
    match header_decode(s) {
        Err(e) => Err(e),
        Ok(h) => if h.list != list {
            Err(if list { RlpError::UnexpectedString } else { RlpError::UnexpectedList })
        } else {
            Ok((
                s.subrange(h.consumed as int, (h.consumed + h.payload) as int),
                s.skip((h.consumed + h.payload) as int),
            ))
        },
    }
}

/// What reading an unsigned integer of at most `width` bytes gives.
pub open spec fn uint_decode(s: Seq<u8>, width: nat) -> Result<(nat, Seq<u8>), RlpError> {
    match item_decode(s, false) {
        Err(e) => Err(e),
        Ok((payload, rest)) => if payload.len() > width {
            Err(RlpError::Overflow)
        } else if payload.len() > 0 && payload[0] == 0 {
            Err(RlpError::LeadingZero)
        } else {
            Ok((be_value(payload), rest))
        },
    }
}

/// What reading a flag gives.
pub open spec fn bool_decode(s: Seq<u8>) -> Result<(bool, Seq<u8>), RlpError> {
    match uint_decode(s, 1) {
        Err(e) => Err(e),
        Ok((v, rest)) => if v == 0 {
            Ok((false, rest))
        } else if v == 1 {
            Ok((true, rest))
        } else {
            Err(RlpError::Custom("invalid bool value, must be 0 or 1"))
        },
    }
}

/// What reading a byte string of exactly `width` bytes gives.
pub open spec fn array_decode(s: Seq<u8>, width: nat) -> Result<(Seq<u8>, Seq<u8>), RlpError> {
    match item_decode(s, false) {
        Err(e) => Err(e),
        Ok((payload, rest)) => if payload.len() != width {
            Err(RlpError::UnexpectedLength)
        } else {
            Ok((payload, rest))
        },
    }
}

// ---------------------------------------------------------------------------
// Calls into alloy_rlp
// ---------------------------------------------------------------------------

/// The error type of `alloy_rlp`, carried from a reader to `rlp_failure`.
#[verifier::external_type_specification]
#[verifier::external_body]
pub struct ExAlloyRlpError(alloy_rlp::Error);

/// Tells the variants of `alloy_rlp::Error` apart, one for one. Nothing is
/// stated here: each reader below states which variant it gives, and when.
#[verifier::external_body]
fn rlp_failure(error: alloy_rlp::Error) -> RlpError {
    match error {
        alloy_rlp::Error::Overflow => RlpError::Overflow,
        alloy_rlp::Error::LeadingZero => RlpError::LeadingZero,
        alloy_rlp::Error::InputTooShort => RlpError::InputTooShort,
        alloy_rlp::Error::NonCanonicalSingleByte => RlpError::NonCanonicalSingleByte,
        alloy_rlp::Error::NonCanonicalSize => RlpError::NonCanonicalSize,
        alloy_rlp::Error::UnexpectedLength => RlpError::UnexpectedLength,
        alloy_rlp::Error::UnexpectedString => RlpError::UnexpectedString,
        alloy_rlp::Error::UnexpectedList => RlpError::UnexpectedList,
        alloy_rlp::Error::ListLengthMismatch { expected, got } => {
            RlpError::ListLengthMismatch { expected, got }
        },
        alloy_rlp::Error::Custom(text) => RlpError::Custom(text),
    }
}

/// `alloy_rlp::Header::decode`: reads a header at the front of `input` and
/// gives back whether it is a list, its payload length and what follows the
/// header. It succeeds, and fails with the error, that `header_decode` says.
#[verifier::external_body]
pub(crate) fn read_header(input: &[u8]) -> (r: Result<(bool, usize, &[u8]), RlpError>)
    ensures
        match r {
            Ok((list, payload, rest)) => header_decode(input@) is Ok && list == header_decode(
                input@,
            )->Ok_0.list && payload == header_decode(input@)->Ok_0.payload && rest@ == input@.skip(
                header_decode(input@)->Ok_0.consumed as int,
            ),
            Err(e) => header_decode(input@) == Err::<HeaderParts, RlpError>(e),
        },
{
    let mut rest = input;
    match alloy_rlp::Header::decode(&mut rest) {
        Ok(header) => Ok((header.list, header.payload_length, rest)),
        Err(error) => Err(rlp_failure(error)),
    }
}

/// `alloy_rlp::Header::decode_bytes`: reads one list or one byte string at the
/// front of `input` and gives back its payload and what follows the item. It
/// succeeds, and fails with the error, that `item_decode` says.
#[verifier::external_body]
pub(crate) fn read_item(input: &[u8], list: bool) -> (r: Result<(&[u8], &[u8]), RlpError>)
    ensures
        match r {
            Ok((payload, rest)) => item_decode(input@, list) == Ok::<_, RlpError>(
                (payload@, rest@),
            ),
            Err(e) => item_decode(input@, list) == Err::<(Seq<u8>, Seq<u8>), RlpError>(e),
        },
{
    let mut rest = input;
    match alloy_rlp::Header::decode_bytes(&mut rest, list) {
        Ok(payload) => Ok((payload, rest)),
        Err(error) => Err(rlp_failure(error)),
    }
}

/// `<u64 as alloy_rlp::Decodable>::decode`: reads an integer of at most eight
/// bytes at the front of `input`, as `uint_decode` says.
#[verifier::external_body]
pub(crate) fn read_u64(input: &[u8]) -> (r: Result<(u64, &[u8]), RlpError>)
    ensures
        match r {
            Ok((x, rest)) => uint_decode(input@, 8) == Ok::<_, RlpError>((x as nat, rest@)),
            Err(e) => uint_decode(input@, 8) == Err::<(nat, Seq<u8>), RlpError>(e),
        },
{
    let mut rest = input;
    match u64::decode(&mut rest) {
        Ok(value) => Ok((value, rest)),
        Err(error) => Err(rlp_failure(error)),
    }
}

/// `<u8 as alloy_rlp::Decodable>::decode`: reads an integer of at most one byte
/// at the front of `input`, as `uint_decode` says.
#[verifier::external_body]
pub(crate) fn read_u8(input: &[u8]) -> (r: Result<(u8, &[u8]), RlpError>)
    ensures
        match r {
            Ok((x, rest)) => uint_decode(input@, 1) == Ok::<_, RlpError>((x as nat, rest@)),
            Err(e) => uint_decode(input@, 1) == Err::<(nat, Seq<u8>), RlpError>(e),
        },
{
    let mut rest = input;
    match u8::decode(&mut rest) {
        Ok(value) => Ok((value, rest)),
        Err(error) => Err(rlp_failure(error)),
    }
}

/// `<bool as alloy_rlp::Decodable>::decode`: reads a flag at the front of
/// `input`, as `bool_decode` says.
#[verifier::external_body]
pub(crate) fn read_bool(input: &[u8]) -> (r: Result<(bool, &[u8]), RlpError>)
    ensures
        match r {
            Ok((x, rest)) => bool_decode(input@) == Ok::<_, RlpError>((x, rest@)),
            Err(e) => bool_decode(input@) == Err::<(bool, Seq<u8>), RlpError>(e),
        },
{
    let mut rest = input;
    match bool::decode(&mut rest) {
        Ok(value) => Ok((value, rest)),
        Err(error) => Err(rlp_failure(error)),
    }
}

/// `<[u8; N] as alloy_rlp::Decodable>::decode`: reads a byte string of exactly
/// `N` bytes at the front of `input`, as `array_decode` says.
#[verifier::external_body]
pub(crate) fn read_array<const N: usize>(input: &[u8]) -> (r: Result<([u8; N], &[u8]), RlpError>)
    ensures
        match r {
            Ok((x, rest)) => array_decode(input@, N as nat) == Ok::<_, RlpError>((x@, rest@)),
            Err(e) => array_decode(input@, N as nat) == Err::<(Seq<u8>, Seq<u8>), RlpError>(e),
        },
{
    let mut rest = input;
    match <[u8; N]>::decode(&mut rest) {
        Ok(value) => Ok((value, rest)),
        Err(error) => Err(rlp_failure(error)),
    }
}

/// `alloy_rlp::Header::encode`: appends the header of an item.
#[verifier::external_body]
pub(crate) fn write_header(out: &mut Vec<u8>, list: bool, payload_length: usize)
    ensures
        final(out)@ == old(out)@ + rlp_header(list, payload_length as nat),
{
    alloy_rlp::Header { list, payload_length }.encode(out);
}

/// `alloy_rlp::Header::length`: the number of bytes that the header takes.
#[verifier::external_body]
pub(crate) fn header_length(list: bool, payload_length: usize) -> (r: usize)
    ensures
        r == rlp_header(list, payload_length as nat).len(),
{
    alloy_rlp::Header { list, payload_length }.length()
}

/// `<[u8] as alloy_rlp::Encodable>::encode`: appends a byte string.
#[verifier::external_body]
pub(crate) fn write_bytes(out: &mut Vec<u8>, bytes: &[u8])
    ensures
        final(out)@ == old(out)@ + rlp_string(bytes@),
{
    bytes.encode(out);
}

/// `<[u8] as alloy_rlp::Encodable>::length`: the number of bytes that a byte
/// string takes as an item.
#[verifier::external_body]
pub(crate) fn bytes_length(bytes: &[u8]) -> (r: usize)
    requires
        bytes@.len() <= usize::MAX - 9,
    ensures
        r == rlp_string(bytes@).len(),
{
    bytes.length()
}

/// `<u64 as alloy_rlp::Encodable>::encode`: appends an integer.
#[verifier::external_body]
pub(crate) fn write_u64(out: &mut Vec<u8>, value: u64)
    ensures
        final(out)@ == old(out)@ + rlp_uint(value as nat),
{
    value.encode(out);
}

/// `<u64 as alloy_rlp::Encodable>::length`: the number of bytes that an integer
/// takes as an item.
#[verifier::external_body]
pub(crate) fn u64_length(value: u64) -> (r: usize)
    ensures
        r == rlp_uint(value as nat).len(),
{
    value.length()
}

/// `<u8 as alloy_rlp::Encodable>::encode`: appends a one-byte integer.
#[verifier::external_body]
pub(crate) fn write_u8(out: &mut Vec<u8>, value: u8)
    ensures
        final(out)@ == old(out)@ + rlp_uint(value as nat),
{
    value.encode(out);
}

/// `<u8 as alloy_rlp::Encodable>::length`: the number of bytes that a one-byte
/// integer takes as an item.
#[verifier::external_body]
pub(crate) fn u8_length(value: u8) -> (r: usize)
    ensures
        r == rlp_uint(value as nat).len(),
{
    value.length()
}

/// `<bool as alloy_rlp::Encodable>::encode`: appends a flag.
#[verifier::external_body]
pub(crate) fn write_bool(out: &mut Vec<u8>, value: bool)
    ensures
        final(out)@ == old(out)@ + rlp_bool(value),
{
    value.encode(out);
}

/// `<bool as alloy_rlp::Encodable>::length`: the number of bytes that a flag
/// takes as an item.
#[verifier::external_body]
pub(crate) fn bool_length(value: bool) -> (r: usize)
    ensures
        r == rlp_bool(value).len(),
{
    value.length()
}

// ---------------------------------------------------------------------------
// Facts about the format
// ---------------------------------------------------------------------------

/// `be_value` undoes `be_bytes`, whose first digit is never zero.
pub proof fn lemma_be_bytes(x: nat)
    ensures
        be_value(be_bytes(x)) == x,
        x > 0 ==> be_bytes(x).len() > 0 && be_bytes(x)[0] != 0,
        x == 0 ==> be_bytes(x).len() == 0,
    decreases x,
{
    if x > 0 {
        lemma_be_bytes(x / 256);
        assert(be_bytes(x).drop_last() =~= be_bytes(x / 256));
        if x < 256 {
            assert(be_bytes(x / 256).len() == 0);
            assert(be_bytes(x)[0] == (x % 256) as u8);
        } else {
            assert(be_bytes(x)[0] == be_bytes(x / 256)[0]);
        }
    }
}

/// `be_bytes` undoes `be_value` on digits without a leading zero.
pub proof fn lemma_be_value(s: Seq<u8>)
    requires
        s.len() > 0 ==> s[0] != 0,
    ensures
        be_bytes(be_value(s)) == s,
        s.len() > 0 ==> be_value(s) > 0,
    decreases s.len(),
{
    if s.len() > 0 {
        let t = s.drop_last();
        if t.len() > 0 {
            assert(t[0] == s[0]);
        }
        lemma_be_value(t);
        let x = be_value(s);
        assert(x / 256 == be_value(t) && x % 256 == s.last() as nat) by (nonlinear_arith)
            requires
                x == be_value(t) * 256 + s.last() as nat,
                s.last() as nat <= 255,
        ;
        if t.len() == 0 {
            assert(s.last() == s[0]);
        }
        assert(x > 0);
        assert(be_bytes(x) =~= s);
    }
}

/// A number below 256 to the `k` has at most `k` digits.
pub proof fn lemma_be_len(x: nat, k: nat)
    requires
        x < vstd::arithmetic::power::pow(256, k),
    ensures
        be_bytes(x).len() <= k,
    decreases k,
{
    vstd::arithmetic::power::lemma_pow0(256);
    if x > 0 {
        if k == 0 {
            assert(false);
        }
        vstd::arithmetic::power::lemma_pow1(256);
        vstd::arithmetic::power::lemma_pow_adds(256, 1, (k - 1) as nat);
        let p = vstd::arithmetic::power::pow(256, (k - 1) as nat);
        assert(x / 256 < p) by (nonlinear_arith)
            requires
                x < 256 * p,
        ;
        lemma_be_len(x / 256, (k - 1) as nat);
    }
}

/// Every 64-bit number has at most eight digits, and every 8-bit number one.
pub proof fn lemma_be_len_words(x: nat)
    ensures
        x <= u64::MAX ==> be_bytes(x).len() <= 8,
        x <= u8::MAX ==> be_bytes(x).len() <= 1,
{
    vstd::arithmetic::power::lemma_pow1(256);
    vstd::arithmetic::power::lemma_pow_adds(256, 1, 1);
    vstd::arithmetic::power::lemma_pow_adds(256, 2, 2);
    vstd::arithmetic::power::lemma_pow_adds(256, 4, 4);
    let p = vstd::arithmetic::power::pow(256, 2);
    let q = vstd::arithmetic::power::pow(256, 4);
    assert(p == 0x1_0000);
    assert(q == 0x1_0000_0000) by (nonlinear_arith)
        requires
            p == 0x1_0000,
            q == p * p,
    ;
    assert(q * q == 0x1_0000_0000_0000_0000) by (nonlinear_arith)
        requires
            q == 0x1_0000_0000,
    ;
    if x <= u64::MAX {
        lemma_be_len(x, 8);
    }
    if x <= u8::MAX {
        lemma_be_len(x, 1);
    }
}

/// Digits spell a number below 256 to their count.
pub proof fn lemma_be_value_bound(s: Seq<u8>)
    ensures
        be_value(s) < vstd::arithmetic::power::pow(256, s.len()),
    decreases s.len(),
{
    vstd::arithmetic::power::lemma_pow0(256);
    if s.len() > 0 {
        lemma_be_value_bound(s.drop_last());
        let k = (s.len() - 1) as nat;
        vstd::arithmetic::power::lemma_pow1(256);
        vstd::arithmetic::power::lemma_pow_adds(256, 1, k);
        let p = vstd::arithmetic::power::pow(256, k);
        let v = be_value(s.drop_last());
        assert(v * 256 + s.last() as nat <= 256 * p - 1) by (nonlinear_arith)
            requires
                v <= p - 1,
                s.last() as nat <= 255,
        ;
    }
}

/// Reading a list that was written gives back its payload and what follows.
pub proof fn lemma_list_round_trip(payload: Seq<u8>, rest: Seq<u8>)
    requires
        payload.len() <= usize::MAX,
    ensures
        header_decode(rlp_list(payload) + rest) == Ok::<_, RlpError>(
            HeaderParts {
                list: true,
                payload: payload.len(),
                consumed: rlp_header(true, payload.len()).len(),
            },
        ),
        item_decode(rlp_list(payload) + rest, true) == Ok::<_, RlpError>((payload, rest)),
{
    reveal(rlp_header);
    reveal(item_decode);
    let n = payload.len();
    let s = rlp_list(payload) + rest;
    lemma_be_bytes(n);
    lemma_be_len_words(n);
    let h = rlp_header(true, n);
    assert(s[0] == h[0]);
    if n >= 56 {
        let k = be_bytes(n).len();
        assert(s.subrange(1, 1 + k as int) =~= be_bytes(n));
        assert(s[1] == be_bytes(n)[0]);
    }
    assert(s.subrange(h.len() as int, (h.len() + n) as int) =~= payload);
    assert(s.skip((h.len() + n) as int) =~= rest);
}

/// Reading a byte string that was written gives it back with what follows.
pub proof fn lemma_string_round_trip(b: Seq<u8>, rest: Seq<u8>)
    requires
        b.len() <= usize::MAX,
    ensures
        item_decode(rlp_string(b) + rest, false) == Ok::<_, RlpError>((b, rest)),
{
    reveal(rlp_header);
    reveal(item_decode);
    let n = b.len();
    let s = rlp_string(b) + rest;
    if n == 1 && b[0] < 0x80 {
        assert(s[0] == b[0]);
        assert(s.subrange(0, 1) =~= b);
        assert(s.skip(1) =~= rest);
    } else {
        lemma_be_bytes(n);
        lemma_be_len_words(n);
        let h = rlp_header(false, n);
        assert(s[0] == h[0]);
        if n >= 56 {
            let k = be_bytes(n).len();
            assert(s.subrange(1, 1 + k as int) =~= be_bytes(n));
            assert(s[1] == be_bytes(n)[0]);
        } else if n == 1 {
            assert(s[1] == b[0]);
        }
        assert(s.subrange(h.len() as int, (h.len() + n) as int) =~= b);
        assert(s.skip((h.len() + n) as int) =~= rest);
    }
}

/// What was read is what would be written: the reader accepts one form only.
pub proof fn lemma_item_canonical(s: Seq<u8>, list: bool)
    ensures
        match item_decode(s, list) {
            Ok((payload, rest)) => s == (if list {
                rlp_list(payload)
            } else {
                rlp_string(payload)
            }) + rest && payload.len() <= usize::MAX,
            Err(_) => true,
        },
{
    reveal(rlp_header);
    reveal(item_decode);
    if let Ok((payload, rest)) = item_decode(s, list) {
        let h = header_decode(s)->Ok_0;
        if s[0] >= 0x80 && !(s[0] < 0xb8) && (s[0] < 0xc0 || s[0] >= 0xf8) {
            let k = (s[0] - (if list { 0xf7int } else { 0xb7int })) as int;
            let d = s.subrange(1, 1 + k);
            assert(d[0] == s[1]);
            lemma_be_value(d);
            assert(be_bytes(h.payload) == d);
        }
        if list {
            assert(s =~= rlp_list(payload) + rest);
        } else {
            if s[0] >= 0x80 && h.payload == 1 {
                assert(payload[0] == s[1]);
            }
            assert(s =~= rlp_string(payload) + rest);
        }
    }
}

/// Reading an integer that was written gives it back with what follows.
pub proof fn lemma_uint_round_trip(x: nat, width: nat, rest: Seq<u8>)
    requires
        width == 8 && x <= u64::MAX || width == 1 && x <= u8::MAX,
    ensures
        uint_decode(rlp_uint(x) + rest, width) == Ok::<_, RlpError>((x, rest)),
{
    lemma_be_bytes(x);
    lemma_be_len_words(x);
    lemma_string_round_trip(be_bytes(x), rest);
}

/// An integer that was read is what would be written.
pub proof fn lemma_uint_canonical(s: Seq<u8>, width: nat)
    ensures
        match uint_decode(s, width) {
            Ok((x, rest)) => s == rlp_uint(x) + rest,
            Err(_) => true,
        },
{
    if let Ok((payload, rest)) = item_decode(s, false) {
        lemma_item_canonical(s, false);
        if payload.len() <= width && !(payload.len() > 0 && payload[0] == 0) {
            lemma_be_value(payload);
        }
    }
}

/// Reading a flag that was written gives it back with what follows.
pub proof fn lemma_bool_round_trip(b: bool, rest: Seq<u8>)
    ensures
        bool_decode(rlp_bool(b) + rest) == Ok::<_, RlpError>((b, rest)),
{
    lemma_uint_round_trip(if b { 1 } else { 0 }, 1, rest);
}

/// A flag that was read is what would be written.
pub proof fn lemma_bool_canonical(s: Seq<u8>)
    ensures
        match bool_decode(s) {
            Ok((b, rest)) => s == rlp_bool(b) + rest,
            Err(_) => true,
        },
{
    lemma_uint_canonical(s, 1);
}

} // verus!
