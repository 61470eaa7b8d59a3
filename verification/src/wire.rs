//! How values are written to a connection: numbers, truth values and texts, in the encoding of
//! `bincode` with its standard configuration.

use vstd::prelude::*;

verus! {

/// Why bytes are not a value.
#[derive(Debug, Clone, Copy, PartialEq, Eq, Structural)]
pub enum WireError {
    /// They are the beginning of one, as far as they go.
    Incomplete,
    /// They are not, whatever may follow.
    Invalid,
}

/// The number that bytes stand for, lowest byte first.
pub open spec fn le_value(bytes: Seq<u8>) -> nat
    decreases bytes.len(),
{
    if bytes.len() == 0 {
        0
    } else {
        bytes[0] as nat + 256 * le_value(bytes.skip(1))
    }
}

/// The lowest `k` bytes of a number, lowest byte first.
pub open spec fn le_bytes(n: nat, k: nat) -> Seq<u8>
    decreases k,
{
    if k == 0 {
        Seq::empty()
    } else {
        seq![(n % 256) as u8] + le_bytes(n / 256, (k - 1) as nat)
    }
}

/// The first number that does not fit in `k` bytes.
pub open spec fn byte_bound(k: nat) -> nat
    decreases k,
{
    if k == 0 {
        1
    } else {
        256 * byte_bound((k - 1) as nat)
    }
}

/// The encoding of a number below 2^64: one byte for a small one, or a mark followed by 2, 4 or 8
/// bytes.
pub open spec fn varint(n: nat) -> Seq<u8> {
    if n < 251 {
        seq![n as u8]
    } else if n <= 0xffff {
        seq![251u8] + le_bytes(n, 2)
    } else if n <= 0xffff_ffff {
        seq![252u8] + le_bytes(n, 4)
    } else {
        seq![253u8] + le_bytes(n, 8)
    }
}

/// How many bytes a number takes that starts with the given one; 0 where none does.
pub open spec fn varint_length(first: u8) -> nat {
    if first < 251 {
        1
    } else if first == 251 {
        3
    } else if first == 252 {
        5
    } else if first == 253 {
        9
    } else {
        0
    }
}

/// The number at the start of bytes, with the number of bytes that it takes; at most `limit`.
pub open spec fn read_varint(bytes: Seq<u8>, limit: nat) -> Result<(nat, nat), WireError> {
    if bytes.len() == 0 {
        Err(WireError::Incomplete)
    } else {
        let length = varint_length(bytes[0]);
        if length == 0 || length > limit {
            Err(WireError::Invalid)
        } else if bytes.len() < length {
            Err(WireError::Incomplete)
        } else if length == 1 {
            Ok((bytes[0] as nat, 1))
        } else {
            Ok((le_value(bytes.subrange(1, length as int)), length))
        }
    }
}

/// The encoding of a truth value.
pub open spec fn bool_bytes(b: bool) -> Seq<u8> {
    if b {
        seq![1u8]
    } else {
        seq![0u8]
    }
}

/// The truth value at the start of bytes.
pub open spec fn read_bool(bytes: Seq<u8>) -> Result<(bool, nat), WireError> {
    if bytes.len() == 0 {
        Err(WireError::Incomplete)
    } else if bytes[0] == 0 {
        Ok((false, 1))
    } else if bytes[0] == 1 {
        Ok((true, 1))
    } else {
        Err(WireError::Invalid)
    }
}

/// The encoding of a text: the number of its bytes, and its bytes.
pub open spec fn text_bytes(text: Seq<char>) -> Seq<u8> {
    varint(vstd::utf8::encode_utf8(text).len()) + vstd::utf8::encode_utf8(text)
}

/// The text at the start of bytes.
pub open spec fn read_text(bytes: Seq<u8>) -> Result<(Seq<char>, nat), WireError> {
    match read_varint(bytes, 9) {
        Err(e) => Err(e),
        Ok((n, start)) => {
            if bytes.len() < start + n {
                Err(WireError::Incomplete)
            } else {
                let text = bytes.subrange(start as int, (start + n) as int);
                if vstd::utf8::valid_utf8(text) {
                    Ok((vstd::utf8::decode_utf8(text), start + n))
                } else {
                    Err(WireError::Invalid)
                }
            }
        },
    }
}

proof fn lemma_le_round_trip(n: nat, k: nat)
    requires
        n < byte_bound(k),
    ensures
        le_bytes(n, k).len() == k,
        le_value(le_bytes(n, k)) == n,
    decreases k,
{
    if k > 0 {
        let rest = le_bytes(n / 256, (k - 1) as nat);
        lemma_le_round_trip(n / 256, (k - 1) as nat);
        assert(le_bytes(n, k).skip(1) =~= rest);
    }
}

proof fn lemma_byte_bounds()
    ensures
        byte_bound(2) == 0x1_0000,
        byte_bound(4) == 0x1_0000_0000,
        byte_bound(8) == 0x1_0000_0000_0000_0000,
{
    reveal_with_fuel(byte_bound, 9);
}

/// A number is read back as it was written, whatever follows it, and not before it is complete.
pub proof fn lemma_varint(n: nat, rest: Seq<u8>, limit: nat)
    requires
        n < 0x1_0000_0000_0000_0000,
        limit >= 9 || (limit >= 5 && n <= 0xffff_ffff),
    ensures
        read_varint(varint(n) + rest, limit) == Ok::<(nat, nat), WireError>((n, varint(n).len())),
        forall|k: int|
            0 <= k < varint(n).len() ==> read_varint(#[trigger] varint(n).take(k), limit) == Err::<
                (nat, nat),
                WireError,
            >(WireError::Incomplete),
        1 <= varint(n).len() <= 9,
{
    lemma_byte_bounds();
    let all = varint(n) + rest;
    if n >= 251 {
        let k: nat = if n <= 0xffff {
            2
        } else if n <= 0xffff_ffff {
            4
        } else {
            8
        };
        lemma_le_round_trip(n, k);
        assert(all.subrange(1, k as int + 1) =~= le_bytes(n, k));
        assert(varint_length(all[0]) == k + 1);
    }
    assert forall|k: int| 0 <= k < varint(n).len() implies read_varint(
        #[trigger] varint(n).take(k),
        limit,
    ) == Err::<(nat, nat), WireError>(WireError::Incomplete) by {
        if k > 0 {
            assert(varint(n).take(k)[0] == varint(n)[0]);
        }
    }
}

/// What was read of bytes is read of them whatever follows; and what is invalid stays so.
pub proof fn lemma_varint_extends(bytes: Seq<u8>, more: Seq<u8>, limit: nat)
    requires
        read_varint(bytes, limit) != Err::<(nat, nat), WireError>(WireError::Incomplete),
    ensures
        read_varint(bytes + more, limit) == read_varint(bytes, limit),
        read_varint(bytes, limit) matches Ok((n, used)) ==> used <= bytes.len(),
{
    assert(bytes.len() > 0);
    assert((bytes + more)[0] == bytes[0]);
    let length = varint_length(bytes[0]);
    if 1 < length <= limit && length <= bytes.len() {
        assert((bytes + more).subrange(1, length as int) =~= bytes.subrange(1, length as int));
    }
}

/// A text is read back as it was written, whatever follows it, and not before it is complete.
pub proof fn lemma_text(text: Seq<char>, rest: Seq<u8>)
    requires
        vstd::utf8::encode_utf8(text).len() < 0x1_0000_0000_0000_0000,
    ensures
        read_text(text_bytes(text) + rest) == Ok::<(Seq<char>, nat), WireError>(
            (text, text_bytes(text).len()),
        ),
        forall|k: int|
            0 <= k < text_bytes(text).len() ==> read_text(#[trigger] text_bytes(text).take(k))
                == Err::<(Seq<char>, nat), WireError>(WireError::Incomplete),
{
    let body = vstd::utf8::encode_utf8(text);
    let head = varint(body.len());
    lemma_varint(body.len(), body + rest, 9);
    vstd::utf8::encode_utf8_valid_utf8(text);
    vstd::utf8::encode_utf8_decode_utf8(text);
    assert(text_bytes(text) + rest =~= head + (body + rest));
    assert((text_bytes(text) + rest).subrange(head.len() as int, (head.len() + body.len()) as int)
        =~= body);
    assert forall|k: int| 0 <= k < text_bytes(text).len() implies read_text(
        #[trigger] text_bytes(text).take(k),
    ) == Err::<(Seq<char>, nat), WireError>(WireError::Incomplete) by {
        if k < head.len() {
            assert(text_bytes(text).take(k) =~= head.take(k));
        } else {
            let part = body.take(k - head.len());
            lemma_varint(body.len(), part, 9);
            assert(text_bytes(text).take(k) =~= head + part);
        }
    }
}

/// What was read of bytes is read of them whatever follows; and what is invalid stays so.
pub proof fn lemma_text_extends(bytes: Seq<u8>, more: Seq<u8>)
    requires
        read_text(bytes) != Err::<(Seq<char>, nat), WireError>(WireError::Incomplete),
    ensures
        read_text(bytes + more) == read_text(bytes),
        read_text(bytes) matches Ok((text, used)) ==> used <= bytes.len(),
{
    lemma_varint_extends(bytes, more, 9);
    if let Ok((n, start)) = read_varint(bytes, 9) {
        assert((bytes + more).subrange(start as int, (start + n) as int) =~= bytes.subrange(
            start as int,
            (start + n) as int,
        ));
    }
}

/// `bincode::encode_to_vec` of a `u32`.
#[verifier::external_body]
pub(crate) fn encode_u32(n: u32) -> (res: Vec<u8>)
    ensures
        res@ == varint(n as nat),
{
    bincode::encode_to_vec(n, bincode::config::standard()).unwrap()
}

/// `bincode::encode_to_vec` of a `bool`.
#[verifier::external_body]
pub(crate) fn encode_bool(b: bool) -> (res: Vec<u8>)
    ensures
        res@ == bool_bytes(b),
{
    bincode::encode_to_vec(b, bincode::config::standard()).unwrap()
}

/// `bincode::encode_to_vec` of a `String`.
#[verifier::external_body]
pub(crate) fn encode_text(text: &String) -> (res: Vec<u8>)
    ensures
        res@ == text_bytes(text@),
{
    bincode::encode_to_vec(text, bincode::config::standard()).unwrap()
}

/// `bincode::decode_from_slice` of a `u32`, out of the bytes from a place on.
#[verifier::external_body]
pub(crate) fn decode_u32(bytes: &Vec<u8>, from: usize) -> (res: Result<(u32, usize), WireError>)
    requires
        from <= bytes@.len(),
    ensures
        read_varint(bytes@.skip(from as int), 5) == match res {
            Ok((n, used)) => Ok((n as nat, used as nat)),
            Err(e) => Err(e),
        },
{
    match bincode::decode_from_slice(&bytes[from..], bincode::config::standard()) {
        Ok(decoded) => Ok(decoded),
        Err(bincode::error::DecodeError::UnexpectedEnd { .. }) => Err(WireError::Incomplete),
        Err(_) => Err(WireError::Invalid),
    }
}

/// `bincode::decode_from_slice` of a `u64`, out of the bytes from a place on.
#[verifier::external_body]
pub(crate) fn decode_u64(bytes: &Vec<u8>, from: usize) -> (res: Result<(u64, usize), WireError>)
    requires
        from <= bytes@.len(),
    ensures
        read_varint(bytes@.skip(from as int), 9) == match res {
            Ok((n, used)) => Ok((n as nat, used as nat)),
            Err(e) => Err(e),
        },
{
    match bincode::decode_from_slice(&bytes[from..], bincode::config::standard()) {
        Ok(decoded) => Ok(decoded),
        Err(bincode::error::DecodeError::UnexpectedEnd { .. }) => Err(WireError::Incomplete),
        Err(_) => Err(WireError::Invalid),
    }
}

/// `bincode::decode_from_slice` of a `bool`, out of the bytes from a place on.
#[verifier::external_body]
pub(crate) fn decode_bool(bytes: &Vec<u8>, from: usize) -> (res: Result<(bool, usize), WireError>)
    requires
        from <= bytes@.len(),
    ensures
        read_bool(bytes@.skip(from as int)) == match res {
            Ok((b, used)) => Ok((b, used as nat)),
            Err(e) => Err(e),
        },
{
    match bincode::decode_from_slice(&bytes[from..], bincode::config::standard()) {
        Ok(decoded) => Ok(decoded),
        Err(bincode::error::DecodeError::UnexpectedEnd { .. }) => Err(WireError::Incomplete),
        Err(_) => Err(WireError::Invalid),
    }
}

/// `bincode::decode_from_slice` of a `String`, out of the bytes from a place on. It makes room for
/// as many bytes as the text says that it has, so it is called only where they are there.
#[verifier::external_body]
fn decode_whole_text(bytes: &Vec<u8>, from: usize) -> (res: Result<(String, usize), WireError>)
    requires
        from <= bytes@.len(),
        read_varint(bytes@.skip(from as int), 9) matches Ok((n, start)) && from + start + n
            <= bytes@.len(),
    ensures
        read_text(bytes@.skip(from as int)) == match res {
            Ok((text, used)) => Ok((text@, used as nat)),
            Err(e) => Err(e),
        },
{
    match bincode::decode_from_slice(&bytes[from..], bincode::config::standard()) {
        Ok(decoded) => Ok(decoded),
        Err(bincode::error::DecodeError::UnexpectedEnd { .. }) => Err(WireError::Incomplete),
        Err(_) => Err(WireError::Invalid),
    }
}

/// The text in the bytes from a place on.
pub(crate) fn decode_text(bytes: &Vec<u8>, from: usize) -> (res: Result<(String, usize), WireError>)
    requires
        from <= bytes@.len(),
    ensures
        read_text(bytes@.skip(from as int)) == match res {
            Ok((text, used)) => Ok((text@, used as nat)),
            Err(e) => Err(e),
        },
{
    match decode_u64(bytes, from) {
        Err(e) => Err(e),
        Ok((n, start)) => {
            let left: usize = bytes.len() - from;
            if start > left || n > (left - start) as u64 {
                return Err(WireError::Incomplete);
            }
            decode_whole_text(bytes, from)
        },
    }
}

} // verus!
