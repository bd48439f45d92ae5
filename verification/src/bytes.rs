//! Fixed-width byte strings: 32-byte roots, signatures and commitments.
use vstd::prelude::*;

verus! {

broadcast use vstd::array::group_array_axioms;

/// A 32-byte value: a block root, a state root or a node of a Merkle proof.
#[derive(Debug, Clone, Copy, PartialEq, Eq, Hash)]
pub struct B256(pub [u8; 32]);

/// A compressed BLS signature.
#[derive(Debug, Clone, Copy, PartialEq, Eq, Hash)]
pub struct BLSSignature(pub [u8; 96]);

/// A compressed BLS public key.
#[derive(Debug, Clone, Copy, PartialEq, Eq, Hash)]
pub struct PublicKey(pub [u8; 48]);

/// A KZG commitment to a blob.
#[derive(Debug, Clone, Copy, PartialEq, Eq, Hash)]
pub struct KZGCommitment(pub [u8; 48]);

/// A KZG proof for one cell of a blob.
#[derive(Debug, Clone, Copy, PartialEq, Eq, Hash)]
pub struct KZGProof(pub [u8; 48]);

/// Whether two byte arrays hold the same bytes.
pub fn bytes_equal<const N: usize>(left: &[u8; N], right: &[u8; N]) -> (same: bool)
    ensures
        same == (*left == *right),
{
    let mut index: usize = 0;
    while index < N
        invariant
            index <= N,
            forall|i: int| 0 <= i < index ==> left[i] == right[i],
        decreases N - index,
    {
        if left[index] != right[index] {
            assert(left[index as int] != right[index as int]);
            return false;
        }
        index = index + 1;
    }
    assert(*left =~= *right);
    true
}

impl B256 {
    /// The value whose 32 bytes all equal `byte`.
    pub fn repeat_byte(byte: u8) -> (value: B256)
        ensures
            forall|i: int| 0 <= i < 32 ==> value.0[i] == byte,
    {
        B256([byte; 32])
    }

    /// Whether both values hold the same 32 bytes.
    pub fn equals(&self, other: &B256) -> (same: bool)
        ensures
            same == (*self == *other),
    {
        bytes_equal(&self.0, &other.0)
    }
}

impl BLSSignature {
    /// Whether both signatures hold the same 96 bytes.
    pub fn equals(&self, other: &BLSSignature) -> (same: bool)
        ensures
            same == (*self == *other),
    {
        bytes_equal(&self.0, &other.0)
    }
}

/// The first `count` bytes of `value` in little-endian order.
pub open spec fn little_endian(value: nat, count: nat) -> Seq<u8>
    decreases count,
{
    if count == 0 {
        Seq::empty()
    } else {
        seq![(value % 256) as u8] + little_endian(value / 256, (count - 1) as nat)
    }
}

/// Appends the `count` low-order bytes of `value`, least significant first.
pub fn append_little_endian(buffer: &mut Vec<u8>, value: u64, count: usize)
    ensures
        final(buffer)@ == old(buffer)@ + little_endian(value as nat, count as nat),
    decreases count,
{
    if count > 0 {
        buffer.push((value % 256) as u8);
        append_little_endian(buffer, value / 256, count - 1);
        assert(buffer@ =~= old(buffer)@ + little_endian(value as nat, count as nat));
    } else {
        assert(buffer@ =~= old(buffer)@ + little_endian(value as nat, count as nat));
    }
}

/// Appends every byte of `bytes`.
pub fn append_bytes(buffer: &mut Vec<u8>, bytes: &[u8])
    ensures
        final(buffer)@ == old(buffer)@ + bytes@,
{
    let ghost start = buffer@;
    let mut index: usize = 0;
    while index < bytes.len()
        invariant
            index <= bytes@.len(),
            buffer@ == start + bytes@.take(index as int),
        decreases bytes@.len() - index,
    {
        buffer.push(bytes[index]);
        index = index + 1;
        assert(buffer@ =~= start + bytes@.take(index as int));
    }
    assert(bytes@.take(bytes@.len() as int) =~= bytes@);
}

/// A little-endian encoding of `count` bytes has `count` bytes.
pub proof fn lemma_little_endian_length(value: nat, count: nat)
    ensures
        little_endian(value, count).len() == count,
    decreases count,
{
    if count > 0 {
        lemma_little_endian_length(value / 256, (count - 1) as nat);
    }
}

/// Different numbers that fit in `count` bytes have different encodings.
pub proof fn lemma_little_endian_injective(left: nat, right: nat, count: nat)
    requires
        left < vstd::arithmetic::power::pow(256, count),
        right < vstd::arithmetic::power::pow(256, count),
    ensures
        little_endian(left, count) == little_endian(right, count) ==> left == right,
    decreases count,
{
    reveal(vstd::arithmetic::power::pow);
    if count > 0 && little_endian(left, count) == little_endian(right, count) {
        let less = (count - 1) as nat;
        let left_rest = little_endian(left / 256, less);
        let right_rest = little_endian(right / 256, less);
        assert(little_endian(left, count)[0] == (left % 256) as u8);
        assert(little_endian(right, count)[0] == (right % 256) as u8);
        assert(little_endian(left, count).skip(1) =~= left_rest);
        assert(little_endian(right, count).skip(1) =~= right_rest);
        lemma_little_endian_injective(left / 256, right / 256, less);
    }
}

/// The character of one hexadecimal digit, in lower case.
pub open spec fn hex_digit(digit: int) -> char {
    if digit < 10 {
        (digit + 48) as char
    } else {
        (digit + 87) as char
    }
}

/// Two hexadecimal digits for each byte.
pub open spec fn hex(bytes: Seq<u8>) -> Seq<char>
    decreases bytes.len(),
{
    if bytes.len() == 0 {
        Seq::empty()
    } else {
        hex(bytes.drop_last()).push(hex_digit(bytes.last() as int / 16)).push(
            hex_digit(bytes.last() as int % 16),
        )
    }
}

/// The text of a root: `0x` and its bytes in hexadecimal.
pub open spec fn root_text(root: B256) -> Seq<char> {
    seq!['0', 'x'] + hex(root.0@)
}

/// Calls the `Display` impl of `alloy_primitives::FixedBytes<32>` without flags,
/// which writes `0x` and every byte as two lower-case hexadecimal digits.
#[verifier::external_body]
pub(crate) fn display_root(root: &B256) -> (text: String)
    ensures
        text@ == root_text(*root),
{
    format!("{}", alloy_primitives::B256::from(root.0))
}

/// Each byte of a little-endian encoding is the digit of its place in base 256.
pub proof fn little_endian_bytes_are_digits(value: nat, count: nat, place: nat)
    requires
        place < count,
    ensures
        little_endian(value, count).len() == count,
        little_endian(value, count)[place as int] == (value as int / vstd::arithmetic::power::pow(
            256,
            place,
        )) % 256,
    decreases count,
{
    lemma_little_endian_length(value, count);
    reveal(vstd::arithmetic::power::pow);
    if place > 0 {
        let less = (place - 1) as nat;
        let rest = (count - 1) as nat;
        lemma_little_endian_length(value / 256, rest);
        little_endian_bytes_are_digits(value / 256, rest, less);
        vstd::arithmetic::power::lemma_pow_positive(256, less);
        vstd::arithmetic::div_mod::lemma_div_denominator(
            value as int,
            256,
            vstd::arithmetic::power::pow(256, less),
        );
        assert(vstd::arithmetic::power::pow(256, place) == 256 * vstd::arithmetic::power::pow(
            256,
            less,
        ));
        assert(little_endian(value, count)[place as int] == little_endian(
            value / 256,
            rest,
        )[less as int]);
    } else {
        assert(vstd::arithmetic::power::pow(256, 0) == 1);
        assert(little_endian(value, count)[0] == (value % 256) as u8);
    }
}

} // verus!
