//! Blocks, headers and data column sidecars, as far as availability reads them.
use vstd::prelude::*;

use crate::bytes::{append_bytes, append_little_endian, BLSSignature, KZGCommitment, KZGProof, B256};
use crate::bytes::{lemma_little_endian_injective, lemma_little_endian_length, little_endian};
use crate::merkle::{merkle_root, merkle_root_bytes};

verus! {

/// How many columns the extended data of a block is split into.
pub const NUMBER_OF_COLUMNS: u64 = 128;

/// The header of a beacon block.
#[derive(Debug, Clone, Copy, PartialEq, Eq)]
pub struct BeaconBlockHeader {
    pub slot: u64,
    pub proposer_index: u64,
    pub parent_root: B256,
    pub state_root: B256,
    pub body_root: B256,
}

/// A block header with its proposer's signature.
#[derive(Debug, Clone, Copy, PartialEq, Eq)]
pub struct SignedBeaconBlockHeader {
    pub message: BeaconBlockHeader,
    pub signature: BLSSignature,
}

/// An attestation in its SSZ encoding.
#[derive(Debug, Clone, PartialEq, Eq)]
pub struct Attestation {
    pub ssz: Vec<u8>,
}

/// The parts of a block body that deciding on a block reads.
#[derive(Debug, Clone, PartialEq, Eq)]
pub struct BeaconBlockBody {
    pub blob_kzg_commitments: Vec<KZGCommitment>,
    pub attestations: Vec<Attestation>,
}

/// A beacon block. `body_root` is the hash tree root of the whole body, of which
/// `body` holds a part.
#[derive(Debug, Clone, PartialEq, Eq)]
pub struct BeaconBlock {
    pub slot: u64,
    pub proposer_index: u64,
    pub parent_root: B256,
    pub state_root: B256,
    pub body_root: B256,
    pub body: BeaconBlockBody,
}

/// A beacon block with its proposer's signature.
#[derive(Debug, Clone, PartialEq, Eq)]
pub struct SignedBeaconBlock {
    pub message: BeaconBlock,
    pub signature: BLSSignature,
}

/// One column of a block's extended data.
#[derive(Debug, Clone, PartialEq, Eq)]
pub struct DataColumnSidecar {
    pub index: u64,
    pub column: Vec<Vec<u8>>,
    pub kzg_commitments: Vec<KZGCommitment>,
    pub kzg_proofs: Vec<KZGProof>,
    pub signed_block_header: SignedBeaconBlockHeader,
    pub kzg_commitments_inclusion_proof: Vec<B256>,
}

/// Names one column of one block.
#[derive(Debug, Clone, Copy, PartialEq, Eq)]
pub struct ColumnIdentifier {
    pub block_root: B256,
    pub index: u64,
}

/// A justified or finalized checkpoint.
#[derive(Debug, Clone, Copy, PartialEq, Eq)]
pub struct Checkpoint {
    pub epoch: u64,
    pub root: B256,
}

/// The leaves of the header's Merkle tree: one 32-byte chunk for each field, in
/// order, integers in little-endian order.
pub open spec fn header_leaves(header: BeaconBlockHeader) -> Seq<u8> {
    little_endian(header.slot as nat, 32) + little_endian(header.proposer_index as nat, 32)
        + header.parent_root.0@ + header.state_root.0@ + header.body_root.0@
}

/// The hash tree root of a header.
pub open spec fn header_root(header: BeaconBlockHeader) -> Seq<u8> {
    merkle_root_bytes(header_leaves(header), 0)
}

impl BeaconBlockHeader {
    /// Whether all fields of both headers are equal.
    pub fn equals(&self, other: &BeaconBlockHeader) -> (same: bool)
        ensures
            same == (*self == *other),
    {
        self.slot == other.slot && self.proposer_index == other.proposer_index
            && self.parent_root.equals(&other.parent_root) && self.state_root.equals(
            &other.state_root,
        ) && self.body_root.equals(&other.body_root)
    }

    /// The hash tree root of the header, which is the root of its block.
    pub fn tree_hash_root(&self) -> (root: B256)
        ensures
            root.0@ == header_root(*self),
    {
        broadcast use vstd::array::group_array_axioms;

        let mut leaves: Vec<u8> = Vec::new();
        append_little_endian(&mut leaves, self.slot, 32);
        append_little_endian(&mut leaves, self.proposer_index, 32);
        append_bytes(&mut leaves, self.parent_root.0.as_slice());
        append_bytes(&mut leaves, self.state_root.0.as_slice());
        append_bytes(&mut leaves, self.body_root.0.as_slice());
        proof {
            lemma_little_endian_length(self.slot as nat, 32);
            lemma_little_endian_length(self.proposer_index as nat, 32);
            assert(leaves@ =~= header_leaves(*self));
        }
        merkle_root(leaves.as_slice(), 0)
    }
}

impl SignedBeaconBlockHeader {
    /// Whether both headers and both signatures are equal.
    pub fn equals(&self, other: &SignedBeaconBlockHeader) -> (same: bool)
        ensures
            same == (*self == *other),
    {
        self.message.equals(&other.message) && self.signature.equals(&other.signature)
    }
}

impl BeaconBlock {
    /// The header of the block.
    pub open spec fn spec_header(self) -> BeaconBlockHeader {
        BeaconBlockHeader {
            slot: self.slot,
            proposer_index: self.proposer_index,
            parent_root: self.parent_root,
            state_root: self.state_root,
            body_root: self.body_root,
        }
    }

    /// The header of the block.
    pub fn header(&self) -> (header: BeaconBlockHeader)
        ensures
            header == self.spec_header(),
            header.slot == self.slot,
            header.proposer_index == self.proposer_index,
            header.parent_root == self.parent_root,
            header.state_root == self.state_root,
            header.body_root == self.body_root,
    {
        BeaconBlockHeader {
            slot: self.slot,
            proposer_index: self.proposer_index,
            parent_root: self.parent_root,
            state_root: self.state_root,
            body_root: self.body_root,
        }
    }

    /// The hash tree root of the block, which is that of its header.
    pub fn tree_hash_root(&self) -> (root: B256)
        ensures
            root.0@ == header_root(self.spec_header()),
    {
        self.header().tree_hash_root()
    }
}

impl SignedBeaconBlock {
    /// The header of the block with the block's signature.
    pub open spec fn spec_signed_header(self) -> SignedBeaconBlockHeader {
        SignedBeaconBlockHeader { message: self.message.spec_header(), signature: self.signature }
    }

    /// The header of the block with the block's signature.
    pub fn signed_header(&self) -> (header: SignedBeaconBlockHeader)
        ensures
            header == self.spec_signed_header(),
            header.signature == self.signature,
            header.message == self.message.spec_header(),
    {
        SignedBeaconBlockHeader { message: self.message.header(), signature: self.signature }
    }
}

/// The header of a block carries the fields of the block, and with the block's
/// signature makes up its signed header.
pub proof fn header_carries_the_fields_of_the_block(block: SignedBeaconBlock)
    ensures
        ({
            let header = block.spec_signed_header();
            &&& header.signature == block.signature
            &&& header.message.slot == block.message.slot
            &&& header.message.proposer_index == block.message.proposer_index
            &&& header.message.parent_root == block.message.parent_root
            &&& header.message.state_root == block.message.state_root
            &&& header.message.body_root == block.message.body_root
        }),
{
}

/// The root of a header is that of a tree of five leaves, one for each field in
/// order, and headers that differ have different leaves.
pub proof fn header_root_covers_every_field(header: BeaconBlockHeader, other: BeaconBlockHeader)
    ensures
        header_root(header) == merkle_root_bytes(header_leaves(header), 0),
        header_leaves(header).len() == 160,
        header_leaves(header).subrange(0, 32) == little_endian(header.slot as nat, 32),
        header_leaves(header).subrange(32, 64) == little_endian(header.proposer_index as nat, 32),
        header_leaves(header).subrange(64, 96) == header.parent_root.0@,
        header_leaves(header).subrange(96, 128) == header.state_root.0@,
        header_leaves(header).subrange(128, 160) == header.body_root.0@,
        header_leaves(header) == header_leaves(other) <==> header == other,
{
    broadcast use vstd::array::group_array_axioms;

    lemma_leaves(header);
    lemma_leaves(other);
    if header_leaves(header) == header_leaves(other) {
        lemma_wide_enough(header.slot);
        lemma_wide_enough(other.slot);
        lemma_wide_enough(header.proposer_index);
        lemma_wide_enough(other.proposer_index);
        lemma_little_endian_injective(header.slot as nat, other.slot as nat, 32);
        lemma_little_endian_injective(
            header.proposer_index as nat,
            other.proposer_index as nat,
            32,
        );
        lemma_same_root(header.parent_root, other.parent_root);
        lemma_same_root(header.state_root, other.state_root);
        lemma_same_root(header.body_root, other.body_root);
    }
}

/// The leaves of a header, one by one.
proof fn lemma_leaves(header: BeaconBlockHeader)
    ensures
        header_leaves(header).len() == 160,
        header_leaves(header).subrange(0, 32) == little_endian(header.slot as nat, 32),
        header_leaves(header).subrange(32, 64) == little_endian(header.proposer_index as nat, 32),
        header_leaves(header).subrange(64, 96) == header.parent_root.0@,
        header_leaves(header).subrange(96, 128) == header.state_root.0@,
        header_leaves(header).subrange(128, 160) == header.body_root.0@,
{
    broadcast use vstd::array::group_array_axioms;

    lemma_little_endian_length(header.slot as nat, 32);
    lemma_little_endian_length(header.proposer_index as nat, 32);
    let leaves = header_leaves(header);
    assert(leaves.subrange(0, 32) =~= little_endian(header.slot as nat, 32));
    assert(leaves.subrange(32, 64) =~= little_endian(header.proposer_index as nat, 32));
    assert(leaves.subrange(64, 96) =~= header.parent_root.0@);
    assert(leaves.subrange(96, 128) =~= header.state_root.0@);
    assert(leaves.subrange(128, 160) =~= header.body_root.0@);
}

/// A number fits in a leaf.
proof fn lemma_wide_enough(value: u64)
    ensures
        value < vstd::arithmetic::power::pow(256, 32),
{
    vstd::arithmetic::power::lemma_pow_strictly_increases(256, 8, 32);
    reveal_with_fuel(vstd::arithmetic::power::pow, 9);
    assert(vstd::arithmetic::power::pow(256, 8) == 0x1_0000_0000_0000_0000);
}

/// Roots with the same bytes are the same.
proof fn lemma_same_root(left: B256, right: B256)
    requires
        left.0@ == right.0@,
    ensures
        left == right,
{
    broadcast use vstd::array::group_array_axioms;

    assert forall|i: int| 0 <= i < 32 implies left.0[i] == right.0[i] by {
        assert(left.0@[i] == right.0@[i]);
    }
    assert(left.0 =~= right.0);
}

} // verus!
