use parity_scale_codec::Encode;
use vstd::prelude::*;


verus! {

/// The four bytes of `x`, least significant first.
pub open spec fn le_bytes_u32(x: u32) -> Seq<u8> {
    seq![
        (x % 256) as u8,
        ((x / 256) % 256) as u8,
        ((x / 65536) % 256) as u8,
        ((x / 16777216) % 256) as u8,
    ]
}

/// The bytes from which an identifier is drawn: the random seed, then the
/// position of the transaction in its block and the block's number.
pub open spec fn id_payload(random: Seq<u8>, extrinsic_index: u32, block_number: u32) -> Seq<u8> {
    random + le_bytes_u32(extrinsic_index) + le_bytes_u32(block_number)
}

/// The number whose bytes, least significant first, are `bytes`.
pub open spec fn le_value(bytes: Seq<u8>) -> int
    decreases bytes.len(),
{
    if bytes.len() == 0 {
        0
    } else {
        bytes[0] + 256 * le_value(bytes.drop_first())
    }
}

/// The 128-bit Blake2 digest of `data`.
pub uninterp spec fn blake2_128_of(data: Seq<u8>) -> Seq<u8>;

/// The identifier drawn from a seed and a transaction's position.
pub open spec fn id_of(random: Seq<u8>, extrinsic_index: u32, block_number: u32) -> int {
    le_value(blake2_128_of(id_payload(random, extrinsic_index, block_number)))
}

/// Relies on the SCALE `Encode` of parity-scale-codec: a tuple encodes as
/// its fields in order, a byte array as its bytes, a `u32` as four bytes
/// least significant first.
#[verifier::external_body]
pub(crate) fn encode_payload(random: &[u8; 32], extrinsic_index: u32, block_number: u32) -> (r: Vec<u8>)
    ensures
        r@ == id_payload(random@, extrinsic_index, block_number),
{
    (*random, extrinsic_index, block_number).encode()
}

/// Relies on sp_io::hashing::blake2_128: the 16-byte Blake2 digest of the
/// data, which depends on the data alone.
#[verifier::external_body]
pub(crate) fn blake2_128(data: &Vec<u8>) -> (r: [u8; 16])
    ensures
        r@ == blake2_128_of(data@),
{
    sp_io::hashing::blake2_128(data)
}

proof fn lemma_le_value_bounded(bytes: Seq<u8>)
    ensures
        0 <= le_value(bytes) < pow256(bytes.len() as nat),
    decreases bytes.len(),
{
    if bytes.len() > 0 {
        lemma_le_value_bounded(bytes.drop_first());
        let rest = le_value(bytes.drop_first());
        let p = pow256((bytes.len() - 1) as nat);
        assert(bytes[0] + 256 * rest < 256 * p) by (nonlinear_arith)
            requires
                0 <= rest < p,
                0 <= bytes[0] < 256,
        ;
    }
}

/// 256 to the power `n`.
pub open spec fn pow256(n: nat) -> int
    decreases n,
{
    if n == 0 {
        1
    } else {
        256 * pow256((n - 1) as nat)
    }
}

/// The number whose sixteen bytes, least significant first, are `bytes`.
pub fn from_le_bytes(bytes: &[u8; 16]) -> (r: u128)
    ensures
        r == le_value(bytes@),
{
    let mut acc: u128 = 0;
    let mut i: usize = 16;
    proof {
        lemma_le_value_bounded(bytes@);
        assert(bytes@.skip(16) == Seq::<u8>::empty());
    }
    while i > 0
        invariant
            0 <= i <= 16,
            bytes@.len() == 16,
            acc == le_value(bytes@.skip(i as int)),
            le_value(bytes@.skip(i as int)) < pow256((16 - i) as nat),
        decreases i,
    {
        let ghost tail = bytes@.skip(i as int);
        let ghost longer = bytes@.skip(i as int - 1);
        proof {
            assert(longer.drop_first() == tail);
            assert(longer[0] == bytes@[i as int - 1]);
            lemma_le_value_bounded(longer);
            reveal_with_fuel(pow256, 17);
            assert(pow256(16) == 0x1_0000_0000_0000_0000_0000_0000_0000_0000);
            lemma_pow256_monotone((17 - i) as nat, 16);
        }
        acc = bytes[i - 1] as u128 + 256 * acc;
        i = i - 1;
    }
    proof {
        assert(bytes@.skip(0) == bytes@);
    }
    acc
}

proof fn lemma_pow256_monotone(a: nat, b: nat)
    requires
        a <= b,
    ensures
        1 <= pow256(a) <= pow256(b),
    decreases b,
{
    if a < b {
        lemma_pow256_monotone(a, (b - 1) as nat);
    } else if b > 0 {
        lemma_pow256_monotone((b - 1) as nat, (b - 1) as nat);
    }
}

} // verus!
