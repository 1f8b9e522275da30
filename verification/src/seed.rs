//! Derivation of one seed per file and transformation.
//!
//! A seed depends on the base seed of the run, the file's stem and the
//! transformation's name, and on nothing else, so that every worker draws the
//! same numbers for the same file whatever the schedule.

use vstd::bytes::*;
use vstd::prelude::*;
use vstd::slice::*;
use vstd::string::*;
use vstd::utf8::*;

verus! {

/// The BLAKE3 digest of `input` in its default mode: 32 bytes.
pub uninterp spec fn blake3_digest(input: Seq<u8>) -> Seq<u8>;

/// The bytes that are hashed: the base seed in little-endian order, then the
/// stem in UTF-8, then the transformation's name in UTF-8.
pub open spec fn seed_message(base_seed: u64, stem: Seq<char>, transform: Seq<char>) -> Seq<u8> {
    spec_u64_to_le_bytes(base_seed) + encode_utf8(stem) + encode_utf8(transform)
}

/// The seed that a digest stands for: its first eight bytes, read as a
/// little-endian integer.
pub open spec fn digest_seed(digest: Seq<u8>) -> u64 {
    spec_u64_from_le_bytes(digest.subrange(0, 8))
}

/// The seed of one transformation on one file.
pub open spec fn derived_seed(base_seed: u64, stem: Seq<char>, transform: Seq<char>) -> u64 {
    digest_seed(blake3_digest(seed_message(base_seed, stem, transform)))
}

/// The same base seed, stem and name give the same seed, whenever and on
/// whichever thread it is derived.
pub proof fn lemma_seed_is_deterministic(
    base_seed_a: u64,
    stem_a: Seq<char>,
    transform_a: Seq<char>,
    base_seed_b: u64,
    stem_b: Seq<char>,
    transform_b: Seq<char>,
)
    requires
        base_seed_a == base_seed_b,
        stem_a == stem_b,
        transform_a == transform_b,
    ensures
        derived_seed(base_seed_a, stem_a, transform_a) == derived_seed(
            base_seed_b,
            stem_b,
            transform_b,
        ),
{
}

/// The encoding of two texts joined is their encodings joined.
proof fn lemma_encode_joined(a: Seq<char>, b: Seq<char>)
    ensures
        encode_utf8(a + b) == encode_utf8(a) + encode_utf8(b),
    decreases a.len(),
{
    if a.len() == 0 {
        assert(a + b =~= b);
        assert(encode_utf8(a) + encode_utf8(b) =~= encode_utf8(b));
    } else {
        lemma_encode_joined(a.drop_first(), b);
        assert((a + b).drop_first() =~= a.drop_first() + b);
        assert(encode_utf8(a + b) =~= encode_utf8(a) + encode_utf8(b));
    }
}

/// The stem and the name enter the seed only as the text that they spell
/// one after the other: a stem `ab` with a name `c` has the seed of a stem
/// `a` with a name `bc`.
pub proof fn lemma_seed_of_joined_text(
    base_seed: u64,
    stem_a: Seq<char>,
    transform_a: Seq<char>,
    stem_b: Seq<char>,
    transform_b: Seq<char>,
)
    requires
        stem_a + transform_a == stem_b + transform_b,
    ensures
        derived_seed(base_seed, stem_a, transform_a) == derived_seed(
            base_seed,
            stem_b,
            transform_b,
        ),
{
    lemma_encode_joined(stem_a, transform_a);
    lemma_encode_joined(stem_b, transform_b);
    let head = spec_u64_to_le_bytes(base_seed);
    let tail = encode_utf8(stem_a + transform_a);
    assert(seed_message(base_seed, stem_a, transform_a) =~= head + tail);
    assert(seed_message(base_seed, stem_b, transform_b) =~= head + tail);
    assert(seed_message(base_seed, stem_a, transform_a) =~= seed_message(
        base_seed,
        stem_b,
        transform_b,
    ));
}

/// Calls `blake3::hash` and copies the digest out. Trusted: the digest is a
/// function of the input bytes alone, and it is 32 bytes long.
#[verifier::external_body]
fn blake3_hash(input: &[u8]) -> (digest: Vec<u8>)
    ensures
        digest@ == blake3_digest(input@),
        digest@.len() == 32,
{
    blake3::hash(input).as_bytes().to_vec()
}

/// Lays out the bytes that are hashed for one seed.
pub fn build_seed_message(base_seed: u64, stem: &str, transform: &str) -> (message: Vec<u8>)
    ensures
        message@ == seed_message(base_seed, stem@, transform@),
{
    let mut message = u64_to_le_bytes(base_seed);
    message.extend_from_slice(stem.as_bytes());
    message.extend_from_slice(transform.as_bytes());
    message
}

/// Reads the seed out of a digest.
pub fn seed_from_digest(digest: &[u8]) -> (seed: u64)
    requires
        digest@.len() >= 8,
    ensures
        seed == digest_seed(digest@),
{
    u64_from_le_bytes(slice_subrange(digest, 0, 8))
}

/// Derives the seed of `transform` on the file named `stem`.
pub fn derive_seed_for_transform(stem: &str, base_seed: u64, transform: &str) -> (seed: u64)
    ensures
        seed == derived_seed(base_seed, stem@, transform@),
{
    let message = build_seed_message(base_seed, stem, transform);
    let digest = blake3_hash(message.as_slice());
    seed_from_digest(digest.as_slice())
}

} // verus!
