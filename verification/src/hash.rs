use vstd::prelude::*;
use vstd::slice::slice_subrange;

verus! {

/// Files at or above this many bytes are hashed in one pass over the whole
/// buffer; smaller files are hashed through the streaming interface. The
/// switch is a performance choice only: both strategies yield the digest of
/// the same byte sequence.
pub const LARGE_FILE_THRESHOLD: usize = 16384;

/// The lowercase hexadecimal BLAKE3 digest of a byte sequence. The digest
/// is a function of the bytes alone; its definition is the hash function
/// itself and is not restated here.
pub uninterp spec fn blake3_hex_of(data: Seq<u8>) -> Seq<char>;

/// Relies on blake3::hash: the digest of the full input in one call, and on
/// Hash::to_hex: 64 lowercase hexadecimal digits for the 32-byte digest.
/// blake3's documentation states that `hash(b)` equals
/// `Hasher::new().update(b).finalize()`, so the one-shot digest and the
/// streamed digest below name the same value.
#[verifier::external_body]
fn blake3_hash_hex(data: &[u8]) -> (r: String)
    ensures
        r@ == blake3_hex_of(data@),
        r@.len() == 64,
{
    blake3::hash(data).to_hex().to_string()
}

#[verifier::external_type_specification]
#[verifier::external_body]
pub struct ExHasher(blake3::Hasher);

/// The bytes a streaming hasher has absorbed so far.
pub uninterp spec fn absorbed(h: blake3::Hasher) -> Seq<u8>;

/// Relies on blake3::Hasher::new: a fresh hasher has absorbed nothing.
#[verifier::external_body]
fn hasher_new() -> (h: blake3::Hasher)
    ensures
        absorbed(h) == Seq::<u8>::empty(),
{
    blake3::Hasher::new()
}

/// Relies on blake3::Hasher::update: input bytes may be added in any number
/// of calls; the hasher then holds the bytes absorbed so far followed by
/// the new input. A hasher made by `Hasher::new` never panics here.
#[verifier::external_body]
fn hasher_update(h: &mut blake3::Hasher, data: &[u8])
    ensures
        absorbed(*final(h)) == absorbed(*old(h)) + data@,
{
    h.update(data);
}

/// Relies on blake3::Hasher::finalize: the digest of all absorbed bytes,
/// and on Hash::to_hex as above.
#[verifier::external_body]
fn hasher_finalize_hex(h: &blake3::Hasher) -> (r: String)
    ensures
        r@ == blake3_hex_of(absorbed(*h)),
        r@.len() == 64,
{
    h.finalize().to_hex().to_string()
}

/// Hash a buffer in one pass: the strategy used for large files, whose
/// bytes arrive as one memory-mapped block.
pub fn hash_bytes_whole(data: &Vec<u8>) -> (r: String)
    ensures
        r@ == blake3_hex_of(data@),
        r@.len() == 64,
{
    blake3_hash_hex(data.as_slice())
}

/// Hash a buffer through the streaming interface in chunks of `chunk`
/// bytes: the strategy used for small files read sequentially. The digest
/// equals the one-pass digest of the same bytes, whatever the chunk size.
pub fn hash_bytes_streamed(data: &Vec<u8>, chunk: usize) -> (r: String)
    requires
        chunk >= 1,
    ensures
        r@ == blake3_hex_of(data@),
        r@.len() == 64,
{
    let mut h = hasher_new();
    let mut i: usize = 0;
    proof {
        assert(data@.take(0) =~= Seq::<u8>::empty());
    }
    while i < data.len()
        invariant
            chunk >= 1,
            i <= data@.len(),
            absorbed(h) == data@.take(i as int),
        decreases data@.len() - i,
    {
        let end = if data.len() - i < chunk {
            data.len()
        } else {
            i + chunk
        };
        let part = slice_subrange(data.as_slice(), i, end);
        hasher_update(&mut h, part);
        proof {
            assert(data@.take(i as int) + data@.subrange(i as int, end as int) =~= data@.take(
                end as int,
            ));
        }
        i = end;
    }
    proof {
        assert(data@.take(data@.len() as int) =~= data@);
    }
    hasher_finalize_hex(&h)
}

/// Hash a file's content, switching strategy at the 16 KiB threshold as
/// ingestion does for real files. Both branches return the digest of the
/// same byte sequence, so the switch never changes the result.
pub fn hash_content(data: &Vec<u8>) -> (r: String)
    ensures
        r@ == blake3_hex_of(data@),
        r@.len() == 64,
{
    if data.len() >= LARGE_FILE_THRESHOLD {
        hash_bytes_whole(data)
    } else {
        hash_bytes_streamed(data, 1024)
    }
}

} // verus!
