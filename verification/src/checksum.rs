//! The integrity verifier: the SHA-1 digest of a stream of bytes, written in
//! hexadecimal, and its comparison with a declared checksum.

use sha1::Digest;
use vstd::prelude::*;

verus! {

/// The SHA-1 digest of `data`, as the `sha1` crate computes it.
pub uninterp spec fn sha1_digest(data: Seq<u8>) -> Seq<u8>;

/// The bytes that a hasher has taken in so far, in order.
pub uninterp spec fn absorbed(stream: &Sha1Stream) -> Seq<u8>;

/// A SHA-1 computation in progress. It takes its input chunk by chunk, so
/// that a file of any size is hashed without being held in memory.
///
/// The hasher of the `sha1` crate is kept out of the verifier's sight: its
/// type is an alias of a generic type of the `digest` crate whose bounds the
/// verifier cannot take.
#[verifier::external_body]
pub struct Sha1Stream {
    hasher: sha1::Sha1,
}

/// Makes a hasher with `sha1::Sha1::new` (`Digest::new`). Trusted: a new
/// hasher has taken in nothing.
#[verifier::external_body]
fn hasher_new() -> (stream: Sha1Stream)
    ensures
        absorbed(&stream) == Seq::<u8>::empty(),
{
    Sha1Stream { hasher: sha1::Sha1::new() }
}

/// Feeds a chunk with `Digest::update`. Trusted: the chunk is added to the
/// end of what the hasher has taken in.
#[verifier::external_body]
fn hasher_update(stream: &mut Sha1Stream, chunk: &[u8])
    ensures
        absorbed(final(stream)) == absorbed(old(stream)) + chunk@,
{
    stream.hasher.update(chunk);
}

/// Ends the computation with `Digest::finalize`. Trusted: the result is the
/// SHA-1 digest of all that was taken in, twenty bytes long.
#[verifier::external_body]
fn hasher_finalize(stream: Sha1Stream) -> (digest: Vec<u8>)
    ensures
        digest@ == sha1_digest(absorbed(&stream)),
        digest@.len() == 20,
{
    stream.hasher.finalize().to_vec()
}

/// The hexadecimal digit of a value below sixteen, in capitals.
pub open spec fn hex_digit(nibble: int) -> char {
    if nibble == 0 {
        '0'
    } else if nibble == 1 {
        '1'
    } else if nibble == 2 {
        '2'
    } else if nibble == 3 {
        '3'
    } else if nibble == 4 {
        '4'
    } else if nibble == 5 {
        '5'
    } else if nibble == 6 {
        '6'
    } else if nibble == 7 {
        '7'
    } else if nibble == 8 {
        '8'
    } else if nibble == 9 {
        '9'
    } else if nibble == 10 {
        'A'
    } else if nibble == 11 {
        'B'
    } else if nibble == 12 {
        'C'
    } else if nibble == 13 {
        'D'
    } else if nibble == 14 {
        'E'
    } else {
        'F'
    }
}

/// The bytes written in hexadecimal: two digits for each byte, the high half
/// first, letters in capitals.
pub open spec fn hex_upper(bytes: Seq<u8>) -> Seq<char>
    decreases bytes.len(),
{
    if bytes.len() == 0 {
        Seq::empty()
    } else {
        hex_upper(bytes.drop_last()).push(hex_digit(bytes.last() as int / 16)).push(
            hex_digit(bytes.last() as int % 16),
        )
    }
}

/// Two digits stand for each byte.
pub proof fn lemma_hex_upper_len(bytes: Seq<u8>)
    ensures
        hex_upper(bytes).len() == 2 * bytes.len(),
    decreases bytes.len(),
{
    if bytes.len() > 0 {
        lemma_hex_upper_len(bytes.drop_last());
    }
}

/// The hexadecimal digit of `nibble`, in capitals.
fn hex_char(nibble: u8) -> (digit: char)
    requires
        nibble < 16,
    ensures
        digit == hex_digit(nibble as int),
{
    if nibble == 0 {
        '0'
    } else if nibble == 1 {
        '1'
    } else if nibble == 2 {
        '2'
    } else if nibble == 3 {
        '3'
    } else if nibble == 4 {
        '4'
    } else if nibble == 5 {
        '5'
    } else if nibble == 6 {
        '6'
    } else if nibble == 7 {
        '7'
    } else if nibble == 8 {
        '8'
    } else if nibble == 9 {
        '9'
    } else if nibble == 10 {
        'A'
    } else if nibble == 11 {
        'B'
    } else if nibble == 12 {
        'C'
    } else if nibble == 13 {
        'D'
    } else if nibble == 14 {
        'E'
    } else {
        'F'
    }
}

/// The bytes written in hexadecimal, letters in capitals.
pub fn to_hex_upper(bytes: &Vec<u8>) -> (text: String)
    ensures
        text@ == hex_upper(bytes@),
{
    let mut text = String::new();
    let mut i: usize = 0;
    assert(bytes@.take(0) =~= Seq::<u8>::empty());
    while i < bytes.len()
        invariant
            i <= bytes.len(),
            text@ == hex_upper(bytes@.take(i as int)),
        decreases bytes.len() - i,
    {
        proof {
            assert(bytes@.take(i + 1).drop_last() =~= bytes@.take(i as int));
            assert(bytes@.take(i + 1).last() == bytes@[i as int]);
        }
        let byte = bytes[i];
        text.push(hex_char(byte / 16));
        text.push(hex_char(byte % 16));
        i += 1;
    }
    assert(bytes@.take(bytes@.len() as int) =~= bytes@);
    text
}

impl Sha1Stream {
    /// What has been fed so far.
    pub closed spec fn fed(&self) -> Seq<u8> {
        absorbed(self)
    }

    /// A computation that has been fed nothing yet.
    pub fn new() -> (stream: Self)
        ensures
            stream.fed() == Seq::<u8>::empty(),
    {
        hasher_new()
    }

    /// Feeds the next chunk.
    pub fn update(&mut self, chunk: &[u8])
        ensures
            final(self).fed() == old(self).fed() + chunk@,
    {
        hasher_update(self, chunk);
    }

    /// The digest of all that was fed, in hexadecimal with capital letters.
    pub fn finish(self) -> (checksum: String)
        ensures
            checksum@ == hex_upper(sha1_digest(self.fed())),
            checksum@.len() == 40,
    {
        let digest = hasher_finalize(self);
        proof {
            lemma_hex_upper_len(digest@);
        }
        to_hex_upper(&digest)
    }
}

/// The SHA-1 checksum of `data`, in hexadecimal with capital letters.
pub fn compute_sha1(data: &[u8]) -> (checksum: String)
    ensures
        checksum@ == hex_upper(sha1_digest(data@)),
        checksum@.len() == 40,
{
    let mut stream = Sha1Stream::new();
    stream.update(data);
    assert(stream.fed() =~= data@);
    stream.finish()
}

/// `text` in capitals, as `str::to_uppercase` gives it.
pub uninterp spec fn uppercase(text: Seq<char>) -> Seq<char>;

/// Calls `str::to_uppercase`. Trusted: the result is the text in capitals
/// and depends on the characters alone.
#[verifier::external_body]
fn to_uppercase(text: &str) -> (upper: String)
    ensures
        upper@ == uppercase(text@),
{
    text.to_uppercase()
}

/// Whether a computed checksum is the declared one, whatever the case of
/// their letters: in capitals the two are the same.
pub open spec fn checksums_agree(declared: Seq<char>, computed: Seq<char>) -> bool {
    uppercase(declared) == uppercase(computed)
}

/// Compares a computed checksum with the declared one, whatever the case of
/// their letters.
pub fn checksum_matches(declared: &str, computed: &str) -> (agree: bool)
    ensures
        agree == checksums_agree(declared@, computed@),
{
    let wanted = to_uppercase(declared);
    let found = to_uppercase(computed);
    wanted.as_str().eq(found.as_str())
}

} // verus!
