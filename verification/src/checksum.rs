//! Checking a download against its expected SHA-256 checksum while it streams
//! in.
use vstd::prelude::*;

verus! {

/// The SHA-256 digest of `data` (FIPS 180-4), as `sha2::Sha256` computes it.
pub uninterp spec fn sha256_of(data: Seq<u8>) -> Seq<u8>;

/// The bytes that have gone into a running SHA-256 computation so far.
pub uninterp spec fn absorbed(h: Sha256Stream) -> Seq<u8>;

/// A running SHA-256 computation (`sha2::Sha256`), kept opaque: what it has
/// taken in is named by `absorbed`.
#[verifier::external_body]
pub struct Sha256Stream {
    hasher: sha2::Sha256,
}

/// `sha2::Sha256::new` (through `Digest::new`): a computation that has taken
/// in nothing yet.
#[verifier::external_body]
fn sha256_start() -> (h: Sha256Stream)
    ensures
        absorbed(h) == Seq::<u8>::empty(),
{
    Sha256Stream { hasher: <sha2::Sha256 as sha2::Digest>::new() }
}

/// `Digest::update` on `sha2::Sha256`: the computation takes in `chunk` after
/// what it had.
#[verifier::external_body]
fn sha256_update(h: &mut Sha256Stream, chunk: &[u8])
    ensures
        absorbed(*final(h)) == absorbed(*old(h)) + chunk@,
{
    sha2::Digest::update(&mut h.hasher, chunk);
}

/// `Digest::finalize` on `sha2::Sha256`: the 32-byte digest of everything the
/// computation took in.
#[verifier::external_body]
fn sha256_finish(h: Sha256Stream) -> (digest: Vec<u8>)
    ensures
        digest@ == sha256_of(absorbed(h)),
        digest@.len() == 32,
{
    sha2::Digest::finalize(h.hasher).to_vec()
}

/// The lower-case hex digit of a value below 16.
pub open spec fn hex_digit(d: int) -> char {
    seq!['0', '1', '2', '3', '4', '5', '6', '7', '8', '9', 'a', 'b', 'c', 'd', 'e', 'f'][d]
}

/// Two lower-case hex digits per byte, high half first (`hex::encode`).
pub open spec fn lower_hex(data: Seq<u8>) -> Seq<char>
    decreases data.len(),
{
    if data.len() == 0 {
        seq![]
    } else {
        lower_hex(data.drop_last()) + seq![
            hex_digit((data.last() / 16) as int),
            hex_digit((data.last() % 16) as int),
        ]
    }
}

/// `hex::encode`: each byte as two lower-case hex digits, high half first.
#[verifier::external_body]
fn hex_encode(data: &[u8]) -> (res: String)
    ensures
        res@ == lower_hex(data@),
{
    hex::encode(data)
}

/// Whether an HTTP status code reports success (`StatusCode::is_success`:
/// the range 200 to 299).
pub fn status_is_success(code: u16) -> (res: bool)
    ensures
        res == (200 <= code <= 299),
{
    200 <= code && code <= 299
}

/// A download whose checksum did not match.
#[derive(Debug, Clone, PartialEq, Eq)]
pub struct ChecksumMismatch {
    pub expected: String,
    pub actual: String,
}

impl ChecksumMismatch {
    /// The report of the mismatch:
    /// `Checksum mismatch!\nExpected: <expected>\nActual:   <actual>`.
    pub fn message(&self) -> (res: String)
        ensures
            res@ == mismatch_head() + self.expected@ + mismatch_middle() + self.actual@,
    {
        let mut res = String::from_str("Checksum mismatch!\nExpected: ");
        res.append(self.expected.as_str());
        res.append("\nActual:   ");
        res.append(self.actual.as_str());
        proof {
            reveal_strlit("Checksum mismatch!\nExpected: ");
            reveal_strlit("\nActual:   ");
        }
        res
    }
}

pub open spec fn mismatch_head() -> Seq<char> {
    seq![
        'C', 'h', 'e', 'c', 'k', 's', 'u', 'm', ' ', 'm', 'i', 's', 'm', 'a', 't', 'c', 'h', '!',
        '\n', 'E', 'x', 'p', 'e', 'c', 't', 'e', 'd', ':', ' ',
    ]
}

pub open spec fn mismatch_middle() -> Seq<char> {
    seq!['\n', 'A', 'c', 't', 'u', 'a', 'l', ':', ' ', ' ', ' ']
}

/// Checks a download as its bytes stream in: every chunk goes through here,
/// and `finish` compares the SHA-256 of all of them, in hex, with the expected
/// checksum.
pub struct ChecksumVerifier {
    hasher: Sha256Stream,
}

impl ChecksumVerifier {
    /// The bytes received so far, in order.
    pub closed spec fn received(&self) -> Seq<u8> {
        absorbed(self.hasher)
    }

    /// A verifier that has received nothing.
    pub fn new() -> (res: Self)
        ensures
            res.received() == Seq::<u8>::empty(),
    {
        ChecksumVerifier { hasher: sha256_start() }
    }

    /// Takes in the next chunk of the download.
    pub fn absorb(&mut self, chunk: &[u8])
        ensures
            final(self).received() == old(self).received() + chunk@,
    {
        sha256_update(&mut self.hasher, chunk);
    }

    /// Compares the lower-case hex SHA-256 of everything received with
    /// `expected_sha`, character for character: `Ok` when they are equal, else
    /// the mismatch with both texts.
    pub fn finish(self, expected_sha: &str) -> (res: Result<(), ChecksumMismatch>)
        ensures
            res is Ok <==> lower_hex(sha256_of(self.received())) == expected_sha@,
            res matches Err(e) ==> e.expected@ == expected_sha@ && e.actual@ == lower_hex(
                sha256_of(self.received()),
            ),
    {
        let digest = sha256_finish(self.hasher);
        let actual = hex_encode(digest.as_slice());
        let expected = expected_sha.to_owned();
        if actual == expected {
            Ok(())
        } else {
            Err(ChecksumMismatch { expected, actual })
        }
    }
}

} // verus!
