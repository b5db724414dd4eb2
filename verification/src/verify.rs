//! The check of a file against a SHA-256 hash.

use sha2::Digest;
use vstd::prelude::*;

use crate::text::eq_ignoring_case;

verus! {

// ---------------------------------------------------------------------------
// SHA-256 and hexadecimal digits
// ---------------------------------------------------------------------------

/// A `sha2::Sha256` that takes in bytes. Its type is bounded by traits of its
/// crate, so it is held in a struct of its own.
#[verifier::external_body]
pub struct Sha256State {
    inner: sha2::Sha256,
}

/// The bytes that a hasher has taken in, in order.
pub uninterp spec fn taken_in(state: Sha256State) -> Seq<u8>;

/// The SHA-256 digest of some bytes.
pub uninterp spec fn sha256(bytes: Seq<u8>) -> Seq<u8>;

/// The number of bytes that SHA-256 is defined for is less than this.
pub const SHA256_LIMIT: u64 = 0x2000_0000_0000_0000;

/// `Sha256::new`: a hasher that has taken in nothing.
#[verifier::external_body]
fn new_hasher() -> (state: Sha256State)
    ensures
        taken_in(state) == Seq::<u8>::empty(),
{
    Sha256State { inner: sha2::Sha256::new() }
}

/// `Sha256::update`: the hasher takes in `bytes` after all that it took in
/// before.
#[verifier::external_body]
fn update_hasher(state: &mut Sha256State, bytes: &[u8])
    requires
        taken_in(*old(state)).len() + bytes@.len() < SHA256_LIMIT,
    ensures
        taken_in(*final(state)) == taken_in(*old(state)) + bytes@,
{
    state.inner.update(bytes);
}

/// `Sha256::finalize`: the digest of all that the hasher took in, named by
/// `sha256`. It has 32 bytes.
#[verifier::external_body]
fn finish_hasher(state: Sha256State) -> (digest: Vec<u8>)
    requires
        taken_in(state).len() < SHA256_LIMIT,
    ensures
        digest@ == sha256(taken_in(state)),
        digest@.len() == 32,
{
    state.inner.finalize().to_vec()
}

/// The hexadecimal digit for a number below 16, in small letters.
pub open spec fn hex_digit(n: int) -> char {
    if n < 10 {
        ('0' as int + n) as char
    } else {
        ('a' as int + (n - 10)) as char
    }
}

/// Two hexadecimal digits for each byte, the more significant one first.
pub open spec fn hex(bytes: Seq<u8>) -> Seq<char> {
    Seq::new(
        2 * bytes.len(),
        |i: int|
            if i % 2 == 0 {
                hex_digit(bytes[i / 2] as int / 16)
            } else {
                hex_digit(bytes[i / 2] as int % 16)
            },
    )
}

/// `hex::encode`: two hexadecimal digits in small letters for each byte.
#[verifier::external_body]
fn hex_text(bytes: &[u8]) -> (text: String)
    requires
        bytes@.len() <= usize::MAX / 4,
    ensures
        text@ == hex(bytes@),
{
    hex::encode(bytes)
}

// ---------------------------------------------------------------------------
// The check
// ---------------------------------------------------------------------------

/// The outcome of a check.
pub struct Verification {
    /// Whether the file has the expected hash.
    pub matches: bool,
    /// The hash that the file has.
    pub calculated: String,
}

pub struct VerificationView {
    pub matches: bool,
    pub calculated: Seq<char>,
}

impl View for Verification {
    type V = VerificationView;

    open spec fn view(&self) -> VerificationView {
        VerificationView { matches: self.matches, calculated: self.calculated@ }
    }
}

/// The outcome of a check, given the digest of the file. The case of the
/// letters of the expected hash is of no account.
pub open spec fn verdict(digest: Seq<u8>, expected: Seq<char>) -> VerificationView {
    VerificationView {
        matches: crate::text::same_ignoring_case(hex(digest), expected),
        calculated: hex(digest),
    }
}

/// Holds a digest against the expected hash.
pub fn compare_digest(digest: &[u8], expected_hash: &str) -> (outcome: Verification)
    requires
        digest@.len() <= usize::MAX / 4,
    ensures
        outcome@ == verdict(digest@, expected_hash@),
{
    let calculated: String = hex_text(digest);
    let matches: bool = eq_ignoring_case(calculated.as_str(), expected_hash);
    Verification { matches, calculated }
}

/// The check of a file that is read piece by piece.
pub struct FileVerifier {
    state: Sha256State,
    count: u64,
}

impl View for FileVerifier {
    type V = Seq<u8>;

    /// What has been read of the file.
    closed spec fn view(&self) -> Seq<u8> {
        taken_in(self.state)
    }
}

impl FileVerifier {
    /// The number of bytes is within the bounds of SHA-256, and is known.
    pub closed spec fn wf(&self) -> bool {
        &&& self.count == taken_in(self.state).len()
        &&& self.count < SHA256_LIMIT
    }

    /// A check of which nothing has been read.
    pub fn new() -> (verifier: Self)
        ensures
            verifier.wf(),
            verifier@ == Seq::<u8>::empty(),
    {
        FileVerifier { state: new_hasher(), count: 0 }
    }

    /// Whether the file stays within the bounds of SHA-256 with `len` more
    /// bytes.
    pub fn can_take(&self, len: usize) -> (can: bool)
        requires
            self.wf(),
        ensures
            can == (self@.len() + len < SHA256_LIMIT),
    {
        (len as u64) < SHA256_LIMIT - self.count
    }

    /// Takes in the next piece.
    pub fn feed(&mut self, piece: &[u8])
        requires
            old(self).wf(),
            old(self)@.len() + piece@.len() < SHA256_LIMIT,
        ensures
            final(self).wf(),
            final(self)@ == old(self)@ + piece@,
    {
        update_hasher(&mut self.state, piece);
        self.count = self.count + piece.len() as u64;
    }

    /// Holds what has been read against the expected hash.
    pub fn finish(self, expected_hash: &str) -> (outcome: Verification)
        requires
            self.wf(),
        ensures
            outcome@ == verdict(sha256(self@), expected_hash@),
            outcome@.calculated.len() == 64,
    {
        let digest: Vec<u8> = finish_hasher(self.state);
        compare_digest(digest.as_slice(), expected_hash)
    }
}

/// Checks whether a file has the expected hash.
pub fn verify_file(contents: &[u8], expected_hash: &str) -> (matches: bool)
    requires
        contents@.len() < SHA256_LIMIT,
    ensures
        matches == verdict(sha256(contents@), expected_hash@).matches,
        sha256(contents@).len() == 32,
{
    let mut verifier = FileVerifier::new();
    verifier.feed(contents);
    assert(verifier@ =~= contents@);
    verifier.finish(expected_hash).matches
}

// ---------------------------------------------------------------------------
// Laws
// ---------------------------------------------------------------------------

/// Each byte is written as two digits, the more significant one first, where the
/// digits behind nine are the letters from `a` on.
pub proof fn bytes_are_written_in_two_digits(bytes: Seq<u8>, i: int)
    requires
        0 <= i < bytes.len(),
    ensures
        hex(bytes).len() == 2 * bytes.len(),
        ({
            let high = hex(bytes)[2 * i];
            let low = hex(bytes)[2 * i + 1];
            let value = |digit: char|
                if digit <= '9' {
                    digit as int - '0' as int
                } else {
                    digit as int - 'a' as int + 10
                };
            &&& '0' <= high && high <= '9' || 'a' <= high && high <= 'f'
            &&& '0' <= low && low <= '9' || 'a' <= low && low <= 'f'
            &&& 16 * value(high) + value(low) == bytes[i]
        }),
{
    assert((2 * i) / 2 == i && (2 * i + 1) / 2 == i);
}

/// A file passes the check if and only if the expected hash is its own, digit
/// for digit, where each letter may be written small or as a capital. So it
/// passes against its own hash in small letters, in capitals and in both, and
/// against no other text.
pub proof fn own_hash_passes(digest: Seq<u8>, expected: Seq<char>)
    ensures
        verdict(digest, expected).matches <==> expected.len() == 2 * digest.len() && forall|i: int|
            #![trigger expected[i]]
            0 <= i < expected.len() ==> {
                let own = hex(digest)[i];
                expected[i] == own || 'a' <= own && own <= 'f' && own as int - expected[i] as int
                    == 'a' as int - 'A' as int
            },
        verdict(digest, expected).calculated == hex(digest),
        verdict(digest, hex(digest)).matches,
        crate::text::same_ignoring_case(expected, hex(digest)) ==> verdict(
            digest,
            expected,
        ).matches,
        expected.len() != 2 * digest.len() ==> !verdict(digest, expected).matches,
{
    let own = hex(digest);
    assert forall|i: int| 0 <= i < own.len() implies '0' <= #[trigger] own[i] && own[i] <= '9'
        || 'a' <= own[i] && own[i] <= 'f' by {
        bytes_are_written_in_two_digits(digest, i / 2);
        assert(i == 2 * (i / 2) || i == 2 * (i / 2) + 1);
    }
    crate::text::only_the_case_of_letters_is_of_no_account(own, expected);
    crate::text::only_the_case_of_letters_is_of_no_account(own, own);
    if crate::text::same_ignoring_case(expected, own) {
        assert forall|i: int| 0 <= i < own.len() implies crate::text::folded(#[trigger] own[i])
            == crate::text::folded(expected[i]) by {
            assert(crate::text::folded(expected[i]) == crate::text::folded(own[i]));
        }
    }
    if expected.len() == own.len() {
        if verdict(digest, expected).matches {
            assert forall|i: int| #![trigger expected[i]] 0 <= i < expected.len() implies {
                let o = own[i];
                expected[i] == o || 'a' <= o && o <= 'f' && o as int - expected[i] as int
                    == 'a' as int - 'A' as int
            } by {
                assert('0' <= own[i]);
            }
        }
        if forall|i: int|
            #![trigger expected[i]]
            0 <= i < expected.len() ==> {
                let o = own[i];
                expected[i] == o || 'a' <= o && o <= 'f' && o as int - expected[i] as int
                    == 'a' as int - 'A' as int
            } {
            assert forall|i: int| #![trigger own[i]] 0 <= i < own.len() implies {
                ||| own[i] == expected[i]
                ||| 'A' <= own[i] && own[i] <= 'Z' && expected[i] as int - own[i] as int
                    == 'a' as int - 'A' as int
                ||| 'A' <= expected[i] && expected[i] <= 'Z' && own[i] as int - expected[i] as int
                    == 'a' as int - 'A' as int
            } by {
                let e = expected[i];
            }
        }
    }
}

/// No hash is passed by two files with different digests.
pub proof fn a_hash_belongs_to_one_digest(a: Seq<u8>, b: Seq<u8>, expected: Seq<char>)
    requires
        verdict(a, expected).matches,
        verdict(b, expected).matches,
    ensures
        a == b,
{
    let ha = hex(a);
    let hb = hex(b);
    assert(a.len() == b.len());
    assert forall|i: int| 0 <= i < a.len() implies a[i] == b[i] by {
        assert(crate::text::folded(ha[2 * i]) == crate::text::folded(expected[2 * i]));
        assert(crate::text::folded(hb[2 * i]) == crate::text::folded(expected[2 * i]));
        assert(crate::text::folded(ha[2 * i + 1]) == crate::text::folded(expected[2 * i + 1]));
        assert(crate::text::folded(hb[2 * i + 1]) == crate::text::folded(expected[2 * i + 1]));
        assert((2 * i) / 2 == i && (2 * i + 1) / 2 == i);
        lemma_hex_digits_differ(a[i] as int / 16, b[i] as int / 16);
        lemma_hex_digits_differ(a[i] as int % 16, b[i] as int % 16);
    }
    assert(a =~= b);
}

proof fn lemma_hex_digits_differ(m: int, n: int)
    requires
        0 <= m < 16,
        0 <= n < 16,
        crate::text::folded(hex_digit(m)) == crate::text::folded(hex_digit(n)),
    ensures
        m == n,
{
}

/// The outcome of a check shows what it holds.
pub proof fn outcomes_show_what_they_hold(outcome: Verification)
    ensures
        outcome@ == (VerificationView {
            matches: outcome.matches,
            calculated: outcome.calculated@,
        }),
{
}

} // verus!
