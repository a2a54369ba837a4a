//! Checksum verification of downloaded archives.
//!
//! An archive is checked against the first whitespace-delimited token
//! of its published checksum file: the token must equal the archive's
//! SHA-256 digest, written in lower-case hex. Reading the two files is
//! the caller's business; this module decides over their contents.

use vstd::prelude::*;
use sha2::Digest;
use crate::utils::errors::ScrapperError;

verus! {

/// The SHA-256 digest of a byte string.
pub uninterp spec fn sha256_of(data: Seq<u8>) -> Seq<u8>;

/// Relies on sha2's `Sha256::digest`: the digest is a function of the
/// input bytes alone, and is 32 bytes long.
#[verifier::external_body]
fn sha256(data: &Vec<u8>) -> (r: Vec<u8>)
    ensures
        r@ == sha256_of(data@),
        r@.len() == 32,
{
    sha2::Sha256::digest(data.as_slice()).to_vec()
}

/// The ASCII byte of one lower-case hex digit.
pub open spec fn hex_digit(n: nat) -> u8
    recommends
        n < 16,
{
    if n < 10 {
        (48 + n) as u8
    } else {
        (87 + n) as u8
    }
}

/// Lower-case hex rendering of a byte string, two digits per byte.
pub open spec fn hex_of(bytes: Seq<u8>) -> Seq<u8>
    decreases bytes.len(),
{
    if bytes.len() == 0 {
        Seq::empty()
    } else {
        seq![hex_digit((bytes[0] / 16) as nat), hex_digit((bytes[0] % 16) as nat)] + hex_of(
            bytes.drop_first(),
        )
    }
}

/// The bytes `str::split_whitespace` would break on, restricted to
/// ASCII: space, tab, and the line and page breaks.
pub open spec fn is_ws(b: u8) -> bool {
    b == 32 || b == 9 || b == 10 || b == 11 || b == 12 || b == 13
}

/// The leading run of non-whitespace bytes.
pub open spec fn token_prefix(s: Seq<u8>) -> Seq<u8>
    decreases s.len(),
{
    if s.len() == 0 || is_ws(s[0]) {
        Seq::empty()
    } else {
        seq![s[0]] + token_prefix(s.drop_first())
    }
}

/// The first whitespace-delimited token of a byte string, if any.
pub open spec fn first_token(s: Seq<u8>) -> Option<Seq<u8>>
    decreases s.len(),
{
    if s.len() == 0 {
        Option::None
    } else if is_ws(s[0]) {
        first_token(s.drop_first())
    } else {
        Option::Some(token_prefix(s))
    }
}

/// What checking an archive against its checksum file can say.
#[derive(Clone, Copy, Debug, PartialEq, Eq, Structural)]
pub enum IntegrityOutcome {
    /// The recomputed digest equals the published one.
    Match,
    /// Both files are there, but the digests differ.
    Mismatch,
    /// A file is missing, or the checksum file holds no token.
    Unavailable,
}

/// The verification verdict over the contents of the two files;
/// `None` stands for a file that is absent or unreadable.
pub open spec fn spec_verify(archive: Option<Seq<u8>>, checksum_file: Option<Seq<u8>>) -> IntegrityOutcome {
    match (archive, checksum_file) {
        (Option::Some(data), Option::Some(checks)) => match first_token(checks) {
            Option::Some(token) => if token == hex_of(sha256_of(data)) {
                IntegrityOutcome::Match
            } else {
                IntegrityOutcome::Mismatch
            },
            Option::None => IntegrityOutcome::Unavailable,
        },
        _ => IntegrityOutcome::Unavailable,
    }
}

fn hex_digit_byte(n: u8) -> (r: u8)
    requires
        n < 16,
    ensures
        r == hex_digit(n as nat),
{
    if n < 10 {
        48 + n
    } else {
        87 + n
    }
}

/// Renders a digest in lower-case hex.
fn to_lower_hex(bytes: &Vec<u8>) -> (r: Vec<u8>)
    ensures
        r@ == hex_of(bytes@),
{
    let mut r: Vec<u8> = Vec::new();
    let mut i: usize = 0;
    proof {
        assert(bytes@.skip(0) =~= bytes@);
        assert(r@ + hex_of(bytes@.skip(0)) =~= hex_of(bytes@));
    }
    while i < bytes.len()
        invariant
            i <= bytes@.len(),
            r@ + hex_of(bytes@.skip(i as int)) == hex_of(bytes@),
        decreases bytes@.len() - i,
    {
        let ghost rest = bytes@.skip(i as int);
        let b = bytes[i];
        r.push(hex_digit_byte(b / 16));
        r.push(hex_digit_byte(b % 16));
        i += 1;
        proof {
            assert(rest.drop_first() =~= bytes@.skip(i as int));
            assert(r@ =~= r@.subrange(0, r@.len() - 2) + seq![
                hex_digit((rest[0] / 16) as nat),
                hex_digit((rest[0] % 16) as nat),
            ]);
            assert(r@ + hex_of(bytes@.skip(i as int)) =~= (r@.subrange(0, r@.len() - 2)) + (seq![
                hex_digit((rest[0] / 16) as nat),
                hex_digit((rest[0] % 16) as nat),
            ] + hex_of(rest.drop_first())));
        }
    }
    proof {
        assert(bytes@.skip(bytes@.len() as int) =~= Seq::<u8>::empty());
        assert(r@ + Seq::<u8>::empty() =~= r@);
    }
    r
}

/// The archive's SHA-256 digest, in lower-case hex, as ASCII bytes.
pub fn calculate_checksum(data: &Vec<u8>) -> (r: Vec<u8>)
    ensures
        r@ == hex_of(sha256_of(data@)),
{
    let digest = sha256(data);
    to_lower_hex(&digest)
}

fn bytes_eq(a: &Vec<u8>, b: &Vec<u8>) -> (r: bool)
    ensures
        r == (a@ == b@),
{
    if a.len() != b.len() {
        return false;
    }
    let mut i: usize = 0;
    while i < a.len()
        invariant
            i <= a@.len(),
            a@.len() == b@.len(),
            forall|k: int| 0 <= k < i ==> a@[k] == b@[k],
        decreases a@.len() - i,
    {
        if a[i] != b[i] {
            return false;
        }
        i += 1;
    }
    proof {
        assert(a@ =~= b@);
    }
    true
}

/// Leading whitespace does not change the first token.
proof fn lemma_first_token_skip_ws(s: Seq<u8>, i: int)
    requires
        0 <= i <= s.len(),
        forall|k: int| 0 <= k < i ==> is_ws(#[trigger] s[k]),
    ensures
        first_token(s) == first_token(s.skip(i)),
    decreases i,
{
    if i > 0 {
        assert(is_ws(s[0]));
        assert forall|k: int| 0 <= k < i - 1 implies is_ws(#[trigger] s.drop_first()[k]) by {
            assert(s.drop_first()[k] == s[k + 1]);
        }
        lemma_first_token_skip_ws(s.drop_first(), i - 1);
        assert(s.drop_first().skip(i - 1) =~= s.skip(i));
    } else {
        assert(s.skip(0) =~= s);
    }
}

/// The leading token runs exactly to the first whitespace byte.
proof fn lemma_token_prefix_subrange(s: Seq<u8>, j: int)
    requires
        0 <= j <= s.len(),
        forall|k: int| 0 <= k < j ==> !is_ws(#[trigger] s[k]),
        j < s.len() ==> is_ws(s[j]),
    ensures
        token_prefix(s) == s.subrange(0, j),
    decreases j,
{
    if j == 0 {
        assert(s.subrange(0, 0) =~= Seq::<u8>::empty());
    } else {
        assert(!is_ws(s[0]));
        assert forall|k: int| 0 <= k < j - 1 implies !is_ws(#[trigger] s.drop_first()[k]) by {
            assert(s.drop_first()[k] == s[k + 1]);
        }
        if j - 1 < s.drop_first().len() {
            assert(s.drop_first()[j - 1] == s[j as int]);
        }
        lemma_token_prefix_subrange(s.drop_first(), j - 1);
        assert(seq![s[0]] + s.drop_first().subrange(0, j - 1) =~= s.subrange(0, j));
    }
}

/// The first whitespace-delimited token of the checksum file contents,
/// as the scraper reads it.
pub fn extract_first_token(content: &Vec<u8>) -> (r: Option<Vec<u8>>)
    ensures
        match r {
            Option::Some(tok) => first_token(content@) == Option::Some(tok@),
            Option::None => first_token(content@) == Option::<Seq<u8>>::None,
        },
{
    let mut i: usize = 0;
    while i < content.len() && is_ws_byte(content[i])
        invariant
            i <= content@.len(),
            forall|k: int| 0 <= k < i ==> is_ws(#[trigger] content@[k]),
        decreases content@.len() - i,
    {
        i += 1;
    }
    proof {
        lemma_first_token_skip_ws(content@, i as int);
    }
    if i == content.len() {
        proof {
            assert(content@.skip(i as int) =~= Seq::<u8>::empty());
        }
        return Option::None;
    }
    let mut j: usize = i;
    while j < content.len() && !is_ws_byte(content[j])
        invariant
            i <= j <= content@.len(),
            forall|k: int| i <= k < j ==> !is_ws(#[trigger] content@[k]),
        decreases content@.len() - j,
    {
        j += 1;
    }
    let mut tok: Vec<u8> = Vec::new();
    let mut k: usize = i;
    while k < j
        invariant
            i <= k <= j <= content@.len(),
            tok@ == content@.subrange(i as int, k as int),
        decreases j - k,
    {
        tok.push(content[k]);
        proof {
            assert(content@.subrange(i as int, k as int).push(content@[k as int])
                =~= content@.subrange(i as int, k as int + 1));
        }
        k += 1;
    }
    proof {
        let rest = content@.skip(i as int);
        assert(!is_ws(rest[0]));
        assert forall|m: int| 0 <= m < j - i implies !is_ws(#[trigger] rest[m]) by {
            assert(rest[m] == content@[m + i]);
        }
        if j < content@.len() {
            assert(rest[j - i] == content@[j as int]);
        }
        lemma_token_prefix_subrange(rest, j - i);
        assert(rest.subrange(0, j - i) =~= content@.subrange(i as int, j as int));
    }
    Option::Some(tok)
}

fn is_ws_byte(b: u8) -> (r: bool)
    ensures
        r == is_ws(b),
{
    b == 32 || b == 9 || b == 10 || b == 11 || b == 12 || b == 13
}

/// Checks an archive against its checksum file. `None` stands for a
/// file that is absent or unreadable. Returns `Match` exactly when
/// both contents are at hand, the checksum file has a first token, and
/// that token is the archive's lower-hex SHA-256 digest; `Mismatch`
/// exactly when everything is at hand but the digests differ.
pub fn verify_integrity(archive: Option<&Vec<u8>>, checksum_file: Option<&Vec<u8>>) -> (r:
    IntegrityOutcome)
    ensures
        r == spec_verify(
            match archive {
                Option::Some(data) => Option::Some(data@),
                Option::None => Option::None,
            },
            match checksum_file {
                Option::Some(checks) => Option::Some(checks@),
                Option::None => Option::None,
            },
        ),
{
    match (archive, checksum_file) {
        (Option::Some(data), Option::Some(checks)) => {
            match extract_first_token(checks) {
                Option::Some(token) => {
                    let digest = calculate_checksum(data);
                    if bytes_eq(&token, &digest) {
                        IntegrityOutcome::Match
                    } else {
                        IntegrityOutcome::Mismatch
                    }
                },
                Option::None => IntegrityOutcome::Unavailable,
            }
        },
        _ => IntegrityOutcome::Unavailable,
    }
}

/// The original entry point: `Ok` exactly on a checksum match, and an
/// integrity error otherwise.
pub fn check_zip_integrity(archive: Option<&Vec<u8>>, checksum_file: Option<&Vec<u8>>) -> (r:
    Result<(), ScrapperError>)
    ensures
        r is Ok <==> spec_verify(
            match archive {
                Option::Some(data) => Option::Some(data@),
                Option::None => Option::None,
            },
            match checksum_file {
                Option::Some(checks) => Option::Some(checks@),
                Option::None => Option::None,
            },
        ) == IntegrityOutcome::Match,
        r is Err ==> r->Err_0 is IntegrityError,
{
    match verify_integrity(archive, checksum_file) {
        IntegrityOutcome::Match => Ok(()),
        IntegrityOutcome::Mismatch => Err(
            ScrapperError::IntegrityError(
                String::from_str("Checksum mismatch for downloaded archive"),
            ),
        ),
        IntegrityOutcome::Unavailable => Err(
            ScrapperError::IntegrityError(
                String::from_str("Archive or checksum file unavailable"),
            ),
        ),
    }
}

/// Whether `year` is a leap year of the Gregorian calendar.
pub open spec fn spec_is_leap_year(year: int) -> bool {
    (year % 4 == 0 && year % 100 != 0) || year % 400 == 0
}

/// Days of one month; 0 for an invalid month number.
pub open spec fn spec_days_in_month(month: int, year: int) -> int {
    if month == 1 || month == 3 || month == 5 || month == 7 || month == 8 || month == 10 || month
        == 12 {
        31
    } else if month == 4 || month == 6 || month == 9 || month == 11 {
        30
    } else if month == 2 {
        if spec_is_leap_year(year) {
            29
        } else {
            28
        }
    } else {
        0
    }
}

/// How many sampling minutes one month holds; `None` for an invalid
/// month number.
pub fn get_minutes_in_month(month: u32, year: i32) -> (r: Option<u64>)
    ensures
        1 <= month <= 12 ==> r == Option::Some((spec_days_in_month(month as int, year as int) * 24
            * 60) as u64),
        !(1 <= month <= 12) ==> r is None,
{
    let days: u64 = match month {
        1 | 3 | 5 | 7 | 8 | 10 | 12 => 31,
        4 | 6 | 9 | 11 => 30,
        2 => {
            if (year % 4 == 0 && year % 100 != 0) || year % 400 == 0 {
                29
            } else {
                28
            }
        },
        _ => {
            return Option::None;
        },
    };
    Option::Some(days * 24 * 60)
}

} // verus!
