use vstd::prelude::*;
use vstd::string::StrSliceExecFns;
use vstd::string::StringExecFns;
use sha2::Digest;

verus! {

/// What SHA-256 returns for the UTF-8 bytes of a string. The digest is a pure
/// function of its input, so it can be given a name and nothing more: writing
/// the algorithm out as a spec would state pages that nothing here could check.
pub uninterp spec fn sha256_of(s: Seq<char>) -> Seq<u8>;

/// The lowercase hex digit for a value below sixteen.
pub open spec fn hex_digit(n: int) -> char {
    if n == 0 { '0' } else if n == 1 { '1' } else if n == 2 { '2' }
    else if n == 3 { '3' } else if n == 4 { '4' } else if n == 5 { '5' }
    else if n == 6 { '6' } else if n == 7 { '7' } else if n == 8 { '8' }
    else if n == 9 { '9' } else if n == 10 { 'a' } else if n == 11 { 'b' }
    else if n == 12 { 'c' } else if n == 13 { 'd' } else if n == 14 { 'e' }
    else { 'f' }
}

/// Lowercase hex encoding: each byte becomes two digits, high nibble first.
pub open spec fn hex_of(bs: Seq<u8>) -> Seq<char>
    decreases bs.len(),
{
    if bs.len() == 0 {
        Seq::empty()
    } else {
        seq![hex_digit(bs[0] as int / 16), hex_digit(bs[0] as int % 16)] + hex_of(bs.drop_first())
    }
}

pub proof fn lemma_hex_of_len(bs: Seq<u8>)
    ensures
        hex_of(bs).len() == 2 * bs.len(),
    decreases bs.len(),
{
    if bs.len() > 0 {
        lemma_hex_of_len(bs.drop_first());
    }
}

/// The full 64-digit hex form of the SHA-256 digest of a string.
pub open spec fn hash_hex(s: Seq<char>) -> Seq<char> {
    hex_of(sha256_of(s))
}

/// How long a derived code is for a configured length: the length itself,
/// capped at the 64 digits the digest has.
pub open spec fn code_len(len: int) -> int {
    if len < 64 {
        len
    } else {
        64
    }
}

/// The short code derived from an input string: the hex digest truncated to
/// `len` characters (to all 64 when `len` is larger).
pub open spec fn code_of(s: Seq<char>, len: int) -> Seq<char> {
    hash_hex(s).take(code_len(len))
}

/// Truncations of one full digest agree on their common prefix: deriving a
/// shorter code from the same 64-digit digest only drops trailing digits.
pub proof fn lemma_truncation_prefix(h: Seq<char>, a: int, b: int)
    requires
        0 <= a <= b,
        h.len() == 64,
    ensures
        h.take(code_len(a)) == h.take(code_len(b)).take(code_len(a)),
{
    assert(h.take(code_len(b)).take(code_len(a)) =~= h.take(code_len(a)));
}

/// Relies on sha2::Sha256 through Digest::digest: SHA-256 of the input bytes,
/// a 256-bit (32-byte) digest depending on the input alone.
#[verifier::external_body]
fn sha256_digest(s: &str) -> (r: Vec<u8>)
    ensures
        r@ == sha256_of(s@),
        r@.len() == 32,
{
    sha2::Sha256::digest(s.as_bytes()).to_vec()
}

/// Relies on hex::encode: lowercase hex, exactly two digits per input byte,
/// high nibble first, from its `0123456789abcdef` table.
#[verifier::external_body]
fn hex_lower(bytes: &Vec<u8>) -> (r: String)
    ensures
        r@ == hex_of(bytes@),
{
    hex::encode(bytes)
}

/// Derives the short code for `url`: the lowercase hex SHA-256 digest,
/// truncated to `length` characters — so the code is exactly `length`
/// characters long, capped at the digest's 64.
pub fn create_hash(url: &str, length: usize) -> (r: String)
    ensures
        r@ == code_of(url@, length as int),
        r@.len() == code_len(length as int),
        hash_hex(url@).len() == 64,
{
    let digest = sha256_digest(url);
    let hex = hex_lower(&digest);
    proof {
        lemma_hex_of_len(digest@);
    }
    let end: usize = if length < 64 { length } else { 64 };
    let code = hex.as_str().substring_char(0, end);
    proof {
        assert(code@ =~= code_of(url@, length as int));
    }
    code.to_owned()
}

/// The decimal digit character for a value below ten.
pub open spec fn decimal_digit(k: int) -> char {
    if k == 0 { '0' } else if k == 1 { '1' } else if k == 2 { '2' }
    else if k == 3 { '3' } else if k == 4 { '4' } else if k == 5 { '5' }
    else if k == 6 { '6' } else if k == 7 { '7' } else if k == 8 { '8' }
    else { '9' }
}

fn digit_str(k: usize) -> (r: &'static str)
    requires
        k < 10,
    ensures
        r@ == seq![decimal_digit(k as int)],
{
    if k == 0 { proof { reveal_strlit("0"); } assert("0"@ =~= seq!['0']); "0" }
    else if k == 1 { proof { reveal_strlit("1"); } assert("1"@ =~= seq!['1']); "1" }
    else if k == 2 { proof { reveal_strlit("2"); } assert("2"@ =~= seq!['2']); "2" }
    else if k == 3 { proof { reveal_strlit("3"); } assert("3"@ =~= seq!['3']); "3" }
    else if k == 4 { proof { reveal_strlit("4"); } assert("4"@ =~= seq!['4']); "4" }
    else if k == 5 { proof { reveal_strlit("5"); } assert("5"@ =~= seq!['5']); "5" }
    else if k == 6 { proof { reveal_strlit("6"); } assert("6"@ =~= seq!['6']); "6" }
    else if k == 7 { proof { reveal_strlit("7"); } assert("7"@ =~= seq!['7']); "7" }
    else if k == 8 { proof { reveal_strlit("8"); } assert("8"@ =~= seq!['8']); "8" }
    else { proof { reveal_strlit("9"); } assert("9"@ =~= seq!['9']); "9" }
}

/// The hash input for attempt `k`: the URL itself for the first attempt, the
/// URL with the decimal attempt number appended for later ones.
pub open spec fn salted(u: Seq<char>, k: int) -> Seq<char> {
    if k == 0 {
        u
    } else {
        u.push(decimal_digit(k))
    }
}

/// The short code candidate for attempt `k` of a URL: deterministic, so that
/// every process derives the same sequence of candidates without coordination.
pub open spec fn candidate(u: Seq<char>, len: int, k: int) -> Seq<char> {
    code_of(salted(u, k), len)
}

/// Computes the candidate short code for attempt `attempt` of `url`.
pub fn candidate_code(url: &str, length: usize, attempt: usize) -> (r: String)
    requires
        attempt < 10,
    ensures
        r@ == candidate(url@, length as int, attempt as int),
        r@.len() == code_len(length as int),
        hash_hex(salted(url@, attempt as int)).len() == 64,
{
    if attempt == 0 {
        create_hash(url, length)
    } else {
        let mut input = url.to_owned();
        input.append(digit_str(attempt));
        proof {
            assert(input@ =~= salted(url@, attempt as int));
        }
        create_hash(input.as_str(), length)
    }
}

} // verus!
