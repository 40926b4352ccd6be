use vstd::prelude::*;
use vstd::assert_by_contradiction;
use vstd::string::StrSliceExecFns;
use vstd::string::StringExecFns;

use crate::errors::ValidationError;

verus! {

// --- The domain-label grammar -----------------------------------------------
//
// A host is acceptable when it is one or more labels of letters, digits,
// hyphens and dots, followed by a dot and a final label of at least two
// letters. This rejects bare names (`localhost`), IP-literal-looking hosts
// (`127.0.0.1`), and empty hosts.

/// An ASCII letter.
pub open spec fn is_alpha(c: char) -> bool {
    (('a' as int) <= (c as int) && (c as int) <= ('z' as int)) || (('A' as int) <= (c as int) && (
    c as int) <= ('Z' as int))
}

/// An ASCII digit.
pub open spec fn is_digit(c: char) -> bool {
    ('0' as int) <= (c as int) && (c as int) <= ('9' as int)
}

/// A character allowed anywhere in the labels before the final one.
pub open spec fn is_domain_char(c: char) -> bool {
    is_alpha(c) || is_digit(c) || c == '-' || c == '.'
}

pub open spec fn all_domain_chars(s: Seq<char>) -> bool {
    forall|i: int| 0 <= i < s.len() ==> is_domain_char(#[trigger] s[i])
}

pub open spec fn all_alpha(s: Seq<char>) -> bool {
    forall|i: int| 0 <= i < s.len() ==> is_alpha(#[trigger] s[i])
}

/// The grammar itself: a nonempty run of domain characters, a dot, and an
/// alphabetic final label of at least two characters.
pub open spec fn valid_domain(h: Seq<char>) -> bool {
    exists|i: int|
        1 <= i && i + 3 <= h.len() && #[trigger] h[i] == '.' && all_domain_chars(h.take(i))
            && all_alpha(h.skip(i + 1))
}

/// Any witness split of a valid domain sits at the last dot: letters carry
/// no dot, so nothing after the split may be one.
proof fn lemma_domain_split_is_last_dot(h: Seq<char>, d: int)
    requires
        0 <= d < h.len(),
        h[d] == '.',
        forall|m: int| d < m < h.len() ==> h[m] != '.',
        valid_domain(h),
    ensures
        1 <= d,
        d + 3 <= h.len(),
        all_domain_chars(h.take(d)),
        all_alpha(h.skip(d + 1)),
{
    let i = choose|i: int|
        1 <= i && i + 3 <= h.len() && #[trigger] h[i] == '.' && all_domain_chars(h.take(i))
            && all_alpha(h.skip(i + 1));
    if i < d {
        assert(h.skip(i + 1)[d - i - 1] == h[d]);
        assert(is_alpha(h[d]));
        assert(('.' as int) == 46);
        assert(false);
    }
    if i > d {
        assert(h[i] != '.');
        assert(false);
    }
    assert(h.take(i) =~= h.take(d));
    assert(h.skip(i + 1) =~= h.skip(d + 1));
}

fn char_is_alpha(c: char) -> (r: bool)
    ensures
        r == is_alpha(c),
{
    let n = c as u32;
    (97 <= n && n <= 122) || (65 <= n && n <= 90)
}

fn char_is_domain(c: char) -> (r: bool)
    ensures
        r == is_domain_char(c),
{
    let n = c as u32;
    char_is_alpha(c) || (48 <= n && n <= 57) || n == 45 || n == 46
}

/// Whether a host matches the domain-label grammar.
#[verifier::loop_isolation(false)]
pub fn domain_matches(host: &str) -> (r: bool)
    ensures
        r == valid_domain(host@),
{
    let n = host.unicode_len();
    let mut i: usize = 0;
    let mut last_dot: Option<usize> = None;
    while i < n
        invariant
            n == host@.len(),
            i <= n,
            last_dot is None ==> forall|m: int| 0 <= m < i ==> host@[m] != '.',
            last_dot matches Some(j) ==> j < i && host@[j as int] == '.' && (forall|m: int|
                j < m < i ==> host@[m] != '.'),
        decreases n - i,
    {
        if host.get_char(i) == '.' {
            last_dot = Some(i);
        }
        i = i + 1;
    }
    match last_dot {
        None => {
            proof {
                assert_by_contradiction!(!valid_domain(host@), {
                    let w = choose|w: int|
                        1 <= w && w + 3 <= host@.len() && #[trigger] host@[w] == '.'
                            && all_domain_chars(host@.take(w)) && all_alpha(host@.skip(w + 1));
                    assert(host@[w] != '.');
                });
            }
            false
        },
        Some(d) => {
            if d < 1 || n - d < 3 {
                proof {
                    assert_by_contradiction!(!valid_domain(host@), {
                        lemma_domain_split_is_last_dot(host@, d as int);
                    });
                }
                return false;
            }
            let mut p: usize = 0;
            while p < d
                invariant
                    n == host@.len(),
                    d < n,
                    p <= d,
                    forall|m: int| 0 <= m < p ==> is_domain_char(#[trigger] host@[m]),
                decreases d - p,
            {
                if !char_is_domain(host.get_char(p)) {
                    proof {
                        assert_by_contradiction!(!valid_domain(host@), {
                            lemma_domain_split_is_last_dot(host@, d as int);
                            assert(is_domain_char(host@.take(d as int)[p as int]));
                        });
                    }
                    return false;
                }
                p = p + 1;
            }
            let mut q: usize = d + 1;
            while q < n
                invariant
                    n == host@.len(),
                    d + 1 <= q <= n,
                    forall|m: int| d < m < q ==> is_alpha(#[trigger] host@[m]),
                decreases n - q,
            {
                if !char_is_alpha(host.get_char(q)) {
                    proof {
                        assert_by_contradiction!(!valid_domain(host@), {
                            lemma_domain_split_is_last_dot(host@, d as int);
                            assert(is_alpha(host@.skip(d as int + 1)[q - d - 1]));
                        });
                    }
                    return false;
                }
                q = q + 1;
            }
            proof {
                assert(all_domain_chars(host@.take(d as int))) by {
                    assert(forall|m: int|
                        0 <= m < d ==> is_domain_char(#[trigger] host@.take(d as int)[m]));
                }
                assert(all_alpha(host@.skip(d as int + 1))) by {
                    assert(forall|m: int|
                        0 <= m < host@.len() - d - 1 ==> is_alpha(
                            #[trigger] host@.skip(d as int + 1)[m],
                        ));
                }
                assert(1 <= d as int && d as int + 3 <= host@.len() && host@[d as int] == '.');
            }
            true
        },
    }
}

// --- Parsing through the url crate ------------------------------------------

/// Whether the url crate accepts a string as an absolute URL.
pub uninterp spec fn url_ok(s: Seq<char>) -> bool;

/// The canonical serialization the url crate gives a parsed URL.
pub uninterp spec fn url_canon(s: Seq<char>) -> Seq<char>;

/// The host component of a parsed URL, if it has one.
pub uninterp spec fn url_host(s: Seq<char>) -> Option<Seq<char>>;

/// The path component of a parsed URL.
pub uninterp spec fn url_path(s: Seq<char>) -> Seq<char>;

/// The query component of a parsed URL, if one was given.
pub uninterp spec fn url_query(s: Seq<char>) -> Option<Seq<char>>;

/// The fragment component of a parsed URL, if one was given.
pub uninterp spec fn url_fragment(s: Seq<char>) -> Option<Seq<char>>;

/// The components of one parsed URL, as plain values.
pub struct UrlParts {
    pub canonical: String,
    pub host: Option<String>,
    pub path: String,
    pub query: Option<String>,
    pub fragment: Option<String>,
}

/// Relies on url::Url::parse, and on Url::as_str, Url::host_str, Url::path,
/// Url::query and Url::fragment of the parsed value: parsing either rejects
/// the input or canonicalizes it, and every component named here is a pure
/// function of the input string.
#[verifier::external_body]
fn parse_url(s: &str) -> (r: Option<UrlParts>)
    ensures
        r is Some <==> url_ok(s@),
        r matches Some(p) ==> p.canonical@ == url_canon(s@) && (p.host is Some <==> url_host(s@)
            is Some) && (p.host matches Some(h) ==> url_host(s@) == Option::Some(h@)) && p.path@
            == url_path(s@) && (p.query is Some <==> url_query(s@) is Some) && (p.fragment is Some
            <==> url_fragment(s@) is Some),
{
    match url::Url::parse(s) {
        Ok(u) => Some(UrlParts {
            canonical: u.as_str().to_string(),
            host: u.host_str().map(|h| h.to_string()),
            path: u.path().to_string(),
            query: u.query().map(|q| q.to_string()),
            fragment: u.fragment().map(|f| f.to_string()),
        }),
        Err(_) => None,
    }
}

/// What str::trim leaves of a string.
pub uninterp spec fn trim_of(s: Seq<char>) -> Seq<char>;

/// Relies on str::trim: the input without leading and trailing whitespace,
/// a function of the characters alone.
#[verifier::external_body]
fn trim_ws(s: &str) -> (r: &str)
    ensures
        r@ == trim_of(s@),
{
    s.trim()
}

// --- Normalization -----------------------------------------------------------

/// The default-scheme rule: an input the parser rejects as it stands is
/// retried with the `https` scheme in front.
pub open spec fn https_prefixed(t: Seq<char>) -> Seq<char> {
    "https://"@ + t
}

pub open spec fn parse_input(t: Seq<char>) -> Seq<char> {
    if url_ok(t) {
        t
    } else {
        https_prefixed(t)
    }
}

/// Whether a parsed URL has no path beyond root and nothing after it, so
/// that its canonical form ends in a bare separator to strip.
pub open spec fn bare_root(w: Seq<char>) -> bool {
    url_path(w).len() == 1 && url_path(w)[0] == '/' && url_query(w) is None && url_fragment(w)
        is None
}

/// The canonical string for a parsed input, with the bare root separator
/// stripped so that a root URL with and without the trailing slash
/// normalize identically.
pub open spec fn canonical_form(w: Seq<char>) -> Seq<char> {
    let c = url_canon(w);
    if bare_root(w) && c.len() > 0 && c[c.len() - 1] == '/' {
        c.take(c.len() - 1)
    } else {
        c
    }
}

/// What normalization returns for any input: the canonical absolute URL
/// string, or the first reason to reject, checked in this order: emptiness,
/// length, parsability (with the default scheme), domain validity.
pub open spec fn normalize_spec(s: Seq<char>) -> Result<Seq<char>, ValidationError> {
    let t = trim_of(s);
    if t.len() == 0 {
        Result::Err(ValidationError::Empty)
    } else if t.len() > 2048 {
        Result::Err(ValidationError::TooLong)
    } else {
        let w = parse_input(t);
        if !url_ok(w) {
            Result::Err(ValidationError::Unparsable)
        } else if !(url_host(w) matches Some(h) && valid_domain(h)) {
            Result::Err(ValidationError::InvalidDomain)
        } else {
            Result::Ok(canonical_form(w))
        }
    }
}

fn canonicalize_parts(p: UrlParts, Ghost(w): Ghost<Seq<char>>) -> (r: Result<
    String,
    ValidationError,
>)
    requires
        url_ok(w),
        p.canonical@ == url_canon(w),
        p.host is Some <==> url_host(w) is Some,
        p.host matches Some(h) ==> url_host(w) == Option::Some(h@),
        p.path@ == url_path(w),
        p.query is Some <==> url_query(w) is Some,
        p.fragment is Some <==> url_fragment(w) is Some,
    ensures
        r matches Ok(s) ==> (url_host(w) matches Some(h) && valid_domain(h)) && s@
            == canonical_form(w),
        r matches Err(e) ==> e == ValidationError::InvalidDomain && !(url_host(w) matches Some(h)
            && valid_domain(h)),
{
    match p.host {
        Some(h) => {
            if domain_matches(h.as_str()) {
                let plen = p.path.as_str().unicode_len();
                let root = plen == 1 && p.path.as_str().get_char(0) == '/' && p.query.is_none()
                    && p.fragment.is_none();
                let clen = p.canonical.as_str().unicode_len();
                if root && clen > 0 && p.canonical.as_str().get_char(clen - 1) == '/' {
                    let stripped = p.canonical.as_str().substring_char(0, clen - 1);
                    proof {
                        assert(stripped@ =~= canonical_form(w));
                    }
                    Ok(stripped.to_owned())
                } else {
                    Ok(p.canonical)
                }
            } else {
                Err(ValidationError::InvalidDomain)
            }
        },
        None => Err(ValidationError::InvalidDomain),
    }
}

fn https_str() -> (r: &'static str)
    ensures
        r@ == "https://"@,
{
    "https://"
}

/// Canonicalizes an input string into a well-formed absolute URL, or rejects
/// it: trimmed, nonempty, at most 2048 characters, parsable (defaulting the
/// scheme to https), with a host matching the domain-label grammar, and with
/// a bare root separator stripped. The result is the identity every later
/// hashing, storage and idempotency step works on, and it is a pure function
/// of the input.
pub fn normalize_url(input: &str) -> (r: Result<String, ValidationError>)
    ensures
        r matches Ok(s) ==> normalize_spec(input@) == Result::<Seq<char>, ValidationError>::Ok(s@),
        r matches Err(e) ==> normalize_spec(input@) == Result::<Seq<char>, ValidationError>::Err(e),
{
    let trimmed = trim_ws(input);
    let n = trimmed.unicode_len();
    if n == 0 {
        return Err(ValidationError::Empty);
    }
    if n > 2048 {
        return Err(ValidationError::TooLong);
    }
    match parse_url(trimmed) {
        Some(p) => canonicalize_parts(p, Ghost(trimmed@)),
        None => {
            let mut w = https_str().to_owned();
            w.append(trimmed);
            proof {
                assert(w@ == https_prefixed(trim_of(input@)));
            }
            match parse_url(w.as_str()) {
                Some(p) => canonicalize_parts(p, Ghost(w@)),
                None => Err(ValidationError::Unparsable),
            }
        },
    }
}

/// Whether an input parses as a URL whose host matches the domain grammar.
pub fn is_valid_domain(url: &str) -> (r: bool)
    ensures
        r == (url_ok(url@) && (url_host(url@) matches Some(h) && valid_domain(h))),
{
    match parse_url(url) {
        Some(p) => match p.host {
            Some(h) => domain_matches(h.as_str()),
            None => false,
        },
        None => false,
    }
}

} // verus!
