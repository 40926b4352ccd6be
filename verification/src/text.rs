use vstd::prelude::*;
use vstd::string::StrSliceExecFns;
use vstd::string::StringExecFns;

verus! {

/// Character-for-character string equality.
pub fn str_eq(a: &str, b: &str) -> (r: bool)
    ensures
        r == (a@ == b@),
{
    let n = a.unicode_len();
    let m = b.unicode_len();
    if n != m {
        return false;
    }
    let mut i: usize = 0;
    while i < n
        invariant
            n == a@.len(),
            n == b@.len(),
            i <= n,
            forall|j: int| 0 <= j < i ==> a@[j] == b@[j],
        decreases n - i,
    {
        if a.get_char(i) != b.get_char(i) {
            return false;
        }
        i = i + 1;
    }
    proof {
        assert(a@ =~= b@);
    }
    true
}

/// The short URL shown to a client: the base URL, a separator, the code.
pub fn build_short_url(base_url: &str, short_code: &str) -> (r: String)
    ensures
        r@ == base_url@ + seq!['/'] + short_code@,
{
    let mut s = base_url.to_owned();
    s.append(slash_str());
    s.append(short_code);
    proof {
        assert(s@ =~= base_url@ + seq!['/'] + short_code@);
    }
    s
}

fn slash_str() -> (r: &'static str)
    ensures
        r@ == seq!['/'],
{
    proof {
        reveal_strlit("/");
    }
    assert("/"@ =~= seq!['/']);
    "/"
}

} // verus!
