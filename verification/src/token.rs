//! Login tokens: the short-lived credentials minted at login and consumed at
//! stream-upgrade time.

use vstd::prelude::*;

verus! {

/// Length of a login token, in characters.
pub const LT_LEN: usize = 40;

/// An ASCII alphanumeric character: `0`-`9`, `A`-`Z` or `a`-`z`.
pub open spec fn is_token_char(c: char) -> bool {
    (48 <= c as u32 && c as u32 <= 57) || (65 <= c as u32 && c as u32 <= 90) || (97 <= c as u32
        && c as u32 <= 122)
}

/// `s` is exactly `len` characters long and entirely ASCII alphanumeric.
pub open spec fn spec_alphanumeric_len(s: Seq<char>, len: int) -> bool {
    s.len() == len && (forall|i: int| 0 <= i < s.len() ==> is_token_char(s[i]))
}

/// Whether `value` consists of exactly `len` ASCII alphanumeric characters.
pub fn alphanumeric_len(value: &str, len: usize) -> (r: bool)
    ensures
        r == spec_alphanumeric_len(value@, len as int),
{
    let n = value.unicode_len();
    if n != len {
        return false;
    }
    let mut i: usize = 0;
    while i < n
        invariant
            n == value@.len(),
            0 <= i <= n,
            forall|j: int| 0 <= j < i ==> is_token_char(value@[j]),
        decreases n - i,
    {
        let c = value.get_char(i);
        let u = c as u32;
        let ok = (48 <= u && u <= 57) || (65 <= u && u <= 90) || (97 <= u && u <= 122);
        if !ok {
            return false;
        }
        i = i + 1;
    }
    true
}

/// Character-for-character string equality.
pub fn str_eq(a: &str, b: &str) -> (r: bool)
    ensures
        r == (a@ == b@),
{
    let n = a.unicode_len();
    let m = b.unicode_len();
    if n != m {
        return false;
    }
    let mut i: usize = 0;
    while i < n
        invariant
            n == a@.len(),
            n == b@.len(),
            0 <= i <= n,
            forall|j: int| 0 <= j < i ==> a@[j] == b@[j],
        decreases n - i,
    {
        if a.get_char(i) != b.get_char(i) {
            return false;
        }
        i = i + 1;
    }
    proof {
        assert(a@ =~= b@);
    }
    true
}

/// A random fixed-length alphanumeric credential minted on successful login.
#[derive(Debug)]
pub struct LoginToken {
    pub tk: String,
}

/// A login token is well formed when it has exactly [`LT_LEN`] ASCII
/// alphanumeric characters.
pub open spec fn token_wf(t: LoginToken) -> bool {
    spec_alphanumeric_len(t.tk@, LT_LEN as int)
}

/// Relies on rand's `Alphanumeric` distribution: `sample_string` returns a
/// string of exactly `len` characters, each drawn from `A`-`Z`, `a`-`z`,
/// `0`-`9`.
#[verifier::external_body]
fn random_alphanumeric(len: usize) -> (r: String)
    ensures
        r@.len() == len,
        forall|i: int| 0 <= i < r@.len() ==> is_token_char(r@[i]),
{
    rand::distr::SampleString::sample_string(&rand::distr::Alphanumeric, &mut rand::rng(), len)
}

impl LoginToken {
    /// Mint a fresh random token.
    pub fn new() -> (r: LoginToken)
        ensures
            token_wf(r),
    {
        LoginToken { tk: random_alphanumeric(LT_LEN) }
    }

    /// Accept a presented string as a token exactly when it has the required
    /// shape; otherwise report its character count.
    pub fn parse(s: &str) -> (r: Result<LoginToken, usize>)
        ensures
            r matches Ok(t) ==> t.tk@ == s@ && token_wf(t),
            r is Ok <==> spec_alphanumeric_len(s@, LT_LEN as int),
            r matches Err(n) ==> n == s@.len(),
    {
        if alphanumeric_len(s, LT_LEN) {
            Ok(LoginToken { tk: s.to_owned() })
        } else {
            Err(s.unicode_len())
        }
    }
}

impl Clone for LoginToken {
    fn clone(&self) -> (r: Self)
        ensures
            r == *self,
    {
        LoginToken { tk: self.tk.clone() }
    }
}

impl PartialEq for LoginToken {
    fn eq(&self, other: &Self) -> (r: bool) {
        self.tk == other.tk
    }
}

impl vstd::std_specs::cmp::PartialEqSpecImpl for LoginToken {
    open spec fn obeys_eq_spec() -> bool {
        true
    }

    open spec fn eq_spec(&self, other: &Self) -> bool {
        self.tk@ == other.tk@
    }
}

} // verus!
