use vstd::prelude::*;

verus! {

/// Length of a tracking code.
pub const CODE_LEN: usize = 6;

/// An ASCII letter or digit.
pub open spec fn is_alnum_char(c: char) -> bool {
    ('A' <= c && c <= 'Z') || ('a' <= c && c <= 'z') || ('0' <= c && c <= '9')
}

/// Six ASCII letters or digits.
pub open spec fn is_tracking_code(s: Seq<char>) -> bool {
    s.len() == CODE_LEN && forall|i: int| 0 <= i < s.len() ==> is_alnum_char(#[trigger] s[i])
}

/// Relies on rand's `Alphanumeric` distribution (sampled from `thread_rng`): every sample
/// is one of `A-Z`, `a-z`, `0-9`. The character is returned as a one-character string.
#[verifier::external_body]
fn random_alnum() -> (r: String)
    ensures
        r@.len() == 1,
        is_alnum_char(r@[0]),
{
    let b: u8 = rand::Rng::sample(&mut rand::thread_rng(), rand::distributions::Alphanumeric);
    String::from(b as char)
}

/// A fresh random tracking code. Uniqueness is not checked here: the store refuses a code in use.
pub fn generate_code() -> (r: String)
    ensures
        is_tracking_code(r@),
{
    let mut code = String::new();
    let mut i: usize = 0;
    while i < CODE_LEN
        invariant
            i <= CODE_LEN,
            code@.len() == i,
            forall|k: int| 0 <= k < i ==> is_alnum_char(#[trigger] code@[k]),
        decreases CODE_LEN - i,
    {
        let piece = random_alnum();
        let ghost before = code@;
        code.append(piece.as_str());
        assert(code@ == before + piece@);
        assert(code@[i as int] == piece@[0]);
        i = i + 1;
    }
    code
}

/// Whether `s` has the shape of a tracking code.
pub fn is_valid_code(s: &str) -> (r: bool)
    ensures
        r == is_tracking_code(s@),
{
    let n = s.unicode_len();
    if n != CODE_LEN {
        return false;
    }
    let mut i: usize = 0;
    while i < n
        invariant
            n == s@.len(),
            i <= n,
            forall|k: int| 0 <= k < i ==> is_alnum_char(#[trigger] s@[k]),
        decreases n - i,
    {
        let c = s.get_char(i);
        if !(('A' <= c && c <= 'Z') || ('a' <= c && c <= 'z') || ('0' <= c && c <= '9')) {
            return false;
        }
        i = i + 1;
    }
    true
}

} // verus!
