use vstd::prelude::*;

verus! {

/// Why an administrative request is refused.
#[derive(PartialEq, Eq, Structural, Clone, Copy, Debug)]
pub enum AuthError {
    /// No credential was presented: the client should be challenged.
    Unauthenticated,
    /// A credential was presented and does not match.
    Forbidden,
}

/// Position of the first `x` in `s`, or `s.len()` when there is none.
pub open spec fn index_of_first<A>(s: Seq<A>, x: A) -> int
    decreases s.len(),
{
    if s.len() == 0 {
        0
    } else if s[0] == x {
        0
    } else {
        1 + index_of_first(s.drop_first(), x)
    }
}

/// The second `sep`-separated field of `s`: what lies between the first `sep` and the next one
/// (or the end). `None` when `s` holds no `sep`.
pub open spec fn second_field<A>(s: Seq<A>, sep: A) -> Option<Seq<A>> {
    let i = index_of_first(s, sep);
    if i >= s.len() {
        None
    } else {
        let rest = s.subrange(i + 1, s.len() as int);
        Some(rest.subrange(0, index_of_first(rest, sep)))
    }
}

/// Everything after the first `sep` of `s`; `None` when `s` holds no `sep`.
pub open spec fn after_first<A>(s: Seq<A>, sep: A) -> Option<Seq<A>> {
    let i = index_of_first(s, sep);
    if i >= s.len() {
        None
    } else {
        Some(s.subrange(i + 1, s.len() as int))
    }
}

/// Lower-case hexadecimal digit for a value below 16.
pub open spec fn hex_digit(n: int) -> char {
    if n < 10 {
        ((n + 48) as u8) as char
    } else {
        ((n + 87) as u8) as char
    }
}

/// Two lower-case hexadecimal digits per byte, high nibble first.
pub open spec fn hex_of(b: Seq<u8>) -> Seq<char> {
    Seq::new(2 * b.len(), |i: int| hex_digit(if i % 2 == 0 { b[i / 2] / 16 } else { b[i / 2] % 16 } as int))
}

/// What base64 decoding (standard alphabet, padding optional) makes of `s`; `None` when it is not valid.
pub uninterp spec fn base64_decoded(s: Seq<char>) -> Option<Seq<u8>>;

/// The SHA-256 digest of `b`.
pub uninterp spec fn sha256_of(b: Seq<u8>) -> Seq<u8>;

/// Outcome for a presented digest against the configured hex digest.
pub open spec fn digest_outcome(digest: Seq<u8>, reference: Seq<char>) -> Result<(), AuthError> {
    if hex_of(digest) == reference {
        Ok(())
    } else {
        Err(AuthError::Forbidden)
    }
}

/// Outcome for decoded `user:password` bytes: only the password, everything after the first `:`,
/// is hashed and compared.
pub open spec fn decoded_outcome(decoded: Seq<u8>, reference: Seq<char>) -> Result<(), AuthError> {
    match after_first(decoded, 58u8) {
        None => Err(AuthError::Forbidden),
        Some(p) => digest_outcome(sha256_of(p), reference),
    }
}

/// Outcome for an `Authorization` header value (`Basic <base64 of user:password>`), if any.
pub open spec fn gate_outcome(header: Option<Seq<char>>, reference: Seq<char>) -> Result<(), AuthError> {
    match header {
        None => Err(AuthError::Unauthenticated),
        Some(h) => match second_field(h, ' ') {
            None => Err(AuthError::Forbidden),
            Some(t) => match base64_decoded(t) {
                None => Err(AuthError::Forbidden),
                Some(d) => decoded_outcome(d, reference),
            },
        },
    }
}

/// Relies on `base64::decode` (standard alphabet): the decoded bytes, `None` on a decode error.
#[verifier::external_body]
fn base64_decode(s: &str) -> (r: Option<Vec<u8>>)
    ensures
        match r {
            Some(d) => base64_decoded(s@) == Some(d@),
            None => base64_decoded(s@) is None,
        },
{
    base64::decode(s).ok()
}

/// Relies on `sha2::Sha256::digest`: the 32-byte SHA-256 digest of the input.
#[verifier::external_body]
fn sha256(b: &Vec<u8>) -> (r: Vec<u8>)
    ensures
        r@ == sha256_of(b@),
        r@.len() == 32,
{
    <sha2::Sha256 as sha2::Digest>::digest(b.as_slice()).to_vec()
}

proof fn lemma_index_of_first_at<A>(s: Seq<A>, x: A, i: int)
    requires
        0 <= i <= s.len(),
        forall|k: int| 0 <= k < i ==> s[k] != x,
        i < s.len() ==> s[i] == x,
    ensures
        index_of_first(s, x) == i,
    decreases s.len(),
{
    if s.len() > 0 && i > 0 {
        lemma_index_of_first_at(s.drop_first(), x, i - 1);
    }
}

/// First position at or after `from` holding `x` in `s`, or `s.len()`.
fn find_char(s: &str, x: char, from: usize) -> (r: usize)
    requires
        from <= s@.len(),
    ensures
        from <= r <= s@.len(),
        forall|k: int| from <= k < r ==> s@[k] != x,
        r < s@.len() ==> s@[r as int] == x,
{
    let n = s.unicode_len();
    let mut i = from;
    while i < n
        invariant
            n == s@.len(),
            from <= i <= n,
            forall|k: int| from <= k < i ==> s@[k] != x,
        decreases n - i,
    {
        if s.get_char(i) == x {
            return i;
        }
        i = i + 1;
    }
    i
}

/// First position at or after `from` holding `x` in `s`, or `s.len()`.
fn find_byte(s: &Vec<u8>, x: u8, from: usize) -> (r: usize)
    requires
        from <= s@.len(),
    ensures
        from <= r <= s@.len(),
        forall|k: int| from <= k < r ==> s@[k] != x,
        r < s@.len() ==> s@[r as int] == x,
{
    let mut i = from;
    while i < s.len()
        invariant
            from <= i <= s@.len(),
            forall|k: int| from <= k < i ==> s@[k] != x,
        decreases s@.len() - i,
    {
        if s[i] == x {
            return i;
        }
        i = i + 1;
    }
    i
}

proof fn lemma_second_field_from<A>(s: Seq<A>, sep: A, i: int, j: int)
    requires
        0 <= i < s.len(),
        i < j <= s.len(),
        forall|k: int| 0 <= k < i ==> s[k] != sep,
        s[i] == sep,
        forall|k: int| i < k < j ==> s[k] != sep,
        j < s.len() ==> s[j] == sep,
    ensures
        second_field(s, sep) == Some(s.subrange(i + 1, j)),
{
    lemma_index_of_first_at(s, sep, i);
    let rest = s.subrange(i + 1, s.len() as int);
    lemma_index_of_first_at(rest, sep, j - i - 1);
    assert(rest.subrange(0, j - i - 1) =~= s.subrange(i + 1, j));
}

/// The credential part of an `Authorization` header: its second space-separated field.
pub fn credential_token(header: &str) -> (r: Option<&str>)
    ensures
        match r {
            Some(t) => second_field(header@, ' ') == Some(t@),
            None => second_field(header@, ' ') is None,
        },
{
    let n = header.unicode_len();
    let i = find_char(header, ' ', 0);
    if i >= n {
        proof { lemma_index_of_first_at(header@, ' ', i as int); }
        return None;
    }
    let j = find_char(header, ' ', i + 1);
    proof { lemma_second_field_from(header@, ' ', i as int, j as int); }
    Some(header.substring_char(i + 1, j))
}

/// The password part of decoded `user:password` bytes: everything after the first `:`.
pub fn password_of(decoded: &Vec<u8>) -> (r: Option<Vec<u8>>)
    ensures
        match r {
            Some(p) => after_first(decoded@, 58u8) == Some(p@),
            None => after_first(decoded@, 58u8) is None,
        },
{
    let n = decoded.len();
    let i = find_byte(decoded, 58u8, 0);
    proof { lemma_index_of_first_at(decoded@, 58u8, i as int); }
    if i >= n {
        return None;
    }
    let mut p: Vec<u8> = Vec::new();
    let mut k = i + 1;
    while k < n
        invariant
            i + 1 <= k <= n,
            n == decoded@.len(),
            p@ == decoded@.subrange(i + 1, k as int),
        decreases n - k,
    {
        p.push(decoded[k]);
        k = k + 1;
        assert(p@ =~= decoded@.subrange(i + 1, k as int));
    }
    Some(p)
}

/// The character `hex_digit(n)` for a value below 16.
fn hex_char(n: u8) -> (r: char)
    requires
        n < 16,
    ensures
        r == hex_digit(n as int),
{
    if n < 10 {
        (n + 48) as char
    } else {
        (n + 87) as char
    }
}

/// Whether `reference` is the lower-case hexadecimal form of `digest`.
pub fn check_digest(digest: &Vec<u8>, reference: &str) -> (r: Result<(), AuthError>)
    ensures
        r == digest_outcome(digest@, reference@),
{
    let n = reference.unicode_len();
    if digest.len() > usize::MAX / 2 || n != 2 * digest.len() {
        proof {
            if hex_of(digest@) == reference@ {
                assert(hex_of(digest@).len() == 2 * digest@.len());
            }
        }
        return Err(AuthError::Forbidden);
    }
    let ghost h = hex_of(digest@);
    let mut i: usize = 0;
    while i < n
        invariant
            n == reference@.len(),
            n == 2 * digest@.len(),
            h == hex_of(digest@),
            i <= n,
            forall|k: int| 0 <= k < i ==> h[k] == reference@[k],
        decreases n - i,
    {
        let b = digest[i / 2];
        let v = if i % 2 == 0 { b / 16 } else { b % 16 };
        if hex_char(v) != reference.get_char(i) {
            assert(h[i as int] != reference@[i as int]);
            return Err(AuthError::Forbidden);
        }
        i = i + 1;
    }
    assert(h =~= reference@);
    Ok(())
}

/// Checks decoded `user:password` bytes: the password's SHA-256, in lower-case hex, must equal
/// `reference`. The user name plays no part.
pub fn authorize_decoded(decoded: &Vec<u8>, reference: &str) -> (r: Result<(), AuthError>)
    ensures
        r == decoded_outcome(decoded@, reference@),
{
    match password_of(decoded) {
        None => Err(AuthError::Forbidden),
        Some(p) => check_digest(&sha256(&p), reference),
    }
}

/// The admin gate: no header is `Unauthenticated`; a header that is malformed, or whose password
/// digest differs from `reference`, is `Forbidden`.
pub fn authorize(header: Option<&str>, reference: &str) -> (r: Result<(), AuthError>)
    ensures
        r == gate_outcome(match header { Some(h) => Some(h@), None => None }, reference@),
        header is None ==> r == Err::<(), AuthError>(AuthError::Unauthenticated),
        header is Some ==> r != Err::<(), AuthError>(AuthError::Unauthenticated),
{
    match header {
        None => Err(AuthError::Unauthenticated),
        Some(h) => match credential_token(h) {
            None => Err(AuthError::Forbidden),
            Some(t) => match base64_decode(t) {
                None => Err(AuthError::Forbidden),
                Some(d) => authorize_decoded(&d, reference),
            },
        },
    }
}

/// Only the password counts: for user names without `:`, `user:password` gets the same outcome
/// whatever the user name, and the password hashed is all of `p`, `:` included.
pub proof fn lemma_user_name_irrelevant(u1: Seq<u8>, u2: Seq<u8>, p: Seq<u8>, reference: Seq<char>)
    requires
        forall|k: int| 0 <= k < u1.len() ==> u1[k] != 58u8,
        forall|k: int| 0 <= k < u2.len() ==> u2[k] != 58u8,
    ensures
        decoded_outcome(u1 + seq![58u8] + p, reference) == decoded_outcome(u2 + seq![58u8] + p, reference),
        decoded_outcome(u1 + seq![58u8] + p, reference) == digest_outcome(sha256_of(p), reference),
{
    lemma_password_after_user(u1, p);
    lemma_password_after_user(u2, p);
}

proof fn lemma_password_after_user(u: Seq<u8>, p: Seq<u8>)
    requires
        forall|k: int| 0 <= k < u.len() ==> u[k] != 58u8,
    ensures
        after_first(u + seq![58u8] + p, 58u8) == Some(p),
{
    let s = u + seq![58u8] + p;
    let i = u.len() as int;
    assert forall|k: int| 0 <= k < i implies s[k] != 58u8 by {
        assert(s[k] == u[k]);
    }
    lemma_index_of_first_at(s, 58u8, i);
    assert(s.subrange(i + 1, s.len() as int) =~= p);
}

} // verus!
