use vstd::prelude::*;
use crate::code::{generate_code, is_tracking_code};
use crate::order::{Order, OrderView};
use crate::status::Status;
use crate::store::{OrderStore, has_id, ids_unique, lemma_push_keeps_unique};

verus! {

/// How many tracking codes checkout tries before it gives up.
pub const MAX_CODE_ATTEMPTS: usize = 8;

/// Why a checkout form was rejected.
#[derive(PartialEq, Eq, Structural, Clone, Copy, Debug)]
pub enum ValidationError {
    /// A field is not valid percent-encoding.
    Undecodable,
    MissingName,
    /// The quantity is not a positive whole number that fits in 32 bits.
    InvalidQuantity,
    MissingEmail,
    MissingReference,
}

/// Why a checkout did not place an order.
#[derive(PartialEq, Eq, Structural, Clone, Copy, Debug)]
pub enum CheckoutError {
    Invalid(ValidationError),
    /// Every tracking code tried was already in use.
    CodesExhausted,
}

/// A checked order request, its fields decoded.
#[derive(Debug)]
pub struct OrderRequest {
    pub name: String,
    pub quantity: u32,
    pub email: String,
    pub reference: String,
}

pub struct RequestView {
    pub name: Seq<char>,
    pub quantity: u32,
    pub email: Seq<char>,
    pub reference: Seq<char>,
}

impl View for OrderRequest {
    type V = RequestView;

    open spec fn view(&self) -> RequestView {
        RequestView {
            name: self.name@,
            quantity: self.quantity,
            email: self.email@,
            reference: self.reference@,
        }
    }
}

/// What the customer is shown, and what the confirmation email is made of.
#[derive(Debug)]
pub struct Receipt {
    pub code: String,
    pub name: String,
    pub quantity: u32,
    pub email: String,
}

pub open spec fn is_digit(c: char) -> bool {
    '0' <= c && c <= '9'
}

pub open spec fn all_digits(s: Seq<char>) -> bool {
    forall|i: int| 0 <= i < s.len() ==> is_digit(#[trigger] s[i])
}

/// The number written in decimal by `s`.
pub open spec fn decimal_value(s: Seq<char>) -> nat
    decreases s.len(),
{
    if s.len() == 0 {
        0
    } else {
        decimal_value(s.drop_last()) * 10 + ((s.last() as u32 - '0' as u32) as nat)
    }
}

/// `s` without one leading `+`, if it has one.
pub open spec fn unsigned_part(s: Seq<char>) -> Seq<char> {
    if s.len() > 0 && s[0] == '+' {
        s.drop_first()
    } else {
        s
    }
}

/// The quantity `s` stands for: an optional `+`, then a non-empty run of decimal digits whose
/// value is in 1 ..= u32::MAX.
pub open spec fn quantity_of(s: Seq<char>) -> Option<u32> {
    let d = unsigned_part(s);
    if d.len() > 0 && all_digits(d) && 0 < decimal_value(d) && decimal_value(d) <= u32::MAX {
        Some(decimal_value(d) as u32)
    } else {
        None
    }
}

/// No `%` and no `+`: text that percent-decoding leaves as it is.
pub open spec fn no_escapes(s: Seq<char>) -> bool {
    forall|i: int| 0 <= i < s.len() ==> #[trigger] s[i] != '%' && s[i] != '+'
}

/// All four form fields are free of escapes.
pub open spec fn plain_form(name: Seq<char>, quantity: Seq<char>, email: Seq<char>, reference: Seq<char>) -> bool {
    no_escapes(name) && no_escapes(quantity) && no_escapes(email) && no_escapes(reference)
}

/// The outcome of checking already-decoded fields, in the order name, quantity, email, reference.
pub open spec fn request_of(name: Seq<char>, quantity: Seq<char>, email: Seq<char>, reference: Seq<char>) -> Result<RequestView, ValidationError> {
    if name.len() == 0 {
        Err(ValidationError::MissingName)
    } else if quantity_of(quantity) is None {
        Err(ValidationError::InvalidQuantity)
    } else if email.len() == 0 {
        Err(ValidationError::MissingEmail)
    } else if reference.len() == 0 {
        Err(ValidationError::MissingReference)
    } else {
        Ok(RequestView { name, quantity: quantity_of(quantity).unwrap(), email, reference })
    }
}

/// What `afire`'s percent-decoding makes of `s`; `None` where it is not valid encoding.
pub uninterp spec fn url_decoded(s: Seq<char>) -> Option<Seq<char>>;

/// The outcome of checking raw, percent-encoded form fields.
pub open spec fn form_request(name: Seq<char>, quantity: Seq<char>, email: Seq<char>, reference: Seq<char>) -> Result<RequestView, ValidationError> {
    match (url_decoded(name), url_decoded(quantity), url_decoded(email), url_decoded(reference)) {
        (Some(n), Some(q), Some(e), Some(r)) => request_of(n, q, e, r),
        _ => Err(ValidationError::Undecodable),
    }
}

/// The order a request becomes under tracking code `code`.
pub open spec fn order_of(q: RequestView, code: Seq<char>, sender: Seq<char>) -> OrderView {
    OrderView {
        id: code,
        customer_name: q.name,
        quantity: q.quantity,
        customer_email: q.email,
        sender_email: sender,
        reference: q.reference,
        status: Status::Shipped,
    }
}

/// Relies on `afire::internal::encoding::url::decode`: `+` and `%XX` decoding, `None` when
/// malformed; every other character is copied as it is, so text without `%` and `+` comes back
/// unchanged.
#[verifier::external_body]
fn url_decode(s: &str) -> (r: Option<String>)
    ensures
        match r {
            Some(d) => url_decoded(s@) == Some(d@),
            None => url_decoded(s@) is None,
        },
        no_escapes(s@) ==> r is Some && r->0@ == s@,
{
    afire::internal::encoding::url::decode(s)
}

proof fn lemma_decimal_grows(s: Seq<char>, i: int)
    requires
        0 <= i <= s.len(),
    ensures
        decimal_value(s.take(i)) <= decimal_value(s),
    decreases s.len() - i,
{
    if i < s.len() {
        lemma_decimal_grows(s, i + 1);
        assert(s.take(i + 1).drop_last() =~= s.take(i));
        let a = decimal_value(s.take(i));
        let b = decimal_value(s.take(i + 1));
        assert(b >= a * 10);
        assert(a * 10 >= a) by (nonlinear_arith);
    } else {
        assert(s.take(i) =~= s);
    }
}

/// Reads a quantity: an optional `+`, then decimal digits only, at least one, with a value from
/// 1 to u32::MAX.
pub fn parse_quantity(s: &str) -> (r: Option<u32>)
    ensures
        r == quantity_of(s@),
{
    let n = s.unicode_len();
    let start: usize = if n > 0 && s.get_char(0) == '+' { 1 } else { 0 };
    let ghost d = unsigned_part(s@);
    assert(d =~= s@.subrange(start as int, n as int));
    if n == start {
        return None;
    }
    let mut v: u64 = 0;
    let mut i: usize = start;
    while i < n
        invariant
            n == s@.len(),
            start <= i <= n,
            d == s@.subrange(start as int, n as int),
            d == unsigned_part(s@),
            all_digits(d.take(i - start)),
            v == decimal_value(d.take(i - start)),
            v <= u32::MAX,
        decreases n - i,
    {
        let c = s.get_char(i);
        assert(d[i - start] == c);
        if !('0' <= c && c <= '9') {
            assert(!all_digits(d));
            return None;
        }
        let dv = (c as u32 - '0' as u32) as u64;
        assert(d.take(i - start + 1).drop_last() =~= d.take(i - start));
        assert(d.take(i - start + 1).last() == c);
        v = v * 10 + dv;
        i = i + 1;
        if v > 0xFFFF_FFFF {
            proof {
                lemma_decimal_grows(d, i - start);
                assert(d.take(d.len() as int) =~= d);
            }
            return None;
        }
    }
    assert(d.take(n - start) =~= d);
    if v == 0 {
        return None;
    }
    Some(v as u32)
}

/// Checks decoded checkout fields: name, email and reference non-empty, quantity a positive number.
pub fn validate_order(name: &str, quantity: &str, email: &str, reference: &str) -> (r: Result<OrderRequest, ValidationError>)
    ensures
        match r {
            Ok(q) => request_of(name@, quantity@, email@, reference@) == Ok::<RequestView, ValidationError>(q@),
            Err(e) => request_of(name@, quantity@, email@, reference@) == Err::<RequestView, ValidationError>(e),
        },
{
    if name.unicode_len() == 0 {
        return Err(ValidationError::MissingName);
    }
    let q = match parse_quantity(quantity) {
        Some(q) => q,
        None => return Err(ValidationError::InvalidQuantity),
    };
    if email.unicode_len() == 0 {
        return Err(ValidationError::MissingEmail);
    }
    if reference.unicode_len() == 0 {
        return Err(ValidationError::MissingReference);
    }
    Ok(OrderRequest {
        name: name.to_owned(),
        quantity: q,
        email: email.to_owned(),
        reference: reference.to_owned(),
    })
}

/// Percent-decodes the raw form fields, then checks them as `validate_order` does.
pub fn decode_form(name: &str, quantity: &str, email: &str, reference: &str) -> (r: Result<OrderRequest, ValidationError>)
    ensures
        match r {
            Ok(q) => form_request(name@, quantity@, email@, reference@) == Ok::<RequestView, ValidationError>(q@),
            Err(e) => form_request(name@, quantity@, email@, reference@) == Err::<RequestView, ValidationError>(e),
        },
        plain_form(name@, quantity@, email@, reference@)
            ==> form_request(name@, quantity@, email@, reference@) == request_of(name@, quantity@, email@, reference@),
{
    let n = url_decode(name);
    let q = url_decode(quantity);
    let e = url_decode(email);
    let f = url_decode(reference);
    match (n, q, e, f) {
        (Some(n), Some(q), Some(e), Some(f)) => validate_order(n.as_str(), q.as_str(), e.as_str(), f.as_str()),
        _ => Err(ValidationError::Undecodable),
    }
}

/// Number of candidate codes that placement looks at.
pub open spec fn tries(n: int) -> int {
    if n < MAX_CODE_ATTEMPTS { n } else { MAX_CODE_ATTEMPTS as int }
}

/// Candidate `k` is the first one, among those tried, whose code is not in use.
pub open spec fn first_free(s: Seq<OrderView>, cands: Seq<String>, k: int) -> bool {
    0 <= k < tries(cands.len() as int)
    && !has_id(s, cands[k]@)
    && forall|j: int| 0 <= j < k ==> has_id(s, #[trigger] cands[j]@)
}

/// Stores `req` under the first of `candidates` (at most `MAX_CODE_ATTEMPTS` of them are tried)
/// that no stored order uses, with status `Shipped`, and returns that code.
/// When all tried codes are taken, nothing is stored.
pub fn place_order(store: &mut OrderStore, req: &OrderRequest, sender: &str, candidates: &Vec<String>) -> (r: Result<String, CheckoutError>)
    requires
        old(store).wf(),
        req@.quantity > 0,
        req@.name.len() > 0,
    ensures
        final(store).wf(),
        match r {
            Ok(c) => exists|k: int| first_free(old(store)@, candidates@, k) && #[trigger] candidates@[k]@ == c@
                && final(store)@ == old(store)@.push(order_of(req@, c@, sender@)),
            Err(e) => e == CheckoutError::CodesExhausted && final(store)@ == old(store)@
                && forall|j: int| 0 <= j < tries(candidates@.len() as int) ==> has_id(old(store)@, #[trigger] candidates@[j]@),
        },
{
    let limit = if candidates.len() < MAX_CODE_ATTEMPTS { candidates.len() } else { MAX_CODE_ATTEMPTS };
    let mut k: usize = 0;
    while k < limit
        invariant
            store.wf(),
            store@ == old(store)@,
            req@.quantity > 0,
            req@.name.len() > 0,
            limit as int == tries(candidates@.len() as int),
            k <= limit,
            forall|j: int| 0 <= j < k ==> has_id(old(store)@, #[trigger] candidates@[j]@),
        decreases limit - k,
    {
        let code = &candidates[k];
        if !store.contains(code.as_str()) {
            let order = Order {
                id: code.clone(),
                customer_name: req.name.clone(),
                quantity: req.quantity,
                customer_email: req.email.clone(),
                sender_email: sender.to_owned(),
                reference: req.reference.clone(),
                status: Status::Shipped,
            };
            assert(order@.customer_name == req@.name && order@.quantity == req@.quantity);
            let res = store.insert(order);
            assert(res is Ok);
            assert(first_free(old(store)@, candidates@, k as int));
            assert(candidates@[k as int]@ == code@);
            return Ok(code.clone());
        }
        k = k + 1;
    }
    Err(CheckoutError::CodesExhausted)
}

/// Places an order from raw form fields: decodes and checks them, then stores the order under a
/// fresh random tracking code, drawing a new code on each collision up to `MAX_CODE_ATTEMPTS` times.
pub fn checkout(store: &mut OrderStore, name: &str, quantity: &str, email: &str, reference: &str, sender: &str) -> (r: Result<Receipt, CheckoutError>)
    requires
        old(store).wf(),
    ensures
        final(store).wf(),
        form_request(name@, quantity@, email@, reference@) matches Err(e) ==> r == Err::<Receipt, CheckoutError>(CheckoutError::Invalid(e)),
        r matches Err(CheckoutError::Invalid(e)) ==> form_request(name@, quantity@, email@, reference@) == Err::<RequestView, ValidationError>(e),
        r is Err ==> final(store)@ == old(store)@,
        r matches Err(CheckoutError::CodesExhausted) ==> form_request(name@, quantity@, email@, reference@) is Ok
            && old(store)@.len() > 0,
        plain_form(name@, quantity@, email@, reference@)
            ==> form_request(name@, quantity@, email@, reference@) == request_of(name@, quantity@, email@, reference@),
        r matches Ok(rc) ==> form_request(name@, quantity@, email@, reference@) matches Ok(q)
            && is_tracking_code(rc.code@)
            && !has_id(old(store)@, rc.code@)
            && final(store)@ == old(store)@.push(order_of(q, rc.code@, sender@))
            && rc.name@ == q.name && rc.quantity == q.quantity && rc.email@ == q.email,
{
    let req = match decode_form(name, quantity, email, reference) {
        Ok(q) => q,
        Err(e) => return Err(CheckoutError::Invalid(e)),
    };
    let mut candidates: Vec<String> = Vec::new();
    let mut i: usize = 0;
    while i < MAX_CODE_ATTEMPTS
        invariant
            i <= MAX_CODE_ATTEMPTS,
            candidates@.len() == i,
            forall|j: int| 0 <= j < i ==> is_tracking_code(#[trigger] candidates@[j]@),
        decreases MAX_CODE_ATTEMPTS - i,
    {
        candidates.push(generate_code());
        i = i + 1;
    }
    let placed = place_order(store, &req, sender, &candidates);
    let code = match placed {
        Ok(c) => c,
        Err(e) => {
            assert(has_id(old(store)@, candidates@[0]@));
            return Err(e);
        }
    };
    Ok(Receipt { code, name: req.name.clone(), quantity: req.quantity, email: req.email.clone() })
}

/// After a checkout has stored `q` under `code`, looking `code` up finds exactly one order, and it
/// is `Shipped` with the requested name and quantity.
pub proof fn lemma_lookup_after_checkout(s: Seq<OrderView>, q: RequestView, code: Seq<char>, sender: Seq<char>)
    requires
        ids_unique(s),
        !has_id(s, code),
    ensures
        has_id(s.push(order_of(q, code, sender)), code),
        ids_unique(s.push(order_of(q, code, sender))),
        forall|i: int| 0 <= i < s.len() + 1 && (#[trigger] s.push(order_of(q, code, sender))[i]).id == code ==> {
            let o = s.push(order_of(q, code, sender))[i];
            o.status == Status::Shipped && o.customer_name == q.name && o.quantity == q.quantity
        },
{
    let t = s.push(order_of(q, code, sender));
    lemma_push_keeps_unique(s, order_of(q, code, sender));
    assert forall|i: int| 0 <= i < s.len() + 1 && (#[trigger] t[i]).id == code implies
        t[i].status == Status::Shipped && t[i].customer_name == q.name && t[i].quantity == q.quantity by {
        if i < s.len() {
            assert(t[i] == s[i]);
        }
    }
}

} // verus!
