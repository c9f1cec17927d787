use coolbeans::checkout::{
    checkout, decode_form, parse_quantity, place_order, validate_order, CheckoutError,
    OrderRequest, ValidationError, MAX_CODE_ATTEMPTS,
};
use coolbeans::code::{generate_code, is_valid_code, CODE_LEN};
use coolbeans::order::Order;
use coolbeans::status::Status;
use coolbeans::store::{OrderStore, Step, StoreError};

fn order(id: &str, status: Status) -> Order {
    Order {
        id: id.to_string(),
        customer_name: "Bob".to_string(),
        quantity: 2,
        customer_email: "bob@example.com".to_string(),
        sender_email: "shop@example.com".to_string(),
        reference: "ref-1".to_string(),
        status,
    }
}

fn request() -> OrderRequest {
    OrderRequest {
        name: "Ada".to_string(),
        quantity: 3,
        email: "ada@example.com".to_string(),
        reference: "ssn-123".to_string(),
    }
}

#[test]
fn status_codes_and_labels() {
    assert_eq!(Status::Shipped.code(), 1);
    assert_eq!(Status::InTransit.code(), 2);
    assert_eq!(Status::Delivered.code(), 3);
    assert_eq!(Status::from_code(2), Some(Status::InTransit));
    assert_eq!(Status::from_code(0), None);
    assert_eq!(Status::from_code(4), None);
    assert_eq!(Status::Shipped.label(), "Shipped");
    assert_eq!(Status::InTransit.label(), "In Transit");
    assert_eq!(Status::Delivered.label(), "Delivered");
}

#[test]
fn status_steps_clamp_at_ends() {
    assert_eq!(Status::Shipped.revert(), Status::Shipped);
    assert_eq!(Status::Delivered.advance(), Status::Delivered);
    assert_eq!(Status::Shipped.advance(), Status::InTransit);
    assert_eq!(Status::Delivered.revert(), Status::InTransit);
    assert_eq!(Status::InTransit.advance().revert(), Status::InTransit);
}

#[test]
fn status_reached_stages() {
    assert!(Status::InTransit.reached(1));
    assert!(Status::InTransit.reached(2));
    assert!(!Status::InTransit.reached(3));
    assert!(!Status::Shipped.reached(2));
    assert!(Status::Delivered.reached(3));
}

#[test]
fn generated_codes_are_six_alphanumerics() {
    for _ in 0..50 {
        let c = generate_code();
        assert_eq!(c.len(), CODE_LEN);
        assert!(c.chars().all(|ch| ch.is_ascii_alphanumeric()));
        assert!(is_valid_code(&c));
    }
}

#[test]
fn code_shape_check() {
    assert!(is_valid_code("aB3xY9"));
    assert!(!is_valid_code("aB3xY"));
    assert!(!is_valid_code("aB3xY90"));
    assert!(!is_valid_code("aB3-Y9"));
    assert!(!is_valid_code(""));
}

#[test]
fn quantity_parsing() {
    assert_eq!(parse_quantity("3"), Some(3));
    assert_eq!(parse_quantity("042"), Some(42));
    assert_eq!(parse_quantity("4294967295"), Some(4294967295));
    assert_eq!(parse_quantity("4294967296"), None);
    assert_eq!(parse_quantity("99999999999999999999"), None);
    assert_eq!(parse_quantity("0"), None);
    assert_eq!(parse_quantity(""), None);
    assert_eq!(parse_quantity("-3"), None);
    assert_eq!(parse_quantity("+3"), Some(3));
    assert_eq!(parse_quantity("+"), None);
    assert_eq!(parse_quantity("++3"), None);
    assert_eq!(parse_quantity("+0"), None);
    assert_eq!(parse_quantity("3a"), None);
}

#[test]
fn validation_errors() {
    assert_eq!(validate_order("", "3", "a@b", "r").unwrap_err(), ValidationError::MissingName);
    assert_eq!(validate_order("Ada", "x", "a@b", "r").unwrap_err(), ValidationError::InvalidQuantity);
    assert_eq!(validate_order("Ada", "0", "a@b", "r").unwrap_err(), ValidationError::InvalidQuantity);
    assert_eq!(validate_order("Ada", "+3", "a@b", "r").unwrap().quantity, 3);
    assert_eq!(validate_order("Ada", "3", "", "r").unwrap_err(), ValidationError::MissingEmail);
    assert_eq!(validate_order("Ada", "3", "a@b", "").unwrap_err(), ValidationError::MissingReference);
    let ok = validate_order("Ada", "3", "a@b", "r").unwrap();
    assert_eq!(ok.name, "Ada");
    assert_eq!(ok.quantity, 3);
}

#[test]
fn form_fields_are_percent_decoded() {
    let q = decode_form("Ada+Lovelace", "%33", "ada%40example.com", "ssn-123").unwrap();
    assert_eq!(q.name, "Ada Lovelace");
    assert_eq!(q.quantity, 3);
    assert_eq!(q.email, "ada@example.com");
    assert_eq!(q.reference, "ssn-123");
    assert_eq!(decode_form("Ada", "3", "a@b", "%4").unwrap_err(), ValidationError::Undecodable);
    assert_eq!(decode_form("Ada", "%zz", "a@b", "r").unwrap_err(), ValidationError::Undecodable);
    assert_eq!(decode_form("%20", "3", "", "r").unwrap_err(), ValidationError::MissingEmail);
    assert_eq!(decode_form("Ada", "%2B3", "a@b", "r").unwrap().quantity, 3);
}

#[test]
fn store_refuses_duplicate_codes() {
    let mut s = OrderStore::new();
    assert_eq!(s.insert(order("AAAAAA", Status::Shipped)), Ok(()));
    assert_eq!(s.insert(order("AAAAAA", Status::Delivered)), Err(StoreError::DuplicateKey));
    assert_eq!(s.len(), 1);
    assert_eq!(s.get("AAAAAA").unwrap().status, Status::Shipped);
}

#[test]
fn store_lists_in_insertion_order() {
    let mut s = OrderStore::new();
    s.insert(order("CCCCCC", Status::Shipped)).unwrap();
    s.insert(order("AAAAAA", Status::Shipped)).unwrap();
    s.insert(order("BBBBBB", Status::Shipped)).unwrap();
    let ids: Vec<&str> = s.list_all().iter().map(|o| o.id.as_str()).collect();
    assert_eq!(ids, vec!["CCCCCC", "AAAAAA", "BBBBBB"]);
}

#[test]
fn store_status_clamps() {
    let mut s = OrderStore::new();
    s.insert(order("SHIPPD", Status::Shipped)).unwrap();
    s.insert(order("DELIVD", Status::Delivered)).unwrap();
    assert_eq!(s.revert("SHIPPD"), Ok(Status::Shipped));
    assert_eq!(s.get("SHIPPD").unwrap().status, Status::Shipped);
    assert_eq!(s.advance("DELIVD"), Ok(Status::Delivered));
    assert_eq!(s.get("DELIVD").unwrap().status, Status::Delivered);
    assert_eq!(s.update_status("nope", Step::Advance), Err(StoreError::NotFound));
}

#[test]
fn store_advance_then_revert_round_trip() {
    let mut s = OrderStore::new();
    s.insert(order("TRANSI", Status::InTransit)).unwrap();
    assert_eq!(s.advance("TRANSI"), Ok(Status::Delivered));
    assert_eq!(s.revert("TRANSI"), Ok(Status::InTransit));
    assert_eq!(s.get("TRANSI").unwrap().status, Status::InTransit);
}

#[test]
fn delete_makes_lookup_not_found() {
    let mut s = OrderStore::new();
    s.insert(order("GONE00", Status::Shipped)).unwrap();
    s.insert(order("KEPT00", Status::Shipped)).unwrap();
    assert_eq!(s.delete("GONE00"), Ok(()));
    assert_eq!(s.get("GONE00").unwrap_err(), StoreError::NotFound);
    assert_eq!(s.delete("GONE00"), Err(StoreError::NotFound));
    assert_eq!(s.get("KEPT00").unwrap().id, "KEPT00");
    assert_eq!(s.len(), 1);
}

#[test]
fn placement_retries_past_collisions() {
    let mut s = OrderStore::new();
    s.insert(order("TAKEN1", Status::Shipped)).unwrap();
    s.insert(order("TAKEN2", Status::Shipped)).unwrap();
    let cands = vec!["TAKEN1".to_string(), "TAKEN2".to_string(), "FREE01".to_string(), "FREE02".to_string()];
    let code = place_order(&mut s, &request(), "shop@example.com", &cands).unwrap();
    assert_eq!(code, "FREE01");
    assert_eq!(s.len(), 3);
    let o = s.get("FREE01").unwrap();
    assert_eq!(o.customer_name, "Ada");
    assert_eq!(o.sender_email, "shop@example.com");
    assert_eq!(o.status, Status::Shipped);
}

#[test]
fn placement_gives_up_after_bounded_attempts() {
    let mut s = OrderStore::new();
    let mut cands = Vec::new();
    for i in 0..MAX_CODE_ATTEMPTS {
        let c = format!("TAKEN{}", i);
        s.insert(order(&c, Status::Shipped)).unwrap();
        cands.push(c);
    }
    cands.push("FREE99".to_string());
    assert_eq!(place_order(&mut s, &request(), "shop@example.com", &cands), Err(CheckoutError::CodesExhausted));
    assert_eq!(s.len(), MAX_CODE_ATTEMPTS);
    assert_eq!(place_order(&mut s, &request(), "shop@example.com", &Vec::new()), Err(CheckoutError::CodesExhausted));
}

#[test]
fn two_checkouts_get_distinct_codes() {
    let mut s = OrderStore::new();
    let a = checkout(&mut s, "Ada", "3", "ada@example.com", "ssn-123", "shop@example.com").unwrap();
    let b = checkout(&mut s, "Bob", "1", "bob@example.com", "ssn-456", "shop@example.com").unwrap();
    assert_ne!(a.code, b.code);
    assert_eq!(s.len(), 2);
}

#[test]
fn checkout_on_empty_store_succeeds() {
    let mut s = OrderStore::new();
    let rc = checkout(&mut s, "Ada", "%2B7", "ada@example.com", "ssn-123", "shop@example.com").unwrap();
    assert_eq!(rc.quantity, 7);
    assert_eq!(s.get(&rc.code).unwrap().quantity, 7);
}

#[test]
fn checkout_rejects_invalid_forms() {
    let mut s = OrderStore::new();
    let r = checkout(&mut s, "Ada", "zero", "ada@example.com", "ssn-123", "shop@example.com");
    assert_eq!(r.unwrap_err(), CheckoutError::Invalid(ValidationError::InvalidQuantity));
    let r = checkout(&mut s, "", "3", "ada@example.com", "ssn-123", "shop@example.com");
    assert_eq!(r.unwrap_err(), CheckoutError::Invalid(ValidationError::MissingName));
    assert_eq!(s.len(), 0);
}

#[test]
fn end_to_end_order_lifecycle() {
    let mut s = OrderStore::new();
    let rc = checkout(&mut s, "Ada", "3", "ada@example.com", "ssn-123", "shop@example.com").unwrap();
    let c = rc.code.clone();
    assert_eq!(c.len(), 6);
    assert!(c.chars().all(|ch| ch.is_ascii_alphanumeric()));
    assert_eq!(rc.name, "Ada");
    assert_eq!(rc.quantity, 3);
    let o = s.get(&c).unwrap();
    assert_eq!(o.customer_name, "Ada");
    assert_eq!(o.quantity, 3);
    assert_eq!(o.reference, "ssn-123");
    assert_eq!(o.customer_email, "ada@example.com");
    assert_eq!(o.status, Status::Shipped);
    assert_eq!(s.advance(&c), Ok(Status::InTransit));
    assert_eq!(s.get(&c).unwrap().status, Status::InTransit);
    assert_eq!(s.advance(&c), Ok(Status::Delivered));
    assert_eq!(s.advance(&c), Ok(Status::Delivered));
    assert_eq!(s.get(&c).unwrap().status, Status::Delivered);
    assert_eq!(s.delete(&c), Ok(()));
    assert_eq!(s.get(&c).unwrap_err(), StoreError::NotFound);
}
