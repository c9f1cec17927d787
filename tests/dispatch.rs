use coolbeans::auth::{authorize, authorize_decoded, check_digest, credential_token, password_of, AuthError};
use coolbeans::checkout::Receipt;
use coolbeans::notify::{confirmation_email, delivery_report, BoundedQueue, Notification};

const COLON_DIGEST: &str = "333edf7c3ca371622cc3029bd182261a8aa727ffe3dca1adac71efc41bf1545e";
const SECRET_DIGEST: &str = "2bb80d537b1da3e38bd30361aa855686bde0eacd7162fef6a25fe97bf527a25b";

fn note(to: &str) -> Notification {
    Notification {
        sender_name: "coolbeans.biz".to_string(),
        sender_address: "shop@example.com".to_string(),
        recipient_name: "X".to_string(),
        recipient_address: to.to_string(),
        subject: "s".to_string(),
        body: "b".to_string(),
    }
}

#[test]
fn queue_hands_out_in_enqueue_order() {
    let mut q = BoundedQueue::new(16);
    for i in 0..10u32 {
        assert!(q.try_enqueue(i).is_ok());
    }
    let mut out = Vec::new();
    while let Some(x) = q.dequeue() {
        out.push(x);
    }
    assert_eq!(out, (0..10).collect::<Vec<u32>>());
    assert_eq!(q.len(), 0);
}

#[test]
fn queue_interleaved_operations_keep_order() {
    let mut q = BoundedQueue::new(3);
    q.try_enqueue(1u8).unwrap();
    q.try_enqueue(2u8).unwrap();
    assert_eq!(q.dequeue(), Some(1));
    q.try_enqueue(3u8).unwrap();
    q.try_enqueue(4u8).unwrap();
    assert_eq!(q.try_enqueue(5u8), Err(5));
    assert_eq!(q.dequeue(), Some(2));
    assert_eq!(q.dequeue(), Some(3));
    assert_eq!(q.dequeue(), Some(4));
    assert_eq!(q.dequeue(), None);
}

#[test]
fn full_queue_hands_item_back() {
    let mut q = BoundedQueue::new(2);
    assert_eq!(q.capacity(), 2);
    assert!(q.try_enqueue(note("a@x")).is_ok());
    assert!(q.try_enqueue(note("b@x")).is_ok());
    assert!(q.is_full());
    let back = q.try_enqueue(note("c@x")).unwrap_err();
    assert_eq!(back.recipient_address, "c@x");
    assert_eq!(q.len(), 2);
    assert_eq!(q.dequeue().unwrap().recipient_address, "a@x");
    assert!(q.try_enqueue(back).is_ok());
    assert_eq!(q.dequeue().unwrap().recipient_address, "b@x");
    assert_eq!(q.dequeue().unwrap().recipient_address, "c@x");
    assert!(q.dequeue().is_none());
}

#[test]
fn confirmation_email_fields() {
    let rc = Receipt { code: "AbC123".to_string(), name: "Ada".to_string(), quantity: 3, email: "ada@example.com".to_string() };
    let n = confirmation_email(&rc, "shop@example.com", "<p>hi</p>".to_string());
    assert_eq!(n.sender_name, "coolbeans.biz");
    assert_eq!(n.sender_address, "shop@example.com");
    assert_eq!(n.recipient_name, "Ada");
    assert_eq!(n.recipient_address, "ada@example.com");
    assert_eq!(n.subject, "Cool bean shipment");
    assert_eq!(n.body, "<p>hi</p>");
}

#[test]
fn delivery_report_lines() {
    assert_eq!(delivery_report(&note("ada@example.com"), true), "Sent to ada@example.com [Success]");
    assert_eq!(delivery_report(&note("ada@example.com"), false), "Sent to ada@example.com [Fail]");
}

#[test]
fn gate_without_credential_is_unauthenticated() {
    assert_eq!(authorize(None, SECRET_DIGEST), Err(AuthError::Unauthenticated));
}

#[test]
fn gate_accepts_matching_password_for_any_user() {
    assert_eq!(authorize(Some("Basic YWRtaW46c2VjcmV0"), SECRET_DIGEST), Ok(()));
    assert_eq!(authorize(Some("Basic c29tZW9uZTpzZWNyZXQ="), SECRET_DIGEST), Ok(()));
}

#[test]
fn gate_hashes_whole_password_after_first_colon() {
    assert_eq!(authorize(Some("Basic YTpiOmM="), COLON_DIGEST), Ok(()));
    assert_eq!(authorize(Some("Basic YTpiOmM="), SECRET_DIGEST), Err(AuthError::Forbidden));
}

#[test]
fn gate_forbids_wrong_or_malformed_credentials() {
    assert_eq!(authorize(Some("Basic YWRtaW46d3Jvbmc="), SECRET_DIGEST), Err(AuthError::Forbidden));
    assert_eq!(authorize(Some("Basic bm9jb2xvbg=="), SECRET_DIGEST), Err(AuthError::Forbidden));
    assert_eq!(authorize(Some("Basic"), SECRET_DIGEST), Err(AuthError::Forbidden));
    assert_eq!(authorize(Some("Basic !!!notbase64"), SECRET_DIGEST), Err(AuthError::Forbidden));
    assert_eq!(authorize(Some(""), SECRET_DIGEST), Err(AuthError::Forbidden));
}

#[test]
fn decoded_credentials_hash_only_the_password() {
    assert_eq!(authorize_decoded(&b"admin:secret".to_vec(), SECRET_DIGEST), Ok(()));
    assert_eq!(authorize_decoded(&b"x:secret:more".to_vec(), SECRET_DIGEST), Err(AuthError::Forbidden));
    assert_eq!(authorize_decoded(&b"a:b:c".to_vec(), COLON_DIGEST), Ok(()));
    assert_eq!(authorize_decoded(&b"admin:Secret".to_vec(), SECRET_DIGEST), Err(AuthError::Forbidden));
    assert_eq!(authorize_decoded(&b"secret".to_vec(), SECRET_DIGEST), Err(AuthError::Forbidden));
}

#[test]
fn header_and_password_fields() {
    assert_eq!(credential_token("Basic abc"), Some("abc"));
    assert_eq!(credential_token("Basic abc def"), Some("abc"));
    assert_eq!(credential_token("Basic"), None);
    assert_eq!(password_of(&b"u:p".to_vec()), Some(b"p".to_vec()));
    assert_eq!(password_of(&b"u:".to_vec()), Some(Vec::new()));
    assert_eq!(password_of(&b"u:p:q".to_vec()), Some(b"p:q".to_vec()));
    assert_eq!(password_of(&b"up".to_vec()), None);
}

#[test]
fn digest_comparison_is_lower_hex() {
    assert_eq!(check_digest(&vec![0x00, 0xab, 0x3f], "00ab3f"), Ok(()));
    assert_eq!(check_digest(&vec![0x00, 0xab, 0x3f], "00AB3F"), Err(AuthError::Forbidden));
    assert_eq!(check_digest(&vec![0x00, 0xab, 0x3f], "00ab3"), Err(AuthError::Forbidden));
    assert_eq!(check_digest(&Vec::new(), ""), Ok(()));
}
