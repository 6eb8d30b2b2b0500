use std::time::Duration;

use sgx_qkms::enrollment_models::{EnrollRequest, EnrollResponse, EnrollStatus};
use sgx_qkms::etsi014_handler::Etsi014Handler;
use sgx_qkms::etsi014_poller::{Etsi014Poller, KeyContainer, KeyItem, PollError};
use sgx_qkms::http_message::serialize_http_request;
use sgx_qkms::key_store::KeyStore;

fn poller(reservable: bool) -> Etsi014Poller {
    Etsi014Poller {
        host: "kme.example".to_string(),
        port: 8443,
        server_name: "kme.example".to_string(),
        client_cert_path: "certs/client.crt".to_string(),
        client_key_path: "certs/client.key".to_string(),
        slave_sae_id: "sae-2".to_string(),
        number: 3,
        size: 256,
        interval: Duration::from_secs(5),
        reservable,
    }
}

#[test]
fn key_request_target_and_bytes() {
    let p = poller(true);
    assert_eq!(p.key_request_target(), "/api/v1/keys/sae-2/enc_keys?number=3&size=256");
    let req = p.key_request().unwrap();
    assert_eq!(
        serialize_http_request(&req),
        b"GET /api/v1/keys/sae-2/enc_keys?number=3&size=256 HTTP/1.1\r\nhost: kme.example\r\nConnection: close\r\nContent-Length: 0\r\n\r\n".to_vec()
    );
}

#[test]
fn key_request_with_bad_sae_id_fails() {
    let mut p = poller(true);
    p.slave_sae_id = "a b".to_string();
    assert!(p.key_request().is_err());
}

#[test]
fn successful_answer_gives_body() {
    let r = Etsi014Poller::check_key_response(b"HTTP/1.1 200 OK\r\nContent-Length: 2\r\n\r\n{}");
    assert_eq!(r.ok(), Some(b"{}".to_vec()));
}

#[test]
fn failed_answer_gives_status_and_text() {
    match Etsi014Poller::check_key_response(b"HTTP/1.1 503 Service Unavailable\r\nContent-Length: 4\r\n\r\nbusy") {
        Err(PollError::Status { code, body }) => {
            assert_eq!(code, 503);
            assert_eq!(body, "busy");
        }
        _ => panic!("expected a status error"),
    }
    assert!(matches!(Etsi014Poller::check_key_response(b"garbage\r\n\r\n"), Err(PollError::Message(_))));
}

#[test]
fn polled_keys_are_stored() {
    let p = poller(false);
    let mut store = KeyStore::new();
    let container = KeyContainer {
        keys: vec![
            KeyItem { key_id: "id1".to_string(), key: "k1".to_string() },
            KeyItem { key_id: "id2".to_string(), key: "k2".to_string() },
        ],
    };
    assert_eq!(p.store_keys(&mut store, &container), 2);
    assert_eq!(store.available_count(), 2);
    assert!(store.reserve_keys(2).is_empty());
    assert_eq!(store.retrieve_key("id2"), Some(("id2".to_string(), "k2".to_string())));
}

#[test]
fn handler_answers_not_implemented() {
    let h = Etsi014Handler;
    assert_eq!(h.get_status().status, 503);
    assert_eq!(h.get_status().message, "GetStatus is not implemented yet");
    assert_eq!(h.get_key().status, 503);
    assert_eq!(h.get_key().message, "GetKey is not implemented yet");
    assert_eq!(h.get_key_simple().message, "GetKeySimple is not implemented yet");
    assert_eq!(h.get_key_with_ids().message, "GetKeyWithIds is not implemented yet");
    assert_eq!(h.get_key_with_ids_simple().message, "GetKeyWithIdsSimple is not implemented yet");
}

#[test]
fn enrollment_messages() {
    let r = EnrollRequest {
        csr_pem: "csr".to_string(),
        node_id: "n1".to_string(),
        nonce: "0".to_string(),
        quote: "q".to_string(),
    };
    assert_eq!(r.clone().node_id, "n1");
    let a = EnrollResponse { id: "e1".to_string(), status: "pending".to_string() };
    assert_eq!(a.status, "pending");
    let s = EnrollStatus { status: "issued".to_string(), certificate: Some("pem".to_string()) };
    assert_eq!(s.certificate.as_deref(), Some("pem"));
}
