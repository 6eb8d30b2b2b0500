//! The decisions of the poller that fetches keys from a peer KME over the
//! ETSI GS QKD 014 API.

use vstd::prelude::*;
use vstd::string::StringExecFns;
use vstd::utf8::encode_utf8;
use crate::http_message::{
    HttpMessageError, HttpRequestMessage, HttpVersion, MessageErrorView, RequestView,
    build_request, parse_http_response_message, response_message, result_matches,
};
use crate::http_syntax::{HeaderField, fields_view};
use crate::key_store::{KeyRecord, KeyState, KeyStore, count_available};
use crate::text::{copy_range, decimal_chars, decimal_string, lossy_string, utf8_lossy};

verus! {


/// One key of a key container.
pub struct KeyItem {
    pub key_id: String,
    pub key: String,
}

/// The keys a key-delivery answer carries.
pub struct KeyContainer {
    pub keys: Vec<KeyItem>,
}

/// Fetches keys from a peer KME at an interval and adds them to a store.
pub struct Etsi014Poller {
    pub host: String,
    pub port: u16,
    pub server_name: String,
    pub client_cert_path: String,
    pub client_key_path: String,
    pub slave_sae_id: String,
    pub number: usize,
    pub size: usize,
    pub interval: std::time::Duration,
    pub reservable: bool,
}

/// Why one poll fetched no keys (before the body is read as JSON).
pub enum PollError {
    /// The request could not be built, or the answer could not be parsed.
    Message(HttpMessageError),
    /// The peer answered with a status outside 200..=299; its body as text.
    Status { code: u16, body: String },
}

/// The target the poller asks for:
/// `/api/v1/keys/{slave}/enc_keys?number={number}&size={size}`.
pub open spec fn key_request_target(slave: Seq<char>, number: nat, size: nat) -> Seq<char> {
    "/api/v1/keys/"@ + slave + "/enc_keys?number="@ + decimal_chars(number) + "&size="@
        + decimal_chars(size)
}

/// The request the poller sends: `GET` of the key target with a `Host` header.
pub open spec fn key_request_message(p: &Etsi014Poller) -> Result<RequestView, MessageErrorView> {
    build_request(
        "GET"@,
        key_request_target(p.slave_sae_id@, p.number as nat, p.size as nat),
        HttpVersion::Http11,
        seq![("host"@, encode_utf8(p.host@))],
        Seq::empty(),
    )
}

/// The records that adding `keys` makes, in order.
pub open spec fn polled_records(keys: Seq<KeyItem>, reservable: bool) -> Seq<KeyRecord> {
    keys.map_values(
        |k: KeyItem|
            KeyRecord { key_id: k.key_id@, key_value: k.key@, reservable, state: KeyState::Available },
    )
}

/// Each polled key becomes one record, in order: the container's identifier
/// and value, the poller's reservable flag, and available.
pub proof fn lemma_polled_record(items: Seq<KeyItem>, reservable: bool)
    ensures
        polled_records(items, reservable).len() == items.len(),
        forall|i: int|
            0 <= i < items.len() ==> #[trigger] polled_records(items, reservable)[i] == (KeyRecord {
                key_id: items[i].key_id@,
                key_value: items[i].key@,
                reservable: reservable,
                state: KeyState::Available,
            }),
{
}

/// Storing polled keys makes each of them available.
pub proof fn lemma_polled_keys_available(keys: Seq<KeyRecord>, items: Seq<KeyItem>, reservable: bool)
    ensures
        count_available(keys + polled_records(items, reservable)) == count_available(keys)
            + items.len(),
    decreases items.len(),
{
    if items.len() == 0 {
        assert(keys + polled_records(items, reservable) =~= keys);
    } else {
        lemma_polled_keys_available(keys, items.drop_last(), reservable);
        assert((keys + polled_records(items, reservable)).drop_last() =~= keys + polled_records(
            items.drop_last(),
            reservable,
        ));
    }
}

impl Etsi014Poller {
    /// The request target for this poller's slave SAE, number and size.
    pub fn key_request_target(&self) -> (t: String)
        ensures
            t@ == key_request_target(self.slave_sae_id@, self.number as nat, self.size as nat),
    {
        let mut t = String::new();
        t.append("/api/v1/keys/");
        t.append(self.slave_sae_id.as_str());
        t.append("/enc_keys?number=");
        let number = decimal_string(self.number);
        t.append(number.as_str());
        t.append("&size=");
        let size = decimal_string(self.size);
        t.append(size.as_str());
        t
    }

    /// The request to send, built as `http::Request::builder()` builds it.
    pub fn key_request(&self) -> (r: Result<HttpRequestMessage, HttpMessageError>)
        ensures
            result_matches(r, key_request_message(self), |m: HttpRequestMessage| m@),
    {
        let target = self.key_request_target();
        let host = self.host.as_str().as_bytes();
        let value = copy_range(host, 0, host.len());
        assert(value@ =~= encode_utf8(self.host@));
        let mut headers: Vec<HeaderField> = Vec::new();
        headers.push(HeaderField { name: "host".to_owned(), value });
        assert(fields_view(headers@) =~= seq![("host"@, encode_utf8(self.host@))]);
        HttpRequestMessage::build("GET", target.as_str(), HttpVersion::Http11, &headers, Vec::new())
    }

    /// What one poll makes of the peer's raw answer: its body when the status
    /// is a success, else the status and the body as text.
    pub fn check_key_response(raw: &[u8]) -> (r: Result<Vec<u8>, PollError>)
        ensures
            match response_message(raw@) {
                Ok(m) => if 200 <= m.status < 300 {
                    r matches Ok(b) && b@ == m.body
                } else {
                    r matches Err(PollError::Status { code, body }) && code == m.status && body@
                        == utf8_lossy(m.body)
                },
                Err(e) => r matches Err(PollError::Message(x)) && x@ == e,
            },
    {
        let response = match parse_http_response_message(raw) {
            Ok(m) => m,
            Err(e) => return Err(PollError::Message(e)),
        };
        if !response.is_success() {
            let body = lossy_string(response.body().as_slice());
            return Err(PollError::Status { code: response.status(), body });
        }
        Ok(response.body().clone())
    }

    /// Adds every key of a container to the store, in order, reservable as
    /// this poller says, and returns how many were added.
    pub fn store_keys(&self, store: &mut KeyStore, container: &KeyContainer) -> (added: usize)
        ensures
            final(store)@ == old(store)@ + polled_records(container.keys@, self.reservable),
            added == container.keys@.len(),
            final(store)@.len() == old(store)@.len() + container.keys@.len(),
            forall|i: int| 0 <= i < old(store)@.len() ==> #[trigger] final(store)@[i] == old(store)@[i],
            forall|i: int|
                0 <= i < container.keys@.len() ==> #[trigger] final(store)@[old(store)@.len() + i]
                    == (KeyRecord {
                    key_id: container.keys@[i].key_id@,
                    key_value: container.keys@[i].key@,
                    reservable: self.reservable,
                    state: KeyState::Available,
                }),
    {
        let mut added: usize = 0;
        let n = container.keys.len();
        while added < n
            invariant
                n == container.keys@.len(),
                added <= n,
                store@ == old(store)@ + polled_records(container.keys@.take(added as int), self.reservable),
            decreases n - added,
        {
            let k = &container.keys[added];
            store.add_key(k.key_id.as_str(), k.key.as_str(), self.reservable);
            assert(polled_records(container.keys@.take(added + 1), self.reservable) =~= polled_records(
                container.keys@.take(added as int),
                self.reservable,
            ).push(KeyRecord { key_id: k.key_id@, key_value: k.key@, reservable: self.reservable, state: KeyState::Available }));
            added = added + 1;
        }
        assert(container.keys@.take(n as int) =~= container.keys@);
        proof {
            lemma_polled_record(container.keys@, self.reservable);
            let before = old(store)@;
            let recs = polled_records(container.keys@, self.reservable);
            assert forall|i: int| 0 <= i < container.keys@.len() implies #[trigger] store@[before.len() + i]
                == (KeyRecord {
                key_id: container.keys@[i].key_id@,
                key_value: container.keys@[i].key@,
                reservable: self.reservable,
                state: KeyState::Available,
            }) by {
                assert(store@[before.len() + i] == recs[i]);
            }
        }
        added
    }
}

} // verus!
