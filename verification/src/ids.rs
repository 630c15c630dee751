//! Identifiers made by the `uuid` crate: the id of a service instance (random)
//! and the ids of simulated clients (derived from their index by name).

use vstd::prelude::*;
use crate::keys::{client_key_text, notification_client_key};
use crate::text::{decimal, push_decimal};

verus! {

/// Whether `s` is a UUID in hyphenated lower-case form, of the given version:
/// 36 characters, hyphens after the 8th, 12th, 16th and 20th hex digit, and
/// the version as the first digit of the third group.
pub open spec fn is_hyphenated_uuid(s: Seq<char>, version: char) -> bool {
    &&& s.len() == 36
    &&& forall|i: int|
        0 <= i < 36 ==> if i == 8 || i == 13 || i == 18 || i == 23 {
            #[trigger] s[i] == '-'
        } else {
            ('0' <= s[i] <= '9') || ('a' <= s[i] <= 'f')
        }
    &&& s[14] == version
}

/// The hyphenated text of the version-5 UUID that `uuid` derives from `name`
/// in the OID namespace (a SHA-1 hash; named, not written out).
pub uninterp spec fn uuid_v5_oid_text(name: Seq<u8>) -> Seq<char>;

/// `uuid::Uuid::new_v5(&Uuid::NAMESPACE_OID, name)`, displayed. The result is
/// a function of `name` alone; the crate's `Display` writes the hyphenated
/// lower-case form, and `Builder::from_sha1_bytes` sets the version to 5.
#[verifier::external_body]
fn uuid_v5_oid(name: &[u8]) -> (s: String)
    ensures
        s@ == uuid_v5_oid_text(name@),
        is_hyphenated_uuid(s@, '5'),
{
    uuid::Uuid::new_v5(&uuid::Uuid::NAMESPACE_OID, name).to_string()
}

/// `uuid::Uuid::new_v4()`, displayed: random, so only its form is known, the
/// hyphenated lower-case form of version 4.
#[verifier::external_body]
fn uuid_v4() -> (s: String)
    ensures
        is_hyphenated_uuid(s@, '4'),
{
    uuid::Uuid::new_v4().to_string()
}

/// The id of one running instance of the service.
#[derive(Debug, PartialEq, Eq)]
pub struct InstanceId(pub String);

impl InstanceId {
    /// A fresh random id.
    pub fn generate() -> (id: Self)
        ensures
            is_hyphenated_uuid(id.0@, '4'),
    {
        InstanceId(uuid_v4())
    }
}

/// The name a simulated client's id is derived from: `sim-` and its index.
pub open spec fn sim_name(index: u64) -> Seq<char> {
    "sim-"@ + decimal(index as nat)
}

/// The id of the simulated client with the given index: the same in every
/// process, so that separate binaries agree on the population.
pub fn client_id(index: u64) -> (id: String)
    ensures
        id@ == uuid_v5_oid_text(vstd::utf8::encode_utf8(sim_name(index))),
        is_hyphenated_uuid(id@, '5'),
{
    let mut name = String::from_str("sim-");
    proof {
        reveal_strlit("sim-");
    }
    push_decimal(&mut name, index);
    uuid_v5_oid(name.as_str().as_bytes())
}

/// The key of a simulated client's stream on `shard`: the service's own key
/// layout, so that the producer writes where the service reads.
pub fn stream_key(client_id: &str, shard: u64) -> (k: String)
    ensures
        k@ == client_key_text(client_id@, shard),
{
    notification_client_key(client_id, shard)
}

} // verus!
