//! Device attestations: short-lived statements, signed by the server, that a custom id belongs to
//! a device key on a machine.
//!
//! An attestation names the machine by the digest of its uuid alone.

use crate::crypto::{
    bytes_view, open_signed, sha256_digest, sign_message, PUBLIC_KEY_BYTES,
};
use crate::identity::{is_valid_ongrow_custom_id, message_is, ONGROW_ATTESTATION_NONCE_BYTES};
use crate::wire::{append_ongrow_field, time_to_bytes};
use vstd::prelude::*;

verus! {

/// How long an attestation is valid, in seconds.
pub const ONGROW_ATTESTATION_VALIDITY_SECONDS: i64 = 300;

/// A signed statement about a device.
#[derive(Debug)]
pub struct OnGrowDeviceAttestation {
    pub id: String,
    pub device_pk: Vec<u8>,
    pub uuid_sha256: Vec<u8>,
    pub issued_at: i64,
    pub expires_at: i64,
    pub nonce: Vec<u8>,
    pub signed_payload: Vec<u8>,
}

/// What an attestation says, and the signature that it carries.
#[verifier::ext_equal]
pub struct AttestationView {
    pub id: Seq<char>,
    pub device_pk: Seq<u8>,
    pub uuid_sha256: Seq<u8>,
    pub issued_at: i64,
    pub expires_at: i64,
    pub nonce: Seq<u8>,
    pub signed_payload: Seq<u8>,
}

impl View for OnGrowDeviceAttestation {
    type V = AttestationView;

    open spec fn view(&self) -> AttestationView {
        AttestationView {
            id: self.id@,
            device_pk: self.device_pk@,
            uuid_sha256: self.uuid_sha256@,
            issued_at: self.issued_at,
            expires_at: self.expires_at,
            nonce: self.nonce@,
            signed_payload: self.signed_payload@,
        }
    }
}

impl Clone for OnGrowDeviceAttestation {
    fn clone(&self) -> (copy: Self)
        ensures
            copy@ == self@,
    {
        OnGrowDeviceAttestation {
            id: self.id.clone(),
            device_pk: vstd::slice::slice_to_vec(&self.device_pk),
            uuid_sha256: vstd::slice::slice_to_vec(&self.uuid_sha256),
            issued_at: self.issued_at,
            expires_at: self.expires_at,
            nonce: vstd::slice::slice_to_vec(&self.nonce),
            signed_payload: vstd::slice::slice_to_vec(&self.signed_payload),
        }
    }
}

/// What an attestation's payload starts with.
pub open spec fn attestation_context() -> Seq<u8> {
    vstd::utf8::encode_utf8("ongrow-rustdesk-device-attestation-v1"@)
}

/// What the server signs.
pub open spec fn attestation_payload(
    id: Seq<char>,
    device_pk: Seq<u8>,
    uuid_sha256: Seq<u8>,
    issued_at: i64,
    expires_at: i64,
    nonce: Seq<u8>,
) -> Seq<u8> {
    attestation_context() + crate::wire::all_framed(
        seq![
            vstd::utf8::encode_utf8(id),
            device_pk,
            uuid_sha256,
            crate::wire::time_bytes(issued_at),
            crate::wire::time_bytes(expires_at),
            nonce,
        ],
    )
}

/// The parts of an attestation have the form that they need: a custom id, and a key, a digest and
/// a nonce of the right length.
pub open spec fn attestable(
    id: Seq<char>,
    device_pk: Seq<u8>,
    uuid_sha256: Seq<u8>,
    nonce: Seq<u8>,
) -> bool {
    &&& crate::identity::is_custom_id(id)
    &&& device_pk.len() == PUBLIC_KEY_BYTES
    &&& uuid_sha256.len() == 32
    &&& nonce.len() == ONGROW_ATTESTATION_NONCE_BYTES
}

/// The attestation that the server issues; there is none where a part has not the form that it
/// needs, or where the time of expiry is out of range.
pub open spec fn issued(
    id: Seq<char>,
    device_pk: Seq<u8>,
    uuid: Seq<u8>,
    nonce: Seq<u8>,
    issued_at: i64,
    secret_key: Seq<u8>,
) -> Option<AttestationView> {
    let uuid_sha256 = crate::crypto::sha256(uuid);
    let expires_at = issued_at + ONGROW_ATTESTATION_VALIDITY_SECONDS;
    if expires_at <= i64::MAX && attestable(id, device_pk, uuid_sha256, nonce) {
        Some(
            AttestationView {
                id,
                device_pk,
                uuid_sha256,
                issued_at,
                expires_at: expires_at as i64,
                nonce,
                signed_payload: crate::crypto::signed(
                    attestation_payload(
                        id,
                        device_pk,
                        uuid_sha256,
                        issued_at,
                        expires_at as i64,
                        nonce,
                    ),
                    secret_key,
                ),
            },
        )
    } else {
        None
    }
}

/// The message that an attestation's signature vouches for is what the attestation says, in the
/// form and with the validity that an attestation has.
pub open spec fn vouched_for(attestation: AttestationView, message: Option<Seq<u8>>) -> bool {
    &&& attestation.expires_at - attestation.issued_at == ONGROW_ATTESTATION_VALIDITY_SECONDS
    &&& attestable(
        attestation.id,
        attestation.device_pk,
        attestation.uuid_sha256,
        attestation.nonce,
    )
    &&& message == Some(
        attestation_payload(
            attestation.id,
            attestation.device_pk,
            attestation.uuid_sha256,
            attestation.issued_at,
            attestation.expires_at,
            attestation.nonce,
        ),
    )
}

/// The attestation is signed by the server whose key this is.
pub open spec fn attestation_valid(
    attestation: AttestationView,
    server_public_key: Seq<u8>,
) -> bool {
    &&& server_public_key.len() == PUBLIC_KEY_BYTES
    &&& vouched_for(
        attestation,
        crate::crypto::opened(attestation.signed_payload, server_public_key),
    )
}

/// The digest by which an attestation names a machine.
pub fn hash_ongrow_device_uuid(uuid: &[u8]) -> (digest: Vec<u8>)
    ensures
        digest@ == crate::crypto::sha256(uuid@),
        digest@.len() == 32,
{
    sha256_digest(uuid)
}

/// The payload of an attestation; there is none where a part has not the form that it needs.
pub fn ongrow_device_attestation_payload(
    id: &str,
    device_pk: &[u8],
    uuid_sha256: &[u8],
    issued_at: i64,
    expires_at: i64,
    nonce: &[u8],
) -> (payload: Option<Vec<u8>>)
    ensures
        bytes_view(payload) == (if attestable(id@, device_pk@, uuid_sha256@, nonce@) {
            Some(
                attestation_payload(
                    id@,
                    device_pk@,
                    uuid_sha256@,
                    issued_at,
                    expires_at,
                    nonce@,
                ),
            )
        } else {
            None
        }),
{
    if !is_valid_ongrow_custom_id(id) || device_pk.len() != PUBLIC_KEY_BYTES || uuid_sha256.len()
        != 32 || nonce.len() != ONGROW_ATTESTATION_NONCE_BYTES {
        return None;
    }
    let issued_at_bytes = time_to_bytes(issued_at);
    let expires_at_bytes = time_to_bytes(expires_at);
    let mut payload: Vec<u8> = Vec::new();
    payload.extend_from_slice("ongrow-rustdesk-device-attestation-v1".as_bytes());
    append_ongrow_field(&mut payload, id.as_bytes());
    append_ongrow_field(&mut payload, device_pk);
    append_ongrow_field(&mut payload, uuid_sha256);
    append_ongrow_field(&mut payload, &issued_at_bytes);
    append_ongrow_field(&mut payload, &expires_at_bytes);
    append_ongrow_field(&mut payload, nonce);
    proof {
        crate::wire::lemma_six_fields(
            vstd::utf8::encode_utf8(id@),
            device_pk@,
            uuid_sha256@,
            issued_at_bytes@,
            expires_at_bytes@,
            nonce@,
        );
        assert(payload@ =~= attestation_payload(
            id@,
            device_pk@,
            uuid_sha256@,
            issued_at,
            expires_at,
            nonce@,
        ));
    }
    Some(payload)
}

/// Issues an attestation that is valid from `issued_at` on.
pub fn issue_ongrow_device_attestation(
    id: &str,
    device_pk: &[u8],
    uuid: &[u8],
    nonce: &[u8],
    issued_at: i64,
    secret_key: &[u8; 64],
) -> (attestation: Option<OnGrowDeviceAttestation>)
    ensures
        match attestation {
            Some(a) => issued(id@, device_pk@, uuid@, nonce@, issued_at, secret_key@) == Some(a@),
            None => issued(id@, device_pk@, uuid@, nonce@, issued_at, secret_key@) is None,
        },
        attestation is Some <==> issued_at + ONGROW_ATTESTATION_VALIDITY_SECONDS <= i64::MAX
            && crate::identity::is_custom_id(id@) && device_pk@.len() == PUBLIC_KEY_BYTES
            && nonce@.len() == ONGROW_ATTESTATION_NONCE_BYTES,
        attestation matches Some(a) ==> {
            &&& a.id@ == id@
            &&& a.device_pk@ == device_pk@
            &&& a.uuid_sha256@ == crate::crypto::sha256(uuid@)
            &&& a.issued_at == issued_at
            &&& a.expires_at == issued_at + 300
            &&& a.nonce@ == nonce@
        },
{
    let expires_at: i64 = match issued_at.checked_add(ONGROW_ATTESTATION_VALIDITY_SECONDS) {
        Some(time) => time,
        None => {
            return None;
        },
    };
    let uuid_sha256 = hash_ongrow_device_uuid(uuid);
    let payload = match ongrow_device_attestation_payload(
        id,
        device_pk,
        &uuid_sha256,
        issued_at,
        expires_at,
        nonce,
    ) {
        Some(bytes) => bytes,
        None => {
            return None;
        },
    };
    proof {
        lemma_payload_length(id@, device_pk@, uuid_sha256@, issued_at, expires_at, nonce@);
    }
    let signed_payload = sign_message(&payload, secret_key);
    let attestation = OnGrowDeviceAttestation {
        id: id.to_owned(),
        device_pk: vstd::slice::slice_to_vec(device_pk),
        uuid_sha256,
        issued_at,
        expires_at,
        nonce: vstd::slice::slice_to_vec(nonce),
        signed_payload,
    };
    Some(attestation)
}

/// Whether the message that an attestation's signature vouches for is what the attestation says.
pub fn message_attests(message: &Option<Vec<u8>>, attestation: &OnGrowDeviceAttestation) -> (same:
    bool)
    ensures
        same == vouched_for(attestation@, bytes_view(*message)),
{
    match attestation.expires_at.checked_sub(attestation.issued_at) {
        Some(seconds) => if seconds != ONGROW_ATTESTATION_VALIDITY_SECONDS {
            return false;
        },
        None => {
            return false;
        },
    }
    match ongrow_device_attestation_payload(
        attestation.id.as_str(),
        &attestation.device_pk,
        &attestation.uuid_sha256,
        attestation.issued_at,
        attestation.expires_at,
        &attestation.nonce,
    ) {
        Some(expected) => message_is(message, &expected),
        None => false,
    }
}

/// Checks an attestation against the server's public key.
pub fn verify_ongrow_device_attestation(
    attestation: &OnGrowDeviceAttestation,
    server_public_key: &[u8],
) -> (valid: bool)
    ensures
        valid == attestation_valid(attestation@, server_public_key@),
{
    if server_public_key.len() != PUBLIC_KEY_BYTES {
        return false;
    }
    let message = open_signed(&attestation.signed_payload, server_public_key);
    message_attests(&message, attestation)
}

proof fn lemma_payload_length(
    id: Seq<char>,
    device_pk: Seq<u8>,
    uuid_sha256: Seq<u8>,
    issued_at: i64,
    expires_at: i64,
    nonce: Seq<u8>,
)
    requires
        attestable(id, device_pk, uuid_sha256, nonce),
    ensures
        attestation_payload(id, device_pk, uuid_sha256, issued_at, expires_at, nonce).len() == 180,
{
    crate::identity::lemma_custom_id_bytes(id);
    lemma_context_length();
    crate::wire::lemma_six_fields(
        vstd::utf8::encode_utf8(id),
        device_pk,
        uuid_sha256,
        crate::wire::time_bytes(issued_at),
        crate::wire::time_bytes(expires_at),
        nonce,
    );
}

proof fn lemma_context_length()
    ensures
        attestation_context().len() == 37,
        attestation_context()[16] == 'd' as u8,
{
    reveal_strlit("ongrow-rustdesk-device-attestation-v1");
    let context = "ongrow-rustdesk-device-attestation-v1"@;
    vstd::utf8::is_ascii_chars_encode_utf8(context);
    assert(context[16] == 'd');
}

/// What the server issues, it accepts: an issued attestation is valid under the public key that
/// belongs to the key that signed it.
pub proof fn law_issued_attestation_is_valid(
    id: Seq<char>,
    device_pk: Seq<u8>,
    uuid: Seq<u8>,
    nonce: Seq<u8>,
    issued_at: i64,
    secret_key: Seq<u8>,
    public_key: Seq<u8>,
)
    ensures
        issued(id, device_pk, uuid, nonce, issued_at, secret_key) matches Some(attestation)
            ==> public_key.len() == PUBLIC_KEY_BYTES && crate::crypto::is_key_pair(
            public_key,
            secret_key,
        ) && !crate::crypto::commits_to_neutral(attestation.signed_payload) ==> attestation_valid(
            attestation,
            public_key,
        ),
{
}

/// A signature vouches for one attestation alone: two valid attestations that carry the same
/// signed payload say the same.
pub proof fn law_signature_is_for_one_attestation(
    a: AttestationView,
    b: AttestationView,
    server_public_key: Seq<u8>,
)
    ensures
        attestation_valid(a, server_public_key) && attestation_valid(b, server_public_key)
            && a.signed_payload == b.signed_payload ==> a == b,
{
    if attestation_valid(a, server_public_key) && attestation_valid(b, server_public_key)
        && a.signed_payload == b.signed_payload {
        let f = seq![
            vstd::utf8::encode_utf8(a.id),
            a.device_pk,
            a.uuid_sha256,
            crate::wire::time_bytes(a.issued_at),
            crate::wire::time_bytes(a.expires_at),
            a.nonce,
        ];
        let g = seq![
            vstd::utf8::encode_utf8(b.id),
            b.device_pk,
            b.uuid_sha256,
            crate::wire::time_bytes(b.issued_at),
            crate::wire::time_bytes(b.expires_at),
            b.nonce,
        ];
        crate::identity::lemma_custom_id_bytes(a.id);
        crate::identity::lemma_custom_id_bytes(b.id);
        crate::identity::lemma_same_tail(
            attestation_context(),
            crate::wire::all_framed(f),
            crate::wire::all_framed(g),
        );
        crate::wire::law_fields_are_unambiguous(f, g);
        assert(f[0] == g[0] && f[1] == g[1] && f[2] == g[2] && f[3] == g[3] && f[4] == g[4] && f[5]
            == g[5]);
        crate::identity::lemma_same_id(a.id, b.id);
        crate::wire::lemma_time_bytes_injective(a.issued_at, b.issued_at);
        crate::wire::lemma_time_bytes_injective(a.expires_at, b.expires_at);
    }
}

/// Proof and attestation are apart: no signature that is accepted as a proof of either form makes
/// an attestation valid under the same key.
pub proof fn law_proof_is_no_attestation(
    attestation: AttestationView,
    public_key: Seq<u8>,
    old_id: Seq<char>,
    new_id: Seq<char>,
    uuid: Seq<u8>,
    nonce: Seq<u8>,
)
    ensures
        attestation_valid(attestation, public_key) ==> !crate::identity::proof_valid(
            old_id,
            new_id,
            uuid,
            attestation.signed_payload,
            public_key,
        ) && !crate::identity::proof_valid_v2(
            old_id,
            new_id,
            uuid,
            nonce,
            attestation.signed_payload,
            public_key,
        ),
{
    lemma_context_length();
    crate::identity::lemma_contexts();
    assert(crate::identity::proof_payload(old_id, new_id, uuid)[16] == 'c' as u8);
    assert(crate::identity::proof_payload_v2(old_id, new_id, uuid, nonce)[16] == 'c' as u8);
    assert(attestation_payload(
        attestation.id,
        attestation.device_pk,
        attestation.uuid_sha256,
        attestation.issued_at,
        attestation.expires_at,
        attestation.nonce,
    )[16] == 'd' as u8);
}

/// The uuid itself stays with the server: two machines whose uuids have the same digest get the
/// same attestation, so that nothing but the digest shows.
pub proof fn law_attestation_shows_digest_alone(
    id: Seq<char>,
    device_pk: Seq<u8>,
    uuid_a: Seq<u8>,
    uuid_b: Seq<u8>,
    nonce: Seq<u8>,
    issued_at: i64,
    secret_key: Seq<u8>,
)
    ensures
        crate::crypto::sha256(uuid_a) == crate::crypto::sha256(uuid_b) ==> issued(
            id,
            device_pk,
            uuid_a,
            nonce,
            issued_at,
            secret_key,
        ) == issued(id, device_pk, uuid_b, nonce, issued_at, secret_key),
{
}

/// An attestation is short-lived: what is issued, and what is accepted, is valid for five
/// minutes.
pub proof fn law_attestation_lasts_five_minutes(
    attestation: AttestationView,
    id: Seq<char>,
    device_pk: Seq<u8>,
    uuid: Seq<u8>,
    nonce: Seq<u8>,
    issued_at: i64,
    key: Seq<u8>,
)
    ensures
        issued(id, device_pk, uuid, nonce, issued_at, key) == Some(attestation)
            || attestation_valid(attestation, key) ==> attestation.expires_at
            == attestation.issued_at + 5 * 60,
{
}

/// The fields of an attestation's payload.
proof fn lemma_payload_fields(
    id: Seq<char>,
    device_pk: Seq<u8>,
    uuid_sha256: Seq<u8>,
    issued_at: i64,
    expires_at: i64,
    nonce: Seq<u8>,
) -> (fields: Seq<Seq<u8>>)
    requires
        crate::identity::id_fits(id),
        device_pk.len() < 0x1_0000_0000,
        uuid_sha256.len() < 0x1_0000_0000,
        nonce.len() < 0x1_0000_0000,
    ensures
        fields == seq![
            vstd::utf8::encode_utf8(id),
            device_pk,
            uuid_sha256,
            crate::wire::time_bytes(issued_at),
            crate::wire::time_bytes(expires_at),
            nonce,
        ],
        crate::wire::lengths_fit(fields),
        attestation_payload(id, device_pk, uuid_sha256, issued_at, expires_at, nonce)
            == vstd::utf8::encode_utf8("ongrow-rustdesk-device-attestation-v1"@)
            + crate::wire::all_framed(fields),
{
    seq![
        vstd::utf8::encode_utf8(id),
        device_pk,
        uuid_sha256,
        crate::wire::time_bytes(issued_at),
        crate::wire::time_bytes(expires_at),
        nonce,
    ]
}

/// What the server signs reads back: it starts with the context of attestations and goes on with
/// the id, the device's key, the digest of the uuid, the two times and the nonce, each behind its
/// length, in this order and with nothing else.
pub proof fn law_attestation_payload_reads_back(
    id: Seq<char>,
    device_pk: Seq<u8>,
    uuid_sha256: Seq<u8>,
    issued_at: i64,
    expires_at: i64,
    nonce: Seq<u8>,
)
    requires
        crate::identity::id_fits(id),
        device_pk.len() < 0x1_0000_0000,
        uuid_sha256.len() < 0x1_0000_0000,
        nonce.len() < 0x1_0000_0000,
    ensures
        crate::identity::reads_as(
            attestation_payload(id, device_pk, uuid_sha256, issued_at, expires_at, nonce),
            "ongrow-rustdesk-device-attestation-v1"@,
            seq![
                vstd::utf8::encode_utf8(id),
                device_pk,
                uuid_sha256,
                crate::wire::time_bytes(issued_at),
                crate::wire::time_bytes(expires_at),
                nonce,
            ],
        ),
{
    let fields = lemma_payload_fields(id, device_pk, uuid_sha256, issued_at, expires_at, nonce);
    crate::identity::lemma_reads_as(
        attestation_payload(id, device_pk, uuid_sha256, issued_at, expires_at, nonce),
        "ongrow-rustdesk-device-attestation-v1"@,
        fields,
    );
}

/// What is issued names what was asked for: the id, the device's key, the nonce and the time are
/// those that were given, the digest is that of the uuid, the time of expiry is 300 seconds later,
/// and the message that is signed is the payload of exactly these values. Something is issued
/// exactly where the id is a custom id, the key, the digest and the nonce have 32 bytes, and the
/// time of expiry is in range.
pub proof fn law_issued_names_what_was_asked_for(
    id: Seq<char>,
    device_pk: Seq<u8>,
    uuid: Seq<u8>,
    nonce: Seq<u8>,
    issued_at: i64,
    secret_key: Seq<u8>,
)
    ensures
        issued(id, device_pk, uuid, nonce, issued_at, secret_key) is Some <==> {
            &&& crate::identity::is_custom_id(id)
            &&& device_pk.len() == 32
            &&& crate::crypto::sha256(uuid).len() == 32
            &&& nonce.len() == 32
            &&& issued_at + 300 <= i64::MAX
        },
        issued(id, device_pk, uuid, nonce, issued_at, secret_key) matches Some(a) ==> {
            &&& a.id == id
            &&& a.device_pk == device_pk
            &&& a.uuid_sha256 == crate::crypto::sha256(uuid)
            &&& a.issued_at == issued_at
            &&& a.expires_at == issued_at + 300
            &&& a.nonce == nonce
            &&& a.signed_payload == crate::crypto::signed(
                attestation_payload(
                    id,
                    device_pk,
                    crate::crypto::sha256(uuid),
                    issued_at,
                    (issued_at + 300) as i64,
                    nonce,
                ),
                secret_key,
            )
            &&& crate::identity::reads_as(
                attestation_payload(
                    id,
                    device_pk,
                    crate::crypto::sha256(uuid),
                    issued_at,
                    (issued_at + 300) as i64,
                    nonce,
                ),
                "ongrow-rustdesk-device-attestation-v1"@,
                seq![
                    vstd::utf8::encode_utf8(id),
                    device_pk,
                    crate::crypto::sha256(uuid),
                    crate::wire::time_bytes(issued_at),
                    crate::wire::time_bytes((issued_at + 300) as i64),
                    nonce,
                ],
            )
        },
{
    if issued(id, device_pk, uuid, nonce, issued_at, secret_key) is Some {
        crate::identity::lemma_custom_id_bytes(id);
        law_attestation_payload_reads_back(
            id,
            device_pk,
            crate::crypto::sha256(uuid),
            issued_at,
            (issued_at + 300) as i64,
            nonce,
        );
    }
}

/// Requests that differ get attestations that differ: where two are issued and say the same, they
/// were issued for the same id, key, nonce and time, and for uuids with the same digest.
pub proof fn law_attestations_for_different_requests_differ(
    id_a: Seq<char>,
    device_pk_a: Seq<u8>,
    uuid_a: Seq<u8>,
    nonce_a: Seq<u8>,
    issued_at_a: i64,
    id_b: Seq<char>,
    device_pk_b: Seq<u8>,
    uuid_b: Seq<u8>,
    nonce_b: Seq<u8>,
    issued_at_b: i64,
    secret_key: Seq<u8>,
)
    ensures
        issued(id_a, device_pk_a, uuid_a, nonce_a, issued_at_a, secret_key) matches Some(a) ==> (
        issued(id_b, device_pk_b, uuid_b, nonce_b, issued_at_b, secret_key) matches Some(b) ==> {
            &&& a.id == b.id <==> id_a == id_b
            &&& a.device_pk == b.device_pk <==> device_pk_a == device_pk_b
            &&& a.nonce == b.nonce <==> nonce_a == nonce_b
            &&& a.issued_at == b.issued_at <==> issued_at_a == issued_at_b
            &&& a.uuid_sha256 == b.uuid_sha256 <==> crate::crypto::sha256(uuid_a)
                == crate::crypto::sha256(uuid_b)
        }),
{
}

/// An attestation is accepted exactly where it is one: the server's key has 32 bytes, the id is a
/// custom id, the key, the digest and the nonce have 32 bytes, it expires 300 seconds after it was
/// issued, and its signature vouches for a message that reads, behind the context of attestations,
/// as exactly what it says.
pub proof fn law_valid_attestation_reads_back(a: AttestationView, server_public_key: Seq<u8>)
    ensures
        attestation_valid(a, server_public_key) <==> {
            &&& server_public_key.len() == 32
            &&& crate::identity::is_custom_id(a.id)
            &&& a.device_pk.len() == 32
            &&& a.uuid_sha256.len() == 32
            &&& a.nonce.len() == 32
            &&& a.expires_at - a.issued_at == 300
            &&& crate::crypto::opened(a.signed_payload, server_public_key) matches Some(message)
            &&& crate::identity::reads_as(
                message,
                "ongrow-rustdesk-device-attestation-v1"@,
                seq![
                    vstd::utf8::encode_utf8(a.id),
                    a.device_pk,
                    a.uuid_sha256,
                    crate::wire::time_bytes(a.issued_at),
                    crate::wire::time_bytes(a.expires_at),
                    a.nonce,
                ],
            )
        },
{
    if crate::identity::is_custom_id(a.id) && a.device_pk.len() == 32 && a.uuid_sha256.len() == 32
        && a.nonce.len() == 32 {
        crate::identity::lemma_custom_id_bytes(a.id);
        let fields = lemma_payload_fields(
            a.id,
            a.device_pk,
            a.uuid_sha256,
            a.issued_at,
            a.expires_at,
            a.nonce,
        );
        crate::identity::lemma_message_reads_as(
            crate::crypto::opened(a.signed_payload, server_public_key),
            "ongrow-rustdesk-device-attestation-v1"@,
            fields,
        );
    }
}

/// The view of an attestation holds what its fields hold.
pub proof fn law_view_of_attestation(a: OnGrowDeviceAttestation)
    ensures
        a@.id == a.id@,
        a@.device_pk == a.device_pk@,
        a@.uuid_sha256 == a.uuid_sha256@,
        a@.issued_at == a.issued_at,
        a@.expires_at == a.expires_at,
        a@.nonce == a.nonce@,
        a@.signed_payload == a.signed_payload@,
{
}

/// A payload is written exactly where its parts have the form that they need, and reads as them.
pub proof fn law_written_attestation_payload(
    id: &str,
    device_pk: &[u8],
    uuid_sha256: &[u8],
    issued_at: i64,
    expires_at: i64,
    nonce: &[u8],
    payload: Option<Vec<u8>>,
)
    requires
        call_ensures(
            ongrow_device_attestation_payload,
            (id, device_pk, uuid_sha256, issued_at, expires_at, nonce),
            payload,
        ),
    ensures
        payload is Some <==> crate::identity::is_custom_id(id@) && device_pk@.len() == 32
            && uuid_sha256@.len() == 32 && nonce@.len() == 32,
        payload matches Some(bytes) ==> crate::identity::reads_as(
            bytes@,
            "ongrow-rustdesk-device-attestation-v1"@,
            seq![
                vstd::utf8::encode_utf8(id@),
                device_pk@,
                uuid_sha256@,
                crate::wire::time_bytes(issued_at),
                crate::wire::time_bytes(expires_at),
                nonce@,
            ],
        ),
{
    if payload is Some {
        crate::identity::lemma_custom_id_bytes(id@);
        law_attestation_payload_reads_back(
            id@,
            device_pk@,
            uuid_sha256@,
            issued_at,
            expires_at,
            nonce@,
        );
    }
}

/// The attestation that is issued holds what was asked for, and the server's signature of a message
/// that reads as it.
pub proof fn law_issued_attestation_holds_the_request(
    id: &str,
    device_pk: &[u8],
    uuid: &[u8],
    nonce: &[u8],
    issued_at: i64,
    secret_key: &[u8; 64],
    attestation: Option<OnGrowDeviceAttestation>,
)
    requires
        call_ensures(
            issue_ongrow_device_attestation,
            (id, device_pk, uuid, nonce, issued_at, secret_key),
            attestation,
        ),
    ensures
        attestation is Some <==> crate::identity::is_custom_id(id@) && device_pk@.len() == 32
            && nonce@.len() == 32 && issued_at + 300 <= i64::MAX,
        attestation matches Some(a) ==> {
            &&& a.id@ == id@
            &&& a.device_pk@ == device_pk@
            &&& a.uuid_sha256@ == crate::crypto::sha256(uuid@)
            &&& a.issued_at == issued_at
            &&& a.expires_at == issued_at + 300
            &&& a.nonce@ == nonce@
            &&& exists|message: Seq<u8>|
                a.signed_payload@ == #[trigger] crate::crypto::signed(message, secret_key@)
                    && crate::identity::reads_as(
                    message,
                    "ongrow-rustdesk-device-attestation-v1"@,
                    seq![
                        vstd::utf8::encode_utf8(id@),
                        device_pk@,
                        crate::crypto::sha256(uuid@),
                        crate::wire::time_bytes(issued_at),
                        crate::wire::time_bytes((issued_at + 300) as i64),
                        nonce@,
                    ],
                )
        },
{
    law_issued_names_what_was_asked_for(
        id@,
        device_pk@,
        uuid@,
        nonce@,
        issued_at,
        secret_key@,
    );
    match attestation {
        Some(a) => {
            law_view_of_attestation(a);
        },
        None => {},
    }
}

/// An attestation is accepted exactly where it has the form and the validity that one has, and the
/// server's signature vouches for a message that reads as what it says.
pub proof fn law_accepted_attestation(
    a: &OnGrowDeviceAttestation,
    server_public_key: &[u8],
    valid: bool,
)
    requires
        call_ensures(verify_ongrow_device_attestation, (a, server_public_key), valid),
    ensures
        valid <==> {
            &&& server_public_key@.len() == 32
            &&& crate::identity::is_custom_id(a.id@)
            &&& a.device_pk@.len() == 32
            &&& a.uuid_sha256@.len() == 32
            &&& a.nonce@.len() == 32
            &&& a.expires_at - a.issued_at == 300
            &&& crate::crypto::opened(a.signed_payload@, server_public_key@) matches Some(message)
            &&& crate::identity::reads_as(
                message,
                "ongrow-rustdesk-device-attestation-v1"@,
                seq![
                    vstd::utf8::encode_utf8(a.id@),
                    a.device_pk@,
                    a.uuid_sha256@,
                    crate::wire::time_bytes(a.issued_at),
                    crate::wire::time_bytes(a.expires_at),
                    a.nonce@,
                ],
            )
        },
{
    law_valid_attestation_reads_back(a@, server_public_key@);
}

/// A machine is named by the SHA-256 digest of its uuid.
pub proof fn law_digest_of_uuid(uuid: &[u8], digest: Vec<u8>)
    requires
        call_ensures(hash_ongrow_device_uuid, (uuid,), digest),
    ensures
        digest@ == crate::crypto::sha256(uuid@),
        digest@.len() == 32,
{
}

} // verus!
