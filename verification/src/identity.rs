//! Custom device ids, and the proofs with which a device asks for one.
//!
//! A device that wants another id signs its old id, its new id and its machine's uuid with the
//! key that it registered. The second form of the proof binds a nonce as well.

use crate::crypto::{bytes_view, open_signed, PUBLIC_KEY_BYTES};
use crate::text::bytes_equal;
use crate::wire::append_ongrow_field;
use vstd::prelude::*;

verus! {

/// Number of bytes in the nonce of a request.
pub const ONGROW_ATTESTATION_NONCE_BYTES: usize = 32;

/// A custom id: `OG-` and exactly four digits.
pub open spec fn is_custom_id(id: Seq<char>) -> bool {
    &&& id.len() == 7
    &&& id.subrange(0, 3) == "OG-"@
    &&& forall|i: int| 3 <= i < 7 ==> '0' <= #[trigger] id[i] <= '9'
}

/// What the first form of the proof starts with.
pub open spec fn custom_id_context_v1() -> Seq<u8> {
    vstd::utf8::encode_utf8("ongrow-rustdesk-custom-id-v1"@)
}

/// What the second form of the proof starts with.
pub open spec fn custom_id_context_v2() -> Seq<u8> {
    vstd::utf8::encode_utf8("ongrow-rustdesk-custom-id-v2"@)
}

/// What a device signs to change its id.
pub open spec fn proof_payload(old_id: Seq<char>, new_id: Seq<char>, uuid: Seq<u8>) -> Seq<u8> {
    custom_id_context_v1() + crate::wire::all_framed(
        seq![vstd::utf8::encode_utf8(old_id), vstd::utf8::encode_utf8(new_id), uuid],
    )
}

/// What a device signs to change its id, with a nonce.
pub open spec fn proof_payload_v2(
    old_id: Seq<char>,
    new_id: Seq<char>,
    uuid: Seq<u8>,
    nonce: Seq<u8>,
) -> Seq<u8> {
    custom_id_context_v2() + crate::wire::all_framed(
        seq![vstd::utf8::encode_utf8(old_id), vstd::utf8::encode_utf8(new_id), uuid, nonce],
    )
}

/// `proof` is the signature, by `public_key`, of exactly this change of id.
pub open spec fn proof_valid(
    old_id: Seq<char>,
    new_id: Seq<char>,
    uuid: Seq<u8>,
    proof: Seq<u8>,
    public_key: Seq<u8>,
) -> bool {
    &&& public_key.len() == PUBLIC_KEY_BYTES
    &&& crate::crypto::opened(proof, public_key) == Some(proof_payload(old_id, new_id, uuid))
}

/// `proof` is the signature, by `public_key`, of exactly this change of id under this nonce.
pub open spec fn proof_valid_v2(
    old_id: Seq<char>,
    new_id: Seq<char>,
    uuid: Seq<u8>,
    nonce: Seq<u8>,
    proof: Seq<u8>,
    public_key: Seq<u8>,
) -> bool {
    &&& public_key.len() == PUBLIC_KEY_BYTES
    &&& nonce.len() == ONGROW_ATTESTATION_NONCE_BYTES
    &&& crate::crypto::opened(proof, public_key) == Some(
        proof_payload_v2(old_id, new_id, uuid, nonce),
    )
}

/// Whether `id` is a custom id.
pub fn is_valid_ongrow_custom_id(id: &str) -> (valid: bool)
    ensures
        valid == is_custom_id(id@),
{
    proof {
        reveal_strlit("OG-");
        if is_custom_id(id@) {
            lemma_custom_id_chars(id@);
        }
    }
    if !id.is_ascii() {
        return false;
    }
    let bytes = id.as_bytes();
    if bytes.len() != 7 || bytes[0] != 79 || bytes[1] != 71 || bytes[2] != 45 {
        return false;
    }
    assert(id@.subrange(0, 3) =~= "OG-"@);
    for i in 3..7
        invariant
            bytes@.len() == 7,
            id@.len() == 7,
            forall|j: int| 0 <= j < 7 ==> bytes@[j] == #[trigger] id@[j] as u8,
            id.is_ascii(),
            forall|j: int| 3 <= j < i ==> '0' <= #[trigger] id@[j] <= '9',
    {
        if bytes[i] < 48 || bytes[i] > 57 {
            assert(!('0' <= id@[i as int] <= '9'));
            return false;
        }
    }
    true
}

/// The payload of the first form of the proof.
pub fn ongrow_custom_id_proof_payload(old_id: &str, new_id: &str, uuid: &[u8]) -> (payload: Vec<u8>)
    ensures
        payload@ == proof_payload(old_id@, new_id@, uuid@),
{
    let mut payload: Vec<u8> = Vec::new();
    payload.extend_from_slice("ongrow-rustdesk-custom-id-v1".as_bytes());
    append_ongrow_field(&mut payload, old_id.as_bytes());
    append_ongrow_field(&mut payload, new_id.as_bytes());
    append_ongrow_field(&mut payload, uuid);
    proof {
        crate::wire::lemma_three_fields(
            vstd::utf8::encode_utf8(old_id@),
            vstd::utf8::encode_utf8(new_id@),
            uuid@,
        );
        assert(payload@ =~= proof_payload(old_id@, new_id@, uuid@));
    }
    payload
}

/// The payload of the second form of the proof; there is none for a nonce of the wrong length.
pub fn ongrow_custom_id_proof_payload_v2(
    old_id: &str,
    new_id: &str,
    uuid: &[u8],
    nonce: &[u8],
) -> (payload: Option<Vec<u8>>)
    ensures
        bytes_view(payload) == (if nonce@.len() == ONGROW_ATTESTATION_NONCE_BYTES {
            Some(proof_payload_v2(old_id@, new_id@, uuid@, nonce@))
        } else {
            None
        }),
{
    if nonce.len() != ONGROW_ATTESTATION_NONCE_BYTES {
        return None;
    }
    let mut payload: Vec<u8> = Vec::new();
    payload.extend_from_slice("ongrow-rustdesk-custom-id-v2".as_bytes());
    append_ongrow_field(&mut payload, old_id.as_bytes());
    append_ongrow_field(&mut payload, new_id.as_bytes());
    append_ongrow_field(&mut payload, uuid);
    append_ongrow_field(&mut payload, nonce);
    proof {
        crate::wire::lemma_four_fields(
            vstd::utf8::encode_utf8(old_id@),
            vstd::utf8::encode_utf8(new_id@),
            uuid@,
            nonce@,
        );
        assert(payload@ =~= proof_payload_v2(old_id@, new_id@, uuid@, nonce@));
    }
    Some(payload)
}

/// Whether a message that a signature vouches for is `expected`. There is no message where the
/// signature was refused.
pub fn message_is(message: &Option<Vec<u8>>, expected: &[u8]) -> (same: bool)
    ensures
        same == (bytes_view(*message) == Some(expected@)),
{
    match message {
        Some(found) => bytes_equal(found, expected),
        None => false,
    }
}

/// Whether an opened message asks for exactly this change of id.
pub fn message_asks_for_change(
    message: &Option<Vec<u8>>,
    old_id: &str,
    new_id: &str,
    uuid: &[u8],
) -> (same: bool)
    ensures
        same == (bytes_view(*message) == Some(proof_payload(old_id@, new_id@, uuid@))),
{
    let expected = ongrow_custom_id_proof_payload(old_id, new_id, uuid);
    message_is(message, &expected)
}

/// Whether an opened message asks for exactly this change of id under this nonce.
pub fn message_asks_for_change_v2(
    message: &Option<Vec<u8>>,
    old_id: &str,
    new_id: &str,
    uuid: &[u8],
    nonce: &[u8],
) -> (same: bool)
    ensures
        same == (nonce@.len() == ONGROW_ATTESTATION_NONCE_BYTES && bytes_view(*message) == Some(
            proof_payload_v2(old_id@, new_id@, uuid@, nonce@),
        )),
{
    match ongrow_custom_id_proof_payload_v2(old_id, new_id, uuid, nonce) {
        Some(expected) => message_is(message, &expected),
        None => false,
    }
}

/// Checks the first form of the proof against the key that the device registered.
pub fn verify_ongrow_custom_id_proof(
    old_id: &str,
    new_id: &str,
    uuid: &[u8],
    proof: &[u8],
    public_key: &[u8],
) -> (valid: bool)
    ensures
        valid == proof_valid(old_id@, new_id@, uuid@, proof@, public_key@),
{
    if public_key.len() != PUBLIC_KEY_BYTES {
        return false;
    }
    let message = open_signed(proof, public_key);
    message_asks_for_change(&message, old_id, new_id, uuid)
}

/// Checks the second form of the proof against the key that the device registered.
pub fn verify_ongrow_custom_id_proof_v2(
    old_id: &str,
    new_id: &str,
    uuid: &[u8],
    nonce: &[u8],
    proof: &[u8],
    public_key: &[u8],
) -> (valid: bool)
    ensures
        valid == proof_valid_v2(old_id@, new_id@, uuid@, nonce@, proof@, public_key@),
{
    if public_key.len() != PUBLIC_KEY_BYTES || nonce.len() != ONGROW_ATTESTATION_NONCE_BYTES {
        return false;
    }
    let message = open_signed(proof, public_key);
    message_asks_for_change_v2(&message, old_id, new_id, uuid, nonce)
}

/// What a custom id starts with, and that it is in ASCII.
proof fn lemma_custom_id_chars(id: Seq<char>)
    requires
        is_custom_id(id),
    ensures
        id[0] == 'O' && id[1] == 'G' && id[2] == '-',
        vstd::utf8::is_ascii_chars(id),
{
    reveal_strlit("OG-");
    let start = id.subrange(0, 3);
    assert(id[0] == start[0] && id[1] == start[1] && id[2] == start[2]);
}

/// A custom id takes seven bytes.
pub(crate) proof fn lemma_custom_id_bytes(id: Seq<char>)
    requires
        is_custom_id(id),
    ensures
        vstd::utf8::encode_utf8(id).len() == 7,
{
    lemma_custom_id_chars(id);
    vstd::utf8::is_ascii_chars_encode_utf8(id);
}

/// The two forms of the proof start differently.
pub(crate) proof fn lemma_contexts()
    ensures
        custom_id_context_v1().len() == 28,
        custom_id_context_v2().len() == 28,
        custom_id_context_v1()[27] != custom_id_context_v2()[27],
        custom_id_context_v1()[16] == 'c' as u8,
        custom_id_context_v2()[16] == 'c' as u8,
{
    reveal_strlit("ongrow-rustdesk-custom-id-v1");
    reveal_strlit("ongrow-rustdesk-custom-id-v2");
    let v1 = "ongrow-rustdesk-custom-id-v1"@;
    let v2 = "ongrow-rustdesk-custom-id-v2"@;
    vstd::utf8::is_ascii_chars_encode_utf8(v1);
    vstd::utf8::is_ascii_chars_encode_utf8(v2);
    assert(v1[27] == '1' && v2[27] == '2' && v1[16] == 'c' && v2[16] == 'c');
}

/// What follows a common context is equal where the whole is.
pub(crate) proof fn lemma_same_tail(context: Seq<u8>, a: Seq<u8>, b: Seq<u8>)
    requires
        context + a == context + b,
    ensures
        a == b,
{
    let n = context.len() as int;
    let whole = context + a;
    assert(whole.len() == n + a.len());
    assert(whole.len() == (context + b).len());
    assert(a =~= whole.subrange(n, whole.len() as int));
    assert(b =~= (context + b).subrange(n, whole.len() as int));
}

/// Ids that are written as the same bytes are the same.
pub(crate) proof fn lemma_same_id(a: Seq<char>, b: Seq<char>)
    requires
        vstd::utf8::encode_utf8(a) == vstd::utf8::encode_utf8(b),
    ensures
        a == b,
{
    vstd::utf8::encode_utf8_decode_utf8(a);
    vstd::utf8::encode_utf8_decode_utf8(b);
}

/// The bytes of `id` are few enough for their number to be written down.
pub open spec fn id_fits(id: Seq<char>) -> bool {
    vstd::utf8::encode_utf8(id).len() < 0x1_0000_0000
}

/// A proof holds for one change alone: if the same signature is accepted for two changes of id,
/// under one key, the old ids, the new ids and the uuids are the same.
pub proof fn law_proof_is_for_one_change(
    proof: Seq<u8>,
    public_key: Seq<u8>,
    old_a: Seq<char>,
    new_a: Seq<char>,
    uuid_a: Seq<u8>,
    old_b: Seq<char>,
    new_b: Seq<char>,
    uuid_b: Seq<u8>,
)
    requires
        id_fits(old_a) && id_fits(new_a) && uuid_a.len() < 0x1_0000_0000,
        id_fits(old_b) && id_fits(new_b) && uuid_b.len() < 0x1_0000_0000,
    ensures
        proof_valid(old_a, new_a, uuid_a, proof, public_key) && proof_valid(
            old_b,
            new_b,
            uuid_b,
            proof,
            public_key,
        ) ==> old_a == old_b && new_a == new_b && uuid_a == uuid_b,
{
    if proof_valid(old_a, new_a, uuid_a, proof, public_key) && proof_valid(
        old_b,
        new_b,
        uuid_b,
        proof,
        public_key,
    ) {
        let a = seq![vstd::utf8::encode_utf8(old_a), vstd::utf8::encode_utf8(new_a), uuid_a];
        let b = seq![vstd::utf8::encode_utf8(old_b), vstd::utf8::encode_utf8(new_b), uuid_b];
        lemma_same_tail(
            custom_id_context_v1(),
            crate::wire::all_framed(a),
            crate::wire::all_framed(b),
        );
        crate::wire::law_fields_are_unambiguous(a, b);
        assert(a[0] == b[0] && a[1] == b[1] && a[2] == b[2]);
        lemma_same_id(old_a, old_b);
        lemma_same_id(new_a, new_b);
    }
}

/// A proof with a nonce holds for one change under one nonce alone.
pub proof fn law_proof_v2_is_for_one_change(
    proof: Seq<u8>,
    public_key: Seq<u8>,
    old_a: Seq<char>,
    new_a: Seq<char>,
    uuid_a: Seq<u8>,
    nonce_a: Seq<u8>,
    old_b: Seq<char>,
    new_b: Seq<char>,
    uuid_b: Seq<u8>,
    nonce_b: Seq<u8>,
)
    requires
        id_fits(old_a) && id_fits(new_a) && uuid_a.len() < 0x1_0000_0000,
        id_fits(old_b) && id_fits(new_b) && uuid_b.len() < 0x1_0000_0000,
    ensures
        proof_valid_v2(old_a, new_a, uuid_a, nonce_a, proof, public_key) && proof_valid_v2(
            old_b,
            new_b,
            uuid_b,
            nonce_b,
            proof,
            public_key,
        ) ==> old_a == old_b && new_a == new_b && uuid_a == uuid_b && nonce_a == nonce_b,
{
    if proof_valid_v2(old_a, new_a, uuid_a, nonce_a, proof, public_key) && proof_valid_v2(
        old_b,
        new_b,
        uuid_b,
        nonce_b,
        proof,
        public_key,
    ) {
        let a = seq![
            vstd::utf8::encode_utf8(old_a),
            vstd::utf8::encode_utf8(new_a),
            uuid_a,
            nonce_a,
        ];
        let b = seq![
            vstd::utf8::encode_utf8(old_b),
            vstd::utf8::encode_utf8(new_b),
            uuid_b,
            nonce_b,
        ];
        lemma_same_tail(
            custom_id_context_v2(),
            crate::wire::all_framed(a),
            crate::wire::all_framed(b),
        );
        crate::wire::law_fields_are_unambiguous(a, b);
        assert(a[0] == b[0] && a[1] == b[1] && a[2] == b[2] && a[3] == b[3]);
        lemma_same_id(old_a, old_b);
        lemma_same_id(new_a, new_b);
    }
}

/// The two forms of the proof are apart: no signature is accepted as both.
pub proof fn law_forms_of_proof_are_apart(
    proof: Seq<u8>,
    public_key: Seq<u8>,
    old_a: Seq<char>,
    new_a: Seq<char>,
    uuid_a: Seq<u8>,
    old_b: Seq<char>,
    new_b: Seq<char>,
    uuid_b: Seq<u8>,
    nonce_b: Seq<u8>,
)
    ensures
        !(proof_valid(old_a, new_a, uuid_a, proof, public_key) && proof_valid_v2(
            old_b,
            new_b,
            uuid_b,
            nonce_b,
            proof,
            public_key,
        )),
{
    lemma_contexts();
    assert(proof_payload(old_a, new_a, uuid_a)[27] == custom_id_context_v1()[27]);
    assert(proof_payload_v2(old_b, new_b, uuid_b, nonce_b)[27] == custom_id_context_v2()[27]);
}

/// A device that holds the secret key can prove every change: the signature of a payload is
/// accepted for the change that it was made for.
pub proof fn law_signed_change_is_accepted(
    old_id: Seq<char>,
    new_id: Seq<char>,
    uuid: Seq<u8>,
    public_key: Seq<u8>,
    secret_key: Seq<u8>,
)
    ensures
        ({
            let proof = crate::crypto::signed(proof_payload(old_id, new_id, uuid), secret_key);
            public_key.len() == PUBLIC_KEY_BYTES && crate::crypto::is_key_pair(
                public_key,
                secret_key,
            ) && !crate::crypto::commits_to_neutral(proof) ==> proof_valid(
                old_id,
                new_id,
                uuid,
                proof,
                public_key,
            )
        }),
{
}

/// The same with a nonce.
pub proof fn law_signed_change_is_accepted_v2(
    old_id: Seq<char>,
    new_id: Seq<char>,
    uuid: Seq<u8>,
    nonce: Seq<u8>,
    public_key: Seq<u8>,
    secret_key: Seq<u8>,
)
    requires
        nonce.len() == ONGROW_ATTESTATION_NONCE_BYTES,
    ensures
        ({
            let proof = crate::crypto::signed(
                proof_payload_v2(old_id, new_id, uuid, nonce),
                secret_key,
            );
            public_key.len() == PUBLIC_KEY_BYTES && crate::crypto::is_key_pair(
                public_key,
                secret_key,
            ) && !crate::crypto::commits_to_neutral(proof) ==> proof_valid_v2(
                old_id,
                new_id,
                uuid,
                nonce,
                proof,
                public_key,
            )
        }),
{
}

/// The custom id with a number: its four decimal digits behind `OG-`.
pub open spec fn numbered_id(n: nat) -> Seq<char> {
    seq![
        'O',
        'G',
        '-',
        crate::text::decimal_digit(n / 1000 % 10),
        crate::text::decimal_digit(n / 100 % 10),
        crate::text::decimal_digit(n / 10 % 10),
        crate::text::decimal_digit(n % 10),
    ]
}

proof fn lemma_four_digits(a: nat, b: nat, c: nat, d: nat)
    requires
        a < 10 && b < 10 && c < 10 && d < 10,
    ensures
        ({
            let n = a * 1000 + b * 100 + c * 10 + d;
            n < 10_000 && n / 1000 % 10 == a && n / 100 % 10 == b && n / 10 % 10 == c && n % 10
                == d
        }),
{
    let n = a * 1000 + b * 100 + c * 10 + d;
    assert(n / 10 == a * 100 + b * 10 + c);
    assert(n / 100 == a * 10 + b);
    assert(n / 1000 == a);
}

/// There are ten thousand custom ids, one for every number of four digits, and no others.
pub proof fn law_custom_ids_are_numbered(id: Seq<char>)
    ensures
        is_custom_id(id) <==> exists|n: nat| n < 10_000 && id == #[trigger] numbered_id(n),
{
    if is_custom_id(id) {
        lemma_custom_id_chars(id);
        assert('0' <= id[3] <= '9' && '0' <= id[4] <= '9' && '0' <= id[5] <= '9' && '0' <= id[6]
            <= '9');
        let a = (id[3] as nat - '0' as nat) as nat;
        let b = (id[4] as nat - '0' as nat) as nat;
        let c = (id[5] as nat - '0' as nat) as nat;
        let d = (id[6] as nat - '0' as nat) as nat;
        let n = a * 1000 + b * 100 + c * 10 + d;
        lemma_four_digits(a, b, c, d);
        assert(id =~= numbered_id(n));
    }
    if exists|n: nat| n < 10_000 && id == #[trigger] numbered_id(n) {
        let n = choose|n: nat| n < 10_000 && id == #[trigger] numbered_id(n);
        lemma_numbered_id_is_custom(n);
    }
}

proof fn lemma_numbered_id_is_custom(n: nat)
    ensures
        is_custom_id(numbered_id(n)),
{
    reveal_strlit("OG-");
    let id = numbered_id(n);
    assert(id.subrange(0, 3) =~= "OG-"@);
    assert forall|i: int| 3 <= i < 7 implies '0' <= #[trigger] id[i] <= '9' by {
        assert(i == 3 || i == 4 || i == 5 || i == 6);
    }
}

proof fn lemma_split(front: Seq<u8>, back: Seq<u8>, whole: Seq<u8>)
    ensures
        whole == front + back <==> whole.len() >= front.len() && whole.take(front.len() as int)
            == front && whole.skip(front.len() as int) == back,
{
    let n = front.len() as int;
    if whole == front + back {
        assert(whole.take(n) =~= front);
        assert(whole.skip(n) =~= back);
    }
    if whole.len() >= n {
        assert(whole =~= whole.take(n) + whole.skip(n));
    }
}

/// A message that starts with a context and reads, behind it, as exactly these fields in this
/// order.
#[verifier::opaque]
pub open spec fn reads_as(message: Seq<u8>, context: Seq<char>, fields: Seq<Seq<u8>>) -> bool {
    let n = vstd::utf8::encode_utf8(context).len() as int;
    &&& message.len() >= n
    &&& message.take(n) == vstd::utf8::encode_utf8(context)
    &&& crate::wire::fields_in(message.skip(n)) == Some(fields)
}

pub(crate) proof fn lemma_reads_as(message: Seq<u8>, context: Seq<char>, fields: Seq<Seq<u8>>)
    requires
        crate::wire::lengths_fit(fields),
    ensures
        reads_as(message, context, fields) <==> message == vstd::utf8::encode_utf8(context)
            + crate::wire::all_framed(fields),
{
    reveal(reads_as);
    let start = vstd::utf8::encode_utf8(context);
    lemma_split(start, crate::wire::all_framed(fields), message);
    crate::wire::lemma_written_and_read(message.skip(start.len() as int), fields);
}

/// A message is a payload exactly where it reads as the payload's fields.
pub(crate) proof fn lemma_message_reads_as(
    message: Option<Seq<u8>>,
    context: Seq<char>,
    fields: Seq<Seq<u8>>,
)
    requires
        crate::wire::lengths_fit(fields),
    ensures
        message == Some(vstd::utf8::encode_utf8(context) + crate::wire::all_framed(fields)) <==> (
        message matches Some(m) && reads_as(m, context, fields)),
{
    match message {
        Some(m) => {
            lemma_reads_as(m, context, fields);
        },
        None => {},
    }
}

/// What is accepted as a proof reads back: the signature of a key with 32 bytes vouches for a
/// message that starts with the context of the first form and goes on with the old id, the new id
/// and the uuid, each behind its length, in this order and with nothing else. Every such message is
/// accepted.
pub proof fn law_proof_reads_back(
    old_id: Seq<char>,
    new_id: Seq<char>,
    uuid: Seq<u8>,
    proof: Seq<u8>,
    public_key: Seq<u8>,
)
    requires
        id_fits(old_id) && id_fits(new_id) && uuid.len() < 0x1_0000_0000,
    ensures
        reads_as(
            proof_payload(old_id, new_id, uuid),
            "ongrow-rustdesk-custom-id-v1"@,
            seq![vstd::utf8::encode_utf8(old_id), vstd::utf8::encode_utf8(new_id), uuid],
        ),
        proof_payload(old_id, new_id, uuid).take(28) == vstd::utf8::encode_utf8(
            "ongrow-rustdesk-custom-id-v1"@,
        ),
        crate::wire::fields_in(proof_payload(old_id, new_id, uuid).skip(28)) == Some(
            seq![vstd::utf8::encode_utf8(old_id), vstd::utf8::encode_utf8(new_id), uuid],
        ),
        proof_valid(old_id, new_id, uuid, proof, public_key) <==> public_key.len() == 32 && (
        crate::crypto::opened(proof, public_key) matches Some(message) && reads_as(
            message,
            "ongrow-rustdesk-custom-id-v1"@,
            seq![vstd::utf8::encode_utf8(old_id), vstd::utf8::encode_utf8(new_id), uuid],
        )),
{
    let context = "ongrow-rustdesk-custom-id-v1"@;
    let fields = seq![vstd::utf8::encode_utf8(old_id), vstd::utf8::encode_utf8(new_id), uuid];
    lemma_contexts();
    assert(crate::wire::lengths_fit(fields));
    reveal(reads_as);
    lemma_reads_as(proof_payload(old_id, new_id, uuid), context, fields);
    lemma_message_reads_as(crate::crypto::opened(proof, public_key), context, fields);
}

/// The same with a nonce of 32 bytes, which is the last field, and with the context of the second
/// form.
pub proof fn law_proof_v2_reads_back(
    old_id: Seq<char>,
    new_id: Seq<char>,
    uuid: Seq<u8>,
    nonce: Seq<u8>,
    proof: Seq<u8>,
    public_key: Seq<u8>,
)
    requires
        id_fits(old_id) && id_fits(new_id) && uuid.len() < 0x1_0000_0000,
        nonce.len() < 0x1_0000_0000,
    ensures
        reads_as(
            proof_payload_v2(old_id, new_id, uuid, nonce),
            "ongrow-rustdesk-custom-id-v2"@,
            seq![vstd::utf8::encode_utf8(old_id), vstd::utf8::encode_utf8(new_id), uuid, nonce],
        ),
        proof_payload_v2(old_id, new_id, uuid, nonce).take(28) == vstd::utf8::encode_utf8(
            "ongrow-rustdesk-custom-id-v2"@,
        ),
        crate::wire::fields_in(proof_payload_v2(old_id, new_id, uuid, nonce).skip(28)) == Some(
            seq![vstd::utf8::encode_utf8(old_id), vstd::utf8::encode_utf8(new_id), uuid, nonce],
        ),
        proof_valid_v2(old_id, new_id, uuid, nonce, proof, public_key) <==> public_key.len() == 32
            && nonce.len() == 32 && (crate::crypto::opened(proof, public_key) matches Some(message)
            && reads_as(
            message,
            "ongrow-rustdesk-custom-id-v2"@,
            seq![vstd::utf8::encode_utf8(old_id), vstd::utf8::encode_utf8(new_id), uuid, nonce],
        )),
{
    let context = "ongrow-rustdesk-custom-id-v2"@;
    let fields = seq![
        vstd::utf8::encode_utf8(old_id),
        vstd::utf8::encode_utf8(new_id),
        uuid,
        nonce,
    ];
    lemma_contexts();
    assert(crate::wire::lengths_fit(fields));
    reveal(reads_as);
    lemma_reads_as(proof_payload_v2(old_id, new_id, uuid, nonce), context, fields);
    lemma_message_reads_as(crate::crypto::opened(proof, public_key), context, fields);
}

/// Exactly the ten thousand custom ids are accepted.
pub proof fn law_accepted_ids(id: &str, valid: bool)
    requires
        call_ensures(is_valid_ongrow_custom_id, (id,), valid),
    ensures
        valid <==> exists|n: nat| n < 10_000 && id@ == #[trigger] numbered_id(n),
{
    law_custom_ids_are_numbered(id@);
}

/// The payload of the first form is written so that it reads as the old id, the new id and the
/// uuid.
pub proof fn law_written_payload(old_id: &str, new_id: &str, uuid: &[u8], payload: Vec<u8>)
    requires
        call_ensures(ongrow_custom_id_proof_payload, (old_id, new_id, uuid), payload),
        id_fits(old_id@) && id_fits(new_id@) && uuid@.len() < 0x1_0000_0000,
    ensures
        reads_as(
            payload@,
            "ongrow-rustdesk-custom-id-v1"@,
            seq![vstd::utf8::encode_utf8(old_id@), vstd::utf8::encode_utf8(new_id@), uuid@],
        ),
{
    law_proof_reads_back(old_id@, new_id@, uuid@, seq![], seq![]);
}

/// The payload of the second form is written so that it reads as the old id, the new id, the uuid
/// and the nonce; it is written exactly where the nonce has 32 bytes.
pub proof fn law_written_payload_v2(
    old_id: &str,
    new_id: &str,
    uuid: &[u8],
    nonce: &[u8],
    payload: Option<Vec<u8>>,
)
    requires
        call_ensures(ongrow_custom_id_proof_payload_v2, (old_id, new_id, uuid, nonce), payload),
        id_fits(old_id@) && id_fits(new_id@) && uuid@.len() < 0x1_0000_0000,
    ensures
        payload is Some <==> nonce@.len() == 32,
        payload matches Some(bytes) ==> reads_as(
            bytes@,
            "ongrow-rustdesk-custom-id-v2"@,
            seq![vstd::utf8::encode_utf8(old_id@), vstd::utf8::encode_utf8(new_id@), uuid@, nonce@],
        ),
{
    if nonce@.len() == 32 {
        law_proof_v2_reads_back(old_id@, new_id@, uuid@, nonce@, seq![], seq![]);
    }
}

/// A proof is accepted exactly where the key has 32 bytes and its signature vouches for a message
/// that reads as the old id, the new id and the uuid.
pub proof fn law_accepted_proof(
    old_id: &str,
    new_id: &str,
    uuid: &[u8],
    proof: &[u8],
    public_key: &[u8],
    valid: bool,
)
    requires
        call_ensures(
            verify_ongrow_custom_id_proof,
            (old_id, new_id, uuid, proof, public_key),
            valid,
        ),
        id_fits(old_id@) && id_fits(new_id@) && uuid@.len() < 0x1_0000_0000,
    ensures
        valid <==> public_key@.len() == 32 && (crate::crypto::opened(
            proof@,
            public_key@,
        ) matches Some(message) && reads_as(
            message,
            "ongrow-rustdesk-custom-id-v1"@,
            seq![vstd::utf8::encode_utf8(old_id@), vstd::utf8::encode_utf8(new_id@), uuid@],
        )),
{
    law_proof_reads_back(old_id@, new_id@, uuid@, proof@, public_key@);
}

/// The same for the second form: with a nonce of 32 bytes as the last field.
pub proof fn law_accepted_proof_v2(
    old_id: &str,
    new_id: &str,
    uuid: &[u8],
    nonce: &[u8],
    proof: &[u8],
    public_key: &[u8],
    valid: bool,
)
    requires
        call_ensures(
            verify_ongrow_custom_id_proof_v2,
            (old_id, new_id, uuid, nonce, proof, public_key),
            valid,
        ),
        id_fits(old_id@) && id_fits(new_id@) && uuid@.len() < 0x1_0000_0000,
    ensures
        valid <==> public_key@.len() == 32 && nonce@.len() == 32 && (crate::crypto::opened(
            proof@,
            public_key@,
        ) matches Some(message) && reads_as(
            message,
            "ongrow-rustdesk-custom-id-v2"@,
            seq![vstd::utf8::encode_utf8(old_id@), vstd::utf8::encode_utf8(new_id@), uuid@, nonce@],
        )),
{
    if nonce@.len() == 32 {
        law_proof_v2_reads_back(old_id@, new_id@, uuid@, nonce@, proof@, public_key@);
    }
}

/// What is signed for a change, whatever the lengths: the context, and then the fields.
pub proof fn law_payloads_of_any_length(
    old_id: Seq<char>,
    new_id: Seq<char>,
    uuid: Seq<u8>,
    nonce: Seq<u8>,
)
    ensures
        proof_payload(old_id, new_id, uuid) == vstd::utf8::encode_utf8(
            "ongrow-rustdesk-custom-id-v1"@,
        ) + crate::wire::framed(vstd::utf8::encode_utf8(old_id)) + crate::wire::framed(
            vstd::utf8::encode_utf8(new_id),
        ) + crate::wire::framed(uuid),
        proof_payload_v2(old_id, new_id, uuid, nonce) == vstd::utf8::encode_utf8(
            "ongrow-rustdesk-custom-id-v2"@,
        ) + crate::wire::framed(vstd::utf8::encode_utf8(old_id)) + crate::wire::framed(
            vstd::utf8::encode_utf8(new_id),
        ) + crate::wire::framed(uuid) + crate::wire::framed(nonce),
{
    let a = vstd::utf8::encode_utf8(old_id);
    let b = vstd::utf8::encode_utf8(new_id);
    crate::wire::lemma_three_fields(a, b, uuid);
    crate::wire::lemma_four_fields(a, b, uuid, nonce);
    assert(proof_payload(old_id, new_id, uuid) =~= custom_id_context_v1() + crate::wire::framed(a)
        + crate::wire::framed(b) + crate::wire::framed(uuid));
    assert(proof_payload_v2(old_id, new_id, uuid, nonce) =~= custom_id_context_v2()
        + crate::wire::framed(a) + crate::wire::framed(b) + crate::wire::framed(uuid)
        + crate::wire::framed(nonce));
}

/// A message is accepted as an opened proof exactly where it is there and is the payload.
pub proof fn law_opened_messages(
    message: &Option<Vec<u8>>,
    expected: &[u8],
    same: bool,
    old_id: &str,
    new_id: &str,
    uuid: &[u8],
    asks: bool,
    nonce: &[u8],
    asks_v2: bool,
)
    requires
        call_ensures(message_is, (message, expected), same),
        call_ensures(message_asks_for_change, (message, old_id, new_id, uuid), asks),
        call_ensures(message_asks_for_change_v2, (message, old_id, new_id, uuid, nonce), asks_v2),
    ensures
        same <==> (message matches Some(m) && m@ == expected@),
        asks <==> (message matches Some(m) && m@ == proof_payload(old_id@, new_id@, uuid@)),
        asks_v2 <==> nonce@.len() == 32 && (message matches Some(m) && m@ == proof_payload_v2(
            old_id@,
            new_id@,
            uuid@,
            nonce@,
        )),
{
}

} // verus!
