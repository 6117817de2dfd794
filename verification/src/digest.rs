//! BLAKE3 digests: of whole messages, of messages under a domain prefix, and
//! of data that arrives in chunks.

use crate::json::{
    canonical, canonical_json_value, is_said, json_of, json_text, keys_ascend_throughout,
    keys_distinct_throughout, law_canonical_ignores_order, law_ordered_is_canonical, no_fractions,
    same_up_to_order, value_to_vec, Json,
};
use crate::text::concat3;
use vstd::prelude::*;
use vstd::utf8::encode_utf8;

verus! {

/// The incremental hasher of `blake3`.
#[verifier::external_type_specification]
#[verifier::external_body]
pub struct ExHasher(blake3::Hasher);

/// The bytes that a hasher has taken in, in order.
pub uninterp spec fn absorbed(hasher: blake3::Hasher) -> Seq<u8>;

/// Whether a hasher computes the regular hash, neither keyed nor for key
/// derivation, from the start of its input.
pub uninterp spec fn is_regular(hasher: blake3::Hasher) -> bool;

/// The BLAKE3 hash of a message.
pub uninterp spec fn blake3_digest(message: Seq<u8>) -> Seq<u8>;

/// The lowercase hexadecimal digit of a number below sixteen.
pub open spec fn hex_digit(n: int) -> char {
    if n < 10 {
        (n + 48) as char
    } else {
        (n + 87) as char
    }
}

/// The two lowercase hexadecimal digits of each byte, in order.
pub open spec fn hex_text(bytes: Seq<u8>) -> Seq<char> {
    Seq::new(
        2 * bytes.len(),
        |i: int|
            if i % 2 == 0 {
                hex_digit(bytes[i / 2] as int / 16)
            } else {
                hex_digit(bytes[i / 2] as int % 16)
            },
    )
}

/// Whether a character is a lowercase hexadecimal digit.
pub open spec fn is_lower_hex(c: char) -> bool {
    ('0' <= c && c <= '9') || ('a' <= c && c <= 'f')
}

/// Whether a text is a digest in hexadecimal: sixty-four lowercase digits.
pub open spec fn is_digest_text(text: Seq<char>) -> bool {
    text.len() == 64 && forall|i: int| 0 <= i < text.len() ==> is_lower_hex(#[trigger] text[i])
}

/// Calls `blake3::Hasher::new`. Trusted: it gives a regular hasher that has
/// taken in nothing.
#[verifier::external_body]
fn hasher_new() -> (hasher: blake3::Hasher)
    ensures
        is_regular(hasher),
        absorbed(hasher) == Seq::<u8>::empty(),
{
    blake3::Hasher::new()
}

/// Calls `blake3::Hasher::update`. Trusted: the hasher then has taken in the
/// input behind what it had taken in before. The hasher counts its input in
/// 64 bits.
#[verifier::external_body]
fn hasher_update(hasher: &mut blake3::Hasher, input: &[u8])
    requires
        is_regular(*old(hasher)),
        absorbed(*old(hasher)).len() + input@.len() <= u64::MAX,
    ensures
        is_regular(*final(hasher)),
        absorbed(*final(hasher)) == absorbed(*old(hasher)) + input@,
{
    hasher.update(input);
}

/// Calls `blake3::Hasher::finalize`. Trusted: the hash is thirty-two bytes
/// long and depends on the bytes taken in alone, not on how they were cut.
#[verifier::external_body]
fn hasher_finalize(hasher: &blake3::Hasher) -> (digest: [u8; 32])
    requires
        is_regular(*hasher),
    ensures
        digest@ == blake3_digest(absorbed(*hasher)),
{
    *hasher.finalize().as_bytes()
}

/// Calls `blake3::Hash::to_hex`. Trusted: it writes each byte as two lowercase
/// hexadecimal digits, the higher one first.
#[verifier::external_body]
fn digest_to_hex(digest: [u8; 32]) -> (text: String)
    ensures
        text@ == hex_text(digest@),
{
    blake3::Hash::from_bytes(digest).to_hex().to_string()
}

/// The hexadecimal digits of thirty-two bytes are a digest text.
proof fn lemma_hex_text_is_digest_text(digest: Seq<u8>)
    requires
        digest.len() == 32,
    ensures
        is_digest_text(hex_text(digest)),
{
    let text = hex_text(digest);
    assert forall|i: int| 0 <= i < text.len() implies is_lower_hex(#[trigger] text[i]) by {
        let b = digest[i / 2] as int;
        assert(0 <= b / 16 < 16);
        assert(0 <= b % 16 < 16);
    }
}

/// The digest of a message, in hexadecimal.
pub open spec fn digest_text(message: Seq<u8>) -> Seq<char> {
    hex_text(blake3_digest(message))
}

/// The digest of data that arrives in chunks.
pub struct StreamDigest {
    hasher: blake3::Hasher,
}

impl View for StreamDigest {
    type V = Seq<u8>;

    /// The data so far.
    closed spec fn view(&self) -> Seq<u8> {
        absorbed(self.hasher)
    }
}

impl StreamDigest {
    #[verifier::type_invariant]
    spec fn regular(self) -> bool {
        is_regular(self.hasher)
    }

    /// The digest before any data.
    pub fn new() -> (digest: StreamDigest)
        ensures
            digest@ == Seq::<u8>::empty(),
    {
        StreamDigest { hasher: hasher_new() }
    }

    /// Takes in the next chunk.
    pub fn update(self, chunk: &[u8]) -> (next: StreamDigest)
        requires
            self@.len() + chunk@.len() <= u64::MAX,
        ensures
            next@ == self@ + chunk@,
    {
        proof {
            use_type_invariant(&self);
        }
        let mut hasher = self.hasher;
        hasher_update(&mut hasher, chunk);
        StreamDigest { hasher }
    }

    /// The digest of the data so far, in hexadecimal.
    pub fn to_hex(&self) -> (text: String)
        ensures
            text@ == digest_text(self@),
            is_digest_text(text@),
    {
        proof {
            use_type_invariant(self);
        }
        let digest = hasher_finalize(&self.hasher);
        proof {
            lemma_hex_text_is_digest_text(digest@);
        }
        digest_to_hex(digest)
    }
}

/// The digest of a message, in hexadecimal.
fn message_digest(message: &[u8]) -> (text: String)
    ensures
        text@ == digest_text(message@),
        is_digest_text(text@),
{
    let length: usize = message.len();
    assert(message@.len() == length);
    let digest = StreamDigest::new().update(message);
    assert(digest@ =~= message@);
    digest.to_hex()
}

// ---------------------------------------------------------------------------
// Messages under a domain prefix
// ---------------------------------------------------------------------------

/// The message that is hashed for `body` in the domain `prefix`: the prefix, a
/// zero byte, then the body.
pub open spec fn domain_message(prefix: Seq<char>, body: Seq<u8>) -> Seq<u8> {
    encode_utf8(prefix) + seq![0u8] + body
}

/// Whether the UTF-8 bytes of a text hold no zero byte.
pub open spec fn is_zero_free(text: Seq<char>) -> bool {
    forall|i: int| 0 <= i < encode_utf8(text).len() ==> #[trigger] encode_utf8(text)[i] != 0
}

/// Domains do not overlap: with prefixes free of zero bytes, one message comes
/// of one prefix and one body alone.
pub proof fn law_domain_messages_are_apart(
    p: Seq<char>,
    a: Seq<u8>,
    q: Seq<char>,
    b: Seq<u8>,
)
    requires
        is_zero_free(p),
        is_zero_free(q),
        domain_message(p, a) == domain_message(q, b),
    ensures
        p == q,
        a == b,
{
    let m = domain_message(p, a);
    let x = encode_utf8(p);
    let y = encode_utf8(q);
    assert(m[x.len() as int] == 0);
    assert(m[y.len() as int] == 0);
    if x.len() < y.len() {
        assert(m[x.len() as int] == y[x.len() as int]);
    }
    if y.len() < x.len() {
        assert(m[y.len() as int] == x[y.len() as int]);
    }
    assert(x =~= m.take(x.len() as int));
    assert(y =~= m.take(x.len() as int));
    assert(a =~= m.skip(x.len() as int + 1));
    assert(b =~= m.skip(x.len() as int + 1));
    vstd::utf8::encode_utf8_decode_utf8(p);
    vstd::utf8::encode_utf8_decode_utf8(q);
}

/// The digest of `body` in the domain `prefix`, in hexadecimal.
pub fn domain_digest(prefix: &str, body: &[u8]) -> (text: String)
    ensures
        text@ == digest_text(domain_message(prefix@, body@)),
        is_digest_text(text@),
{
    let mut message: Vec<u8> = Vec::new();
    message.extend_from_slice(prefix.as_bytes());
    message.push(0);
    message.extend_from_slice(body);
    assert(message@ =~= domain_message(prefix@, body@));
    message_digest(message.as_slice())
}

/// The identifier that a domain and a digest make: the domain, a dash and the
/// digest.
pub open spec fn identifier_text(prefix: Seq<char>, digest: Seq<char>) -> Seq<char> {
    prefix + seq!['-'] + digest
}

/// The identifier that a domain and a digest make.
pub fn identifier(prefix: &str, digest: &str) -> (id: String)
    ensures
        id@ == identifier_text(prefix@, digest@),
{
    proof {
        reveal_strlit("-");
        assert("-"@ =~= seq!['-']);
    }
    concat3(prefix, "-", digest)
}

/// What is hashed for a JSON value in the domain `prefix`.
pub open spec fn canonical_message(prefix: Seq<char>, json: Json) -> Seq<u8> {
    domain_message(prefix, json_text(canonical(json)))
}

/// The identifier of a JSON value in the domain `prefix`: the prefix, a dash
/// and the digest of the canonical form.
pub open spec fn canonical_id(prefix: Seq<char>, json: Json) -> Seq<char> {
    identifier_text(prefix, digest_text(canonical_message(prefix, json)))
}

/// Whether a text is an identifier in the domain `prefix`.
pub open spec fn is_identifier(prefix: Seq<char>, id: Seq<char>) -> bool {
    &&& id.len() == prefix.len() + 65
    &&& id.take(prefix.len() as int + 1) == prefix + seq!['-']
    &&& is_digest_text(id.skip(prefix.len() as int + 1))
}

/// The identifier of a JSON value in the domain `prefix`. Short of a
/// collision, it tells the value from every other, where neither has fractions
/// in it.
pub fn canonical_blake3(prefix: &str, value: serde_json::Value) -> (id: String)
    ensures
        id@ == canonical_id(prefix@, json_of(value)),
        is_identifier(prefix@, id@),
        keys_ascend_throughout(json_of(value)),
        no_fractions(json_of(value)) ==> forall|other: Json|
            is_said(canonical(other)) && no_fractions(canonical(other)) && no_collision(
                canonical_message(prefix@, json_of(value)),
                canonical_message(prefix@, other),
            ) ==> (id@ == #[trigger] canonical_id(prefix@, other) <==> canonical(other) == json_of(
                value,
            )),
{
    let ghost json = json_of(value);
    let ordered = canonical_json_value(value);
    let encoded: Vec<u8> = match value_to_vec(&ordered) {
        Some(encoded) => encoded,
        None => Vec::new(),
    };
    let digest = domain_digest(prefix, encoded.as_slice());
    let id = identifier(prefix, digest.as_str());
    proof {
        assert(id@.take(prefix@.len() as int + 1) =~= prefix@ + seq!['-']);
        assert(id@.skip(prefix@.len() as int + 1) =~= digest@);
        assert forall|other: Json|
            no_fractions(json) && is_said(canonical(other)) && no_fractions(canonical(other))
                && no_collision(
                canonical_message(prefix@, json),
                canonical_message(prefix@, other),
            ) implies (id@ == #[trigger] canonical_id(prefix@, other) <==> canonical(other)
            == json) by {
            law_canonical_id_tells_texts_apart(prefix@, json, other);
            let said = choose|said: serde_json::Value| #[trigger] json_of(said) == canonical(other);
            assert(json_of(said) == canonical(other));
        }
    }
    id
}

/// The identifier does not depend on the order in which the members of an
/// object stand.
pub proof fn law_canonical_id_ignores_order(prefix: Seq<char>, a: Json, b: Json)
    requires
        keys_distinct_throughout(a),
        keys_distinct_throughout(b),
        same_up_to_order(a, b),
    ensures
        canonical_id(prefix, a) == canonical_id(prefix, b),
{
    law_canonical_ignores_order(a, b);
}

/// Whether the hash has no collision on two messages.
pub open spec fn no_collision(a: Seq<u8>, b: Seq<u8>) -> bool {
    blake3_digest(a) == blake3_digest(b) ==> a == b
}

/// Hexadecimal digits tell the bytes apart that they stand for.
proof fn lemma_hex_text_tells_apart(a: Seq<u8>, b: Seq<u8>)
    requires
        hex_text(a) == hex_text(b),
    ensures
        a == b,
{
    assert(hex_text(a).len() == 2 * a.len());
    assert(hex_text(b).len() == 2 * b.len());
    assert forall|k: int| 0 <= k < a.len() implies a[k] == b[k] by {
        assert((2 * k) / 2 == k && (2 * k) % 2 == 0);
        assert((2 * k + 1) / 2 == k && (2 * k + 1) % 2 == 1);
        assert(hex_text(a)[2 * k] == hex_digit(a[k] as int / 16));
        assert(hex_text(b)[2 * k] == hex_digit(b[k] as int / 16));
        assert(hex_text(a)[2 * k + 1] == hex_digit(a[k] as int % 16));
        assert(hex_text(b)[2 * k + 1] == hex_digit(b[k] as int % 16));
    }
    assert(a =~= b);
}

/// Short of a collision, a digest text tells the message that it stands for
/// from another.
pub proof fn law_digest_tells_messages_apart(a: Seq<u8>, b: Seq<u8>)
    requires
        no_collision(a, b),
    ensures
        digest_text(a) == digest_text(b) <==> a == b,
{
    if digest_text(a) == digest_text(b) {
        lemma_hex_text_tells_apart(blake3_digest(a), blake3_digest(b));
    }
}

/// Short of a collision, the digests of one domain tell bodies apart.
pub proof fn law_domain_digest_tells_bodies_apart(prefix: Seq<char>, a: Seq<u8>, b: Seq<u8>)
    requires
        no_collision(domain_message(prefix, a), domain_message(prefix, b)),
    ensures
        digest_text(domain_message(prefix, a)) == digest_text(domain_message(prefix, b)) <==> a
            == b,
{
    let m = domain_message(prefix, a);
    let n = domain_message(prefix, b);
    law_digest_tells_messages_apart(m, n);
    if m == n {
        let front = encode_utf8(prefix).len() as int + 1;
        assert(a =~= m.skip(front));
        assert(b =~= n.skip(front));
    }
}

/// Short of a collision, the identifiers of two JSON values in one domain are
/// the same if the texts of their canonical forms are, and only then.
pub proof fn law_canonical_id_tells_texts_apart(prefix: Seq<char>, a: Json, b: Json)
    requires
        no_collision(canonical_message(prefix, a), canonical_message(prefix, b)),
    ensures
        canonical_id(prefix, a) == canonical_id(prefix, b) <==> json_text(canonical(a))
            == json_text(canonical(b)),
{
    let x = digest_text(canonical_message(prefix, a));
    let y = digest_text(canonical_message(prefix, b));
    law_domain_digest_tells_bodies_apart(
        prefix,
        json_text(canonical(a)),
        json_text(canonical(b)),
    );
    if canonical_id(prefix, a) == canonical_id(prefix, b) {
        let front = prefix.len() as int + 1;
        assert(x =~= canonical_id(prefix, a).skip(front));
        assert(y =~= canonical_id(prefix, b).skip(front));
    }
}

/// The number that a hexadecimal digit stands for.
pub open spec fn digit_value(c: char) -> int {
    if '0' <= c && c <= '9' {
        c as int - '0' as int
    } else {
        c as int - 'a' as int + 10
    }
}

/// A digest text spells the hash of the very message: two lowercase
/// hexadecimal digits for each byte, the higher one first.
pub proof fn law_digest_text_spells_hash(message: Seq<u8>, i: int)
    requires
        0 <= i < blake3_digest(message).len(),
    ensures
        digest_text(message).len() == 2 * blake3_digest(message).len(),
        "0123456789abcdef"@.contains(digest_text(message)[2 * i]),
        "0123456789abcdef"@.contains(digest_text(message)[2 * i + 1]),
        digit_value(digest_text(message)[2 * i]) * 16 + digit_value(digest_text(message)[2 * i + 1])
            == blake3_digest(message)[i],
{
    reveal_strlit("0123456789abcdef");
    let b = blake3_digest(message)[i] as int;
    let text = digest_text(message);
    assert((2 * i) / 2 == i && (2 * i) % 2 == 0);
    assert((2 * i + 1) / 2 == i && (2 * i + 1) % 2 == 1);
    assert(text[2 * i] == hex_digit(b / 16));
    assert(text[2 * i + 1] == hex_digit(b % 16));
    assert("0123456789abcdef"@[b / 16] == hex_digit(b / 16));
    assert("0123456789abcdef"@[b % 16] == hex_digit(b % 16));
}

/// What is hashed in a domain is the domain, one zero byte and the body, with
/// nothing between, before or behind.
pub proof fn law_domain_message_layout(prefix: Seq<char>, body: Seq<u8>)
    ensures
        domain_message(prefix, body).len() == encode_utf8(prefix).len() + 1 + body.len(),
        domain_message(prefix, body).take(encode_utf8(prefix).len() as int) == encode_utf8(prefix),
        domain_message(prefix, body)[encode_utf8(prefix).len() as int] == 0,
        domain_message(prefix, body).skip(encode_utf8(prefix).len() as int + 1) == body,
{
    let n = encode_utf8(prefix).len() as int;
    assert(domain_message(prefix, body).take(n) =~= encode_utf8(prefix));
    assert(domain_message(prefix, body).skip(n + 1) =~= body);
}

/// An identifier is the domain, a dash and the digits.
pub proof fn law_identifier_layout(prefix: Seq<char>, digest: Seq<char>)
    ensures
        identifier_text(prefix, digest) == prefix + "-"@ + digest,
{
    reveal_strlit("-");
    assert("-"@ =~= seq!['-']);
}

/// The identifier of a JSON value whose members stand in key order spells the
/// hash of the domain, a zero byte and the value's own text.
pub proof fn law_identifier_hashes_the_text(prefix: Seq<char>, json: Json)
    requires
        keys_ascend_throughout(json),
    ensures
        canonical_id(prefix, json) == prefix + "-"@ + digest_text(
            encode_utf8(prefix) + seq![0u8] + json_text(json),
        ),
{
    law_ordered_is_canonical(json);
    law_identifier_layout(prefix, digest_text(domain_message(prefix, json_text(json))));
    assert(domain_message(prefix, json_text(json)) =~= encode_utf8(prefix) + seq![0u8] + json_text(
        json,
    ));
}

} // verus!
