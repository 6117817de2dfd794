//! The order of texts by their UTF-8 bytes.

use vstd::prelude::*;
use vstd::utf8::encode_utf8;

verus! {

/// Whether `a` stands strictly before `b` in the lexicographic order of byte
/// strings.
pub open spec fn bytes_before(a: Seq<u8>, b: Seq<u8>) -> bool
    decreases a.len(),
{
    if b.len() == 0 {
        false
    } else if a.len() == 0 {
        true
    } else if a[0] != b[0] {
        a[0] < b[0]
    } else {
        bytes_before(a.drop_first(), b.drop_first())
    }
}

/// Whether the text `a` stands strictly before the text `b`, both taken by
/// their UTF-8 bytes.
pub open spec fn text_before(a: Seq<char>, b: Seq<char>) -> bool {
    bytes_before(encode_utf8(a), encode_utf8(b))
}

proof fn lemma_bytes_before_irreflexive(a: Seq<u8>)
    ensures
        !bytes_before(a, a),
    decreases a.len(),
{
    if a.len() > 0 {
        lemma_bytes_before_irreflexive(a.drop_first());
    }
}

proof fn lemma_bytes_before_transitive(a: Seq<u8>, b: Seq<u8>, c: Seq<u8>)
    requires
        bytes_before(a, b),
        bytes_before(b, c),
    ensures
        bytes_before(a, c),
    decreases a.len(),
{
    if a.len() > 0 && a[0] == b[0] && b[0] == c[0] {
        lemma_bytes_before_transitive(a.drop_first(), b.drop_first(), c.drop_first());
    }
}

proof fn lemma_bytes_before_total(a: Seq<u8>, b: Seq<u8>)
    ensures
        a == b || bytes_before(a, b) || bytes_before(b, a),
    decreases a.len(),
{
    if a.len() == 0 {
        if b.len() == 0 {
            assert(a =~= b);
        }
    } else if b.len() > 0 && a[0] == b[0] {
        lemma_bytes_before_total(a.drop_first(), b.drop_first());
        if a.drop_first() == b.drop_first() {
            assert(a =~= seq![a[0]] + a.drop_first());
            assert(b =~= seq![b[0]] + b.drop_first());
        }
    }
}

/// The order of texts is a strict total order: no text stands before itself.
pub proof fn law_text_order_irreflexive(a: Seq<char>)
    ensures
        !text_before(a, a),
{
    lemma_bytes_before_irreflexive(encode_utf8(a));
}

/// The order of texts is a strict total order: it is transitive.
pub proof fn law_text_order_transitive(a: Seq<char>, b: Seq<char>, c: Seq<char>)
    requires
        text_before(a, b),
        text_before(b, c),
    ensures
        text_before(a, c),
{
    lemma_bytes_before_transitive(encode_utf8(a), encode_utf8(b), encode_utf8(c));
}

/// The order of texts is a strict total order: of two different texts one
/// stands before the other, and not both.
pub proof fn law_text_order_total(a: Seq<char>, b: Seq<char>)
    ensures
        a != b <==> (text_before(a, b) || text_before(b, a)),
        !(text_before(a, b) && text_before(b, a)),
{
    lemma_bytes_before_irreflexive(encode_utf8(a));
    lemma_bytes_before_total(encode_utf8(a), encode_utf8(b));
    if encode_utf8(a) == encode_utf8(b) {
        vstd::utf8::encode_utf8_decode_utf8(a);
        vstd::utf8::encode_utf8_decode_utf8(b);
    }
    if text_before(a, b) && text_before(b, a) {
        lemma_bytes_before_transitive(encode_utf8(a), encode_utf8(b), encode_utf8(a));
    }
}

/// Whether the text `a` stands strictly before the text `b`.
pub fn is_text_before(a: &str, b: &str) -> (before: bool)
    ensures
        before == text_before(a@, b@),
{
    let left = a.as_bytes();
    let right = b.as_bytes();
    let mut i: usize = 0;
    assert(left@.skip(0) =~= left@);
    assert(right@.skip(0) =~= right@);
    while i < left.len() && i < right.len() && left[i] == right[i]
        invariant
            i <= left@.len(),
            i <= right@.len(),
            bytes_before(left@, right@) == bytes_before(left@.skip(i as int), right@.skip(i as int)),
        decreases left@.len() - i,
    {
        assert(left@.skip(i as int).drop_first() =~= left@.skip(i + 1));
        assert(right@.skip(i as int).drop_first() =~= right@.skip(i + 1));
        i += 1;
    }
    if i >= right.len() {
        false
    } else if i >= left.len() {
        true
    } else {
        left[i] < right[i]
    }
}

/// The first byte in which two byte strings differ decides, whatever follows
/// it; and what only goes on longer stands behind.
pub proof fn law_first_difference_decides(
    shared: Seq<u8>,
    x: u8,
    behind_x: Seq<u8>,
    y: u8,
    behind_y: Seq<u8>,
)
    ensures
        x != y ==> (bytes_before(
            shared + seq![x] + behind_x,
            shared + seq![y] + behind_y,
        ) <==> x < y),
        bytes_before(shared, shared + seq![x] + behind_x),
        !bytes_before(shared + seq![x] + behind_x, shared),
    decreases shared.len(),
{
    let a = shared + seq![x] + behind_x;
    let b = shared + seq![y] + behind_y;
    if shared.len() > 0 {
        let rest = shared.drop_first();
        law_first_difference_decides(rest, x, behind_x, y, behind_y);
        assert(a.drop_first() =~= rest + seq![x] + behind_x);
        assert(b.drop_first() =~= rest + seq![y] + behind_y);
    }
}

/// Texts stand in the order of their bytes.
pub proof fn law_texts_stand_by_bytes(
    a: Seq<char>,
    b: Seq<char>,
    shared: Seq<u8>,
    x: u8,
    behind_x: Seq<u8>,
    y: u8,
    behind_y: Seq<u8>,
)
    requires
        encode_utf8(a) == shared + seq![x] + behind_x,
        encode_utf8(b) == shared + seq![y] + behind_y || encode_utf8(b) == shared,
        x != y,
    ensures
        encode_utf8(b) == shared ==> text_before(b, a) && !text_before(a, b),
        encode_utf8(b) != shared ==> (text_before(a, b) <==> x < y),
        encode_utf8(b) != shared ==> (text_before(b, a) <==> y < x),
{
    law_first_difference_decides(shared, x, behind_x, y, behind_y);
    law_first_difference_decides(shared, y, behind_y, x, behind_x);
}

} // verus!
