//! The paths of blobs within the store.

use crate::digest::{is_digest_text, is_lower_hex};
use crate::layout::{RAW_MIRROR_BLOB_EXTENSION, RAW_MIRROR_HASH_ALGORITHM};
use crate::path::{
    is_within, joined, law_join_adds_plain_name, law_join_concatenates_parts,
    law_plain_name_is_one_part, lemma_ascii_plain_name, lemma_ends_without_slash,
    lemma_slash_joins, path_parts, Part,
};
use crate::text::{ascii_lowercase, lower_char, lower_text};
use vstd::prelude::*;
use vstd::utf8::{encode_utf8, is_ascii_chars};

verus! {

/// Whether a character is a hexadecimal digit, in either case.
pub open spec fn is_hex(c: char) -> bool {
    ('0' <= c && c <= '9') || ('a' <= c && c <= 'f') || ('A' <= c && c <= 'F')
}

/// Whether a text names a blob: sixty-four hexadecimal digits.
pub open spec fn is_blob_name(text: Seq<char>) -> bool {
    text.len() == 64 && forall|i: int| 0 <= i < text.len() ==> is_hex(#[trigger] text[i])
}

/// The path, relative to the store, of the blob with the given name.
pub open spec fn blob_path(name: Seq<char>) -> Seq<char> {
    let lower = lower_text(name);
    "blobs/"@ + RAW_MIRROR_HASH_ALGORITHM@ + "/"@ + lower.take(2) + "/"@ + lower + "."@
        + RAW_MIRROR_BLOB_EXTENSION@
}

/// Whether a byte is a hexadecimal digit.
fn is_hex_byte(b: u8) -> (hex: bool)
    ensures
        hex == is_hex(b as char),
{
    (48 <= b && b <= 57) || (97 <= b && b <= 102) || (65 <= b && b <= 70)
}

/// Whether a text names a blob.
fn names_blob(text: &str) -> (names: bool)
    ensures
        names == is_blob_name(text@),
{
    if !text.is_ascii() {
        proof {
            if is_blob_name(text@) {
                assert forall|i: int| 0 <= i < text@.len() implies '\0' <= #[trigger] text@[i]
                    <= '\u{7f}' by {
                    assert(is_hex(text@[i]));
                }
                assert(is_ascii_chars(text@));
            }
        }
        return false;
    }
    let bytes = text.as_bytes();
    proof {
        vstd::utf8::is_ascii_chars_encode_utf8(text@);
    }
    if bytes.len() != 64 {
        return false;
    }
    let mut i: usize = 0;
    while i < 64
        invariant
            i <= 64,
            bytes@.len() == 64,
            text@.len() == 64,
            is_ascii_chars(text@),
            bytes@ == encode_utf8(text@),
            forall|k: int| 0 <= k < i ==> is_hex(#[trigger] text@[k]),
        decreases 64 - i,
    {
        proof {
            vstd::utf8::is_ascii_chars_encode_utf8(text@);
            assert(text@[i as int] as u8 == bytes@[i as int]);
            assert('\0' <= text@[i as int] <= '\u{7f}');
            assert(bytes@[i as int] as char == text@[i as int]);
        }
        if !is_hex_byte(bytes[i]) {
            return false;
        }
        i += 1;
    }
    true
}

/// The path of a blob, relative to the store; none where the name is not
/// sixty-four hexadecimal digits. Capital digits are made small.
pub fn raw_mirror_blob_relative_path(blob_blake3: &str) -> (path: Option<String>)
    ensures
        path is Some <==> is_blob_name(blob_blake3@),
        path is Some ==> path->0@ == blob_path(blob_blake3@),
{
    if !names_blob(blob_blake3) {
        return None;
    }
    let lower = ascii_lowercase(blob_blake3);
    proof {
        lemma_lower_blob_name(blob_blake3@);
    }
    let head = lower.as_str().substring_ascii(0, 2);
    let mut path = "blobs/".to_owned();
    path.append(RAW_MIRROR_HASH_ALGORITHM);
    path.append("/");
    path.append(head);
    path.append("/");
    path.append(lower.as_str());
    path.append(".");
    path.append(RAW_MIRROR_BLOB_EXTENSION);
    assert(head@ =~= lower@.take(2));
    Some(path)
}

/// In small letters, a blob name is a digest in hexadecimal.
proof fn lemma_lower_blob_name(name: Seq<char>)
    requires
        is_blob_name(name),
    ensures
        is_digest_text(lower_text(name)),
        is_ascii_chars(lower_text(name)),
{
    let lower = lower_text(name);
    assert forall|i: int| 0 <= i < lower.len() implies is_lower_hex(#[trigger] lower[i]) by {
        assert(is_hex(name[i]));
        assert(lower[i] == lower_char(name[i]));
    }
    assert forall|i: int| 0 <= i < lower.len() implies '\0' <= #[trigger] lower[i]
        <= '\u{7f}' by {
        assert(is_lower_hex(lower[i]));
    }
}

/// Every digest in hexadecimal names a blob, and stands in the path as it is.
pub proof fn law_digest_names_blob(digest: Seq<char>)
    requires
        is_digest_text(digest),
    ensures
        is_blob_name(digest),
        lower_text(digest) == digest,
{
    assert forall|i: int| 0 <= i < digest.len() implies is_hex(#[trigger] digest[i]) by {
        assert(is_lower_hex(digest[i]));
    }
    assert forall|i: int| 0 <= i < digest.len() implies lower_text(digest)[i] == digest[i] by {
        assert(is_lower_hex(digest[i]));
    }
    assert(lower_text(digest) =~= digest);
}

/// Two names give one path exactly where they differ in case alone.
pub proof fn law_blob_paths_are_apart(a: Seq<char>, b: Seq<char>)
    requires
        is_blob_name(a),
        is_blob_name(b),
    ensures
        blob_path(a) == blob_path(b) <==> lower_text(a) == lower_text(b),
{
    let front = "blobs/"@ + RAW_MIRROR_HASH_ALGORITHM@ + "/"@;
    let k = front.len() as int + 2 + "/"@.len() as int;
    assert(blob_path(a).subrange(k, k + 64) =~= lower_text(a));
    assert(blob_path(b).subrange(k, k + 64) =~= lower_text(b));
}

/// The components of a blob's path: the blob directory, the hash, the first
/// two digits, then the digits with the extension.
pub open spec fn blob_parts(name: Seq<char>) -> Seq<Part> {
    let lower = lower_text(name);
    seq![
        Part::Normal(encode_utf8("blobs"@)),
        Part::Normal(encode_utf8(RAW_MIRROR_HASH_ALGORITHM@)),
        Part::Normal(encode_utf8(lower.take(2))),
        Part::Normal(encode_utf8(lower + "."@ + RAW_MIRROR_BLOB_EXTENSION@)),
    ]
}

/// The path of a blob has the components that [`blob_parts`] lists.
pub proof fn law_blob_path_parts(name: Seq<char>)
    requires
        is_blob_name(name),
    ensures
        path_parts(encode_utf8(blob_path(name))) == blob_parts(name),
{
    let lower = lower_text(name);
    let a = "blobs"@;
    let b = RAW_MIRROR_HASH_ALGORITHM@;
    let c = lower.take(2);
    let d = lower + "."@ + RAW_MIRROR_BLOB_EXTENSION@;
    reveal_strlit("blobs");
    reveal_strlit("blobs/");
    reveal_strlit("blake3");
    reveal_strlit("/");
    reveal_strlit(".");
    reveal_strlit("raw");
    lemma_lower_blob_name(name);
    assert forall|i: int| 0 <= i < 2 implies is_lower_hex(#[trigger] c[i]) by {
        assert(is_lower_hex(lower[i]));
    }
    assert forall|i: int| 0 <= i < 64 implies is_lower_hex(#[trigger] d[i]) by {
        assert(is_lower_hex(lower[i]));
    }
    lemma_ascii_plain_name(a);
    lemma_ascii_plain_name(b);
    lemma_ascii_plain_name(c);
    lemma_ascii_plain_name(d);
    let ab = a + "/"@ + b;
    let abc = ab + "/"@ + c;
    let abcd = abc + "/"@ + d;
    lemma_ends_without_slash(a);
    lemma_slash_joins(a, b);
    lemma_ends_without_slash(ab);
    lemma_slash_joins(ab, c);
    lemma_ends_without_slash(abc);
    lemma_slash_joins(abc, d);
    law_plain_name_is_one_part(encode_utf8(a));
    law_join_adds_plain_name(encode_utf8(a), encode_utf8(b));
    law_join_adds_plain_name(encode_utf8(ab), encode_utf8(c));
    law_join_adds_plain_name(encode_utf8(abc), encode_utf8(d));
    assert(abcd =~= blob_path(name));
    assert(path_parts(encode_utf8(abcd)) =~= blob_parts(name));
}

/// A blob lies within the store, wherever that is.
pub proof fn law_blob_lies_in_store(root: Seq<u8>, name: Seq<char>)
    requires
        is_blob_name(name),
    ensures
        path_parts(joined(root, encode_utf8(blob_path(name)))) == path_parts(root) + blob_parts(
            name,
        ),
        is_within(path_parts(joined(root, encode_utf8(blob_path(name)))), path_parts(root)),
{
    let rel = encode_utf8(blob_path(name));
    law_blob_path_parts(name);
    assert(path_parts(rel)[0] == Part::Normal(encode_utf8("blobs"@)));
    law_join_concatenates_parts(root, rel);
    assert((path_parts(root) + blob_parts(name)).take(path_parts(root).len() as int) =~= path_parts(
        root,
    ));
}

/// A blob is named by sixty-four hexadecimal digits, and by nothing else.
pub proof fn law_blob_names_are_digits(text: Seq<char>)
    ensures
        is_blob_name(text) <==> text.len() == 64 && forall|i: int|
            0 <= i < 64 ==> "0123456789abcdefABCDEF"@.contains(#[trigger] text[i]),
{
    reveal_strlit("0123456789abcdefABCDEF");
    let digits = "0123456789abcdefABCDEF"@;
    assert forall|c: char| #[trigger] digits.contains(c) <==> is_hex(c) by {
        if is_hex(c) {
            let k: int = if c <= '9' {
                c as int - '0' as int
            } else if c <= 'F' {
                c as int - 'A' as int + 16
            } else {
                c as int - 'a' as int + 10
            };
            assert(digits[k] == c);
        }
    }
    if is_blob_name(text) {
        assert forall|i: int| 0 <= i < 64 implies digits.contains(#[trigger] text[i]) by {
            assert(is_hex(text[i]));
        }
    }
    if text.len() == 64 && forall|i: int| 0 <= i < 64 ==> digits.contains(#[trigger] text[i]) {
        assert forall|i: int| 0 <= i < text.len() implies is_hex(#[trigger] text[i]) by {
            assert(digits.contains(text[i]));
        }
    }
}

/// A blob lies in the directory of its first two digits under `blobs/blake3`,
/// by its digits in small letters and the ending `.raw`.
pub proof fn law_blob_path_spelling(name: Seq<char>, small: Seq<char>)
    requires
        name.len() == 64,
        small.len() == 64,
        forall|i: int|
            0 <= i < 64 ==> "0123456789abcdef"@.contains(#[trigger] small[i]) && (small[i]
                == name[i] || ('A' <= name[i] && name[i] <= 'F' && small[i] as int == name[i] as int
                + 32)),
    ensures
        is_blob_name(name),
        blob_path(name) == "blobs/blake3/"@ + seq![small[0], small[1]] + "/"@ + small + ".raw"@,
{
    reveal_strlit("0123456789abcdef");
    reveal_strlit("blobs/blake3/");
    reveal_strlit("blobs/");
    reveal_strlit("blake3");
    reveal_strlit("/");
    reveal_strlit(".raw");
    reveal_strlit(".");
    reveal_strlit("raw");
    let digits = "0123456789abcdef"@;
    assert forall|i: int| 0 <= i < 64 implies is_hex(#[trigger] name[i]) && lower_char(name[i])
        == small[i] by {
        assert(digits.contains(small[i]));
    }
    let lower = lower_text(name);
    assert(lower =~= small);
    assert(lower.take(2) =~= seq![small[0], small[1]]);
    assert("blobs/blake3/"@ =~= "blobs/"@ + "blake3"@ + "/"@);
    assert(".raw"@ =~= "."@ + "raw"@);
    assert(blob_path(name) =~= "blobs/blake3/"@ + seq![small[0], small[1]] + "/"@ + small
        + ".raw"@);
}

} // verus!
