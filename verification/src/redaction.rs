//! How the path of a source is shown without its directories.

use crate::path::{
    file_name_of, joined, law_join_adds_plain_name, law_parts_are_plain_names,
    law_plain_name_is_one_part, law_separator_parts_the_path, law_single_segments,
    law_trailing_separator_vanishes, path_parts, MirrorPath, SEPARATOR,
};
use crate::text::{law_encoding_of_concatenation, utf8_text};
use vstd::prelude::*;
use vstd::utf8::{decode_utf8, encode_utf8, valid_utf8};

verus! {

/// What stands for a file name that is missing or not a text.
pub const UNNAMED_SOURCE: &'static str = "session";

/// How a file name is shown: as it is, where there is one that is a text.
pub open spec fn shown_file_name(file_name: Option<Seq<u8>>) -> Seq<char> {
    match file_name {
        Some(name) => if valid_utf8(name) {
            decode_utf8(name)
        } else {
            UNNAMED_SOURCE@
        },
        None => UNNAMED_SOURCE@,
    }
}

/// The name under which a source is shown: its file name, where it has one
/// that is a text.
pub open spec fn shown_name(source_path: Seq<u8>) -> Seq<char> {
    shown_file_name(file_name_of(path_parts(source_path)))
}

/// The redacted path of a source with the given file name.
pub open spec fn redacted_name_text(provider: Seq<char>, file_name: Option<Seq<u8>>) -> Seq<char> {
    "["@ + provider + "]/"@ + shown_file_name(file_name)
}

/// The redacted path of a source.
pub open spec fn redacted_text(provider: Seq<char>, source_path: Seq<u8>) -> Seq<char> {
    redacted_name_text(provider, file_name_of(path_parts(source_path)))
}

/// The redacted path of a source at a POSIX path: its provider and its file
/// name alone.
pub fn redacted_original_path(provider: &str, source_path: &MirrorPath) -> (text: String)
    ensures
        text@ == redacted_text(provider@, source_path@),
{
    redacted_file_name(provider, source_path.file_name())
}

/// The redacted path of a source with the given file name, in bytes, on
/// whatever system: its provider and its file name alone.
pub fn redacted_file_name(provider: &str, file_name: Option<Vec<u8>>) -> (text: String)
    ensures
        text@ == redacted_name_text(provider@, match file_name {
            Some(name) => Some(name@),
            None => None,
        }),
{
    let name: String = match file_name {
        Some(bytes) => match utf8_text(bytes.as_slice()) {
            Some(name) => name,
            None => UNNAMED_SOURCE.to_owned(),
        },
        None => UNNAMED_SOURCE.to_owned(),
    };
    let mut text = "[".to_owned();
    text.append(provider);
    text.append("]/");
    text.append(name.as_str());
    text
}

/// Redaction hides the directories: what is shown depends on the provider and
/// the file name alone.
pub proof fn law_redaction_hides_directories(provider: Seq<char>, a: Seq<u8>, b: Seq<u8>)
    requires
        file_name_of(path_parts(a)) == file_name_of(path_parts(b)),
    ensures
        redacted_text(provider, a) == redacted_text(provider, b),
{
}

/// The name that is shown is one name: it has no slash in it.
pub proof fn law_shown_name_has_no_slash(source_path: Seq<u8>)
    ensures
        !shown_name(source_path).contains('/'),
{
    let parts = path_parts(source_path);
    match file_name_of(parts) {
        Some(name) => {
            law_parts_are_plain_names(source_path, parts.len() - 1);
            if valid_utf8(name) && decode_utf8(name).contains('/') {
                vstd::utf8::decode_utf8_encode_utf8(name);
                lemma_slash_is_encoded(decode_utf8(name));
            }
        },
        None => {},
    }
    reveal_strlit("session");
}

/// A slash in a text is a separator among its bytes.
proof fn lemma_slash_is_encoded(text: Seq<char>)
    requires
        text.contains('/'),
    ensures
        encode_utf8(text).contains(SEPARATOR),
{
    let i = choose|i: int| 0 <= i < text.len() && text[i] == '/';
    let front = text.take(i);
    let slash = seq!['/'];
    let back = text.skip(i + 1);
    assert(text =~= front + (slash + back));
    law_encoding_of_concatenation(front, slash + back);
    law_encoding_of_concatenation(slash, back);
    vstd::utf8::is_ascii_chars_encode_utf8(slash);
    assert(slash[0] as u8 == encode_utf8(slash)[0]);
    assert(encode_utf8(text)[encode_utf8(front).len() as int] == SEPARATOR);
}

/// What is shown of a file name: the name itself where it is a text, whatever
/// the text, and `session` where it is none or missing.
pub proof fn law_file_name_is_shown(provider: Seq<char>, name: Seq<char>, odd: Seq<u8>)
    requires
        !valid_utf8(odd),
    ensures
        redacted_name_text(provider, Some(encode_utf8(name))) == "["@ + provider + "]/"@ + name,
        redacted_name_text(provider, Some(odd)) == "["@ + provider + "]/session"@,
        redacted_name_text(provider, None) == "["@ + provider + "]/session"@,
{
    vstd::utf8::encode_utf8_valid_utf8(name);
    vstd::utf8::encode_utf8_decode_utf8(name);
    reveal_strlit("]/session");
    reveal_strlit("]/");
    reveal_strlit("session");
    assert("]/session"@ =~= "]/"@ + "session"@);
    assert("["@ + provider + "]/session"@ =~= "["@ + provider + "]/"@ + "session"@);
}

/// A source is shown by its provider and its file name, in whatever directory
/// it lies and however long the name is.
pub proof fn law_source_is_shown_by_name(provider: Seq<char>, dir: Seq<u8>, name: Seq<char>)
    requires
        name.len() > 0,
        !encode_utf8(name).contains(47u8),
        encode_utf8(name) != seq![46u8],
        encode_utf8(name) != seq![46u8, 46u8],
    ensures
        redacted_text(provider, joined(dir, encode_utf8(name))) == "["@ + provider + "]/"@ + name,
        redacted_text(provider, dir + seq![47u8] + encode_utf8(name)) == "["@ + provider + "]/"@
            + name,
        redacted_text(provider, dir + seq![47u8] + encode_utf8(name) + seq![47u8]) == "["@
            + provider + "]/"@ + name,
{
    let bytes = encode_utf8(name);
    vstd::utf8::encode_utf8_valid_utf8(name);
    vstd::utf8::encode_utf8_decode_utf8(name);
    if bytes.len() == 0 {
        assert(bytes =~= encode_utf8(Seq::<char>::empty()));
        vstd::utf8::encode_utf8_decode_utf8(Seq::<char>::empty());
    }
    law_join_adds_plain_name(dir, bytes);
    law_join_adds_plain_name(dir + seq![47u8], bytes);
    assert(joined(dir + seq![47u8], bytes) =~= dir + seq![47u8] + bytes) by {
        law_plain_name_is_one_part(bytes);
    }
    law_trailing_separator_vanishes(dir + seq![47u8] + bytes);
}

/// A source whose name is no text, and a path that ends in no name, are shown
/// as `session`.
pub proof fn law_unnamed_source_is_shown(provider: Seq<char>, dir: Seq<u8>, odd: Seq<u8>)
    requires
        !valid_utf8(odd),
        !odd.contains(47u8),
    ensures
        redacted_text(provider, dir + seq![47u8] + odd) == "["@ + provider + "]/session"@,
        redacted_text(provider, dir + seq![47u8, 46u8, 46u8]) == "["@ + provider + "]/session"@,
        redacted_text(provider, Seq::<u8>::empty()) == "["@ + provider + "]/session"@,
        redacted_text(provider, seq![47u8]) == "["@ + provider + "]/session"@,
{
    law_file_name_is_shown(provider, Seq::<char>::empty(), odd);
    if odd.len() == 0 {
        vstd::utf8::encode_utf8_valid_utf8(Seq::<char>::empty());
        assert(odd =~= encode_utf8(Seq::<char>::empty()));
    }
    if odd == seq![46u8] || odd == seq![46u8, 46u8] {
        reveal_strlit(".");
        reveal_strlit("..");
        vstd::utf8::is_ascii_chars_encode_utf8("."@);
        vstd::utf8::is_ascii_chars_encode_utf8(".."@);
        vstd::utf8::encode_utf8_valid_utf8("."@);
        vstd::utf8::encode_utf8_valid_utf8(".."@);
        assert(encode_utf8("."@) =~= seq![46u8]) by {
            assert("."@[0] as u8 == encode_utf8("."@)[0]);
        }
        assert(encode_utf8(".."@) =~= seq![46u8, 46u8]) by {
            assert(".."@[0] as u8 == encode_utf8(".."@)[0]);
            assert(".."@[1] as u8 == encode_utf8(".."@)[1]);
        }
    }
    law_join_adds_plain_name(dir + seq![47u8], odd);
    assert(joined(dir + seq![47u8], odd) =~= dir + seq![47u8] + odd) by {
        law_plain_name_is_one_part(odd);
    }
    law_single_segments(odd);
    law_separator_parts_the_path(dir, seq![46u8, 46u8]);
    assert(dir + seq![47u8] + seq![46u8, 46u8] =~= dir + seq![47u8, 46u8, 46u8]);
    law_separator_parts_the_path(Seq::<u8>::empty(), Seq::<u8>::empty());
    assert(Seq::<u8>::empty() + seq![47u8] + Seq::<u8>::empty() =~= seq![47u8]);
}

} // verus!
