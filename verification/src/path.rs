//! Paths by their components, and POSIX paths as byte strings: how a path
//! breaks into components and how two paths are joined.
//!
//! What a path means is the operating system's matter. [`MirrorPath`] is a
//! POSIX path. Where paths are of another kind, the system breaks them into
//! [`PathPart`]s, and the functions that take components or a file name decide
//! on those.

use crate::text::{display_text, law_encoding_of_concatenation, lossy_text};
use vstd::prelude::*;
use vstd::string::StringSliceAdditionalSpecFns;
use vstd::utf8::{decode_utf8, encode_utf8, is_ascii_chars, valid_utf8};

verus! {

/// The byte that separates two components (`/`).
pub const SEPARATOR: u8 = 47;

/// The byte of a dot (`.`).
pub const DOT: u8 = 46;

/// One component of a path.
#[derive(Debug, PartialEq, Eq)]
pub enum PathPart {
    /// What some systems put before a path, such as a drive; POSIX paths have
    /// none.
    Prefix(Vec<u8>),
    /// The leading separator of an absolute path.
    RootDir,
    /// A leading `.` of a relative path.
    CurDir,
    /// A `..`.
    ParentDir,
    /// Any other name.
    Normal(Vec<u8>),
}

/// What a [`PathPart`] stands for.
pub enum Part {
    Prefix(Seq<u8>),
    RootDir,
    CurDir,
    ParentDir,
    Normal(Seq<u8>),
}

impl View for PathPart {
    type V = Part;

    open spec fn view(&self) -> Part {
        match self {
            PathPart::Prefix(prefix) => Part::Prefix(prefix@),
            PathPart::RootDir => Part::RootDir,
            PathPart::CurDir => Part::CurDir,
            PathPart::ParentDir => Part::ParentDir,
            PathPart::Normal(name) => Part::Normal(name@),
        }
    }
}

/// The components that a list of [`PathPart`]s stands for.
pub open spec fn part_views(parts: Seq<PathPart>) -> Seq<Part> {
    parts.map_values(|part: PathPart| part@)
}

/// How many bytes of `s` stand before its first separator.
pub open spec fn segment_len(s: Seq<u8>) -> nat
    decreases s.len(),
{
    if s.len() == 0 || s[0] == SEPARATOR {
        0
    } else {
        1 + segment_len(s.drop_first())
    }
}

/// The components that one separator-free segment contributes: an empty
/// segment and a `.` contribute nothing.
pub open spec fn segment_parts(segment: Seq<u8>) -> Seq<Part> {
    if segment.len() == 0 || segment =~= seq![DOT] {
        Seq::empty()
    } else if segment =~= seq![DOT, DOT] {
        seq![Part::ParentDir]
    } else {
        seq![Part::Normal(segment)]
    }
}

/// The components of all the segments of `s`.
pub open spec fn parts_from(s: Seq<u8>) -> Seq<Part>
    decreases s.len(),
{
    let n = segment_len(s);
    if n >= s.len() {
        segment_parts(s)
    } else {
        segment_parts(s.take(n as int)) + parts_from(s.skip(n as int + 1))
    }
}

/// Whether a path starts at the root.
pub open spec fn is_absolute(s: Seq<u8>) -> bool {
    s.len() > 0 && s[0] == SEPARATOR
}

/// Whether the first segment of a path is a `.`.
pub open spec fn starts_in_cur_dir(s: Seq<u8>) -> bool {
    s.len() > 0 && s[0] == DOT && (s.len() == 1 || s[1] == SEPARATOR)
}

/// The components of a path. Repeated and trailing separators vanish, and so
/// does every `.` but a leading one.
pub open spec fn path_parts(s: Seq<u8>) -> Seq<Part> {
    if is_absolute(s) {
        seq![Part::RootDir] + parts_from(s)
    } else if starts_in_cur_dir(s) {
        seq![Part::CurDir] + parts_from(s)
    } else {
        parts_from(s)
    }
}

/// The path `rel` as seen from `base`: an absolute `rel` stands for itself.
pub open spec fn joined(base: Seq<u8>, rel: Seq<u8>) -> Seq<u8> {
    if is_absolute(rel) {
        rel
    } else if base.len() == 0 || base.last() == SEPARATOR {
        base + rel
    } else {
        base.push(SEPARATOR) + rel
    }
}

/// The last component, when it is a name.
pub open spec fn file_name_of(parts: Seq<Part>) -> Option<Seq<u8>> {
    if parts.len() > 0 && parts.last() is Normal {
        Some(parts.last()->Normal_0)
    } else {
        None
    }
}

/// Whether every component is a name.
pub open spec fn all_normal(parts: Seq<Part>) -> bool {
    forall|i: int| 0 <= i < parts.len() ==> (#[trigger] parts[i]) is Normal
}

/// Whether a byte string is one plain name: not empty, free of separators,
/// and neither `.` nor `..`.
pub open spec fn is_plain_name(name: Seq<u8>) -> bool {
    &&& name.len() > 0
    &&& !name.contains(SEPARATOR)
    &&& name != seq![DOT]
    &&& name != seq![DOT, DOT]
}

/// Whether the first list of components starts with all of the second.
pub open spec fn is_within(inner: Seq<Part>, outer: Seq<Part>) -> bool {
    outer.len() <= inner.len() && inner.take(outer.len() as int) =~= outer
}

// ---------------------------------------------------------------------------
// How joining and breaking apart fit together
// ---------------------------------------------------------------------------

proof fn lemma_segment_len(s: Seq<u8>)
    ensures
        segment_len(s) <= s.len(),
        forall|i: int| 0 <= i < segment_len(s) ==> s[i] != SEPARATOR,
        segment_len(s) < s.len() ==> s[segment_len(s) as int] == SEPARATOR,
    decreases s.len(),
{
    if s.len() > 0 && s[0] != SEPARATOR {
        let rest = s.drop_first();
        lemma_segment_len(rest);
        assert forall|i: int| 0 <= i < segment_len(s) implies s[i] != SEPARATOR by {
            if i > 0 {
                assert(s[i] == rest[i - 1]);
            }
        }
    }
}

proof fn lemma_segment_len_is(s: Seq<u8>, n: int)
    requires
        0 <= n <= s.len(),
        forall|i: int| 0 <= i < n ==> s[i] != SEPARATOR,
        n < s.len() ==> s[n] == SEPARATOR,
    ensures
        segment_len(s) == n,
{
    lemma_segment_len(s);
    if segment_len(s) < n {
        assert(s[segment_len(s) as int] == SEPARATOR);
    }
}

/// The components on both sides of a separator are those of the two sides.
proof fn lemma_parts_around_separator(a: Seq<u8>, b: Seq<u8>)
    ensures
        parts_from(a.push(SEPARATOR) + b) == parts_from(a) + parts_from(b),
    decreases a.len(),
{
    let s = a.push(SEPARATOR) + b;
    let n = segment_len(a);
    lemma_segment_len(a);
    lemma_segment_len_is(s, n as int);
    if n >= a.len() {
        assert(s.take(n as int) =~= a);
        assert(s.skip(n as int + 1) =~= b);
    } else {
        let rest = a.skip(n as int + 1);
        assert(s.take(n as int) =~= a.take(n as int));
        assert(s.skip(n as int + 1) =~= rest.push(SEPARATOR) + b);
        lemma_parts_around_separator(rest, b);
        assert(parts_from(s) =~= parts_from(a) + parts_from(b));
    }
}

/// The components of the path that joins a relative path to a base are those
/// of the base, then those of the relative path.
pub proof fn law_join_concatenates_parts(base: Seq<u8>, rel: Seq<u8>)
    requires
        !is_absolute(rel),
        !starts_in_cur_dir(rel),
        rel.len() > 0,
    ensures
        path_parts(joined(base, rel)) == path_parts(base) + path_parts(rel),
{
    if base.len() == 0 {
        assert(joined(base, rel) =~= rel);
        assert(path_parts(base) =~= Seq::<Part>::empty());
        assert(path_parts(base) + path_parts(rel) =~= path_parts(rel));
    } else {
        let whole = joined(base, rel);
        if base.last() == SEPARATOR {
            let init = base.drop_last();
            assert(base =~= init.push(SEPARATOR) + Seq::<u8>::empty());
            assert(whole =~= init.push(SEPARATOR) + rel);
            lemma_parts_around_separator(init, Seq::<u8>::empty());
            lemma_parts_around_separator(init, rel);
            assert(parts_from(Seq::<u8>::empty()) =~= Seq::<Part>::empty());
        } else {
            lemma_parts_around_separator(base, rel);
        }
        assert(parts_from(whole) =~= parts_from(base) + parts_from(rel));
        assert(path_parts(whole) =~= path_parts(base) + path_parts(rel));
    }
}

/// A plain name is its own single component.
pub proof fn law_plain_name_is_one_part(name: Seq<u8>)
    requires
        is_plain_name(name),
    ensures
        path_parts(name) == seq![Part::Normal(name)],
        !is_absolute(name),
        !starts_in_cur_dir(name),
{
    assert forall|i: int| 0 <= i < name.len() implies name[i] != SEPARATOR by {
        assert(name.contains(name[i]));
    }
    lemma_segment_len_is(name, name.len() as int);
    if starts_in_cur_dir(name) {
        assert(name =~= seq![DOT]);
    }
}

/// Joining a plain name adds it as the last component.
pub proof fn law_join_adds_plain_name(base: Seq<u8>, name: Seq<u8>)
    requires
        is_plain_name(name),
    ensures
        path_parts(joined(base, name)) == path_parts(base).push(Part::Normal(name)),
        file_name_of(path_parts(joined(base, name))) == Some(name),
{
    law_plain_name_is_one_part(name);
    law_join_concatenates_parts(base, name);
    assert(path_parts(base) + seq![Part::Normal(name)] =~= path_parts(base).push(
        Part::Normal(name),
    ));
}

/// Every name among the components of a path is a plain name.
pub proof fn law_parts_are_plain_names(s: Seq<u8>, i: int)
    requires
        0 <= i < path_parts(s).len(),
        path_parts(s)[i] is Normal,
    ensures
        is_plain_name(path_parts(s)[i]->Normal_0),
{
    let lead = path_parts(s).len() - parts_from(s).len();
    assert(path_parts(s)[i] == parts_from(s)[i - lead]);
    lemma_segments_are_plain_names(s, i - lead);
}

proof fn lemma_segments_are_plain_names(s: Seq<u8>, i: int)
    requires
        0 <= i < parts_from(s).len(),
        parts_from(s)[i] is Normal,
    ensures
        is_plain_name(parts_from(s)[i]->Normal_0),
    decreases s.len(),
{
    let n = segment_len(s);
    lemma_segment_len(s);
    if n >= s.len() {
    } else {
        let first = segment_parts(s.take(n as int));
        if i >= first.len() {
            lemma_segments_are_plain_names(s.skip(n as int + 1), i - first.len());
        }
    }
}

/// An ASCII text without a slash, and longer than a `..` or of other letters,
/// is a plain name.
pub(crate) proof fn lemma_ascii_plain_name(text: Seq<char>)
    requires
        text.len() > 0,
        is_ascii_chars(text),
        forall|i: int| 0 <= i < text.len() ==> #[trigger] text[i] != '/',
        text[0] != '.',
    ensures
        is_plain_name(encode_utf8(text)),
{
    vstd::utf8::is_ascii_chars_encode_utf8(text);
    let bytes = encode_utf8(text);
    assert forall|i: int| 0 <= i < bytes.len() implies bytes[i] != SEPARATOR by {
        assert(text[i] as u8 == bytes[i]);
        assert(text[i] != '/');
        assert('\0' <= text[i] <= '\u{7f}');
    }
    assert(text[0] as u8 == bytes[0]);
    assert('\0' <= text[0] <= '\u{7f}');
}

/// Putting a slash between two texts joins their paths.
pub(crate) proof fn lemma_slash_joins(a: Seq<char>, b: Seq<char>)
    requires
        encode_utf8(a).len() > 0,
        encode_utf8(a).last() != SEPARATOR,
        is_plain_name(encode_utf8(b)),
    ensures
        encode_utf8(a + "/"@ + b) == joined(encode_utf8(a), encode_utf8(b)),
{
    reveal_strlit("/");
    law_plain_name_is_one_part(encode_utf8(b));
    law_encoding_of_concatenation(a + "/"@, b);
    law_encoding_of_concatenation(a, "/"@);
    vstd::utf8::is_ascii_chars_encode_utf8("/"@);
    assert(encode_utf8("/"@) =~= seq![SEPARATOR]) by {
        assert("/"@[0] as u8 == encode_utf8("/"@)[0]);
    }
    assert(encode_utf8(a + "/"@ + b) =~= joined(encode_utf8(a), encode_utf8(b)));
}

/// An ASCII text that does not end in a slash is no path that ends in one.
pub(crate) proof fn lemma_ends_without_slash(text: Seq<char>)
    requires
        text.len() > 0,
        is_ascii_chars(text),
        text.last() != '/',
    ensures
        encode_utf8(text).len() > 0,
        encode_utf8(text).last() != SEPARATOR,
{
    vstd::utf8::is_ascii_chars_encode_utf8(text);
    assert(text[text.len() - 1] as u8 == encode_utf8(text)[text.len() - 1]);
    assert('\0' <= text[text.len() - 1] <= '\u{7f}');
}

// ---------------------------------------------------------------------------
// Paths
// ---------------------------------------------------------------------------

/// Whether two byte strings are the same.
pub(crate) fn same_bytes(a: &[u8], b: &[u8]) -> (same: bool)
    ensures
        same == (a@ == b@),
{
    if a.len() != b.len() {
        return false;
    }
    let mut i: usize = 0;
    while i < a.len()
        invariant
            i <= a@.len(),
            a@.len() == b@.len(),
            forall|k: int| 0 <= k < i ==> a@[k] == b@[k],
        decreases a@.len() - i,
    {
        if a[i] != b[i] {
            return false;
        }
        i += 1;
    }
    assert(a@ =~= b@);
    true
}

/// The bytes of a slice, in a vector of their own.
pub(crate) fn copy_bytes(bytes: &[u8]) -> (copy: Vec<u8>)
    ensures
        copy@ == bytes@,
{
    let mut copy: Vec<u8> = Vec::new();
    copy.extend_from_slice(bytes);
    assert(copy@ =~= bytes@);
    copy
}

impl PathPart {
    /// Whether two components are the same.
    pub fn same_as(&self, other: &PathPart) -> (same: bool)
        ensures
            same == (self@ == other@),
    {
        match (self, other) {
            (PathPart::Prefix(a), PathPart::Prefix(b)) => same_bytes(a.as_slice(), b.as_slice()),
            (PathPart::RootDir, PathPart::RootDir) => true,
            (PathPart::CurDir, PathPart::CurDir) => true,
            (PathPart::ParentDir, PathPart::ParentDir) => true,
            (PathPart::Normal(a), PathPart::Normal(b)) => same_bytes(a.as_slice(), b.as_slice()),
            _ => false,
        }
    }
}

/// Whether two lists of components are the same.
fn same_parts(a: &Vec<PathPart>, b: &Vec<PathPart>) -> (same: bool)
    ensures
        same == (part_views(a@) == part_views(b@)),
{
    assert(part_views(a@).len() == a@.len());
    assert(part_views(b@).len() == b@.len());
    if a.len() != b.len() {
        return false;
    }
    let mut i: usize = 0;
    while i < a.len()
        invariant
            i <= a@.len(),
            a@.len() == b@.len(),
            forall|k: int| 0 <= k < i ==> (#[trigger] a@[k])@ == b@[k]@,
        decreases a@.len() - i,
    {
        if !a[i].same_as(&b[i]) {
            assert(part_views(a@)[i as int] != part_views(b@)[i as int]);
            return false;
        }
        i += 1;
    }
    assert(part_views(a@) =~= part_views(b@));
    true
}

/// The components that one separator-free segment contributes.
fn parts_of_segment(segment: &[u8]) -> (parts: Vec<PathPart>)
    ensures
        part_views(parts@) == segment_parts(segment@),
{
    let mut parts: Vec<PathPart> = Vec::new();
    let n = segment.len();
    if n == 0 || (n == 1 && segment[0] == DOT) {
    } else if n == 2 && segment[0] == DOT && segment[1] == DOT {
        parts.push(PathPart::ParentDir);
    } else {
        parts.push(PathPart::Normal(copy_bytes(segment)));
    }
    assert(part_views(parts@) =~= segment_parts(segment@));
    parts
}

/// A POSIX path, as the bytes that the operating system takes.
#[derive(Debug)]
pub struct MirrorPath {
    bytes: Vec<u8>,
}

impl View for MirrorPath {
    type V = Seq<u8>;

    closed spec fn view(&self) -> Seq<u8> {
        self.bytes@
    }
}

impl MirrorPath {
    /// The path with the given bytes.
    pub fn from_bytes(bytes: Vec<u8>) -> (path: MirrorPath)
        ensures
            path@ == bytes@,
    {
        MirrorPath { bytes }
    }

    /// The path that a text spells.
    pub fn from_text(text: &str) -> (path: MirrorPath)
        ensures
            path@ == text.spec_bytes(),
    {
        MirrorPath { bytes: text.as_bytes_vec() }
    }

    /// The bytes of the path.
    pub fn as_bytes(&self) -> (bytes: &[u8])
        ensures
            bytes@ == self@,
    {
        self.bytes.as_slice()
    }

    /// Whether the path starts at the root.
    pub fn is_absolute(&self) -> (absolute: bool)
        ensures
            absolute == is_absolute(self@),
    {
        self.bytes.len() > 0 && self.bytes[0] == SEPARATOR
    }

    /// The components of the path.
    pub fn parts(&self) -> (parts: Vec<PathPart>)
        ensures
            part_views(parts@) == path_parts(self@),
    {
        let n = self.bytes.len();
        let mut parts: Vec<PathPart> = Vec::new();
        if n > 0 && self.bytes[0] == SEPARATOR {
            parts.push(PathPart::RootDir);
        } else if n > 0 && self.bytes[0] == DOT && (n == 1 || self.bytes[1] == SEPARATOR) {
            parts.push(PathPart::CurDir);
        }
        let ghost lead = part_views(parts@);
        let mut start: usize = 0;
        assert(self@.skip(0) =~= self@);
        assert(path_parts(self@) =~= lead + parts_from(self@));
        loop
            invariant_except_break
                path_parts(self@) == part_views(parts@) + parts_from(self@.skip(start as int)),
            invariant
                n == self.bytes@.len(),
                self@ == self.bytes@,
                start <= n,
            ensures
                path_parts(self@) == part_views(parts@),
            decreases n - start,
        {
            let ghost tail = self@.skip(start as int);
            let mut end: usize = start;
            while end < n && self.bytes[end] != SEPARATOR
                invariant
                    n == self.bytes@.len(),
                    self@ == self.bytes@,
                    start <= end <= n,
                    tail == self@.skip(start as int),
                    forall|i: int| 0 <= i < end - start ==> #[trigger] tail[i] != SEPARATOR,
                decreases n - end,
            {
                assert(tail[end - start] == self.bytes@[end as int]);
                end += 1;
            }
            proof {
                if end < n {
                    assert(tail[end - start] == self.bytes@[end as int]);
                }
                lemma_segment_len_is(tail, end - start);
                assert(self.bytes@.subrange(start as int, end as int) =~= tail.take(end - start));
            }
            let mut found = parts_of_segment(&self.bytes.as_slice()[start..end]);
            let ghost names = found@;
            let ghost held = parts@;
            parts.append(&mut found);
            assert(part_views(parts@) =~= part_views(held) + part_views(names));
            if end >= n {
                assert(tail.take(end - start) =~= tail);
                break;
            }
            proof {
                assert(tail.skip(end - start + 1) =~= self@.skip(end + 1));
                assert(path_parts(self@) =~= part_views(parts@) + parts_from(self@.skip(end + 1)));
            }
            start = end + 1;
        }
        parts
    }

    /// Whether two paths have the same components.
    pub fn same_path(&self, other: &MirrorPath) -> (same: bool)
        ensures
            same == (path_parts(self@) == path_parts(other@)),
    {
        same_parts(&self.parts(), &other.parts())
    }

    /// The path that a relative path names when it is read from this one; an
    /// absolute path stands for itself.
    pub fn join(&self, rel: &str) -> (path: MirrorPath)
        ensures
            path@ == joined(self@, rel.spec_bytes()),
    {
        let name = rel.as_bytes();
        let mut bytes: Vec<u8> = Vec::new();
        if !(name.len() > 0 && name[0] == SEPARATOR) {
            bytes.extend_from_slice(self.bytes.as_slice());
            assert(bytes@ =~= self@);
            if bytes.len() > 0 && bytes[bytes.len() - 1] != SEPARATOR {
                bytes.push(SEPARATOR);
            }
        }
        bytes.extend_from_slice(name);
        assert(bytes@ =~= joined(self@, rel.spec_bytes()));
        MirrorPath { bytes }
    }

    /// The last component, when it is a name.
    pub fn file_name(&self) -> (name: Option<Vec<u8>>)
        ensures
            name is Some <==> file_name_of(path_parts(self@)) is Some,
            name is Some ==> name->0@ == file_name_of(path_parts(self@))->0,
    {
        last_name(&self.parts())
    }

    /// The path as a text for messages.
    pub fn display(&self) -> (text: String)
        ensures
            text@ == lossy_text(self@),
            valid_utf8(self@) ==> text@ == decode_utf8(self@),
    {
        display_text(self.bytes.as_slice())
    }
}

impl Clone for MirrorPath {
    fn clone(&self) -> (copy: MirrorPath)
        ensures
            copy@ == self@,
    {
        MirrorPath { bytes: copy_bytes(self.bytes.as_slice()) }
    }
}

/// The last of the components, when it is a name.
pub(crate) fn last_name(parts: &Vec<PathPart>) -> (name: Option<Vec<u8>>)
    ensures
        name is Some <==> file_name_of(part_views(parts@)) is Some,
        name is Some ==> name->0@ == file_name_of(part_views(parts@))->0,
{
    assert(part_views(parts@).len() == parts@.len());
    if parts.len() == 0 {
        return None;
    }
    match &parts[parts.len() - 1] {
        PathPart::Normal(name) => Some(copy_bytes(name.as_slice())),
        _ => None,
    }
}

// ---------------------------------------------------------------------------
// What the components of a path are
// ---------------------------------------------------------------------------

/// A path of one segment: an empty one has no components, `.` and `..` stand
/// for themselves, and any other segment is a name, whatever its bytes.
pub proof fn law_single_segments(name: Seq<u8>)
    ensures
        path_parts(Seq::<u8>::empty()) == Seq::<Part>::empty(),
        path_parts(seq![46u8]) == seq![Part::CurDir],
        path_parts(seq![46u8, 46u8]) == seq![Part::ParentDir],
        name.len() > 0 && !name.contains(47u8) && name != seq![46u8] && name != seq![46u8, 46u8]
            ==> path_parts(name) == seq![Part::Normal(name)],
{
    let dot = seq![46u8];
    let dots = seq![46u8, 46u8];
    lemma_segment_len_is(Seq::<u8>::empty(), 0);
    lemma_segment_len_is(dot, 1);
    lemma_segment_len_is(dots, 2);
    assert(path_parts(Seq::<u8>::empty()) =~= Seq::<Part>::empty());
    assert(path_parts(dot) =~= seq![Part::CurDir]);
    assert(dots != dot) by {
        assert(dots.len() != dot.len());
    }
    assert(path_parts(dots) =~= seq![Part::ParentDir]);
    if name.len() > 0 && !name.contains(47u8) && name != dot && name != dots {
        law_plain_name_is_one_part(name);
    }
}

/// A separator parts a path: behind it stand the components of what follows,
/// and before it those of what precedes, or the root where nothing does.
pub proof fn law_separator_parts_the_path(front: Seq<u8>, back: Seq<u8>)
    requires
        back.len() > 0 ==> back[0] != 47u8,
        !(back.len() > 0 && back[0] == 46u8 && (back.len() == 1 || back[1] == 47u8)),
    ensures
        path_parts(front + seq![47u8] + back) == (if front.len() == 0 {
            seq![Part::RootDir]
        } else {
            path_parts(front)
        }) + path_parts(back),
{
    let whole = front + seq![47u8] + back;
    assert(whole =~= front.push(SEPARATOR) + back);
    lemma_parts_around_separator(front, back);
    if front.len() == 0 {
        assert(parts_from(front) =~= Seq::<Part>::empty());
        assert(path_parts(whole) =~= seq![Part::RootDir] + path_parts(back));
    } else {
        assert(path_parts(whole) =~= path_parts(front) + path_parts(back));
    }
}

/// A repeated separator counts once, and a `.` behind a separator vanishes.
pub proof fn law_idle_segments_vanish(front: Seq<u8>, back: Seq<u8>)
    ensures
        path_parts(front + seq![47u8, 47u8] + back) == path_parts(front + seq![47u8] + back),
        path_parts(front + seq![47u8, 46u8, 47u8] + back) == path_parts(
            front + seq![47u8] + back,
        ),
        path_parts(front + seq![47u8, 46u8]) == path_parts(front + seq![47u8]),
{
    let empty = Seq::<u8>::empty();
    let dot = seq![46u8];
    let once = front + seq![47u8] + back;
    let twice = front + seq![47u8, 47u8] + back;
    let dotted = front + seq![47u8, 46u8, 47u8] + back;
    assert(once =~= front.push(SEPARATOR) + back);
    assert(twice =~= front.push(SEPARATOR) + (empty.push(SEPARATOR) + back));
    assert(dotted =~= front.push(SEPARATOR) + (dot.push(SEPARATOR) + back));
    lemma_parts_around_separator(front, back);
    lemma_parts_around_separator(front, empty.push(SEPARATOR) + back);
    lemma_parts_around_separator(front, dot.push(SEPARATOR) + back);
    lemma_parts_around_separator(empty, back);
    lemma_parts_around_separator(dot, back);
    lemma_segment_len_is(empty, 0);
    lemma_segment_len_is(dot, 1);
    assert(parts_from(empty) =~= Seq::<Part>::empty());
    assert(parts_from(dot) =~= Seq::<Part>::empty());
    assert(parts_from(twice) =~= parts_from(once));
    assert(parts_from(dotted) =~= parts_from(once));
    assert(path_parts(twice) =~= path_parts(once));
    assert(path_parts(dotted) =~= path_parts(once));
    lemma_parts_around_separator(front, dot);
    lemma_parts_around_separator(front, empty);
    assert(front + seq![47u8, 46u8] =~= front.push(SEPARATOR) + dot);
    assert(front + seq![47u8] =~= front.push(SEPARATOR) + empty);
    assert(path_parts(front + seq![47u8, 46u8]) =~= path_parts(front + seq![47u8]));
}

/// A separator at the end of a path that is not empty changes no component.
pub proof fn law_trailing_separator_vanishes(path: Seq<u8>)
    requires
        path.len() > 0,
    ensures
        path_parts(path + seq![47u8]) == path_parts(path),
{
    law_separator_parts_the_path(path, Seq::<u8>::empty());
    law_single_segments(Seq::<u8>::empty());
    assert(path + seq![47u8] + Seq::<u8>::empty() =~= path + seq![47u8]);
    assert(path_parts(path) + Seq::<Part>::empty() =~= path_parts(path));
}

/// Joining spells the base, one separator and the relative path; the separator
/// is left out where the base is empty or ends in one. An absolute path stands
/// for itself.
pub proof fn law_join_spelling(base: Seq<u8>, rel: Seq<u8>, rest: Seq<u8>)
    requires
        rel.len() == 0 || rel[0] != 47u8,
    ensures
        joined(Seq::<u8>::empty(), rel) == rel,
        base.len() > 0 && base.last() != 47u8 ==> joined(base, rel) == base + seq![47u8] + rel,
        joined(base + seq![47u8], rel) == base + seq![47u8] + rel,
        joined(base, seq![47u8] + rest) == seq![47u8] + rest,
        is_absolute(seq![47u8] + rest),
        !is_absolute(rel),
{
    assert(joined(Seq::<u8>::empty(), rel) =~= rel);
    if base.len() > 0 && base.last() != 47u8 {
        assert(joined(base, rel) =~= base + seq![47u8] + rel);
    }
    assert((base + seq![47u8]).last() == 47u8);
}

/// The file name is the last component, where that is a name.
pub proof fn law_file_name_is_last(parts: Seq<Part>, name: Seq<u8>)
    ensures
        file_name_of(parts.push(Part::Normal(name))) == Some(name),
        file_name_of(parts.push(Part::ParentDir)) is None,
        file_name_of(parts.push(Part::CurDir)) is None,
        file_name_of(parts.push(Part::RootDir)) is None,
        file_name_of(parts.push(Part::Prefix(name))) is None,
        file_name_of(Seq::<Part>::empty()) is None,
{
}

/// What lies within is what the outer components lead to: they, and any that
/// follow.
pub proof fn law_within_is_below(outer: Seq<Part>, below: Seq<Part>, other: Seq<Part>)
    ensures
        is_within(outer + below, outer),
        is_within(other, outer) ==> exists|rest: Seq<Part>| other == outer + rest,
{
    assert((outer + below).take(outer.len() as int) =~= outer);
    if is_within(other, outer) {
        assert(other =~= outer + other.skip(outer.len() as int));
    }
}

/// A component stands for itself: a name for its very bytes. A list of
/// components stands for what they do, one by one.
pub proof fn law_parts_stand_for_themselves(name: Vec<u8>, parts: Seq<PathPart>)
    ensures
        PathPart::Normal(name)@ == Part::Normal(name@),
        PathPart::Prefix(name)@ == Part::Prefix(name@),
        PathPart::RootDir@ == Part::RootDir,
        PathPart::CurDir@ == Part::CurDir,
        PathPart::ParentDir@ == Part::ParentDir,
        part_views(parts).len() == parts.len(),
        forall|i: int| 0 <= i < parts.len() ==> #[trigger] part_views(parts)[i] == parts[i]@,
{
}

/// Components are all names where each of them is one.
pub proof fn law_all_names(front: Seq<Part>, back: Seq<Part>, name: Seq<u8>)
    ensures
        all_normal(Seq::<Part>::empty()),
        all_normal(seq![Part::Normal(name)]),
        !all_normal(seq![Part::RootDir]),
        !all_normal(seq![Part::CurDir]),
        !all_normal(seq![Part::ParentDir]),
        !all_normal(seq![Part::Prefix(name)]),
        all_normal(front + back) <==> all_normal(front) && all_normal(back),
{
    let whole = front + back;
    assert(seq![Part::RootDir][0] is RootDir);
    assert(seq![Part::CurDir][0] is CurDir);
    assert(seq![Part::ParentDir][0] is ParentDir);
    assert(seq![Part::Prefix(name)][0] is Prefix);
    if all_normal(whole) {
        assert forall|i: int| 0 <= i < front.len() implies (#[trigger] front[i]) is Normal by {
            assert(whole[i] is Normal);
        }
        assert forall|i: int| 0 <= i < back.len() implies (#[trigger] back[i]) is Normal by {
            assert(whole[front.len() + i] is Normal);
        }
    }
}

} // verus!
