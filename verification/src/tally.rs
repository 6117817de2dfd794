//! What a directory tree holds: how many bytes, and how many entries.

use vstd::prelude::*;

verus! {

/// What a walk learned of one entry of a directory.
#[derive(Debug)]
pub enum TreeEntry {
    /// A directory, with what was read of it.
    Directory(TreeListing),
    /// Anything else, with its size where that could be read.
    Leaf(Option<u64>),
    /// An entry whose kind could not be read.
    Unknown,
}

/// The entries of a directory that could be read.
#[derive(Debug)]
pub enum TreeListing {
    /// The directory could not be read.
    Unreadable,
    /// The entries that could be read.
    Entries(Vec<TreeEntry>),
}

/// How many bytes the leaves of an entry have.
pub open spec fn entry_bytes(entry: TreeEntry) -> nat
    decreases entry,
{
    match entry {
        TreeEntry::Directory(listing) => listing_bytes(listing),
        TreeEntry::Leaf(Some(size)) => size as nat,
        _ => 0,
    }
}

/// How many bytes the leaves below a directory have.
pub open spec fn listing_bytes(listing: TreeListing) -> nat
    decreases listing,
{
    match listing {
        TreeListing::Unreadable => 0,
        TreeListing::Entries(entries) => entries_bytes(entries@),
    }
}

/// How many bytes the leaves of several entries have.
pub open spec fn entries_bytes(entries: Seq<TreeEntry>) -> nat
    decreases entries,
{
    if entries.len() == 0 {
        0
    } else {
        entries_bytes(entries.drop_last()) + entry_bytes(entries.last())
    }
}

/// How many entries there are in an entry: itself, and all below it.
pub open spec fn entry_count(entry: TreeEntry) -> nat
    decreases entry,
{
    match entry {
        TreeEntry::Directory(listing) => 1 + listing_count(listing),
        _ => 1,
    }
}

/// How many entries there are below a directory.
pub open spec fn listing_count(listing: TreeListing) -> nat
    decreases listing,
{
    match listing {
        TreeListing::Unreadable => 0,
        TreeListing::Entries(entries) => entries_count(entries@),
    }
}

/// How many entries there are in several entries.
pub open spec fn entries_count(entries: Seq<TreeEntry>) -> nat
    decreases entries,
{
    if entries.len() == 0 {
        0
    } else {
        entries_count(entries.drop_last()) + entry_count(entries.last())
    }
}

/// A count, held to what 64 bits can say.
pub open spec fn clamped(n: nat) -> u64 {
    if n <= u64::MAX {
        n as u64
    } else {
        u64::MAX
    }
}

/// The bytes and the entries below a directory. What could not be read counts
/// for nothing, but an entry that is there is counted; both totals stop at the
/// largest number that they can hold.
pub fn tally_dir_best_effort(listing: &TreeListing) -> (tally: (u64, u64))
    ensures
        tally.0 == clamped(listing_bytes(*listing)),
        tally.1 == clamped(listing_count(*listing)),
    decreases listing,
{
    let read = match listing {
        TreeListing::Entries(read) => read,
        TreeListing::Unreadable => {
            return (0, 0);
        },
    };
    let mut bytes: u64 = 0;
    let mut entries: u64 = 0;
    let mut i: usize = 0;
    assert(read@.take(0) =~= Seq::<TreeEntry>::empty());
    while i < read.len()
        invariant
            i <= read@.len(),
            *listing == TreeListing::Entries(*read),
            bytes == clamped(entries_bytes(read@.take(i as int))),
            entries == clamped(entries_count(read@.take(i as int))),
        decreases read@.len() - i,
    {
        let ghost upto = read@.take(i + 1);
        assert(upto.drop_last() =~= read@.take(i as int));
        assert(upto.last() == read@[i as int]);
        assert(entry_count(upto.last()) >= 1);
        assert(entry_bytes(upto.last()) >= 0);
        entries = entries.saturating_add(1);
        match &read[i] {
            TreeEntry::Directory(below) => {
                proof {
                    assert(decreases_to!(*listing => listing->Entries_0));
                    assert(decreases_to!(listing->Entries_0 => listing->Entries_0@));
                    assert(decreases_to!(listing->Entries_0@ => listing->Entries_0@[i as int]));
                    assert(decreases_to!(read@[i as int] => read@[i as int]->Directory_0));
                    assert(listing_bytes(*below) >= 0);
                    assert(listing_count(*below) >= 0);
                }
                let (b, e) = tally_dir_best_effort(below);
                bytes = bytes.saturating_add(b);
                entries = entries.saturating_add(e);
            },
            TreeEntry::Leaf(size) => {
                if let Some(size) = size {
                    bytes = bytes.saturating_add(*size);
                }
            },
            TreeEntry::Unknown => {},
        }
        i += 1;
    }
    assert(read@.take(i as int) =~= read@);
    (bytes, entries)
}

/// A directory that holds an entry has a tally above nothing.
pub proof fn law_held_entry_is_counted(entries: Seq<TreeEntry>)
    requires
        entries.len() > 0,
    ensures
        entries_count(entries) >= entries.len(),
        clamped(entries_count(entries)) > 0,
    decreases entries.len(),
{
    assert(entry_count(entries.last()) >= 1);
    if entries.len() > 1 {
        law_held_entry_is_counted(entries.drop_last());
    } else {
        assert(entries_count(entries.drop_last()) == 0);
    }
}

/// The totals of two parts of a listing add up to those of the whole.
pub proof fn law_tally_adds_up(a: Seq<TreeEntry>, b: Seq<TreeEntry>)
    ensures
        entries_bytes(a + b) == entries_bytes(a) + entries_bytes(b),
        entries_count(a + b) == entries_count(a) + entries_count(b),
    decreases b.len(),
{
    if b.len() == 0 {
        assert(a + b =~= a);
    } else {
        law_tally_adds_up(a, b.drop_last());
        assert((a + b).drop_last() =~= a + b.drop_last());
    }
}

/// An entry adds its own totals to those of the others, wherever it stands.
proof fn lemma_tally_without(entries: Seq<TreeEntry>, i: int)
    requires
        0 <= i < entries.len(),
    ensures
        entries_bytes(entries) == entries_bytes(entries.remove(i)) + entry_bytes(entries[i]),
        entries_count(entries) == entries_count(entries.remove(i)) + entry_count(entries[i]),
{
    let front = entries.take(i);
    let back = entries.skip(i + 1);
    let whole = front.push(entries[i]);
    assert(whole.drop_last() =~= front);
    assert(entries =~= whole + back);
    assert(entries.remove(i) =~= front + back);
    law_tally_adds_up(whole, back);
    law_tally_adds_up(front, back);
}

/// Whether two entries hold the same but for the order of the entries below
/// them, at any depth.
pub open spec fn entry_alike(a: TreeEntry, b: TreeEntry) -> bool
    decreases a,
{
    match (a, b) {
        (TreeEntry::Directory(x), TreeEntry::Directory(y)) => listing_alike(x, y),
        _ => a == b,
    }
}

/// Whether two directories hold the same but for the order of their entries,
/// at any depth.
pub open spec fn listing_alike(a: TreeListing, b: TreeListing) -> bool
    decreases a,
{
    match (a, b) {
        (TreeListing::Entries(x), TreeListing::Entries(y)) => entries_alike(x@, y@),
        _ => a == b,
    }
}

/// Whether the entries of two lists can be paired off, each with one that is
/// the same but for the order of the entries below it, at any depth.
pub open spec fn entries_alike(a: Seq<TreeEntry>, b: Seq<TreeEntry>) -> bool
    decreases a,
{
    if a.len() == 0 {
        b.len() == 0
    } else {
        exists|j: int|
            0 <= j < b.len() && entry_alike(a.last(), #[trigger] b[j]) && entries_alike(
                a.drop_last(),
                b.remove(j),
            )
    }
}

/// The order in which a walk meets entries does not change the tally: two
/// directories that hold the same but for the order of entries, at any depth,
/// have the same totals.
pub proof fn law_tally_ignores_order(a: TreeListing, b: TreeListing)
    requires
        listing_alike(a, b),
    ensures
        listing_bytes(a) == listing_bytes(b),
        listing_count(a) == listing_count(b),
    decreases a,
{
    match (a, b) {
        (TreeListing::Entries(x), TreeListing::Entries(y)) => {
            assert(decreases_to!(a => a->Entries_0));
            assert(decreases_to!(a->Entries_0 => a->Entries_0@));
            lemma_alike_entries_tally_alike(x@, y@);
        },
        _ => {},
    }
}

proof fn lemma_alike_entries_tally_alike(a: Seq<TreeEntry>, b: Seq<TreeEntry>)
    requires
        entries_alike(a, b),
    ensures
        entries_bytes(a) == entries_bytes(b),
        entries_count(a) == entries_count(b),
    decreases a,
{
    if a.len() > 0 {
        let last = a.last();
        let j = choose|j: int|
            0 <= j < b.len() && entry_alike(last, #[trigger] b[j]) && entries_alike(
                a.drop_last(),
                b.remove(j),
            );
        assert(decreases_to!(a => a[a.len() - 1]));
        match (last, b[j]) {
            (TreeEntry::Directory(x), TreeEntry::Directory(y)) => {
                assert(decreases_to!(last => last->Directory_0));
                law_tally_ignores_order(x, y);
            },
            _ => {},
        }
        assert(entry_bytes(last) == entry_bytes(b[j]));
        assert(entry_count(last) == entry_count(b[j]));
        lemma_alike_entries_tally_alike(a.drop_last(), b.remove(j));
        lemma_tally_without(b, j);
    }
}

/// An entry is the same as itself.
proof fn lemma_entry_alike_itself(a: TreeEntry)
    ensures
        entry_alike(a, a),
    decreases a,
{
    match a {
        TreeEntry::Directory(listing) => {
            match listing {
                TreeListing::Entries(x) => {
                    assert(decreases_to!(a => a->Directory_0));
                    assert(decreases_to!(listing => listing->Entries_0));
                    assert(decreases_to!(listing->Entries_0 => listing->Entries_0@));
                    law_same_entries_are_alike(x@, x@);
                },
                TreeListing::Unreadable => {},
            }
        },
        _ => {},
    }
}

/// Two lists with the same entries, each as often, can be paired off.
pub proof fn law_same_entries_are_alike(a: Seq<TreeEntry>, b: Seq<TreeEntry>)
    requires
        a.to_multiset() == b.to_multiset(),
    ensures
        entries_alike(a, b),
    decreases a,
{
    a.to_multiset_ensures();
    b.to_multiset_ensures();
    if a.len() > 0 {
        let last = a.last();
        assert(a.contains(last));
        assert(b.to_multiset().count(last) > 0);
        assert(b.contains(last));
        let j = choose|j: int| 0 <= j < b.len() && b[j] == last;
        assert(a.remove(a.len() - 1) =~= a.drop_last());
        assert(decreases_to!(a => a[a.len() - 1]));
        lemma_entry_alike_itself(last);
        law_same_entries_are_alike(a.drop_last(), b.remove(j));
        assert(entry_alike(last, b[j]));
    }
}

/// One entry alone: a leaf has the bytes of its size, or none where that could
/// not be read; a directory has those of what it lists; an entry of unknown
/// kind has none. Each counts as one, a directory with all that it lists.
pub proof fn law_one_entry(size: u64, below: TreeListing)
    ensures
        entries_bytes(seq![TreeEntry::Leaf(Some(size))]) == size,
        entries_bytes(seq![TreeEntry::Leaf(None)]) == 0,
        entries_bytes(seq![TreeEntry::Unknown]) == 0,
        entries_bytes(seq![TreeEntry::Directory(below)]) == listing_bytes(below),
        entries_count(seq![TreeEntry::Leaf(Some(size))]) == 1,
        entries_count(seq![TreeEntry::Leaf(None)]) == 1,
        entries_count(seq![TreeEntry::Unknown]) == 1,
        entries_count(seq![TreeEntry::Directory(below)]) == 1 + listing_count(below),
{
    lemma_one_entry(TreeEntry::Leaf(Some(size)));
    lemma_one_entry(TreeEntry::Leaf(None));
    lemma_one_entry(TreeEntry::Unknown);
    lemma_one_entry(TreeEntry::Directory(below));
    assert(entry_bytes(TreeEntry::Leaf(Some(size))) == size);
    assert(entry_bytes(TreeEntry::Directory(below)) == listing_bytes(below));
    assert(entry_count(TreeEntry::Directory(below)) == 1 + listing_count(below));
}

proof fn lemma_one_entry(entry: TreeEntry)
    ensures
        entries_bytes(seq![entry]) == entry_bytes(entry),
        entries_count(seq![entry]) == entry_count(entry),
{
    assert(seq![entry].drop_last() =~= Seq::<TreeEntry>::empty());
    assert(entries_bytes(Seq::<TreeEntry>::empty()) == 0);
    assert(entries_count(Seq::<TreeEntry>::empty()) == 0);
    assert(seq![entry].last() == entry);
}

/// A directory has the totals of its entries, and none where it could not be
/// read.
pub proof fn law_directory_has_its_entries(entries: Vec<TreeEntry>)
    ensures
        listing_bytes(TreeListing::Entries(entries)) == entries_bytes(entries@),
        listing_count(TreeListing::Entries(entries)) == entries_count(entries@),
        listing_bytes(TreeListing::Unreadable) == 0,
        listing_count(TreeListing::Unreadable) == 0,
        entries_bytes(Seq::<TreeEntry>::empty()) == 0,
        entries_count(Seq::<TreeEntry>::empty()) == 0,
{
}

/// A total is reported as it is while 64 bits can hold it, and as the largest
/// number that they can hold from there on.
pub proof fn law_totals_saturate(n: nat, held: u64)
    ensures
        n == held ==> clamped(n) == held,
        n > u64::MAX ==> clamped(n) == 0xffff_ffff_ffff_ffff,
{
}

/// A file adds its size to the bytes of a listing, and one to its entries,
/// wherever it stands among the others.
pub proof fn law_file_adds_its_size(before: Seq<TreeEntry>, size: u64, behind: Seq<TreeEntry>)
    ensures
        entries_bytes(before + seq![TreeEntry::Leaf(Some(size))] + behind) == entries_bytes(
            before + behind,
        ) + size,
        entries_count(before + seq![TreeEntry::Leaf(Some(size))] + behind) == entries_count(
            before + behind,
        ) + 1,
{
    let file = seq![TreeEntry::Leaf(Some(size))];
    law_one_entry(size, TreeListing::Unreadable);
    law_tally_adds_up(before + file, behind);
    law_tally_adds_up(before, file);
    law_tally_adds_up(before, behind);
}

} // verus!
