//! What the library knows of one entry of the directory being split.
use vstd::prelude::*;

verus! {

/// One immediate child of the directory: its base name, whether it is a regular
/// file (an entry whose type could not be read counts as not one), and what a
/// comparison may sort by besides the name: its size in bytes and its time of
/// last modification in nanoseconds since the Unix epoch, where known.
#[derive(Debug, Clone)]
pub struct Entry {
    pub name: String,
    pub is_file: bool,
    pub size: u64,
    pub modified: Option<u128>,
}

impl Entry {
    /// An entry with the given base name and kind, of size 0 and with no known
    /// modification time.
    pub fn new(name: String, is_file: bool) -> (r: Entry)
        ensures
            r.name == name,
            r.is_file == is_file,
            r.size == 0,
            r.modified.is_none(),
    {
        Entry { name, is_file, size: 0, modified: None }
    }

    /// An entry with the given base name, kind, size and modification time.
    pub fn with_metadata(name: String, is_file: bool, size: u64, modified: Option<u128>) -> (r: Entry)
        ensures
            r.name == name,
            r.is_file == is_file,
            r.size == size,
            r.modified == modified,
    {
        Entry { name, is_file, size, modified }
    }
}

/// The regular files of `s`, in the order in which they stand there.
pub open spec fn regular_of(s: Seq<Entry>) -> Seq<Entry>
    decreases s.len(),
{
    if s.len() == 0 {
        Seq::empty()
    } else {
        let rest = regular_of(s.drop_last());
        if s.last().is_file {
            rest.push(s.last())
        } else {
            rest
        }
    }
}

/// The base names of `s`, position by position.
pub open spec fn names_of(s: Seq<Entry>) -> Seq<String> {
    s.map_values(|e: Entry| e.name)
}

/// Keeps the regular files of a listing and drops everything else
/// (directories, symbolic links, special files).
pub fn regular_files(entries: &Vec<Entry>) -> (r: Vec<Entry>)
    ensures
        r@ == regular_of(entries@),
{
    let mut r: Vec<Entry> = Vec::new();
    let mut i: usize = 0;
    while i < entries.len()
        invariant
            i <= entries.len(),
            r@ == regular_of(entries@.take(i as int)),
        decreases entries.len() - i,
    {
        assert(entries@.take(i + 1).drop_last() =~= entries@.take(i as int));
        if entries[i].is_file {
            r.push(
                Entry {
                    name: entries[i].name.clone(),
                    is_file: true,
                    size: entries[i].size,
                    modified: entries[i].modified,
                },
            );
        }
        i += 1;
    }
    assert(entries@.take(entries.len() as int) =~= entries@);
    r
}

/// The base names of `entries`, in their order.
pub fn entry_names(entries: &Vec<Entry>) -> (r: Vec<String>)
    ensures
        r@ == names_of(entries@),
{
    let mut r: Vec<String> = Vec::new();
    let mut i: usize = 0;
    while i < entries.len()
        invariant
            i <= entries.len(),
            r@ == names_of(entries@.take(i as int)),
        decreases entries.len() - i,
    {
        r.push(entries[i].name.clone());
        assert(names_of(entries@.take(i + 1)) =~= names_of(entries@.take(i as int)).push(
            entries@[i as int].name,
        ));
        i += 1;
    }
    assert(entries@.take(entries.len() as int) =~= entries@);
    r
}

/// Only regular files are kept, and every one of them is: an entry of the result
/// is a regular file of the listing, and each regular file of the listing is in
/// the result, as often as it is listed.
pub proof fn lemma_regular_only(s: Seq<Entry>)
    ensures
        forall|k: int| 0 <= k < regular_of(s).len() ==> (#[trigger] regular_of(s)[k]).is_file,
        forall|e: Entry| #[trigger] regular_of(s).contains(e) ==> s.contains(e),
        forall|e: Entry| e.is_file ==> regular_of(s).to_multiset().count(e) == #[trigger] s.to_multiset().count(e),
        forall|e: Entry| !e.is_file ==> #[trigger] regular_of(s).to_multiset().count(e) == 0,
    decreases s.len(),
{
    broadcast use vstd::seq_lib::group_seq_properties;
    if s.len() > 0 {
        let t = s.drop_last();
        lemma_regular_only(t);
        assert(s =~= t.push(s.last()));
        assert forall|e: Entry| #[trigger] regular_of(s).contains(e) implies s.contains(e) by {
            if regular_of(t).contains(e) {
                let k = choose|k: int| 0 <= k < t.len() && t[k] == e;
                assert(s[k] == e);
            } else {
                assert(s[s.len() - 1] == e);
            }
        }
    } else {
        assert(regular_of(s) =~= Seq::<Entry>::empty());
    }
}

} // verus!
