//! Configuring a split, and planning which files go into which directory.
use std::cmp::Ordering;
use vstd::prelude::*;
use crate::entry::{Entry, entry_names, names_of, regular_files, regular_of, lemma_regular_only};
use crate::naming::{DecimalName, DirectoryNaming, NameFn, decimal, usize_to_decimal};
use crate::order::{CmpFn, EntryOrder, NaturalOrder, follows, is_total, is_total_order, lemma_sorted_is_unique, natord_compare, natural_order, reversed, separates, sort_entries, sorts_stably};
use crate::partition::{chunk_count, chunk_of, partition, placed_at, drawn_from, group_of, offset_of, lemma_chunk_count_is_ceiling, lemma_partition_is_exact};

verus! {

/// Files per destination directory when the caller does not say.
pub const DEFAULT_CHUNK: usize = 4400;

/// Why a split was refused or stopped.
#[derive(Debug, Clone, PartialEq, Eq)]
pub enum SplitError {
    /// No root directory was given, or the chunk size is zero. Nothing was touched.
    InvalidConfiguration,
    /// The root directory could not be listed. Nothing was touched.
    DirectoryAccess { path: String },
    /// A destination path exists and is not a directory. Earlier groups stay moved.
    DestinationConflict { path: String },
    /// A file could not be moved. What was moved before stays moved.
    Relocation { path: String },
}

/// One group of files and the directory they go to.
#[derive(Debug, Clone)]
pub struct Chunk {
    /// Name of the destination directory, directly under the root.
    pub directory: String,
    /// Base names of the files, in the established order.
    pub files: Vec<String>,
}

/// `chunks` is the plan for the ordered files `order` in groups of `c`: one group
/// per index, group `i` holding the names at positions `[i * c, min((i + 1) * c, n))`
/// and going to the directory that `naming` gives index `i`.
pub open spec fn planned<N: DirectoryNaming>(chunks: Seq<Chunk>, order: Seq<Entry>, c: nat, naming: N) -> bool {
    &&& chunks.len() == chunk_count(order.len(), c)
    &&& forall|i: int| 0 <= i < chunks.len() ==> (#[trigger] chunks[i]).files@ == chunk_of(names_of(order), c, i)
    &&& forall|i: int| 0 <= i < chunks.len() ==> naming.names_as(i as usize, (#[trigger] chunks[i]).directory)
}

/// `chunks` is the plan of the listing `entries`: `order` holds its regular files,
/// each as often as it is listed, sorted by every total order that `cmp`
/// compares as, with files that compare equal in the order they are listed, and `chunks` cuts `order` into groups of `c`
/// named by `naming`.
pub open spec fn plans_listing<C: EntryOrder, N: DirectoryNaming>(
    chunks: Seq<Chunk>,
    order: Seq<Entry>,
    entries: Seq<Entry>,
    cmp: C,
    c: nat,
    naming: N,
) -> bool {
    &&& order.to_multiset() == regular_of(entries).to_multiset()
    &&& sorts_stably(order, regular_of(entries), cmp)
    &&& planned(chunks, order, c, naming)
}

/// A split ready to run: a root directory, a positive chunk size, an order and a
/// naming rule, none of which changes afterwards.
pub struct FileSplitToDirectory<C, N> {
    path: String,
    chunk: usize,
    sort_cmp: C,
    directory_name: N,
}

impl<C: EntryOrder, N: DirectoryNaming> FileSplitToDirectory<C, N> {
    /// The root directory.
    pub closed spec fn spec_path(&self) -> String {
        self.path
    }

    /// The number of files per destination directory.
    pub closed spec fn spec_chunk(&self) -> nat {
        self.chunk as nat
    }

    /// The order the files are grouped in.
    pub closed spec fn spec_sort_cmp(&self) -> C {
        self.sort_cmp
    }

    /// The rule that names the destination directories.
    pub closed spec fn spec_directory_name(&self) -> N {
        self.directory_name
    }

    /// Holds of every split that `build` returns.
    pub open spec fn wf(&self) -> bool {
        self.spec_chunk() > 0
    }

    /// The root directory.
    pub fn path(&self) -> (r: &String)
        ensures
            *r == self.spec_path(),
    {
        &self.path
    }

    /// The number of files per destination directory.
    pub fn chunk(&self) -> (r: usize)
        ensures
            r == self.spec_chunk(),
    {
        self.chunk
    }

    /// Decides which regular files of the listing `entries` go into which
    /// directory: they are sorted by the split's order (files that compare equal
    /// keep the order of the listing), cut into consecutive
    /// groups of the chunk size, and group `i` goes to the directory that the
    /// naming rule gives `i`. Everything else in the listing stays where it is.
    pub fn plan(&self, entries: Vec<Entry>) -> (r: Vec<Chunk>)
        requires
            self.wf(),
            forall|a: Entry, b: Entry| self.spec_sort_cmp().can_compare(a, b),
            is_total_order(self.spec_sort_cmp()),
            forall|i: usize|
                i < chunk_count(regular_of(entries@).len(), self.spec_chunk()) ==> #[trigger] self.spec_directory_name().can_name(i),
        ensures
            exists|order: Seq<Entry>|
                #[trigger] plans_listing(
                    r@,
                    order,
                    entries@,
                    self.spec_sort_cmp(),
                    self.spec_chunk(),
                    self.spec_directory_name(),
                ),
    {
        proof {
            assert forall|a: Entry, b: Entry| self.sort_cmp.can_compare(a, b) by {
                assert(self.spec_sort_cmp().can_compare(a, b));
            }
            assert(self.spec_sort_cmp() == self.sort_cmp);
            assert(self.spec_chunk() == self.chunk as nat && self.spec_directory_name() == self.directory_name);
        }
        let files = regular_files(&entries);
        let sorted = sort_entries(files, &self.sort_cmp);
        let names = entry_names(&sorted);
        let groups = partition(&names, self.chunk);
        let mut r: Vec<Chunk> = Vec::new();
        let mut i: usize = 0;
        let n_groups = groups.len();
        let mut rest = groups;
        let ghost all = groups@;
        proof {
            lemma_chunk_count_is_ceiling(names.len() as nat, self.chunk as nat);
        }
        while i < n_groups
            invariant
                n_groups == all.len(),
                all.len() == chunk_count(names.len() as nat, self.chunk as nat),
                all.len() <= names.len(),
                forall|k: int| 0 <= k < all.len() ==> #[trigger] all[k]@ == chunk_of(names@, self.chunk as nat, k),
                i <= all.len(),
                rest@ == all.subrange(i as int, all.len() as int),
                r.len() == i,
                forall|k: int| 0 <= k < i ==> (#[trigger] r[k]).files@ == chunk_of(names@, self.chunk as nat, k),
                forall|k: int| 0 <= k < i ==> self.directory_name.names_as(k as usize, (#[trigger] r[k]).directory),
                forall|k: usize| k < all.len() ==> #[trigger] self.directory_name.can_name(k),
            decreases all.len() - i,
        {
            let files = rest.remove(0);
            let directory = self.directory_name.directory_name(i);
            r.push(Chunk { directory, files });
            assert(rest@ =~= all.subrange(i + 1, all.len() as int));
            i += 1;
        }
        assert(plans_listing(r@, sorted@, entries@, self.spec_sort_cmp(), self.spec_chunk(), self.spec_directory_name()));
        r
    }
}

/// What becomes of a group's destination path.
#[derive(Debug, Clone, Copy, PartialEq, Eq)]
pub enum DestinationAction {
    /// Nothing stands there: create the directory.
    Create,
    /// A directory stands there: move the files into it as it is.
    Reuse,
}

/// Decides what to do with the destination path `path` of a group, given whether
/// something exists there and whether it is a directory.
pub fn destination_action(exists: bool, is_dir: bool, path: String) -> (r: Result<DestinationAction, SplitError>)
    ensures
        !exists ==> r == Ok::<DestinationAction, SplitError>(DestinationAction::Create),
        exists && is_dir ==> r == Ok::<DestinationAction, SplitError>(DestinationAction::Reuse),
        exists && !is_dir ==> r == Err::<DestinationAction, SplitError>(SplitError::DestinationConflict { path }),
{
    if !exists {
        Ok(DestinationAction::Create)
    } else if is_dir {
        Ok(DestinationAction::Reuse)
    } else {
        Err(SplitError::DestinationConflict { path })
    }
}

/// Collects the settings of a split: the root directory (required), the chunk
/// size, the order and the naming rule.
pub struct FileSplitToDirectoryBuilder<C, N> {
    pub path: Option<String>,
    pub chunk: usize,
    pub sort_cmp: C,
    pub directory_name: N,
}

impl FileSplitToDirectoryBuilder<NaturalOrder, DecimalName> {
    /// Natural ascending order of the base names (`2.tmp` before `10.tmp`).
    pub fn default_sort_cmp(a: &Entry, b: &Entry) -> (r: Ordering)
        ensures
            r == natural_order(a.name@, b.name@),
            a.name@ == b.name@ ==> r == Ordering::Equal,
            natural_order(b.name@, a.name@) == reversed(r),
            forall|c: Seq<char>|
                r != Ordering::Greater && #[trigger] natural_order(b.name@, c) != Ordering::Greater
                    ==> natural_order(a.name@, c) != Ordering::Greater,
    {
        natord_compare(a.name.as_str(), b.name.as_str())
    }

    /// Group `i`'s index in decimal.
    pub fn default_directory_name(i: usize) -> (r: String)
        ensures
            r@ == decimal(i as nat),
    {
        usize_to_decimal(i)
    }
}

impl Default for FileSplitToDirectoryBuilder<NaturalOrder, DecimalName> {
    /// No root yet, chunks of 4400, natural order, decimal names.
    fn default() -> (r: Self)
        ensures
            r.path.is_none(),
            r.chunk == DEFAULT_CHUNK,
    {
        FileSplitToDirectoryBuilder {
            path: None,
            chunk: DEFAULT_CHUNK,
            sort_cmp: NaturalOrder,
            directory_name: DecimalName,
        }
    }
}

impl<C: EntryOrder, N: DirectoryNaming> FileSplitToDirectoryBuilder<C, N> {
    /// Sets the root directory.
    pub fn with_path(self, path: String) -> (r: Self)
        ensures
            r.path == Some(path),
            r.chunk == self.chunk,
            r.sort_cmp == self.sort_cmp,
            r.directory_name == self.directory_name,
    {
        FileSplitToDirectoryBuilder { path: Some(path), ..self }
    }

    /// Sets the number of files per destination directory.
    pub fn with_chunk(self, chunk: usize) -> (r: Self)
        ensures
            r.path == self.path,
            r.chunk == chunk,
            r.sort_cmp == self.sort_cmp,
            r.directory_name == self.directory_name,
    {
        FileSplitToDirectoryBuilder { chunk, ..self }
    }

    /// Replaces the order with the comparison `sort_cmp`.
    pub fn with_sort_cmp<F: Fn(&Entry, &Entry) -> Ordering>(self, sort_cmp: F) -> (r: FileSplitToDirectoryBuilder<CmpFn<F>, N>)
        ensures
            r.path == self.path,
            r.chunk == self.chunk,
            r.sort_cmp == CmpFn(sort_cmp),
            r.directory_name == self.directory_name,
    {
        FileSplitToDirectoryBuilder {
            path: self.path,
            chunk: self.chunk,
            sort_cmp: CmpFn(sort_cmp),
            directory_name: self.directory_name,
        }
    }

    /// Replaces the naming rule with `directory_name`.
    pub fn with_directory_name<F: Fn(usize) -> String>(self, directory_name: F) -> (r: FileSplitToDirectoryBuilder<C, NameFn<F>>)
        ensures
            r.path == self.path,
            r.chunk == self.chunk,
            r.sort_cmp == self.sort_cmp,
            r.directory_name == NameFn(directory_name),
    {
        FileSplitToDirectoryBuilder {
            path: self.path,
            chunk: self.chunk,
            sort_cmp: self.sort_cmp,
            directory_name: NameFn(directory_name),
        }
    }

    /// The split these settings describe; refused when no root was given or the
    /// chunk size is zero.
    pub fn build(self) -> (r: Result<FileSplitToDirectory<C, N>, SplitError>)
        ensures
            (self.path.is_none() || self.chunk == 0) <==> r is Err,
            r is Err ==> r == Err::<FileSplitToDirectory<C, N>, SplitError>(SplitError::InvalidConfiguration),
            r is Ok ==> {
                let op = r->Ok_0;
                &&& op.wf()
                &&& Some(op.spec_path()) == self.path
                &&& op.spec_chunk() == self.chunk
                &&& op.spec_sort_cmp() == self.sort_cmp
                &&& op.spec_directory_name() == self.directory_name
            },
    {
        if self.chunk == 0 {
            return Err(SplitError::InvalidConfiguration);
        }
        match self.path {
            Some(path) => Ok(
                FileSplitToDirectory {
                    path,
                    chunk: self.chunk,
                    sort_cmp: self.sort_cmp,
                    directory_name: self.directory_name,
                },
            ),
            None => Err(SplitError::InvalidConfiguration),
        }
    }
}

/// The number of destination directories is the ceiling of `n / c` for the `n`
/// regular files of the listing in chunks of `c`: none when there are no files.
pub proof fn lemma_directory_count<C: EntryOrder, N: DirectoryNaming>(
    chunks: Seq<Chunk>,
    order: Seq<Entry>,
    entries: Seq<Entry>,
    cmp: C,
    c: nat,
    naming: N,
)
    requires
        c > 0,
        plans_listing(chunks, order, entries, cmp, c, naming),
    ensures
        chunks.len() == chunk_count(regular_of(entries).len(), c),
        regular_of(entries).len() == 0 <==> chunks.len() == 0,
        chunks.len() * c >= regular_of(entries).len(),
        regular_of(entries).len() > 0 ==> (chunks.len() - 1) * c < regular_of(entries).len(),
{
    order.to_multiset_ensures();
    regular_of(entries).to_multiset_ensures();
    lemma_chunk_count_is_ceiling(order.len(), c);
}

/// Item `j` of group `i` is the file at position `i * c + j` of `order`.
pub open spec fn from_position(chunks: Seq<Chunk>, order: Seq<Entry>, c: nat, i: int, j: int) -> bool {
    &&& 0 <= i * c + j < order.len()
    &&& chunks[i].files@[j] == order[i * c + j].name
}

/// Every planned file comes from the listing and every regular file of it is
/// planned exactly once: `order` holds the regular files, each as often as it is
/// listed, and nothing else; the file at position `k` of `order` is item `k % c`
/// of group `k / c`; and item `j` of group `i` is the file at position `i * c + j`.
pub proof fn lemma_each_file_once<C: EntryOrder, N: DirectoryNaming>(
    chunks: Seq<Chunk>,
    order: Seq<Entry>,
    entries: Seq<Entry>,
    cmp: C,
    c: nat,
    naming: N,
)
    requires
        c > 0,
        plans_listing(chunks, order, entries, cmp, c, naming),
    ensures
        forall|e: Entry| #[trigger] order.to_multiset().count(e) == (if e.is_file { entries.to_multiset().count(e) } else { 0 }),
        forall|k: int|
            0 <= k < order.len() ==> {
                &&& 0 <= #[trigger] group_of(k, c) < chunks.len()
                &&& 0 <= offset_of(k, c) < chunks[group_of(k, c)].files.len()
                &&& chunks[group_of(k, c)].files@[offset_of(k, c)] == order[k].name
            },
        forall|i: int, j: int|
            0 <= i < chunks.len() && 0 <= j < chunks[i].files.len() ==> #[trigger] from_position(chunks, order, c, i, j),
{
    lemma_regular_only(entries);
    let names = names_of(order);
    lemma_partition_is_exact(names, c);
    assert forall|k: int| 0 <= k < order.len() implies {
        &&& 0 <= #[trigger] group_of(k, c) < chunks.len()
        &&& 0 <= offset_of(k, c) < chunks[group_of(k, c)].files.len()
        &&& chunks[group_of(k, c)].files@[offset_of(k, c)] == order[k].name
    } by {
        assert(placed_at(names, c, k));
    }
    assert forall|i: int, j: int| 0 <= i < chunks.len() && 0 <= j < chunks[i].files.len() implies #[trigger] from_position(chunks, order, c, i, j) by {
        assert(chunks[i].files@ == chunk_of(names, c, i));
        assert(drawn_from(names, c, i, j));
    }
}

/// Under a total order `f` that ties no two different entries, the plan depends only
/// on the regular files of the listing, not on the order they were listed in: two
/// plans of listings with the same regular files, in chunks of the same size, put
/// every file in the same group, and, with a naming rule that gives each index
/// one name, send each group to the same directory.
pub proof fn lemma_plan_reproducible<C: EntryOrder, N: DirectoryNaming>(
    a: Seq<Chunk>,
    order_a: Seq<Entry>,
    entries_a: Seq<Entry>,
    b: Seq<Chunk>,
    order_b: Seq<Entry>,
    entries_b: Seq<Entry>,
    cmp: C,
    f: spec_fn(Entry, Entry) -> Ordering,
    c: nat,
    naming: N,
)
    requires
        is_total(f),
        follows(cmp, f),
        separates(f),
        regular_of(entries_a).to_multiset() == regular_of(entries_b).to_multiset(),
        plans_listing(a, order_a, entries_a, cmp, c, naming),
        plans_listing(b, order_b, entries_b, cmp, c, naming),
    ensures
        a.len() == b.len(),
        forall|i: int| 0 <= i < a.len() ==> (#[trigger] a[i]).files@ == b[i].files@,
        (forall|i: usize, x: String, y: String| naming.names_as(i, x) && naming.names_as(i, y) ==> x == y)
            ==> forall|i: int| 0 <= i < a.len() ==> (#[trigger] a[i]).directory == b[i].directory,
{
    lemma_sorted_is_unique(order_a, order_b, f);
    assert forall|i: int| 0 <= i < a.len() implies (#[trigger] a[i]).files@ == b[i].files@ by {
        assert(a[i].files@ == chunk_of(names_of(order_a), c, i));
        assert(b[i].files@ == chunk_of(names_of(order_a), c, i));
    }
    if forall|i: usize, x: String, y: String| naming.names_as(i, x) && naming.names_as(i, y) ==> x == y {
        assert forall|i: int| 0 <= i < a.len() implies (#[trigger] a[i]).directory == b[i].directory by {
            assert(naming.names_as(i as usize, a[i].directory));
            assert(naming.names_as(i as usize, b[i].directory));
        }
    }
}

} // verus!
