//! The order in which entries are grouped: natural order by default, or any
//! comparison the caller supplies.
use std::cmp::Ordering;
use itertools::Itertools;
use vstd::prelude::*;
use crate::entry::Entry;
use crate::splitter::FileSplitToDirectoryBuilder;

verus! {

/// What natord's case-sensitive natural comparison returns for two strings.
pub uninterp spec fn natural_order(a: Seq<char>, b: Seq<char>) -> Ordering;

/// Relies on natord::compare (through `compare_iter`). It reads each string as a
/// sequence of tokens: each maximal run of ASCII digits is one token, every other
/// character but whitespace is one token, and whitespace is dropped (it only
/// splits runs). Runs are ordered among themselves (a run starting with `0`
/// before any other, those digit by digit with the shorter first on a common
/// prefix; the others by numeric value); a run against a character goes by the
/// code point of its first digit; characters go by code point. The two sequences
/// are then compared token by token, a sequence that ends first going first. The
/// code treats its two arguments alike, so swapping them reverses the result, and
/// as a lexicographic order over a total order of tokens it is transitive. The
/// result depends on the two strings alone, and a string equals itself.
#[verifier::external_body]
pub(crate) fn natord_compare(a: &str, b: &str) -> (r: Ordering)
    ensures
        r == natural_order(a@, b@),
        a@ == b@ ==> r == Ordering::Equal,
        natural_order(b@, a@) == reversed(r),
        forall|c: Seq<char>|
            r != Ordering::Greater && #[trigger] natural_order(b@, c) != Ordering::Greater
                ==> natural_order(a@, c) != Ordering::Greater,
{
    natord::compare(a, b)
}

/// A comparison of two entries. Sorting by it asks that it be a total order on
/// them (see `is_total_order`).
pub trait EntryOrder {
    /// The entries on which `compare` may be called.
    spec fn can_compare(&self, a: Entry, b: Entry) -> bool;

    /// Whether `compare(a, b)` may return `o`.
    spec fn gives(&self, a: Entry, b: Entry, o: Ordering) -> bool;

    /// Whether `a` goes before, with, or after `b`.
    fn compare(&self, a: &Entry, b: &Entry) -> (r: Ordering)
        requires
            self.can_compare(*a, *b),
        ensures
            self.gives(*a, *b, r),
    ;
}

/// `o` seen from the other side.
pub open spec fn reversed(o: Ordering) -> Ordering {
    match o {
        Ordering::Less => Ordering::Greater,
        Ordering::Equal => Ordering::Equal,
        Ordering::Greater => Ordering::Less,
    }
}

/// `f` is a total order: swapping the arguments reverses the result, and "not
/// after" is transitive.
pub open spec fn is_total(f: spec_fn(Entry, Entry) -> Ordering) -> bool {
    &&& forall|a: Entry, b: Entry| #[trigger] f(b, a) == reversed(f(a, b))
    &&& forall|a: Entry, b: Entry, c: Entry|
        #[trigger] f(a, b) != Ordering::Greater && #[trigger] f(b, c) != Ordering::Greater
            ==> f(a, c) != Ordering::Greater
}

/// Every result `order` gives is the one `f` gives.
pub open spec fn follows<C: EntryOrder>(order: C, f: spec_fn(Entry, Entry) -> Ordering) -> bool {
    forall|a: Entry, b: Entry, o: Ordering| #[trigger] order.gives(a, b, o) ==> o == f(a, b)
}

/// `order` compares as some total order does.
pub open spec fn is_total_order<C: EntryOrder>(order: C) -> bool {
    exists|f: spec_fn(Entry, Entry) -> Ordering| is_total(f) && #[trigger] follows(order, f)
}

/// No entry of `s` comes after a later one under `f`.
pub open spec fn is_sorted_by(s: Seq<Entry>, f: spec_fn(Entry, Entry) -> Ordering) -> bool {
    forall|i: int, j: int| 0 <= i < j < s.len() ==> f(#[trigger] s[i], #[trigger] s[j]) != Ordering::Greater
}

/// The natural order of entries by base name.
pub open spec fn natural_entry_order() -> spec_fn(Entry, Entry) -> Ordering {
    |a: Entry, b: Entry| natural_order(a.name@, b.name@)
}

/// `NaturalOrder` compares as `natural_entry_order` does.
pub proof fn lemma_natural_follows()
    ensures
        follows(NaturalOrder, natural_entry_order()),
{
}

/// Natural ascending order of the base names. It compares as
/// `natural_entry_order` does (`lemma_natural_follows`); `natord_compare` states
/// the order laws of natord's comparison for each pair of names it is called on.
#[derive(Debug, Clone, Copy)]
pub struct NaturalOrder;

impl EntryOrder for NaturalOrder {
    open spec fn can_compare(&self, a: Entry, b: Entry) -> bool {
        true
    }

    open spec fn gives(&self, a: Entry, b: Entry, o: Ordering) -> bool {
        o == natural_order(a.name@, b.name@)
    }

    fn compare(&self, a: &Entry, b: &Entry) -> Ordering {
        FileSplitToDirectoryBuilder::default_sort_cmp(a, b)
    }
}

/// A comparison given as a function or closure.
#[derive(Debug, Clone, Copy)]
pub struct CmpFn<F>(pub F);

impl<F: Fn(&Entry, &Entry) -> Ordering> EntryOrder for CmpFn<F> {
    open spec fn can_compare(&self, a: Entry, b: Entry) -> bool {
        call_requires(self.0, (&a, &b))
    }

    open spec fn gives(&self, a: Entry, b: Entry, o: Ordering) -> bool {
        call_ensures(self.0, (&a, &b), o)
    }

    fn compare(&self, a: &Entry, b: &Entry) -> Ordering {
        (self.0)(a, b)
    }
}

/// `p` rearranges `s` into `r` stably under `f`: item `i` of `r` is item
/// `p[i]` of `s`, no item of `s` is taken twice, and items that compare equal
/// keep the order they had in `s`.
pub open spec fn arranges(p: Seq<int>, r: Seq<Entry>, s: Seq<Entry>, f: spec_fn(Entry, Entry) -> Ordering) -> bool {
    &&& p.len() == r.len()
    &&& r.len() == s.len()
    &&& forall|i: int| 0 <= i < p.len() ==> 0 <= #[trigger] p[i] < s.len() && r[i] == s[p[i]]
    &&& forall|i: int, j: int| 0 <= i < j < p.len() ==> #[trigger] p[i] != #[trigger] p[j]
    &&& forall|i: int, j: int|
        0 <= i < j < p.len() && f(#[trigger] r[i], #[trigger] r[j]) == Ordering::Equal ==> p[i] < p[j]
}

/// `r` is a stable rearrangement of `s` under `f`.
pub open spec fn is_stable_arrangement(r: Seq<Entry>, s: Seq<Entry>, f: spec_fn(Entry, Entry) -> Ordering) -> bool {
    exists|p: Seq<int>| #[trigger] arranges(p, r, s, f)
}

/// `r` is `s` sorted stably by every total order that `order` compares as.
pub open spec fn sorts_stably<C: EntryOrder>(r: Seq<Entry>, s: Seq<Entry>, order: C) -> bool {
    forall|f: spec_fn(Entry, Entry) -> Ordering|
        is_total(f) && #[trigger] follows(order, f) ==> is_sorted_by(r, f) && is_stable_arrangement(r, s, f)
}

/// A closure whose every result is the one `f` gives compares as `f` does.
pub proof fn lemma_closure_follows<F: Fn(&Entry, &Entry) -> Ordering>(g: F, f: spec_fn(Entry, Entry) -> Ordering)
    requires
        forall|a: &Entry, b: &Entry, r: Ordering| call_ensures(g, (a, b), r) ==> r == f(*a, *b),
    ensures
        follows(CmpFn(g), f),
{
    assert forall|a: Entry, b: Entry, r: Ordering| #[trigger] CmpFn(g).gives(a, b, r) implies r == f(a, b) by {
        assert(call_ensures(g, (&a, &b), r));
    }
}

/// Relies on itertools::Itertools::sorted_by, which collects the items and sorts
/// them with std's `sort_by`: a stable sort, so the same items come out, each as
/// often as it went in, in ascending order, and items that compare equal keep
/// their order. std documents that the sort may panic when the comparison is not
/// a total order, which `requires` rules out.
#[verifier::external_body]
fn sorted_by_order<C: EntryOrder>(entries: Vec<Entry>, order: &C) -> (r: Vec<Entry>)
    requires
        forall|a: Entry, b: Entry| order.can_compare(a, b),
        is_total_order(*order),
    ensures
        r@.to_multiset() == entries@.to_multiset(),
        sorts_stably(r@, entries@, *order),
{
    entries.into_iter().sorted_by(|a, b| order.compare(a, b)).collect()
}

/// `entries` in the order that `order` gives, with nothing added or lost, and
/// entries that compare equal in the order they came in.
pub fn sort_entries<C: EntryOrder>(entries: Vec<Entry>, order: &C) -> (r: Vec<Entry>)
    requires
        forall|a: Entry, b: Entry| order.can_compare(a, b),
        is_total_order(*order),
    ensures
        r@.to_multiset() == entries@.to_multiset(),
        r.len() == entries.len(),
        sorts_stably(r@, entries@, *order),
{
    let r = sorted_by_order(entries, order);
    proof {
        r@.to_multiset_ensures();
        entries@.to_multiset_ensures();
    }
    r
}

/// `f` never ties two different entries.
pub open spec fn separates(f: spec_fn(Entry, Entry) -> Ordering) -> bool {
    forall|a: Entry, b: Entry| a != b ==> #[trigger] f(a, b) != Ordering::Equal
}

/// Under a total order that ties no two different entries, there is one sorted
/// arrangement of a given collection of entries.
pub proof fn lemma_sorted_is_unique(s: Seq<Entry>, t: Seq<Entry>, f: spec_fn(Entry, Entry) -> Ordering)
    requires
        is_total(f),
        separates(f),
        s.to_multiset() == t.to_multiset(),
        is_sorted_by(s, f),
        is_sorted_by(t, f),
    ensures
        s == t,
    decreases s.len(),
{
    broadcast use vstd::seq_lib::group_seq_properties;
    s.to_multiset_ensures();
    t.to_multiset_ensures();
    if s.len() == 0 {
        assert(t.len() == 0);
        assert(s =~= t);
    } else {
        assert(t.len() == s.len());
        let a = s[0];
        let b = t[0];
        assert(t.to_multiset().count(a) > 0);
        assert(s.to_multiset().count(b) > 0);
        let ka = choose|k: int| 0 <= k < t.len() && t[k] == a;
        let kb = choose|k: int| 0 <= k < s.len() && s[k] == b;
        if a != b {
            assert(ka > 0 && kb > 0);
            assert(f(t[0], t[ka]) != Ordering::Greater);
            assert(f(s[0], s[kb]) != Ordering::Greater);
            assert(f(b, a) == reversed(f(a, b)));
            assert(f(a, b) != Ordering::Equal);
        }
        assert(a == b);
        vstd::seq_lib::to_multiset_remove(s, 0);
        vstd::seq_lib::to_multiset_remove(t, 0);
        assert(s.remove(0) =~= s.drop_first());
        assert(t.remove(0) =~= t.drop_first());
        let s1 = s.drop_first();
        let t1 = t.drop_first();
        assert forall|i: int, j: int| 0 <= i < j < s1.len() implies f(#[trigger] s1[i], #[trigger] s1[j])
            != Ordering::Greater by {
            assert(s1[i] == s[i + 1] && s1[j] == s[j + 1]);
        }
        assert forall|i: int, j: int| 0 <= i < j < t1.len() implies f(#[trigger] t1[i], #[trigger] t1[j])
            != Ordering::Greater by {
            assert(t1[i] == t[i + 1] && t1[j] == t[j + 1]);
        }
        lemma_sorted_is_unique(s1, t1, f);
        assert forall|i: int| 0 <= i < s.len() implies s[i] == t[i] by {
            if i > 0 {
                assert(s[i] == s1[i - 1] && t[i] == t1[i - 1]);
            }
        }
        assert(s =~= t);
    }
}

} // verus!
