//! Cutting an ordered sequence into consecutive groups of a fixed size.
use vstd::prelude::*;

verus! {

/// The number of groups that `n` items make when each holds at most `c`:
/// the ceiling of `n / c`.
pub open spec fn chunk_count(n: nat, c: nat) -> nat
    recommends
        c > 0,
{
    if c == 0 {
        0
    } else {
        ((n + c - 1) / (c as int)) as nat
    }
}

/// Group `i`: the items at positions `[i * c, min((i + 1) * c, n))`.
pub open spec fn chunk_of<T>(s: Seq<T>, c: nat, i: int) -> Seq<T> {
    let hi = if (i + 1) * c < s.len() {
        (i + 1) * c
    } else {
        s.len() as int
    };
    s.subrange(i * c, hi)
}

/// `k` is the number of groups of size `c` that `n` items fill, the last one possibly partly.
proof fn lemma_count_from_bounds(n: nat, c: nat, k: nat)
    requires
        c > 0,
        k * c >= n,
        k == 0 || (k - 1) * c < n,
    ensures
        k == chunk_count(n, c),
{
    if k == 0 {
        assert(n == 0);
        assert((c - 1) / (c as int) == 0) by (nonlinear_arith)
            requires
                c > 0,
        ;
    } else {
        let q = (n + c - 1) / (c as int);
        assert(q * c <= n + c - 1 < (q + 1) * c) by (nonlinear_arith)
            requires
                c > 0,
                q == (n + c - 1) / (c as int),
        ;
        assert(k == q) by (nonlinear_arith)
            requires
                c > 0,
                k * c >= n,
                (k - 1) * c < n,
                q * c <= n + c - 1 < (q + 1) * c,
        ;
    }
}

/// Cuts `items` into consecutive groups of `chunk` items, the last one possibly
/// smaller; no group is empty, and there are none when `items` is empty.
pub fn partition(items: &Vec<String>, chunk: usize) -> (r: Vec<Vec<String>>)
    requires
        chunk > 0,
    ensures
        r.len() == chunk_count(items.len() as nat, chunk as nat),
        forall|i: int| 0 <= i < r.len() ==> #[trigger] r[i]@ == chunk_of(items@, chunk as nat, i),
{
    let n = items.len();
    let mut r: Vec<Vec<String>> = Vec::new();
    let mut start: usize = 0;
    assert(r.len() * chunk == 0) by (nonlinear_arith)
        requires
            r.len() == 0,
    ;
    while start < n
        invariant
            chunk > 0,
            n == items.len(),
            start <= n,
            start < n ==> start == r.len() * chunk,
            start == n ==> r.len() * chunk >= n,
            r.len() == 0 || (r.len() - 1) * chunk < n,
            forall|i: int| 0 <= i < r.len() ==> #[trigger] r[i]@ == chunk_of(items@, chunk as nat, i),
        decreases n - start,
    {
        let end: usize = if n - start > chunk {
            start + chunk
        } else {
            n
        };
        let mut group: Vec<String> = Vec::new();
        let mut j: usize = start;
        while j < end
            invariant
                start <= j <= end <= n,
                n == items.len(),
                group@ == items@.subrange(start as int, j as int),
            decreases end - j,
        {
            group.push(items[j].clone());
            assert(group@ =~= items@.subrange(start as int, j + 1));
            j += 1;
        }
        let ghost k = r.len();
        assert(group@ == chunk_of(items@, chunk as nat, k as int)) by {
            assert((k + 1) * chunk == start + chunk) by (nonlinear_arith)
                requires
                    start == k * chunk,
            ;
        }
        r.push(group);
        assert(r.len() * chunk == start + chunk) by (nonlinear_arith)
            requires
                start == k * chunk,
                r.len() == k + 1,
        ;
        start = end;
    }
    proof {
        lemma_count_from_bounds(n as nat, chunk as nat, r.len() as nat);
    }
    r
}

/// The number of groups is the ceiling of `n / c`: none for no items, and otherwise
/// just enough groups of `c` to hold all `n`, with no group left over.
pub proof fn lemma_chunk_count_is_ceiling(n: nat, c: nat)
    requires
        c > 0,
    ensures
        n == 0 <==> chunk_count(n, c) == 0,
        chunk_count(n, c) * c >= n,
        n > 0 ==> (chunk_count(n, c) - 1) * c < n,
        chunk_count(n, c) <= n,
{
    let q = (n + c - 1) / (c as int);
    assert(q * c <= n + c - 1 < (q + 1) * c) by (nonlinear_arith)
        requires
            c > 0,
            q == (n + c - 1) / (c as int),
    ;
    assert(q >= 0 && (n == 0 <==> q == 0)) by (nonlinear_arith)
        requires
            c > 0,
            q * c <= n + c - 1 < (q + 1) * c,
    ;
    assert(q * c >= n && (n > 0 ==> (q - 1) * c < n)) by (nonlinear_arith)
        requires
            c > 0,
            q * c <= n + c - 1 < (q + 1) * c,
    ;
    assert(q <= n) by (nonlinear_arith)
        requires
            c > 0,
            n > 0 ==> (q - 1) * c < n,
            n == 0 ==> q == 0,
    ;
}

/// The group that position `k` falls in.
pub open spec fn group_of(k: int, c: nat) -> int {
    k / (c as int)
}

/// The place of position `k` within its group.
pub open spec fn offset_of(k: int, c: nat) -> int {
    k % (c as int)
}

/// Position `k` of `s` is item `offset_of(k, c)` of group `group_of(k, c)`.
pub open spec fn placed_at<T>(s: Seq<T>, c: nat, k: int) -> bool {
    &&& 0 <= group_of(k, c) < chunk_count(s.len(), c)
    &&& 0 <= offset_of(k, c) < chunk_of(s, c, group_of(k, c)).len()
    &&& chunk_of(s, c, group_of(k, c))[offset_of(k, c)] == s[k]
}

/// Item `j` of group `i` is the item at position `i * c + j` of `s`.
pub open spec fn drawn_from<T>(s: Seq<T>, c: nat, i: int, j: int) -> bool {
    &&& 0 <= i * c + j < s.len()
    &&& chunk_of(s, c, i)[j] == s[i * c + j]
}

/// The groups cut `s` exactly: the item at position `k` is item `k % c` of group
/// `k / c`, and item `j` of group `i` is the item at position `i * c + j`. So every
/// item stands in one group, none in two, and no group holds anything else.
pub proof fn lemma_partition_is_exact<T>(s: Seq<T>, c: nat)
    requires
        c > 0,
    ensures
        forall|k: int| 0 <= k < s.len() ==> #[trigger] placed_at(s, c, k),
        forall|i: int, j: int|
            0 <= i < chunk_count(s.len(), c) && 0 <= j < chunk_of(s, c, i).len()
                ==> #[trigger] drawn_from(s, c, i, j),
{
    assert forall|k: int| 0 <= k < s.len() implies #[trigger] placed_at(s, c, k) by {
        lemma_position_in_chunk(s, c, k);
    }
    assert forall|i: int, j: int|
        0 <= i < chunk_count(s.len(), c) && 0 <= j < chunk_of(s, c, i).len() implies #[trigger] drawn_from(s, c, i, j) by {
        lemma_chunk_item(s, c, i, j);
    }
}

proof fn lemma_position_in_chunk<T>(s: Seq<T>, c: nat, k: int)
    requires
        c > 0,
        0 <= k < s.len(),
    ensures
        placed_at(s, c, k),
{
    let n = s.len();
    lemma_chunk_count_is_ceiling(n, c);
    let m = chunk_count(n, c);
    let i = group_of(k, c);
    let o = offset_of(k, c);
    assert(k == i * c + o && 0 <= o < c && 0 <= i) by (nonlinear_arith)
        requires
            c > 0,
            k >= 0,
            i == group_of(k, c),
            o == offset_of(k, c),
    ;
    assert(i < m) by (nonlinear_arith)
        requires
            k == i * c + o,
            0 <= o,
            k < n,
            m * c >= n,
            c > 0,
    ;
    assert((i + 1) * c == i * c + c) by (nonlinear_arith);
}

proof fn lemma_chunk_item<T>(s: Seq<T>, c: nat, i: int, j: int)
    requires
        c > 0,
        0 <= i < chunk_count(s.len(), c),
        0 <= j < chunk_of(s, c, i).len(),
    ensures
        drawn_from(s, c, i, j),
{
    let m = chunk_count(s.len(), c);
    lemma_chunk_count_is_ceiling(s.len(), c);
    assert(i * c <= (m - 1) * c) by (nonlinear_arith)
        requires
            i <= m - 1,
            c > 0,
    ;
    assert((i + 1) * c == i * c + c) by (nonlinear_arith);
}

} // verus!
