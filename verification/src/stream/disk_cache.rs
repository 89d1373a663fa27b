//! The pure rules of the disk cache for downloaded audio: which ids
//! may name a file, the file each names, and which files to evict.
//!
//! A song that played once must play again from disk, with no network
//! use. The cache stores one file per video id; the file operations
//! themselves belong to the caller.
use vstd::prelude::*;
use crate::model::Span;
use crate::text::chars_of;

verus! {

/// Total disk space the cache may use before it evicts old entries.
pub const CAP_BYTES: u64 = 536870912;

/// The character count of a YouTube video id.
pub const VIDEO_ID_LEN: usize = 11;

/// A letter or digit of ASCII, an underscore, or a hyphen: the
/// characters an id may use in a file name.
pub open spec fn is_id_char(c: char) -> bool {
    ||| ('a' <= c && c <= 'z')
    ||| ('A' <= c && c <= 'Z')
    ||| ('0' <= c && c <= '9')
    ||| c == '_'
    ||| c == '-'
}

/// Whether `c` may stand in a file-name id.
pub fn id_char(c: char) -> (r: bool)
    ensures
        r == is_id_char(c),
{
    ('a' <= c && c <= 'z') || ('A' <= c && c <= 'Z') || ('0' <= c && c <= '9') || c == '_' || c
        == '-'
}

/// Every character of `s` may stand in a file-name id.
pub open spec fn all_id_chars(s: Seq<char>) -> bool {
    forall|i: int| 0 <= i < s.len() ==> is_id_char(#[trigger] s[i])
}

/// Whether every character of `v` may stand in a file-name id.
pub fn only_id_chars(v: &Vec<char>) -> (r: bool)
    ensures
        r == all_id_chars(v@),
{
    let mut i: usize = 0;
    while i < v.len()
        invariant
            i <= v@.len(),
            forall|k: int| 0 <= k < i ==> is_id_char(#[trigger] v@[k]),
        decreases v@.len() - i,
    {
        if !id_char(v[i]) {
            return false;
        }
        i = i + 1;
    }
    true
}

/// `id` has the shape of a YouTube video id: eleven characters, each a
/// letter, digit, underscore, or hyphen.
pub open spec fn valid_video_id(id: Seq<char>) -> bool {
    id.len() == VIDEO_ID_LEN && all_id_chars(id)
}

/// True when `id` has the shape of a YouTube video id. (The characters
/// allowed are all one byte long, so eleven of them are eleven bytes.)
pub fn is_valid_video_id(id: &str) -> (r: bool)
    ensures
        r == valid_video_id(id@),
{
    let chars = chars_of(id);
    chars.len() == VIDEO_ID_LEN && only_id_chars(&chars)
}

/// `name` inside the directory `dir`, joined by `/` unless `dir` is
/// empty or already ends with one.
pub open spec fn joined(dir: Seq<char>, name: Seq<char>) -> Seq<char> {
    if dir.len() == 0 {
        name
    } else if dir.last() == '/' {
        dir + name
    } else {
        dir + "/"@ + name
    }
}

/// `name` inside the directory `dir`.
pub fn join_path(dir: &str, name: &str) -> (r: String)
    ensures
        r@ == joined(dir@, name@),
{
    let chars = chars_of(dir);
    let mut out = dir.to_owned();
    if chars.len() > 0 && chars[chars.len() - 1] != '/' {
        out.append("/");
    }
    out.append(name);
    out
}

/// The cache file path for `video_id` under `dir`.
pub open spec fn track_path_spec(dir: Seq<char>, video_id: Seq<char>) -> Option<Seq<char>> {
    if valid_video_id(video_id) {
        Some(joined(dir, video_id + ".m4a"@))
    } else {
        None
    }
}

/// The cache file path for `video_id` under `dir`. `None` when the id
/// does not have the shape of a real video id, so an unchecked id
/// never becomes a file name.
pub fn track_path(dir: &str, video_id: &str) -> (r: Option<String>)
    ensures
        match r {
            Some(p) => track_path_spec(dir@, video_id@) == Some(p@),
            None => track_path_spec(dir@, video_id@) is None,
        },
{
    if !is_valid_video_id(video_id) {
        return None;
    }
    let mut name = video_id.to_owned();
    name.append(".m4a");
    Some(join_path(dir, name.as_str()))
}

/// One cached file's identity for eviction purposes.
pub struct CacheEntry {
    pub path: String,
    pub size: u64,
    /// The file's modified time, as a span since the Unix epoch.
    pub modified: Span,
}

/// `a` comes strictly before `b` in time.
pub open spec fn earlier(a: Span, b: Span) -> bool {
    a.secs < b.secs || (a.secs == b.secs && a.nanos < b.nanos)
}

/// Entry `i` goes before entry `j` in oldest-first order: it is older,
/// or equally old and listed first (the order a stable sort by
/// modified time leaves them in).
pub open spec fn goes_before(e: Seq<CacheEntry>, i: int, j: int) -> bool {
    earlier(e[i].modified, e[j].modified) || (e[i].modified == e[j].modified && i < j)
}

/// Entry `i` is the oldest among those `taken` does not hold.
pub open spec fn is_oldest_left(e: Seq<CacheEntry>, taken: Seq<int>, i: int) -> bool {
    &&& 0 <= i < e.len()
    &&& !taken.contains(i)
    &&& forall|j: int|
        0 <= j < e.len() && !taken.contains(j) && j != i ==> #[trigger] goes_before(e, i, j)
}

/// The oldest entry that `taken` does not hold.
pub open spec fn oldest_left(e: Seq<CacheEntry>, taken: Seq<int>) -> int {
    choose|i: int| is_oldest_left(e, taken, i)
}

/// The indices of the `k` oldest entries, oldest first.
pub open spec fn oldest_first(e: Seq<CacheEntry>, k: nat) -> Seq<int>
    decreases k,
{
    if k == 0 {
        Seq::empty()
    } else {
        let before = oldest_first(e, (k - 1) as nat);
        before.push(oldest_left(e, before))
    }
}

/// The sizes of the entries at `idx`, added up.
pub open spec fn size_of(e: Seq<CacheEntry>, idx: Seq<int>) -> int
    decreases idx.len(),
{
    if idx.len() == 0 {
        0
    } else {
        size_of(e, idx.drop_last()) + e[idx.last()].size
    }
}

/// The sizes of all the entries, added up.
pub open spec fn total_size(e: Seq<CacheEntry>) -> int
    decreases e.len(),
{
    if e.len() == 0 {
        0
    } else {
        total_size(e.drop_last()) + e.last().size
    }
}

/// The fewest oldest entries whose removal brings the total to `cap`
/// or under: `k` of them, and no fewer would do.
pub open spec fn is_eviction_count(e: Seq<CacheEntry>, cap: u64, k: nat) -> bool {
    &&& k <= e.len()
    &&& size_of(e, oldest_first(e, k)) >= total_size(e) - cap
    &&& forall|m: nat| m < k ==> size_of(e, #[trigger] oldest_first(e, m)) < total_size(e) - cap
}

/// Two entries cannot both be the oldest left.
pub proof fn lemma_oldest_left_unique(e: Seq<CacheEntry>, taken: Seq<int>, i: int, j: int)
    requires
        is_oldest_left(e, taken, i),
        is_oldest_left(e, taken, j),
    ensures
        i == j,
{
    if i != j {
        assert(goes_before(e, i, j));
        assert(goes_before(e, j, i));
    }
}

/// One more index adds its entry's size.
proof fn lemma_size_of_push(e: Seq<CacheEntry>, idx: Seq<int>, i: int)
    ensures
        size_of(e, idx.push(i)) == size_of(e, idx) + e[i].size,
{
    assert(idx.push(i).drop_last() =~= idx);
}

/// The `k` oldest entries are distinct indices of the list.
proof fn lemma_oldest_first_shape(e: Seq<CacheEntry>, k: nat)
    requires
        k <= e.len(),
    ensures
        oldest_first(e, k).len() == k,
        forall|t: int| 0 <= t < k ==> 0 <= #[trigger] oldest_first(e, k)[t] < e.len(),
        forall|s: int, t: int|
            0 <= s < t < k ==> oldest_first(e, k)[s] != oldest_first(e, k)[t],
    decreases k,
{
    if k > 0 {
        lemma_oldest_first_shape(e, (k - 1) as nat);
        let before = oldest_first(e, (k - 1) as nat);
        lemma_some_oldest_left(e, before);
        let i = oldest_left(e, before);
        assert(is_oldest_left(e, before, i));
        assert(oldest_first(e, k) == before.push(i));
    }
}

/// While some entry is left, one of them is the oldest left.
proof fn lemma_some_oldest_left(e: Seq<CacheEntry>, taken: Seq<int>)
    requires
        taken.len() < e.len(),
        forall|t: int| 0 <= t < taken.len() ==> 0 <= #[trigger] taken[t] < e.len(),
        forall|s: int, t: int| 0 <= s < t < taken.len() ==> taken[s] != taken[t],
    ensures
        is_oldest_left(e, taken, oldest_left(e, taken)),
{
    let i = oldest_candidate(e, taken, e.len() as int);
    assert(is_oldest_left(e, taken, i));
}

/// The oldest entry among the first `n` that `taken` does not hold,
/// when there is one.
proof fn oldest_candidate(e: Seq<CacheEntry>, taken: Seq<int>, n: int) -> (i: int)
    requires
        0 <= n <= e.len(),
        n == e.len() ==> taken.len() < e.len(),
        forall|t: int| 0 <= t < taken.len() ==> 0 <= #[trigger] taken[t] < e.len(),
        forall|s: int, t: int| 0 <= s < t < taken.len() ==> taken[s] != taken[t],
    ensures
        (exists|j: int| 0 <= j < n && !taken.contains(j)) ==> {
            &&& 0 <= i < n
            &&& !taken.contains(i)
            &&& forall|j: int|
                0 <= j < n && !taken.contains(j) && j != i ==> #[trigger] goes_before(e, i, j)
        },
        n == e.len() ==> exists|j: int| 0 <= j < n && !taken.contains(j),
    decreases n,
{
    if n == e.len() {
        lemma_pigeonhole(taken, n);
    }
    if n == 0 {
        0
    } else {
        let prev = oldest_candidate(e, taken, n - 1);
        let last = n - 1;
        if taken.contains(last) {
            assert forall|j: int| 0 <= j < n && !taken.contains(j) implies j < n - 1 by {}
            prev
        } else if !(exists|j: int| 0 <= j < n - 1 && !taken.contains(j)) {
            assert forall|j: int| 0 <= j < n && !taken.contains(j) && j != last implies #[trigger] goes_before(e, last, j) by {
                assert(0 <= j < n - 1);
            }
            last
        } else if goes_before(e, prev, last) {
            prev
        } else {
            assert forall|j: int| 0 <= j < n && !taken.contains(j) && j != last implies #[trigger] goes_before(e, last, j) by {
                if j != prev {
                    assert(goes_before(e, prev, j));
                }
            }
            last
        }
    }
}

/// Fewer distinct indices than `n` leave some index below `n` out.
proof fn lemma_pigeonhole(taken: Seq<int>, n: int)
    requires
        taken.len() < n,
        forall|t: int| 0 <= t < taken.len() ==> 0 <= #[trigger] taken[t] < n,
        forall|s: int, t: int| 0 <= s < t < taken.len() ==> taken[s] != taken[t],
    ensures
        exists|j: int| 0 <= j < n && !taken.contains(j),
{
    lemma_distinct_set_len(taken);
    let full = vstd::set_lib::set_int_range(0, n);
    vstd::set_lib::lemma_int_range(0, n);
    if forall|j: int| 0 <= j < n ==> taken.contains(j) {
        assert(full.subset_of(taken.to_set()));
        vstd::set_lib::lemma_len_subset(full, taken.to_set());
        assert(false);
    }
}

/// A list of distinct values has a set of as many values.
proof fn lemma_distinct_set_len(idx: Seq<int>)
    requires
        forall|s: int, t: int| 0 <= s < t < idx.len() ==> idx[s] != idx[t],
    ensures
        idx.to_set().len() == idx.len(),
        idx.to_set().finite(),
{
    assert(idx.no_duplicates()) by {
        assert forall|i: int, j: int|
            0 <= i < idx.len() && 0 <= j < idx.len() && i != j implies idx[i] != idx[j] by {
            if i < j {
                assert(idx[i] != idx[j]);
            } else {
                assert(idx[j] != idx[i]);
            }
        }
    }
    idx.unique_seq_to_set();
    vstd::seq_lib::seq_to_set_is_finite(idx);
}

/// Chooses which files to delete so the total size fits under `cap`:
/// the oldest files first, by modified time, and no more than needed.
/// Pure: it takes the full entry list and returns the paths to remove.
pub fn select_evictions(entries: &[CacheEntry], cap: u64) -> (r: Vec<String>)
    requires
        total_size(entries@) <= u64::MAX,
    ensures
        total_size(entries@) <= cap ==> r@.len() == 0,
        total_size(entries@) > cap ==> exists|k: nat|
            {
                &&& is_eviction_count(entries@, cap, k)
                &&& r@.len() == k
                &&& forall|t: int|
                    0 <= t < k ==> #[trigger] r@[t]@ == entries@[oldest_first(entries@, k)[t]].path@
            },
{
    let n = entries.len();
    let mut total: u64 = 0;
    let mut i: usize = 0;
    while i < n
        invariant
            i <= n,
            n == entries@.len(),
            total == total_size(entries@.take(i as int)),
            total_size(entries@) <= u64::MAX,
        decreases n - i,
    {
        proof {
            assert(entries@.take(i + 1).drop_last() =~= entries@.take(i as int));
            lemma_total_size_prefix(entries@, i + 1);
        }
        total = total + entries[i].size;
        i = i + 1;
    }
    proof {
        assert(entries@.take(n as int) =~= entries@);
    }
    let mut victims: Vec<String> = Vec::new();
    if total <= cap {
        return victims;
    }
    let excess = total - cap;
    let mut remaining = excess;
    let mut taken: Vec<usize> = Vec::new();
    let ghost mut order: Seq<int> = Seq::empty();
    while remaining > 0
        invariant
            n == entries@.len(),
            total == total_size(entries@),
            excess == total - cap,
            total > cap,
            taken@.len() <= n,
            order == oldest_first(entries@, taken@.len() as nat),
            forall|t: int| 0 <= t < taken@.len() ==> #[trigger] taken@[t] as int == order[t],
            remaining == if size_of(entries@, order) >= excess {
                0
            } else {
                excess - size_of(entries@, order)
            },
            forall|m: nat|
                m < taken@.len() ==> size_of(entries@, #[trigger] oldest_first(entries@, m))
                    < excess,
            victims@.len() == taken@.len(),
            forall|t: int|
                0 <= t < taken@.len() ==> #[trigger] victims@[t]@ == entries@[order[t]].path@,
        decreases n - taken@.len(),
    {
        proof {
            lemma_oldest_first_shape(entries@, taken@.len() as nat);
            if taken@.len() == n {
                lemma_all_taken_size(entries@, n as nat);
                assert(false);
            }
            lemma_some_oldest_left(entries@, order);
        }
        let next = oldest_untaken(entries, &taken, Ghost(order));
        let ghost prev_len = taken@.len();
        proof {
            lemma_size_of_push(entries@, order, next as int);
            assert(oldest_first(entries@, (prev_len + 1) as nat) == order.push(next as int));
        }
        victims.push(entries[next].path.clone());
        taken.push(next);
        proof {
            order = order.push(next as int);
        }
        remaining = remaining.saturating_sub(entries[next].size);
    }
    proof {
        let k = taken@.len() as nat;
        assert(is_eviction_count(entries@, cap, k));
    }
    victims
}

/// The total of a prefix, one entry at a time.
proof fn lemma_total_size_prefix(e: Seq<CacheEntry>, i: int)
    requires
        0 < i <= e.len(),
    ensures
        total_size(e.take(i)) == total_size(e.take(i - 1)) + e[i - 1].size,
        total_size(e.take(i)) <= total_size(e),
    decreases e.len() - i,
{
    assert(e.take(i).drop_last() =~= e.take(i - 1));
    if i < e.len() {
        lemma_total_size_prefix(e, i + 1);
    } else {
        assert(e.take(i) =~= e);
    }
}

/// Taking every entry adds up to the whole total.
proof fn lemma_all_taken_size(e: Seq<CacheEntry>, n: nat)
    requires
        n == e.len(),
    ensures
        size_of(e, oldest_first(e, n)) == total_size(e),
{
    lemma_oldest_first_shape(e, n);
    lemma_size_of_permutation(e, oldest_first(e, n));
}

/// The sizes at a list of distinct indices that covers the whole list
/// add up to the total.
proof fn lemma_size_of_permutation(e: Seq<CacheEntry>, idx: Seq<int>)
    requires
        idx.len() == e.len(),
        forall|t: int| 0 <= t < idx.len() ==> 0 <= #[trigger] idx[t] < e.len(),
        forall|s: int, t: int| 0 <= s < t < idx.len() ==> idx[s] != idx[t],
    ensures
        size_of(e, idx) == total_size(e),
    decreases e.len(),
{
    if e.len() > 0 {
        let last = e.len() - 1;
        lemma_pigeonhole_hit(idx, e.len() as int, last);
        let p = choose|p: int| 0 <= p < idx.len() && idx[p] == last;
        let rest = idx.remove(p);
        lemma_size_of_remove(e, idx, p);
        assert forall|t: int| 0 <= t < rest.len() implies 0 <= #[trigger] rest[t] < last by {
            if t < p {
                assert(rest[t] == idx[t]);
                assert(idx[t] != idx[p]);
            } else {
                assert(rest[t] == idx[t + 1]);
                assert(idx[t + 1] != idx[p]);
            }
        }
        assert forall|s: int, t: int| 0 <= s < t < rest.len() implies rest[s] != rest[t] by {
            let s2 = if s < p { s } else { s + 1 };
            let t2 = if t < p { t } else { t + 1 };
            assert(rest[s] == idx[s2]);
            assert(rest[t] == idx[t2]);
        }
        let d = e.drop_last();
        lemma_size_of_prefix_list(e, rest);
        lemma_size_of_permutation(d, rest);
    }
}

/// Distinct indices below `n`, as many as `n`, reach every index.
proof fn lemma_pigeonhole_hit(idx: Seq<int>, n: int, v: int)
    requires
        idx.len() == n,
        0 <= v < n,
        forall|t: int| 0 <= t < idx.len() ==> 0 <= #[trigger] idx[t] < n,
        forall|s: int, t: int| 0 <= s < t < idx.len() ==> idx[s] != idx[t],
    ensures
        exists|p: int| 0 <= p < idx.len() && idx[p] == v,
{
    lemma_distinct_set_len(idx);
    let full = vstd::set_lib::set_int_range(0, n);
    vstd::set_lib::lemma_int_range(0, n);
    assert(idx.to_set().subset_of(full));
    vstd::set_lib::lemma_subset_equality(idx.to_set(), full);
    assert(full.contains(v));
    assert(idx.to_set().contains(v));
}

/// Removing one index takes its size out of the sum.
proof fn lemma_size_of_remove(e: Seq<CacheEntry>, idx: Seq<int>, p: int)
    requires
        0 <= p < idx.len(),
    ensures
        size_of(e, idx) == size_of(e, idx.remove(p)) + e[idx[p]].size,
    decreases idx.len(),
{
    if p == idx.len() - 1 {
        assert(idx.remove(p) =~= idx.drop_last());
    } else {
        lemma_size_of_remove(e, idx.drop_last(), p);
        assert(idx.remove(p).drop_last() =~= idx.drop_last().remove(p));
        assert(idx.remove(p).last() == idx.last());
    }
}

/// Indices below the last one size the same in the list without its
/// last entry.
proof fn lemma_size_of_prefix_list(e: Seq<CacheEntry>, idx: Seq<int>)
    requires
        e.len() > 0,
        forall|t: int| 0 <= t < idx.len() ==> 0 <= #[trigger] idx[t] < e.len() - 1,
    ensures
        size_of(e, idx) == size_of(e.drop_last(), idx),
    decreases idx.len(),
{
    if idx.len() > 0 {
        lemma_size_of_prefix_list(e, idx.drop_last());
        assert(e.drop_last()[idx.last()] == e[idx.last()]);
    }
}

/// The oldest entry that `taken` does not hold.
fn oldest_untaken(entries: &[CacheEntry], taken: &Vec<usize>, Ghost(order): Ghost<Seq<int>>) -> (r:
    usize)
    requires
        taken@.len() < entries@.len(),
        taken@.len() == order.len(),
        forall|t: int| 0 <= t < taken@.len() ==> #[trigger] taken@[t] as int == order[t],
        is_oldest_left(entries@, order, oldest_left(entries@, order)),
    ensures
        r as int == oldest_left(entries@, order),
{
    let n = entries.len();
    let mut best: Option<usize> = None;
    let mut j: usize = 0;
    while j < n
        invariant
            j <= n,
            n == entries@.len(),
            taken@.len() == order.len(),
            forall|t: int| 0 <= t < taken@.len() ==> #[trigger] taken@[t] as int == order[t],
            match best {
                Some(b) => {
                    &&& b < j
                    &&& !order.contains(b as int)
                    &&& forall|x: int|
                        0 <= x < j && !order.contains(x) && x != b ==> #[trigger] goes_before(
                            entries@,
                            b as int,
                            x,
                        )
                },
                None => forall|x: int| 0 <= x < j ==> order.contains(x),
            },
        decreases n - j,
    {
        if !contains_index(taken, j) {
            proof {
                assert(!order.contains(j as int)) by {
                    if order.contains(j as int) {
                        let t = choose|t: int| 0 <= t < order.len() && order[t] == j;
                        assert(taken@[t] == j);
                    }
                }
            }
            match best {
                None => {
                    best = Some(j);
                },
                Some(b) => {
                    let mb = entries[b].modified;
                    let mj = entries[j].modified;
                    if mj.secs < mb.secs || (mj.secs == mb.secs && mj.nanos < mb.nanos) {
                        best = Some(j);
                        proof {
                            assert forall|x: int|
                                0 <= x < j + 1 && !order.contains(x) && x != j implies #[trigger] goes_before(entries@, j as int, x) by {
                                if x != b {
                                    assert(goes_before(entries@, b as int, x));
                                }
                            }
                        }
                    }
                },
            }
        } else {
            proof {
                let t = choose|t: int| 0 <= t < taken@.len() && taken@[t] == j;
                assert(order[t] == j);
            }
        }
        j = j + 1;
    }
    proof {
        let w = oldest_left(entries@, order);
        assert(is_oldest_left(entries@, order, w));
    }
    match best {
        Some(b) => {
            proof {
                lemma_oldest_left_unique(entries@, order, b as int, oldest_left(entries@, order));
            }
            b
        },
        None => {
            proof {
                let w = oldest_left(entries@, order);
                assert(order.contains(w));
            }
            0
        },
    }
}

/// Whether `v` holds `x`.
fn contains_index(v: &Vec<usize>, x: usize) -> (r: bool)
    ensures
        r == exists|t: int| 0 <= t < v@.len() && v@[t] == x,
{
    let mut i: usize = 0;
    while i < v.len()
        invariant
            i <= v@.len(),
            forall|t: int| 0 <= t < i ==> v@[t] != x,
        decreases v@.len() - i,
    {
        if v[i] == x {
            return true;
        }
        i = i + 1;
    }
    false
}

} // verus!
