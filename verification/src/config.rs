use vstd::prelude::*;
use vstd::set_lib::{lemma_int_range, lemma_len_subset, lemma_map_size, lemma_set_disjoint_lens, lemma_subset_equality, set_int_range};

use crate::text::{has_prefix, has_suffix};
use crate::theme::ThemeVariant;

verus! {

/// Language of the user interface when the configuration names none.
pub fn default_ui_lang() -> (s: String)
    ensures
        s@ == "zh"@,
{
    "zh".to_owned()
}

/// Colour theme when the configuration names none.
pub fn default_theme_variant() -> (v: ThemeVariant)
    ensures
        v == ThemeVariant::Dark,
{
    ThemeVariant::Dark
}

/// Baud rate of the serial link when the configuration names none.
pub fn default_serial_baud() -> (b: u32)
    ensures
        b == 115200,
{
    115200
}

/// Number of samples of the stationarity detector's window when the
/// configuration names none.
pub fn default_zupt_window_size() -> (n: usize)
    ensures
        n == 8,
{
    8
}

/// Whether zero-velocity updates are on when the configuration does not say.
pub fn default_zupt_enabled() -> (b: bool)
    ensures
        b,
{
    true
}


/// Size in bytes above which a status log is rotated.
pub const LOG_MAX_BYTES: u64 = 5 * 1024 * 1024;

/// Number of compressed rotations of a log that are kept.
pub const LOG_KEEP_FILES: usize = 5;

/// The log limits written out: a log is rotated once it exceeds 5 MiB
/// (5 242 880 bytes), and five compressed rotations are kept.
pub proof fn lemma_log_limits(size: u64)
    ensures
        LOG_MAX_BYTES == 5_242_880,
        LOG_KEEP_FILES == 5,
        (size > LOG_MAX_BYTES) <==> size > 5_242_880,
{
}

/// Whether a log of `size` bytes is rotated before the next line is appended.
pub fn log_needs_rotation(size: u64) -> (r: bool)
    ensures
        r == (size > LOG_MAX_BYTES),
{
    size > LOG_MAX_BYTES
}

/// Whether `name` is a compressed rotation of the log file `base`: it starts
/// with `base` and a dot, and ends with `.gz`.
pub open spec fn is_archive_of(name: Seq<char>, base: Seq<char>) -> bool {
    let prefix = base + "."@;
    &&& prefix.len() <= name.len()
    &&& name.take(prefix.len() as int) == prefix
    &&& ".gz"@.len() <= name.len()
    &&& name.skip(name.len() - ".gz"@.len()) == ".gz"@
}

/// Whether `name` is a compressed rotation of the log file `base`.
pub fn is_archive_name(name: &str, base: &str) -> (r: bool)
    ensures
        r == is_archive_of(name@, base@),
{
    let mut prefix = base.to_owned();
    prefix.append(".");
    has_prefix(name, prefix.as_str()) && has_suffix(name, ".gz")
}

/// The entries `(modification time, file name)` that are rotations of `base`,
/// in their order.
pub open spec fn archives_of(entries: Seq<(i128, String)>, base: Seq<char>) -> Seq<(i128, String)> {
    entries.filter(archive_filter(base))
}

/// The test of `archives_of`.
pub open spec fn archive_filter(base: Seq<char>) -> spec_fn((i128, String)) -> bool {
    |e: (i128, String)| is_archive_of(e.1@, base)
}

/// Whether archive `j` sorts before archive `i` when sorting newest first,
/// ties kept in listing order.
pub open spec fn sorts_before(a: Seq<(i128, String)>, j: int, i: int) -> bool {
    a[j].0 > a[i].0 || (a[j].0 == a[i].0 && j < i)
}

/// How many of the first `n` archives sort before archive `i`.
pub open spec fn count_before(a: Seq<(i128, String)>, i: int, n: nat) -> nat
    decreases n,
{
    if n == 0 {
        0
    } else {
        count_before(a, i, (n - 1) as nat) + if sorts_before(a, n - 1, i) {
            1nat
        } else {
            0nat
        }
    }
}

/// Position of archive `i` when the archives are sorted newest first.
pub open spec fn recency_rank(a: Seq<(i128, String)>, i: int) -> nat {
    count_before(a, i, a.len())
}

/// Names of the first `n` archives that are not among the newest `LOG_KEEP_FILES`.
pub open spec fn pruned_prefix(a: Seq<(i128, String)>, n: nat) -> Seq<Seq<char>>
    decreases n,
{
    if n == 0 {
        Seq::empty()
    } else if recency_rank(a, n - 1) >= LOG_KEEP_FILES {
        pruned_prefix(a, (n - 1) as nat).push(a[n - 1].1@)
    } else {
        pruned_prefix(a, (n - 1) as nat)
    }
}

/// Among the directory entries `(modification time, file name)`, the names of
/// the compressed rotations of the log `base` to delete: all but the newest
/// `LOG_KEEP_FILES` (ties broken by listing order), in listing order.
pub fn archives_to_prune(base: &str, entries: &Vec<(i128, String)>) -> (r: Vec<String>)
    ensures
        r@.len() == pruned_prefix(archives_of(entries@, base@), archives_of(entries@, base@).len()).len(),
        forall|k: int|
            0 <= k < r@.len() ==> #[trigger] r@[k]@ == pruned_prefix(
                archives_of(entries@, base@),
                archives_of(entries@, base@).len(),
            )[k],
{
    let ghost pred = archive_filter(base@);
    let mut archives: Vec<(i128, String)> = Vec::new();
    let mut e: usize = 0;
    while e < entries.len()
        invariant
            e <= entries@.len(),
            pred == archive_filter(base@),
            archives@ == entries@.take(e as int).filter(pred),
        decreases entries.len() - e,
    {
        proof {
            reveal_with_fuel(Seq::filter, 1);
            assert(entries@.take(e + 1).drop_last() =~= entries@.take(e as int));
        }
        assert(entries@.take(e + 1).last() == entries@[e as int]);
        proof {
            reveal_with_fuel(Seq::filter, 1);
            assert(entries@.take(e + 1).filter(pred) == if pred(entries@[e as int]) {
                entries@.take(e as int).filter(pred).push(entries@[e as int])
            } else {
                entries@.take(e as int).filter(pred)
            });
        }
        if is_archive_name(entries[e].1.as_str(), base) {
            let entry = (entries[e].0, entries[e].1.clone());
            assert(entry == entries@[e as int]);
            archives.push(entry);
        }
        e = e + 1;
    }
    assert(entries@.take(entries.len() as int) =~= entries@);
    let ghost a = archives@;
    let mut r: Vec<String> = Vec::new();
    let mut i: usize = 0;
    while i < archives.len()
        invariant
            archives@ == a,
            i <= a.len(),
            r@.len() == pruned_prefix(a, i as nat).len(),
            forall|k: int| 0 <= k < r@.len() ==> #[trigger] r@[k]@ == pruned_prefix(a, i as nat)[k],
        decreases archives.len() - i,
    {
        let mut before: usize = 0;
        let mut j: usize = 0;
        while j < archives.len()
            invariant
                archives@ == a,
                i < a.len(),
                j <= a.len(),
                before == count_before(a, i as int, j as nat),
                before <= j,
            decreases archives.len() - j,
        {
            if archives[j].0 > archives[i].0 || (archives[j].0 == archives[i].0 && j < i) {
                before = before + 1;
            }
            j = j + 1;
        }
        if before >= LOG_KEEP_FILES {
            r.push(archives[i].1.clone());
        }
        i = i + 1;
    }
    r
}

/// The recency rank of each archive, as a function of its position.
pub open spec fn rank_of(a: Seq<(i128, String)>) -> spec_fn(int) -> int {
    |i: int| recency_rank(a, i) as int
}

/// The test for an archive that is pruned.
pub open spec fn is_pruned(a: Seq<(i128, String)>) -> spec_fn(int) -> bool {
    |i: int| recency_rank(a, i) >= LOG_KEEP_FILES
}

/// The test for an archive that is kept.
pub open spec fn is_kept(a: Seq<(i128, String)>) -> spec_fn(int) -> bool {
    |i: int| recency_rank(a, i) < LOG_KEEP_FILES
}

/// An archive that sorts before another is counted before it, and so is
/// everything that sorts before it.
proof fn lemma_count_before_monotone(a: Seq<(i128, String)>, i: int, j: int, m: nat)
    requires
        sorts_before(a, j, i),
    ensures
        count_before(a, i, m) >= count_before(a, j, m) + (if 0 <= j < m { 1nat } else { 0nat }),
    decreases m,
{
    if m > 0 {
        lemma_count_before_monotone(a, i, j, (m - 1) as nat);
        let k = m - 1;
        assert(sorts_before(a, k, j) ==> sorts_before(a, k, i));
        assert(!sorts_before(a, j, j));
        assert(count_before(a, i, m) == count_before(a, i, (m - 1) as nat) + (if sorts_before(a, k, i) {
            1nat
        } else {
            0nat
        }));
        assert(count_before(a, j, m) == count_before(a, j, (m - 1) as nat) + (if sorts_before(a, k, j) {
            1nat
        } else {
            0nat
        }));
        if k == j {
            assert(sorts_before(a, k, i));
        }
    }
}

/// No archive sorts before itself, so fewer than `m` of the first `m` do.
proof fn lemma_count_before_bound(a: Seq<(i128, String)>, i: int, m: nat)
    ensures
        count_before(a, i, m) + (if 0 <= i < m { 1nat } else { 0nat }) <= m,
    decreases m,
{
    if m > 0 {
        lemma_count_before_bound(a, i, (m - 1) as nat);
        assert(!sorts_before(a, i, i));
    }
}

/// The pruned names among the first `m` archives are as many as the
/// positions below `m` whose rank is too high.
proof fn lemma_pruned_count(a: Seq<(i128, String)>, m: nat)
    requires
        m <= a.len(),
    ensures
        set_int_range(0, m as int).filter(is_pruned(a)).finite(),
        pruned_prefix(a, m).len() == set_int_range(0, m as int).filter(is_pruned(a)).len(),
    decreases m,
{
    let p = is_pruned(a);
    if m == 0 {
        assert(set_int_range(0, 0).filter(p) =~= Set::<int>::empty());
    } else {
        lemma_pruned_count(a, (m - 1) as nat);
        let prev = set_int_range(0, m - 1).filter(p);
        let cur = set_int_range(0, m as int).filter(p);
        if p(m - 1) {
            assert(cur =~= prev.insert(m - 1));
            assert(!prev.contains(m - 1));
        } else {
            assert(cur =~= prev);
        }
    }
}

/// Of the compressed rotations of a log, all but the newest `LOG_KEEP_FILES`
/// are pruned: as many as there are beyond that number, and never one that
/// sorts before (is newer than) an archive that is kept.
pub proof fn lemma_prune_keeps_newest(entries: Seq<(i128, String)>, base: Seq<char>)
    ensures
        ({
            let a = archives_of(entries, base);
            pruned_prefix(a, a.len()).len() == (if a.len() > LOG_KEEP_FILES {
                a.len() - LOG_KEEP_FILES
            } else {
                0
            })
        }),
        ({
            let a = archives_of(entries, base);
            forall|i: int, j: int|
                0 <= i < a.len() && 0 <= j < a.len() && sorts_before(a, j, i)
                    && #[trigger] recency_rank(a, i) < LOG_KEEP_FILES ==> #[trigger] recency_rank(a, j)
                    < LOG_KEEP_FILES
        }),
{
    let a = archives_of(entries, base);
    let n = a.len();
    let x = set_int_range(0, n as int);
    let f = rank_of(a);
    lemma_int_range(0, n as int);
    assert forall|i: int, j: int|
        0 <= i < n && 0 <= j < n && sorts_before(a, j, i) implies #[trigger] recency_rank(a, j)
        < #[trigger] recency_rank(a, i) by {
        lemma_count_before_monotone(a, i, j, n);
    }
    assert forall|x1: int, x2: int| x.contains(x1) && x.contains(x2) && #[trigger] f(x1) == #[trigger] f(
        x2,
    ) implies x1 == x2 by {
        if x1 != x2 {
            if !sorts_before(a, x2, x1) {
                assert(sorts_before(a, x1, x2));
            }
        }
    }
    let y = x.map(f);
    lemma_map_size(x, y, f);
    assert forall|r: int| y.contains(r) implies x.contains(r) by {
        let i = choose|i: int| x.contains(i) && f(i) == r;
        lemma_count_before_bound(a, i, n);
    }
    lemma_subset_equality(y, x);
    let kk: int = if n > LOG_KEEP_FILES { LOG_KEEP_FILES as int } else { n as int };
    let kept = x.filter(is_kept(a));
    let ranks = set_int_range(0, kk);
    lemma_int_range(0, kk);
    assert forall|r: int| #[trigger] kept.map(f).contains(r) <==> ranks.contains(r) by {
        if kept.map(f).contains(r) {
            let i = choose|i: int| kept.contains(i) && f(i) == r;
            assert(y.contains(r));
        }
        if ranks.contains(r) {
            assert(x.contains(r));
            assert(y.contains(r));
            let i = choose|i: int| x.contains(i) && f(i) == r;
            assert(kept.contains(i));
        }
    }
    assert(kept.map(f) =~= ranks);
    lemma_len_subset(kept, x);
    lemma_map_size(kept, ranks, f);
    lemma_pruned_count(a, n);
    let pruned = x.filter(is_pruned(a));
    assert(pruned + kept =~= x);
    assert(pruned.disjoint(kept));
    lemma_set_disjoint_lens(pruned, kept);
}

} // verus!
