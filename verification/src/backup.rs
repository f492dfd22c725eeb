//! Backup entries and retention-based pruning: the newest `keep_count`
//! entries by modification time stay, everything older goes.
use vstd::prelude::*;

verus! {

broadcast use {vstd::seq_lib::group_to_multiset_ensures, vstd::multiset::group_multiset_axioms};

/// One entry of a backup directory: its modification time and the bytes
/// it preserves.
#[derive(Clone, Debug)]
pub struct BackupEntry {
    pub mtime: u64,
    pub content: String,
}

/// The mathematical reading of a backup entry.
#[verifier::ext_equal]
pub ghost struct AbsEntry {
    pub mtime: nat,
    pub content: Seq<char>,
}

impl View for BackupEntry {
    type V = AbsEntry;

    open spec fn view(&self) -> AbsEntry {
        AbsEntry { mtime: self.mtime as nat, content: self.content@ }
    }
}

/// The entries of a backup directory, read mathematically.
pub open spec fn abs_entries(s: Seq<BackupEntry>) -> Seq<AbsEntry> {
    Seq::new(s.len(), |i: int| s[i]@)
}

/// Newest first, ties allowed.
pub open spec fn sorted_desc(s: Seq<AbsEntry>) -> bool {
    forall|i: int, j: int| 0 <= i < j < s.len() ==> s[i].mtime >= s[j].mtime
}

/// Newest first with pairwise distinct modification times.
pub open spec fn strictly_sorted_desc(s: Seq<AbsEntry>) -> bool {
    forall|i: int, j: int| 0 <= i < j < s.len() ==> s[i].mtime > s[j].mtime
}

proof fn lemma_chain_ge(s: Seq<AbsEntry>, i: int, j: int)
    requires
        forall|k: int| 0 <= k < s.len() - 1 ==> #[trigger] s[k].mtime >= s[k + 1].mtime,
        0 <= i <= j < s.len(),
    ensures
        s[i].mtime >= s[j].mtime,
    decreases j - i,
{
    if i < j {
        lemma_chain_ge(s, i + 1, j);
    }
}

/// Finds an index holding a maximal modification time.
fn index_of_max(v: &Vec<BackupEntry>) -> (m: usize)
    requires
        v@.len() > 0,
    ensures
        m < v@.len(),
        forall|j: int| 0 <= j < v@.len() ==> v@[m as int].mtime >= v@[j].mtime,
{
    let mut m: usize = 0;
    let mut i: usize = 1;
    while i < v.len()
        invariant
            m < i <= v@.len(),
            forall|j: int| 0 <= j < i ==> v@[m as int].mtime >= v@[j].mtime,
        decreases v@.len() - i,
    {
        if v[i].mtime > v[m].mtime {
            m = i;
        }
        i = i + 1;
    }
    m
}

/// Tests whether the entries already stand newest first.
fn is_sorted_desc(v: &Vec<BackupEntry>) -> (r: bool)
    ensures
        r == sorted_desc(abs_entries(v@)),
{
    let n = v.len();
    let mut i: usize = 1;
    while i < n
        invariant
            1 <= i,
            n == v@.len(),
            forall|k: int| 0 <= k < i - 1 ==> #[trigger] v@[k].mtime >= v@[k + 1].mtime,
        decreases n - i,
    {
        if v[i - 1].mtime < v[i].mtime {
            proof {
                assert(!sorted_desc(abs_entries(v@))) by {
                    assert(abs_entries(v@)[i - 1].mtime < abs_entries(v@)[i as int].mtime);
                }
            }
            return false;
        }
        i = i + 1;
    }
    proof {
        assert forall|a: int, b: int| 0 <= a < b < v@.len() implies abs_entries(v@)[a].mtime
            >= abs_entries(v@)[b].mtime by {
            assert(forall|k: int| 0 <= k < abs_entries(v@).len() - 1 ==> #[trigger] abs_entries(v@)[k].mtime
                >= abs_entries(v@)[k + 1].mtime);
            lemma_chain_ge(abs_entries(v@), a, b);
        }
    }
    true
}

/// Reorders the entries newest first. The collection of entries is kept
/// exactly; only the order changes.
fn sort_desc(v: &mut Vec<BackupEntry>)
    ensures
        final(v)@.len() == old(v)@.len(),
        abs_entries(final(v)@).to_multiset() == abs_entries(old(v)@).to_multiset(),
        sorted_desc(abs_entries(final(v)@)),
{
    let ghost orig = v@;
    let mut out: Vec<BackupEntry> = Vec::new();
    proof {
        assert(abs_entries(out@) =~= Seq::<AbsEntry>::empty());
        assert(abs_entries(out@).to_multiset().add(abs_entries(v@).to_multiset()) =~= abs_entries(
            orig,
        ).to_multiset());
    }
    while v.len() > 0
        invariant
            out@.len() + v@.len() == orig.len(),
            abs_entries(out@).to_multiset().add(abs_entries(v@).to_multiset()) == abs_entries(
                orig,
            ).to_multiset(),
            sorted_desc(abs_entries(out@)),
            forall|a: int, b: int|
                0 <= a < out@.len() && 0 <= b < v@.len() ==> out@[a].mtime >= v@[b].mtime,
        decreases v@.len(),
    {
        let ghost prev_out = out@;
        let ghost prev_v = v@;
        let m = index_of_max(v);
        let e = v.remove(m);
        out.push(e);
        proof {
            assert(abs_entries(out@) =~= abs_entries(prev_out).push(e@));
            assert(abs_entries(v@) =~= abs_entries(prev_v).remove(m as int));
            assert(abs_entries(prev_v)[m as int] == e@);
            assert(abs_entries(prev_v).contains(e@));
            assert(abs_entries(out@).to_multiset() =~= abs_entries(prev_out).to_multiset().insert(
                e@,
            ));
            assert(abs_entries(v@).to_multiset() =~= abs_entries(prev_v).to_multiset().remove(e@));
            assert(abs_entries(out@).to_multiset().add(abs_entries(v@).to_multiset())
                =~= abs_entries(orig).to_multiset());
        }
    }
    *v = out;
}

/// Keeps the `keep_count` newest entries and hands back the rest.
///
/// Exactly the most-recently-modified entries are retained: every kept
/// entry is at least as new as every removed one, and together they are
/// the original entries. When the entries already stand newest first
/// the kept ones are exactly the leading `keep_count`, in their order.
/// Nothing is touched when the count is within bounds.
pub fn cleanup_old_backups(backups: &mut Vec<BackupEntry>, keep_count: usize) -> (removed: Vec<
    BackupEntry,
>)
    ensures
        final(backups)@.len() == if old(backups)@.len() <= keep_count {
            old(backups)@.len() as int
        } else {
            keep_count as int
        },
        final(backups)@.len() + removed@.len() == old(backups)@.len(),
        abs_entries(final(backups)@).to_multiset().add(abs_entries(removed@).to_multiset())
            == abs_entries(old(backups)@).to_multiset(),
        forall|a: int, b: int|
            0 <= a < final(backups)@.len() && 0 <= b < removed@.len()
                ==> final(backups)@[a].mtime >= removed@[b].mtime,
        old(backups)@.len() <= keep_count ==> final(backups)@ == old(backups)@ && removed@.len()
            == 0,
        sorted_desc(abs_entries(old(backups)@)) ==> abs_entries(final(backups)@) == abs_entries(
            old(backups)@,
        ).take(final(backups)@.len() as int) && abs_entries(removed@) == abs_entries(
            old(backups)@,
        ).skip(final(backups)@.len() as int),
{
    if backups.len() <= keep_count {
        let removed: Vec<BackupEntry> = Vec::new();
        proof {
            assert(abs_entries(removed@) =~= Seq::<AbsEntry>::empty());
            assert(abs_entries(backups@).to_multiset().add(abs_entries(removed@).to_multiset())
                =~= abs_entries(backups@).to_multiset());
            assert(abs_entries(backups@) =~= abs_entries(backups@).take(backups@.len() as int));
            assert(abs_entries(removed@) =~= abs_entries(backups@).skip(backups@.len() as int));
        }
        return removed;
    }
    if !is_sorted_desc(backups) {
        sort_desc(backups);
    }
    let ghost sorted = backups@;
    let removed = backups.split_off(keep_count);
    proof {
        assert(abs_entries(backups@) =~= abs_entries(sorted).take(keep_count as int));
        assert(abs_entries(removed@) =~= abs_entries(sorted).skip(keep_count as int));
        vstd::seq_lib::lemma_multiset_commutative(abs_entries(backups@), abs_entries(removed@));
        assert(abs_entries(backups@) + abs_entries(removed@) =~= abs_entries(sorted));
        assert(sorted_desc(abs_entries(sorted)));
        assert forall|a: int, b: int|
            0 <= a < backups@.len() && 0 <= b < removed@.len() implies backups@[a].mtime
            >= removed@[b].mtime by {
            assert(abs_entries(sorted)[a].mtime >= abs_entries(sorted)[keep_count + b].mtime);
        }
    }
    removed
}

} // verus!
