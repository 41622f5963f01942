//! The parsed-font cache: identity-keyed memoization of parsed fonts.
//!
//! The cache is keyed by a font asset's stable identity, never by its
//! content: the first query for an id stores what was parsed, every later
//! query returns it untouched, and a sweep drops exactly the entries whose
//! id is no longer live.

use vstd::prelude::*;

use crate::font::FontMetrics;

verus! {

/// One cached font: the asset id it was parsed under and its metrics.
#[derive(Clone, Copy, Debug)]
pub struct FontCacheEntry {
    pub id: u64,
    pub metrics: FontMetrics,
}

/// No id appears twice.
pub open spec fn unique_ids(s: Seq<FontCacheEntry>) -> bool {
    forall|k1: int, k2: int|
        0 <= k1 < k2 < s.len() ==> (#[trigger] s[k1]).id != (#[trigger] s[k2]).id
}

/// The mapping a sequence of entries stands for.
pub open spec fn entries_map(s: Seq<FontCacheEntry>) -> Map<u64, FontMetrics>
    decreases s.len(),
{
    if s.len() == 0 {
        Map::empty()
    } else {
        entries_map(s.drop_last()).insert(s.last().id, s.last().metrics)
    }
}

/// An id is in the map exactly when some entry carries it.
pub proof fn lemma_entries_map_contains(s: Seq<FontCacheEntry>, id: u64)
    ensures
        entries_map(s).contains_key(id) <==> exists|k: int| 0 <= k < s.len() && (#[trigger] s[k]).id
            == id,
    decreases s.len(),
{
    if s.len() > 0 {
        lemma_entries_map_contains(s.drop_last(), id);
        assert(forall|k: int| 0 <= k < s.len() - 1 ==> #[trigger] s.drop_last()[k] == s[k]);
        if entries_map(s).contains_key(id) {
            if s.last().id == id {
                assert(s[s.len() - 1].id == id);
            }
        }
        if exists|k: int| 0 <= k < s.len() && (#[trigger] s[k]).id == id {
            let k = choose|k: int| 0 <= k < s.len() && (#[trigger] s[k]).id == id;
            if k < s.len() - 1 {
                assert(s.drop_last()[k].id == id);
            }
        }
    }
}

/// With unique ids, the map sends each entry's id to that entry's metrics.
pub proof fn lemma_entries_map_index(s: Seq<FontCacheEntry>, k: int)
    requires
        unique_ids(s),
        0 <= k < s.len(),
    ensures
        entries_map(s).contains_key(s[k].id),
        entries_map(s)[s[k].id] == s[k].metrics,
    decreases s.len(),
{
    assert(forall|k2: int| 0 <= k2 < s.len() - 1 ==> #[trigger] s.drop_last()[k2] == s[k2]);
    if k == s.len() - 1 {
    } else {
        lemma_entries_map_index(s.drop_last(), k);
        assert(s[k].id != s[s.len() - 1].id);
    }
}

/// What a sweep leaves behind: an id is kept exactly when it was present
/// and is still live, and a kept id maps to what it mapped to before.
pub open spec fn sweep_of(
    new_map: Map<u64, FontMetrics>,
    old_map: Map<u64, FontMetrics>,
    live: Seq<u64>,
) -> bool {
    &&& (forall|id: u64| #[trigger]
        new_map.contains_key(id) <==> (old_map.contains_key(id) && live.contains(id)))
    &&& (forall|id: u64| #[trigger] new_map.contains_key(id) ==> new_map[id] == old_map[id])
}

/// Identity-keyed cache of parsed fonts.
///
/// The host's flow is: `get` first; on a miss, parse the raw bytes once and
/// `insert` what came of it; parse failures are reported to the caller and
/// never cached. `cleanup` sweeps ids that left the live set without
/// touching the rest, so it is safe to run every tick.
#[derive(Debug)]
pub struct ParsedFontCache {
    entries: Vec<FontCacheEntry>,
}

impl View for ParsedFontCache {
    type V = Map<u64, FontMetrics>;

    closed spec fn view(&self) -> Map<u64, FontMetrics> {
        entries_map(self.entries@)
    }
}

impl ParsedFontCache {
    pub closed spec fn wf(&self) -> bool {
        unique_ids(self.entries@)
    }

    /// An empty cache.
    pub fn new() -> (r: ParsedFontCache)
        ensures
            r.wf(),
            r@ == Map::<u64, FontMetrics>::empty(),
    {
        ParsedFontCache { entries: Vec::new() }
    }

    /// Look an id up: the metrics stored for it, untouched, or `None` when
    /// the id was never inserted (or was swept).
    pub fn get(&self, id: u64) -> (r: Option<FontMetrics>)
        requires
            self.wf(),
        ensures
            match r {
                Some(m) => self@.contains_key(id) && m == self@[id],
                None => !self@.contains_key(id),
            },
    {
        let n = self.entries.len();
        let mut k: usize = 0;
        while k < n
            invariant
                k <= n,
                n == self.entries@.len(),
                self.wf(),
                forall|k2: int| 0 <= k2 < k ==> (#[trigger] self.entries@[k2]).id != id,
            decreases n - k,
        {
            if self.entries[k].id == id {
                proof {
                    lemma_entries_map_index(self.entries@, k as int);
                }
                return Some(self.entries[k].metrics);
            }
            k = k + 1;
        }
        proof {
            lemma_entries_map_contains(self.entries@, id);
        }
        None
    }

    /// Store what was parsed for a fresh id. The cache is keyed by
    /// identity: a later `get` for this id returns these metrics no matter
    /// what bytes the asset holds by then.
    pub fn insert(&mut self, id: u64, metrics: FontMetrics)
        requires
            old(self).wf(),
            !old(self)@.contains_key(id),
        ensures
            final(self).wf(),
            final(self)@ == old(self)@.insert(id, metrics),
    {
        proof {
            lemma_entries_map_contains(self.entries@, id);
        }
        let ghost pre = self.entries@;
        self.entries.push(FontCacheEntry { id, metrics });
        proof {
            assert(self.entries@.drop_last() =~= pre);
            assert(forall|k: int| 0 <= k < pre.len() ==> #[trigger] self.entries@[k] == pre[k]);
        }
    }

    /// How many fonts are cached.
    pub fn len(&self) -> (r: usize)
        requires
            self.wf(),
        ensures
            r == self.entries_len(),
    {
        self.entries.len()
    }

    pub closed spec fn entries_len(&self) -> nat {
        self.entries@.len()
    }

    /// Sweep the cache: an id survives exactly when it is in `live`, and a
    /// surviving entry is returned by `get` exactly as before. Safe to call
    /// every tick.
    pub fn cleanup(&mut self, live: &Vec<u64>)
        requires
            old(self).wf(),
        ensures
            final(self).wf(),
            sweep_of(final(self)@, old(self)@, live@),
    {
        let kept = sweep_entries(&self.entries, live);
        self.entries = kept;
    }
}

/// Keep exactly the entries whose id is live, in order, values untouched.
#[verifier::rlimit(50)]
fn sweep_entries(entries: &Vec<FontCacheEntry>, live: &Vec<u64>) -> (kept: Vec<FontCacheEntry>)
    requires
        unique_ids(entries@),
    ensures
        unique_ids(kept@),
        sweep_of(entries_map(kept@), entries_map(entries@), live@),
{
    let ghost pre = entries@;
    let n = entries.len();
    let mut kept: Vec<FontCacheEntry> = Vec::new();
    let mut k: usize = 0;
    while k < n
        invariant
            k <= n,
            n == pre.len(),
            entries@ == pre,
            unique_ids(pre),
            forall|j: int| 0 <= j < kept@.len() ==> live@.contains((#[trigger] kept@[j]).id),
            forall|j: int|
                0 <= j < kept@.len() ==> exists|k2: int|
                    0 <= k2 < k && pre[k2] == #[trigger] kept@[j],
            forall|k2: int|
                0 <= k2 < k && live@.contains((#[trigger] pre[k2]).id) ==> exists|j: int|
                    0 <= j < kept@.len() && kept@[j] == pre[k2],
            unique_ids(kept@),
        decreases n - k,
    {
        let entry = entries[k];
        let ghost pre_kept = kept@;
        if contains_id(live, entry.id) {
            kept.push(entry);
            proof {
                assert(forall|j: int|
                    0 <= j < pre_kept.len() ==> #[trigger] kept@[j] == pre_kept[j]);
                assert(kept@[pre_kept.len() as int] == entry);
                assert(unique_ids(kept@)) by {
                    assert forall|j1: int, j2: int|
                        0 <= j1 < j2 < kept@.len() implies (#[trigger] kept@[j1]).id != (
                    #[trigger] kept@[j2]).id by {
                        if j2 == kept@.len() - 1 {
                            let k2 = choose|k2: int|
                                0 <= k2 < k && pre[k2] == #[trigger] pre_kept[j1];
                            assert(kept@[j1] == pre_kept[j1]);
                            assert(pre[k2].id != pre[k as int].id);
                        }
                    }
                }
            }
        }
        proof {
            assert forall|k2: int|
                0 <= k2 < k + 1 && live@.contains((#[trigger] pre[k2]).id) implies exists|j: int|
                0 <= j < kept@.len() && kept@[j] == pre[k2] by {
                if k2 == k as int {
                    assert(kept@[pre_kept.len() as int] == pre[k2]);
                } else {
                    let j = choose|j: int| 0 <= j < pre_kept.len() && pre_kept[j] == pre[k2];
                    assert(kept@[j] == pre[k2]);
                }
            }
        }
        k = k + 1;
    }
    proof {
        assert forall|id: u64| #[trigger]
            entries_map(kept@).contains_key(id) <==> (entries_map(pre).contains_key(id)
            && live@.contains(id)) by {
            lemma_entries_map_contains(kept@, id);
            lemma_entries_map_contains(pre, id);
            if entries_map(pre).contains_key(id) && live@.contains(id) {
                let k2 = choose|k2: int| 0 <= k2 < pre.len() && (#[trigger] pre[k2]).id == id;
                assert(live@.contains(pre[k2].id));
                let j = choose|j: int| 0 <= j < kept@.len() && kept@[j] == pre[k2];
                assert(kept@[j].id == id);
            }
            if entries_map(kept@).contains_key(id) {
                let j = choose|j: int| 0 <= j < kept@.len() && (#[trigger] kept@[j]).id == id;
                assert(live@.contains(kept@[j].id));
                let k2 = choose|k2: int| 0 <= k2 < pre.len() && pre[k2] == kept@[j];
                assert(pre[k2].id == id);
            }
        }
        assert forall|id: u64| #[trigger]
            entries_map(kept@).contains_key(id) implies entries_map(kept@)[id] == entries_map(
            pre,
        )[id] by {
            lemma_entries_map_contains(kept@, id);
            let j = choose|j: int| 0 <= j < kept@.len() && (#[trigger] kept@[j]).id == id;
            lemma_entries_map_index(kept@, j);
            let k2 = choose|k2: int| 0 <= k2 < pre.len() && pre[k2] == kept@[j];
            lemma_entries_map_index(pre, k2);
        }
        assert(sweep_of(entries_map(kept@), entries_map(pre), live@));
    }
    kept
}

/// Whether a live-id list carries an id.
fn contains_id(live: &Vec<u64>, id: u64) -> (r: bool)
    ensures
        r == live@.contains(id),
{
    let n = live.len();
    let mut k: usize = 0;
    while k < n
        invariant
            k <= n,
            n == live@.len(),
            forall|k2: int| 0 <= k2 < k ==> #[trigger] live@[k2] != id,
        decreases n - k,
    {
        if live[k] == id {
            return true;
        }
        k = k + 1;
    }
    proof {
        assert(!live@.contains(id));
    }
    false
}

} // verus!
