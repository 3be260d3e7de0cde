use vstd::prelude::*;
use vstd::string::*;
use crate::naming::{
    spec_cache_file_name, spec_temp_file_name, spec_join_path, cache_file_name, temp_file_name,
    join_path, str_eq, lemma_temp_name_distinct, lemma_join_path_distinct,
};

verus! {

/// Pairwise-distinct keys in an association list.
pub open spec fn distinct_keys<K, V>(s: Seq<(K, V)>) -> bool {
    forall|i: int, j: int|
        0 <= i < s.len() && 0 <= j < s.len() && i != j ==> s[i].0 != s[j].0
}

/// The map an association list denotes; later entries win, but under
/// [`distinct_keys`] there is nothing to win over.
pub open spec fn pairs_map<K, V>(s: Seq<(K, V)>) -> Map<K, V>
    decreases s.len(),
{
    if s.len() == 0 {
        Map::empty()
    } else {
        pairs_map(s.drop_last()).insert(s.last().0, s.last().1)
    }
}

/// The denoted map is finite and keyed exactly by the keys of the list.
pub proof fn lemma_pairs_contains<K, V>(s: Seq<(K, V)>, k: K)
    ensures
        pairs_map(s).dom().finite(),
        pairs_map(s).contains_key(k) <==> (exists|i: int| 0 <= i < s.len() && s[i].0 == k),
    decreases s.len(),
{
    if s.len() == 0 {
    } else {
        lemma_pairs_contains(s.drop_last(), k);
        if s.last().0 == k {
            assert(s[s.len() - 1].0 == k);
        } else if pairs_map(s).contains_key(k) {
            let i = choose|i: int| 0 <= i < s.drop_last().len() && s.drop_last()[i].0 == k;
            assert(s[i].0 == k);
        } else if exists|i: int| 0 <= i < s.len() && s[i].0 == k {
            let i = choose|i: int| 0 <= i < s.len() && s[i].0 == k;
            assert(s.drop_last()[i].0 == k);
        }
    }
}

/// Under distinct keys, each position of the list is what the denoted map
/// stores for its key.
pub proof fn lemma_pairs_index<K, V>(s: Seq<(K, V)>, i: int)
    requires
        distinct_keys(s),
        0 <= i < s.len(),
    ensures
        pairs_map(s).contains_key(s[i].0),
        pairs_map(s)[s[i].0] == s[i].1,
    decreases s.len(),
{
    lemma_pairs_contains(s, s[i].0);
    if i == s.len() - 1 {
    } else {
        assert(s.drop_last()[i] == s[i]);
        lemma_pairs_index(s.drop_last(), i);
        assert(s.last().0 != s[i].0);
    }
}

/// Appending a pair denotes inserting it under its key.
pub proof fn lemma_pairs_push<K, V>(s: Seq<(K, V)>, p: (K, V))
    ensures
        pairs_map(s.push(p)) == pairs_map(s).insert(p.0, p.1),
{
    assert(s.push(p).drop_last() =~= s);
    assert(s.push(p).last() == p);
}

/// Replacing the pair at one position by one with the same key denotes
/// inserting the new value under that key.
pub proof fn lemma_pairs_update<K, V>(s: Seq<(K, V)>, i: int, p: (K, V))
    requires
        distinct_keys(s),
        0 <= i < s.len(),
        p.0 == s[i].0,
    ensures
        pairs_map(s.update(i, p)) == pairs_map(s).insert(p.0, p.1),
    decreases s.len(),
{
    let t = s.update(i, p);
    if i == s.len() - 1 {
        assert(t.drop_last() =~= s.drop_last());
        assert(t.last() == p);
        assert(pairs_map(s.drop_last()).insert(s.last().0, s.last().1).insert(p.0, p.1)
            =~= pairs_map(s.drop_last()).insert(p.0, p.1));
    } else {
        assert(t.drop_last() =~= s.drop_last().update(i, p));
        assert(s.drop_last()[i] == s[i]);
        lemma_pairs_update(s.drop_last(), i, p);
        assert(t.last() == s.last());
        assert(s.last().0 != p.0);
        assert(pairs_map(s.drop_last()).insert(p.0, p.1).insert(s.last().0, s.last().1)
            =~= pairs_map(s.drop_last()).insert(s.last().0, s.last().1).insert(p.0, p.1));
    }
}

/// Removing the pair at one position denotes removing its key.
pub proof fn lemma_pairs_remove<K, V>(s: Seq<(K, V)>, i: int)
    requires
        distinct_keys(s),
        0 <= i < s.len(),
    ensures
        pairs_map(s.remove(i)) == pairs_map(s).remove(s[i].0),
    decreases s.len(),
{
    let t = s.remove(i);
    s.remove_ensures(i);
    if i == s.len() - 1 {
        assert(t =~= s.drop_last());
        lemma_pairs_contains(s.drop_last(), s[i].0);
        assert(forall|j: int| 0 <= j < s.drop_last().len() ==> s.drop_last()[j].0 != s[i].0);
        assert(pairs_map(s.drop_last()).insert(s.last().0, s.last().1).remove(s[i].0)
            =~= pairs_map(s.drop_last()));
    } else {
        assert(t.len() == s.len() - 1);
        assert(t.drop_last() =~= s.drop_last().remove(i));
        assert(s.drop_last()[i] == s[i]);
        lemma_pairs_remove(s.drop_last(), i);
        assert(t.last() == s[s.len() - 1]);
        assert(s.last().0 != s[i].0);
        assert(pairs_map(s.drop_last()).remove(s[i].0).insert(s.last().0, s.last().1)
            =~= pairs_map(s.drop_last()).insert(s.last().0, s.last().1).remove(s[i].0));
    }
}

/// Per-URL bookkeeping record: where the asset lives (or will live) on
/// disk, and whether a download for it is still in flight.
#[derive(Debug, Clone)]
pub struct CacheEntry {
    pub path: String,
    pub downloading: bool,
}

/// Mathematical model of a cache entry.
#[verifier::ext_equal]
pub struct CacheEntryModel {
    pub path: Seq<char>,
    pub downloading: bool,
}

impl CacheEntry {
    /// The entry's mathematical model.
    pub open spec fn model(self) -> CacheEntryModel {
        CacheEntryModel { path: self.path@, downloading: self.downloading }
    }
}

/// The models of an entry list: URL to entry model.
pub open spec fn entry_models(s: Seq<(String, CacheEntry)>) -> Seq<(Seq<char>, CacheEntryModel)> {
    s.map_values(|p: (String, CacheEntry)| (p.0@, p.1.model()))
}

/// The canonical on-disk path an asset of a URL is cached at.
pub open spec fn spec_dest_path(dir: Seq<char>, url: Seq<char>) -> Seq<char> {
    spec_join_path(dir, spec_cache_file_name(url))
}

/// The temporary path a download writes to before the atomic rename.
pub open spec fn spec_temp_path(dir: Seq<char>, url: Seq<char>) -> Seq<char> {
    spec_join_path(dir, spec_temp_file_name(url))
}

/// What one cache consultation decides: wait for an in-flight download,
/// use a resolved path, or fetch into `temp` and rename to `dest`.
#[derive(Debug)]
pub enum FetchPlan {
    Wait,
    Use { path: String },
    Fetch { dest: String, temp: String },
}

/// Mathematical model of a fetch plan.
#[verifier::ext_equal]
pub enum FetchPlanModel {
    Wait,
    Use { path: Seq<char> },
    Fetch { dest: Seq<char>, temp: Seq<char> },
}

impl FetchPlan {
    /// The plan's mathematical model.
    pub open spec fn model(self) -> FetchPlanModel {
        match self {
            FetchPlan::Wait => FetchPlanModel::Wait,
            FetchPlan::Use { path } => FetchPlanModel::Use { path: path@ },
            FetchPlan::Fetch { dest, temp } => FetchPlanModel::Fetch {
                dest: dest@,
                temp: temp@,
            },
        }
    }
}

/// The plan one consultation returns, given the cache map, the cache
/// directory, the URL and whether the canonical path already exists on
/// disk. An entry marked in-flight means wait — never a second fetch; a
/// file already on disk is used as is; otherwise a fetch begins.
pub open spec fn spec_plan(
    m: Map<Seq<char>, CacheEntryModel>,
    dir: Seq<char>,
    url: Seq<char>,
    dest_on_disk: bool,
) -> FetchPlanModel {
    if m.contains_key(url) && m[url].downloading {
        FetchPlanModel::Wait
    } else if dest_on_disk {
        FetchPlanModel::Use { path: spec_dest_path(dir, url) }
    } else {
        FetchPlanModel::Fetch {
            dest: spec_dest_path(dir, url),
            temp: spec_temp_path(dir, url),
        }
    }
}

/// The cache map after that consultation: waiting changes nothing; a hit
/// records the resolved entry; a fetch marks the URL in flight before any
/// network request is issued, so concurrent requests observe it.
pub open spec fn spec_plan_state(
    m: Map<Seq<char>, CacheEntryModel>,
    dir: Seq<char>,
    url: Seq<char>,
    dest_on_disk: bool,
) -> Map<Seq<char>, CacheEntryModel> {
    if m.contains_key(url) && m[url].downloading {
        m
    } else if dest_on_disk {
        m.insert(url, CacheEntryModel { path: spec_dest_path(dir, url), downloading: false })
    } else {
        m.insert(url, CacheEntryModel { path: spec_dest_path(dir, url), downloading: true })
    }
}

/// The content-addressed asset cache: URL-keyed entries plus the cache
/// directory all assets live under. Its view is the map from URL to entry
/// model.
#[derive(Debug)]
pub struct AssetCache {
    pub cache_dir: String,
    pub entries: Vec<(String, CacheEntry)>,
}

impl View for AssetCache {
    type V = Map<Seq<char>, CacheEntryModel>;

    open spec fn view(&self) -> Map<Seq<char>, CacheEntryModel> {
        pairs_map(entry_models(self.entries@))
    }
}

impl AssetCache {
    /// Well-formed: no URL occurs twice.
    pub open spec fn wf(&self) -> bool {
        distinct_keys(entry_models(self.entries@))
    }

    /// An empty cache over the given directory.
    pub fn new(cache_dir: String) -> (c: AssetCache)
        ensures
            c.wf(),
            c@ == Map::<Seq<char>, CacheEntryModel>::empty(),
            c.cache_dir@ == cache_dir@,
    {
        let c = AssetCache { cache_dir, entries: Vec::new() };
        proof {
            assert(entry_models(c.entries@) =~= Seq::<(Seq<char>, CacheEntryModel)>::empty());
        }
        c
    }

    /// Position of the entry for a URL, if any.
    fn find(&self, url: &str) -> (r: Option<usize>)
        ensures
            match r {
                Some(i) => i < entry_models(self.entries@).len() && entry_models(self.entries@)[
                    i as int
                ].0 == url@,
                None => forall|j: int|
                    0 <= j < entry_models(self.entries@).len() ==> entry_models(self.entries@)[
                        j
                    ].0 != url@,
            },
    {
        let mut i: usize = 0;
        while i < self.entries.len()
            invariant
                i <= self.entries@.len(),
                forall|j: int| 0 <= j < i ==> entry_models(self.entries@)[j].0 != url@,
            decreases self.entries@.len() - i,
        {
            if str_eq(self.entries[i].0.as_str(), url) {
                return Some(i);
            }
            i = i + 1;
        }
        None
    }

    /// The canonical cache path for a URL (no state change).
    pub fn dest_path(&self, url: &str) -> (p: String)
        ensures
            p@ == spec_dest_path(self.cache_dir@, url@),
    {
        let name = cache_file_name(url);
        join_path(self.cache_dir.as_str(), name.as_str())
    }

    /// The temporary download path for a URL (no state change).
    pub fn temp_path(&self, url: &str) -> (p: String)
        ensures
            p@ == spec_temp_path(self.cache_dir@, url@),
    {
        let name = temp_file_name(url);
        join_path(self.cache_dir.as_str(), name.as_str())
    }

    /// Insert or replace the entry for a URL.
    fn put(&mut self, url: &str, e: CacheEntry)
        requires
            old(self).wf(),
        ensures
            final(self).wf(),
            final(self)@ == old(self)@.insert(url@, e.model()),
            final(self).cache_dir@ == old(self).cache_dir@,
    {
        let ghost pre = entry_models(self.entries@);
        let ghost em = e.model();
        match self.find(url) {
            Some(i) => {
                proof {
                    lemma_pairs_index(pre, i as int);
                }
                let slot = &mut self.entries[i];
                *slot = (String::from_str(url), e);
                proof {
                    assert(entry_models(self.entries@) =~= pre.update(i as int, (url@, em)));
                    assert forall|p: int, q: int|
                        0 <= p < entry_models(self.entries@).len() && 0 <= q < entry_models(
                            self.entries@,
                        ).len() && p != q implies entry_models(self.entries@)[p].0 != entry_models(
                        self.entries@,
                    )[q].0 by {
                        assert(pre[p].0 != pre[q].0);
                    }
                    lemma_pairs_update(pre, i as int, (url@, em));
                }
            },
            None => {
                self.entries.push((String::from_str(url), e));
                proof {
                    assert(entry_models(self.entries@) =~= pre.push((url@, em)));
                    lemma_pairs_push(pre, (url@, em));
                    lemma_pairs_contains(pre, url@);
                    assert forall|p: int, q: int|
                        0 <= p < entry_models(self.entries@).len() && 0 <= q < entry_models(
                            self.entries@,
                        ).len() && p != q implies entry_models(self.entries@)[p].0 != entry_models(
                        self.entries@,
                    )[q].0 by {
                        if p < pre.len() && q < pre.len() {
                            assert(pre[p].0 != pre[q].0);
                        } else if p < pre.len() {
                            assert(pre[p].0 != url@);
                        } else {
                            assert(pre[q].0 != url@);
                        }
                    }
                }
            },
        }
    }

    /// One consultation of the cache, the decision half of `get_model`.
    /// The caller reports whether the canonical path is already on disk
    /// (checked between [`AssetCache::dest_path`] and this call); the
    /// plan says what to do, and the cache records hits and in-flight
    /// downloads exactly as [`spec_plan_state`] describes.
    pub fn plan_fetch(&mut self, url: &str, dest_on_disk: bool) -> (p: FetchPlan)
        requires
            old(self).wf(),
        ensures
            final(self).wf(),
            final(self).cache_dir@ == old(self).cache_dir@,
            p.model() == spec_plan(old(self)@, old(self).cache_dir@, url@, dest_on_disk),
            final(self)@ == spec_plan_state(old(self)@, old(self).cache_dir@, url@, dest_on_disk),
    {
        let ghost pre = entry_models(self.entries@);
        let mut in_flight = false;
        match self.find(url) {
            Some(i) => {
                proof {
                    lemma_pairs_index(pre, i as int);
                }
                if self.entries[i].1.downloading {
                    in_flight = true;
                }
            },
            None => {
                proof {
                    lemma_pairs_contains(pre, url@);
                }
            },
        }
        if in_flight {
            return FetchPlan::Wait;
        }
        let dest = self.dest_path(url);
        if dest_on_disk {
            self.put(url, CacheEntry { path: dest.clone(), downloading: false });
            FetchPlan::Use { path: dest }
        } else {
            let temp = self.temp_path(url);
            self.put(url, CacheEntry { path: dest.clone(), downloading: true });
            FetchPlan::Fetch { dest, temp }
        }
    }

    /// Record the outcome of a download, the bookkeeping half of
    /// `get_model`: success resolves the entry and returns the canonical
    /// path; failure evicts the entry entirely — a future request retries
    /// from scratch — and returns nothing.
    pub fn finish_fetch(&mut self, url: &str, fetched: bool) -> (r: Option<String>)
        requires
            old(self).wf(),
        ensures
            final(self).wf(),
            final(self).cache_dir@ == old(self).cache_dir@,
            fetched ==> ({
                &&& match r {
                    Some(p) => p@ == spec_dest_path(old(self).cache_dir@, url@),
                    None => false,
                }
                &&& final(self)@ == old(self)@.insert(
                    url@,
                    CacheEntryModel {
                        path: spec_dest_path(old(self).cache_dir@, url@),
                        downloading: false,
                    },
                )
            }),
            !fetched ==> r is None && final(self)@ == old(self)@.remove(url@),
    {
        if fetched {
            let dest = self.dest_path(url);
            self.put(url, CacheEntry { path: dest.clone(), downloading: false });
            Some(dest)
        } else {
            let ghost pre = entry_models(self.entries@);
            match self.find(url) {
                Some(i) => {
                    proof {
                        lemma_pairs_index(pre, i as int);
                        lemma_pairs_remove(pre, i as int);
                        pre.remove_ensures(i as int);
                    }
                    self.entries.remove(i);
                    proof {
                        assert(entry_models(self.entries@) =~= pre.remove(i as int));
                        assert forall|p: int, q: int|
                            0 <= p < entry_models(self.entries@).len() && 0 <= q < entry_models(
                                self.entries@,
                            ).len() && p != q implies entry_models(self.entries@)[p].0
                            != entry_models(self.entries@)[q].0 by {
                            let pp: int = if p < i { p } else { p + 1 };
                            let qq: int = if q < i { q } else { q + 1 };
                            assert(pre[pp].0 != pre[qq].0);
                        }
                    }
                },
                None => {
                    proof {
                        lemma_pairs_contains(pre, url@);
                        assert(final(self)@ =~= old(self)@.remove(url@));
                    }
                },
            }
            None
        }
    }

    /// Forget every entry (the directory itself is the caller's to clear).
    pub fn clear_entries(&mut self)
        requires
            old(self).wf(),
        ensures
            final(self).wf(),
            final(self)@ == Map::<Seq<char>, CacheEntryModel>::empty(),
            final(self).cache_dir@ == old(self).cache_dir@,
    {
        self.entries.clear();
        proof {
            assert(entry_models(self.entries@) =~= Seq::<(Seq<char>, CacheEntryModel)>::empty());
        }
    }
}

/// Download de-duplication: once one consultation has decided to fetch a
/// URL, every later consultation for the same URL — whatever it sees on
/// disk — waits instead of issuing a second fetch, until the first
/// download's outcome is recorded.
pub proof fn lemma_concurrent_fetch_waits(
    m: Map<Seq<char>, CacheEntryModel>,
    dir: Seq<char>,
    url: Seq<char>,
    d1: bool,
    d2: bool,
)
    requires
        spec_plan(m, dir, url, d1) is Fetch,
    ensures
        spec_plan(spec_plan_state(m, dir, url, d1), dir, url, d2) == FetchPlanModel::Wait,
{
}

/// After a success is recorded, a consultation that finds the file on disk
/// is a pure cache hit: it returns the recorded path and leaves the cache
/// unchanged, so no re-download and no touch of the cached file occurs.
pub proof fn lemma_hit_after_completion(
    m: Map<Seq<char>, CacheEntryModel>,
    dir: Seq<char>,
    url: Seq<char>,
)
    ensures
        ({
            let done = CacheEntryModel { path: spec_dest_path(dir, url), downloading: false };
            let m2 = m.insert(url, done);
            &&& spec_plan(m2, dir, url, true) == (FetchPlanModel::Use {
                path: spec_dest_path(dir, url),
            })
            &&& spec_plan_state(m2, dir, url, true) == m2
        }),
{
    let done = CacheEntryModel { path: spec_dest_path(dir, url), downloading: false };
    let m2 = m.insert(url, done);
    assert(m2.insert(url, done) =~= m2);
}

/// The download protocol's two paths never collide: the temporary file a
/// fetch writes to is distinct from the canonical cache path, so until
/// the final atomic rename no reader can observe a partial asset at the
/// canonical path.
pub proof fn lemma_temp_path_distinct(dir: Seq<char>, url: Seq<char>)
    ensures
        spec_temp_path(dir, url) != spec_dest_path(dir, url),
{
    lemma_temp_name_distinct(url);
    lemma_join_path_distinct(dir, spec_temp_file_name(url), spec_cache_file_name(url));
}

} // verus!
