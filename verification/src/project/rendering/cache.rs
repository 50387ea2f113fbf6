//! The index of a cache of rendered assets: which cached file stands for an asset
//! rendered with given parameters, how much the cache holds, and which files to
//! drop when it holds too much. The files themselves are copied and deleted by
//! the caller, as the index says.

use vstd::prelude::*;
use crate::project::ids::{uuid_text, AssetId};
use crate::utility::text::{decimal, push_decimal, push_str, string_from_chars, text_of};
use crate::utility::time::Duration;

verus! {

/// What a cached file was made from and when: the time is in nanoseconds since
/// the Unix epoch, the size in bytes.
#[derive(Debug, Clone, Copy, PartialEq, Eq)]
pub struct CacheMetadata {
    pub created_at: u128,
    pub source_asset_id: AssetId,
    pub duration: Duration,
    pub params_hash: u64,
    pub file_size: u64,
}

/// A cached file and what it holds.
#[derive(Debug, Clone)]
pub struct CacheEntry {
    pub path: String,
    pub metadata: CacheMetadata,
}

/// What a cache entry holds.
pub struct EntryView {
    pub path: Seq<char>,
    pub metadata: CacheMetadata,
}

/// The views of the entries of `s`.
pub open spec fn entry_views(s: Seq<CacheEntry>) -> Seq<EntryView> {
    s.map_values(|e: CacheEntry| EntryView { path: e.path@, metadata: e.metadata })
}

/// What a cache index holds: its directory, its entries in the order they were
/// first made, its size limit, the bytes it counts and whether it is in use.
pub struct CacheView {
    pub dir: Seq<char>,
    pub entries: Seq<EntryView>,
    pub max_size: Option<u64>,
    pub current_size: nat,
    pub enabled: bool,
}

/// Whether `e` is the entry for the asset `asset` rendered with parameters of
/// hash `hash`.
pub open spec fn keyed(e: EntryView, asset: AssetId, hash: u64) -> bool {
    e.metadata.source_asset_id == asset && e.metadata.params_hash == hash
}

/// Index of the first entry of `s` for `asset` and `hash`, or -1.
pub open spec fn entry_index(s: Seq<EntryView>, asset: AssetId, hash: u64) -> int
    decreases s.len(),
{
    if s.len() == 0 {
        -1
    } else {
        let k = entry_index(s.drop_last(), asset, hash);
        if k >= 0 {
            k
        } else if keyed(s.last(), asset, hash) {
            s.len() - 1
        } else {
            -1
        }
    }
}

/// `entry_index` gives the first entry for the key, or -1 when there is none.
pub proof fn lemma_entry_index(s: Seq<EntryView>, asset: AssetId, hash: u64)
    ensures
        -1 <= entry_index(s, asset, hash) < s.len(),
        entry_index(s, asset, hash) >= 0 ==> keyed(s[entry_index(s, asset, hash)], asset, hash),
        forall|j: int|
            0 <= j < s.len() && (entry_index(s, asset, hash) < 0 || j < entry_index(s, asset, hash)) ==> !keyed(
                #[trigger] s[j],
                asset,
                hash,
            ),
    decreases s.len(),
{
    if s.len() > 0 {
        lemma_entry_index(s.drop_last(), asset, hash);
        assert forall|j: int|
            0 <= j < s.len() && (entry_index(s, asset, hash) < 0 || j < entry_index(s, asset, hash)) implies !keyed(
            #[trigger] s[j],
            asset,
            hash,
        ) by {
            if j < s.len() - 1 {
                assert(s[j] == s.drop_last()[j]);
            }
        }
    }
}

/// The first entry for a key is the one `entry_index` gives.
proof fn lemma_entry_index_first(s: Seq<EntryView>, asset: AssetId, hash: u64, i: int)
    requires
        0 <= i < s.len(),
        keyed(s[i], asset, hash),
        forall|j: int| 0 <= j < i ==> !keyed(#[trigger] s[j], asset, hash),
    ensures
        entry_index(s, asset, hash) == i,
{
    lemma_entry_index(s, asset, hash);
    let k = entry_index(s, asset, hash);
    if k < 0 || k > i {
        assert(!keyed(s[i], asset, hash));
    }
    if 0 <= k < i {
        assert(keyed(s[k], asset, hash));
    }
}

/// What is recorded is found: after an entry is recorded under its key (it
/// replaces the entry for that key, or comes last), looking the key up gives that
/// entry, as long as it is not dropped to make room.
pub proof fn lemma_recorded_found(s: Seq<EntryView>, e: EntryView)
    ensures
        ({
            let asset = e.metadata.source_asset_id;
            let hash = e.metadata.params_hash;
            let k = entry_index(s, asset, hash);
            let s1 = if k >= 0 { s.update(k, e) } else { s.push(e) };
            let found = entry_index(s1, asset, hash);
            &&& found >= 0
            &&& s1[found] == e
        }),
{
    let asset = e.metadata.source_asset_id;
    let hash = e.metadata.params_hash;
    lemma_entry_index(s, asset, hash);
    let k = entry_index(s, asset, hash);
    if k >= 0 {
        let s1 = s.update(k, e);
        assert forall|j: int| 0 <= j < k implies !keyed(#[trigger] s1[j], asset, hash) by {
            assert(s1[j] == s[j]);
        }
        lemma_entry_index_first(s1, asset, hash, k);
    } else {
        let s1 = s.push(e);
        assert forall|j: int| 0 <= j < s.len() implies !keyed(#[trigger] s1[j], asset, hash) by {
            assert(s1[j] == s[j]);
        }
        lemma_entry_index_first(s1, asset, hash, s.len() as int);
    }
}

/// `a - b`, or 0 when `b` is larger.
pub open spec fn minus(a: int, b: int) -> int {
    if a >= b {
        a - b
    } else {
        0
    }
}

/// Inserts `e` after the last entry (from the end) made no later: one step of a
/// stable sort by time of making.
pub open spec fn insert_by_created(s: Seq<EntryView>, e: EntryView) -> Seq<EntryView>
    decreases s.len(),
{
    if s.len() == 0 || s.last().metadata.created_at <= e.metadata.created_at {
        s.push(e)
    } else {
        insert_by_created(s.drop_last(), e).push(s.last())
    }
}

/// The entries of `s` oldest first, those made at the same time in their order.
pub open spec fn sorted_by_created(s: Seq<EntryView>) -> Seq<EntryView>
    decreases s.len(),
{
    if s.len() == 0 {
        s
    } else {
        insert_by_created(sorted_by_created(s.drop_last()), s.last())
    }
}

/// How many of the entries `t`, taken from index `i` on with `removed` bytes
/// already counted, go before the `current` bytes less those removed are at
/// most `max`: all of them when that never happens.
pub open spec fn evict_from(t: Seq<EntryView>, i: int, removed: int, current: int, max: int) -> int
    decreases t.len() - i,
{
    if i < 0 || i >= t.len() {
        t.len() as int
    } else {
        let r = removed + t[i].metadata.file_size;
        if minus(current, r) <= max {
            i + 1
        } else {
            evict_from(t, i + 1, r, current, max)
        }
    }
}

/// The entries dropped from `s` when the cache counts `current` bytes and may
/// hold `max`: the oldest ones, until the bytes left are at most `max`.
pub open spec fn evicted(s: Seq<EntryView>, current: int, max: int) -> Seq<EntryView> {
    let t = sorted_by_created(s);
    t.take(evict_from(t, 0, 0, current, max))
}

/// Whether an entry with the key of `e` is among `ev`.
pub open spec fn listed(ev: Seq<EntryView>, e: EntryView) -> bool {
    exists|i: int| 0 <= i < ev.len() && keyed(#[trigger] ev[i], e.metadata.source_asset_id, e.metadata.params_hash)
}

/// The entries of `s` whose keys are among `ev` (`among`), or those whose keys
/// are not, in order.
pub open spec fn split_listed(s: Seq<EntryView>, ev: Seq<EntryView>, among: bool) -> Seq<EntryView>
    decreases s.len(),
{
    if s.len() == 0 {
        s
    } else {
        let r = split_listed(s.drop_last(), ev, among);
        if listed(ev, s.last()) == among {
            r.push(s.last())
        } else {
            r
        }
    }
}

/// The sum of the sizes of the entries `s`.
pub open spec fn total_size(s: Seq<EntryView>) -> int
    decreases s.len(),
{
    if s.len() == 0 {
        0
    } else {
        total_size(s.drop_last()) + s.last().metadata.file_size
    }
}

/// Whether invalidating `asset` (and the parameter hash `hash`, if given) drops
/// the entry `e`.
pub open spec fn invalidates(e: EntryView, asset: AssetId, hash: Option<u64>) -> bool {
    e.metadata.source_asset_id == asset && match hash {
        Some(h) => e.metadata.params_hash == h,
        None => true,
    }
}

/// The entries of `s` that invalidating `asset` and `hash` drops (`drop`), or
/// keeps, in order.
pub open spec fn split_invalidated(s: Seq<EntryView>, asset: AssetId, hash: Option<u64>, drop: bool) -> Seq<
    EntryView,
>
    decreases s.len(),
{
    if s.len() == 0 {
        s
    } else {
        let r = split_invalidated(s.drop_last(), asset, hash, drop);
        if invalidates(s.last(), asset, hash) == drop {
            r.push(s.last())
        } else {
            r
        }
    }
}

/// The path `name` inside the directory `dir`.
pub open spec fn joined_path(dir: Seq<char>, name: Seq<char>) -> Seq<char> {
    if dir.len() == 0 || dir.last() == '/' {
        dir + name
    } else {
        dir + "/"@ + name
    }
}

/// The name of the cached file of `asset` rendered with parameters of hash
/// `hash`.
pub open spec fn cache_file_name(asset: AssetId, hash: u64) -> Seq<char> {
    "asset_"@ + uuid_text(asset.value()) + "_"@ + decimal(hash as nat) + ".cache"@
}

fn copy_entry(e: &CacheEntry) -> (r: CacheEntry)
    ensures
        r.path@ == e.path@,
        r.metadata == e.metadata,
{
    CacheEntry { path: e.path.clone(), metadata: e.metadata }
}

fn insert_by_created_exec(v: &mut Vec<CacheEntry>, e: CacheEntry)
    ensures
        entry_views(final(v)@) == insert_by_created(entry_views(old(v)@), EntryView { path: e.path@, metadata: e.metadata }),
{
    let ghost s = entry_views(v@);
    let ghost ev = EntryView { path: e.path@, metadata: e.metadata };
    let mut j = v.len();
    while j > 0 && v[j - 1].metadata.created_at > e.metadata.created_at
        invariant
            0 <= j <= v.len(),
            v@ == old(v)@,
            s == entry_views(v@),
            ev.metadata == e.metadata,
            forall|k: int| j <= k < s.len() ==> (#[trigger] s[k]).metadata.created_at > ev.metadata.created_at,
        decreases j,
    {
        assert(s[j - 1].metadata == v@[j - 1].metadata);
        j = j - 1;
    }
    if j > 0 {
        assert(s[j - 1].metadata == v@[j - 1].metadata);
    }
    proof {
        lemma_insert_by_created(s, ev, j as int);
    }
    v.insert(j, e);
    assert(entry_views(v@) =~= s.take(j as int).push(ev) + s.skip(j as int));
}

proof fn lemma_insert_by_created(s: Seq<EntryView>, e: EntryView, k: int)
    requires
        0 <= k <= s.len(),
        forall|j: int| k <= j < s.len() ==> (#[trigger] s[j]).metadata.created_at > e.metadata.created_at,
        k == 0 || s[k - 1].metadata.created_at <= e.metadata.created_at,
    ensures
        insert_by_created(s, e) == s.take(k).push(e) + s.skip(k),
    decreases s.len(),
{
    if s.len() == 0 || s.last().metadata.created_at <= e.metadata.created_at {
        if k < s.len() {
            assert(s[s.len() - 1].metadata.created_at > e.metadata.created_at);
        }
        assert(s.take(s.len() as int) == s);
        assert(s.skip(s.len() as int) =~= Seq::<EntryView>::empty());
    } else {
        let t = s.drop_last();
        assert forall|j: int| k <= j < t.len() implies (#[trigger] t[j]).metadata.created_at
            > e.metadata.created_at by {
            assert(t[j] == s[j]);
        }
        if k > 0 {
            assert(t[k - 1] == s[k - 1]);
        }
        lemma_insert_by_created(t, e, k);
        assert(t.take(k) == s.take(k));
        assert(t.skip(k).push(s.last()) =~= s.skip(k));
        assert((t.take(k).push(e) + t.skip(k)).push(s.last()) =~= t.take(k).push(e) + t.skip(k).push(s.last()));
    }
}

fn is_listed(ev: &Vec<CacheEntry>, e: &CacheEntry) -> (b: bool)
    ensures
        b == listed(entry_views(ev@), EntryView { path: e.path@, metadata: e.metadata }),
{
    let ghost w = entry_views(ev@);
    let mut i: usize = 0;
    while i < ev.len()
        invariant
            0 <= i <= ev.len(),
            w == entry_views(ev@),
            forall|j: int| 0 <= j < i ==> !keyed(#[trigger] w[j], e.metadata.source_asset_id, e.metadata.params_hash),
        decreases ev.len() - i,
    {
        if ev[i].metadata.source_asset_id == e.metadata.source_asset_id && ev[i].metadata.params_hash
            == e.metadata.params_hash {
            assert(keyed(w[i as int], e.metadata.source_asset_id, e.metadata.params_hash));
            return true;
        }
        i = i + 1;
    }
    false
}

/// The index of a render cache.
#[derive(Debug)]
pub struct RenderCache {
    cache_dir: String,
    entries: Vec<CacheEntry>,
    max_size: Option<u64>,
    current_size: u64,
    enabled: bool,
}

impl View for RenderCache {
    type V = CacheView;

    closed spec fn view(&self) -> CacheView {
        CacheView {
            dir: self.cache_dir@,
            entries: entry_views(self.entries@),
            max_size: self.max_size,
            current_size: self.current_size as nat,
            enabled: self.enabled,
        }
    }
}

impl RenderCache {
    /// An index, in use and with no entries, of the cache in `cache_dir` that may
    /// hold `max_size` bytes (no limit for none) and already holds
    /// `existing_size` bytes of files.
    pub fn new(cache_dir: &str, max_size: Option<u64>, existing_size: u64) -> (c: Self)
        ensures
            c@ == (CacheView {
                dir: cache_dir@,
                entries: Seq::empty(),
                max_size,
                current_size: existing_size as nat,
                enabled: true,
            }),
    {
        let c = RenderCache {
            cache_dir: text_of(cache_dir),
            entries: Vec::new(),
            max_size,
            current_size: existing_size,
            enabled: true,
        };
        assert(entry_views(c.entries@) =~= Seq::<EntryView>::empty());
        c
    }

    fn position_of(&self, asset_id: AssetId, params_hash: u64) -> (r: Option<usize>)
        ensures
            match r {
                Some(i) => entry_index(self@.entries, asset_id, params_hash) == i && i < self@.entries.len(),
                None => entry_index(self@.entries, asset_id, params_hash) == -1,
            },
    {
        let ghost s = self@.entries;
        proof {
            lemma_entry_index(s, asset_id, params_hash);
        }
        let mut i: usize = 0;
        while i < self.entries.len()
            invariant
                0 <= i <= self.entries.len(),
                s == entry_views(self.entries@),
                forall|j: int| 0 <= j < i ==> !keyed(#[trigger] s[j], asset_id, params_hash),
            decreases self.entries.len() - i,
        {
            assert(s[i as int].metadata == self.entries@[i as int].metadata);
            if self.entries[i].metadata.source_asset_id == asset_id && self.entries[i].metadata.params_hash
                == params_hash {
                proof {
                    lemma_entry_index(s, asset_id, params_hash);
                    let k = entry_index(s, asset_id, params_hash);
                    if k >= 0 && k < i {
                        assert(keyed(s[k], asset_id, params_hash));
                    }
                }
                return Some(i);
            }
            assert(!keyed(s[i as int], asset_id, params_hash));
            i = i + 1;
        }
        None
    }

    /// The entry for `asset_id` and `params_hash`, unless the cache is not in use
    /// or has none.
    pub fn get(&self, asset_id: AssetId, params_hash: u64) -> (r: Option<&CacheEntry>)
        ensures
            !self@.enabled ==> r is None,
            self@.enabled ==> match r {
                Some(e) => entry_index(self@.entries, asset_id, params_hash) >= 0 && self@.entries[entry_index(
                    self@.entries,
                    asset_id,
                    params_hash,
                )] == (EntryView { path: e.path@, metadata: e.metadata }),
                None => entry_index(self@.entries, asset_id, params_hash) == -1,
            },
    {
        if !self.enabled {
            return None;
        }
        match self.position_of(asset_id, params_hash) {
            Some(k) => Some(&self.entries[k]),
            None => None,
        }
    }

    /// Where the cached file of `asset_id` rendered with parameters of hash
    /// `params_hash` goes (see `cache_file_name`).
    pub fn cache_path(&self, asset_id: AssetId, params_hash: u64) -> (p: String)
        ensures
            p@ == joined_path(self@.dir, cache_file_name(asset_id, params_hash)),
    {
        let mut out: Vec<char> = Vec::new();
        push_str(&mut out, self.cache_dir.as_str());
        let n = out.len();
        if !(n == 0 || out[n - 1] == '/') {
            out.push('/');
        }
        push_str(&mut out, "asset_");
        push_str(&mut out, asset_id.to_string().as_str());
        push_str(&mut out, "_");
        push_decimal(&mut out, params_hash);
        push_str(&mut out, ".cache");
        proof {
            reveal_strlit("/");
        }
        string_from_chars(&out)
    }

    /// Records the cached file `path`, of `file_size` bytes and `duration`, made
    /// at `created_at` from `asset_id` with parameters of hash `params_hash`: it
    /// replaces the entry for that key or comes last, and its bytes are counted.
    /// When the cache then counts more than it may hold, the oldest entries are
    /// dropped (see `evicted`) and their bytes uncounted; the dropped entries,
    /// whose files the caller deletes, are returned.
    pub fn record(
        &mut self,
        asset_id: AssetId,
        params_hash: u64,
        path: String,
        duration: Duration,
        file_size: u64,
        created_at: u128,
    ) -> (dropped: Vec<CacheEntry>)
        requires
            old(self)@.current_size + file_size <= u64::MAX,
        ensures
            ({
                let e = EntryView {
                    path: path@,
                    metadata: CacheMetadata { created_at, source_asset_id: asset_id, duration, params_hash, file_size },
                };
                let k = entry_index(old(self)@.entries, asset_id, params_hash);
                let s1 = if k >= 0 { old(self)@.entries.update(k, e) } else { old(self)@.entries.push(e) };
                let c1 = old(self)@.current_size + file_size;
                match old(self)@.max_size {
                    Some(m) if c1 > m => {
                        let ev = evicted(s1, c1, m as int);
                        &&& final(self)@.entries == split_listed(s1, ev, false)
                        &&& entry_views(dropped@) == split_listed(s1, ev, true)
                        &&& final(self)@.current_size == minus(c1, total_size(split_listed(s1, ev, true)))
                    },
                    _ => {
                        &&& final(self)@.entries == s1
                        &&& dropped@.len() == 0
                        &&& final(self)@.current_size == c1
                    },
                }
            }),
            final(self)@.dir == old(self)@.dir,
            final(self)@.max_size == old(self)@.max_size,
            final(self)@.enabled == old(self)@.enabled,
    {
        let ghost s0 = self@.entries;
        let meta = CacheMetadata { created_at, source_asset_id: asset_id, duration, params_hash, file_size };
        let ghost ev0 = EntryView { path: path@, metadata: meta };
        let entry = CacheEntry { path, metadata: meta };
        match self.position_of(asset_id, params_hash) {
            Some(k) => {
                self.entries.set(k, entry);
                assert(entry_views(self.entries@) =~= s0.update(k as int, ev0));
            },
            None => {
                self.entries.push(entry);
                assert(entry_views(self.entries@) =~= s0.push(ev0));
            },
        }
        self.current_size = self.current_size + file_size;
        match self.max_size {
            Some(m) => {
                if self.current_size > m {
                    return self.prune(m);
                }
            },
            None => {},
        }
        Vec::new()
    }

    /// Drops the oldest entries until the bytes counted are at most `max` (see
    /// `evicted`), and returns them.
    fn prune(&mut self, max: u64) -> (dropped: Vec<CacheEntry>)
        ensures
            ({
                let ev = evicted(old(self)@.entries, old(self)@.current_size as int, max as int);
                &&& final(self)@.entries == split_listed(old(self)@.entries, ev, false)
                &&& entry_views(dropped@) == split_listed(old(self)@.entries, ev, true)
                &&& final(self)@.current_size == minus(
                    old(self)@.current_size as int,
                    total_size(split_listed(old(self)@.entries, ev, true)),
                )
            }),
            final(self)@.dir == old(self)@.dir,
            final(self)@.max_size == old(self)@.max_size,
            final(self)@.enabled == old(self)@.enabled,
    {
        let ghost s = self@.entries;
        let current = self.current_size;
        // the entries, oldest first
        let mut sorted: Vec<CacheEntry> = Vec::new();
        let mut i: usize = 0;
        assert(s.take(0) =~= Seq::<EntryView>::empty());
        assert(entry_views(sorted@) =~= Seq::<EntryView>::empty());
        while i < self.entries.len()
            invariant
                0 <= i <= self.entries.len(),
                s == entry_views(self.entries@),
                entry_views(sorted@) == sorted_by_created(s.take(i as int)),
            decreases self.entries.len() - i,
        {
            assert(s.take(i + 1).drop_last() == s.take(i as int));
            assert(s.take(i + 1).last() == (EntryView { path: self.entries@[i as int].path@, metadata: self.entries@[i as int].metadata }));
            insert_by_created_exec(&mut sorted, copy_entry(&self.entries[i]));
            i = i + 1;
        }
        assert(s.take(s.len() as int) == s);
        let ghost t = entry_views(sorted@);
        // how many go
        let mut count: usize = 0;
        let mut removed: u128 = 0;
        let mut done = false;
        while count < sorted.len() && !done
            invariant
                0 <= count <= sorted.len(),
                t == entry_views(sorted@),
                removed <= count * 0x1_0000_0000_0000_0000,
                !done ==> evict_from(t, 0, 0, current as int, max as int) == evict_from(
                    t,
                    count as int,
                    removed as int,
                    current as int,
                    max as int,
                ),
                done ==> evict_from(t, 0, 0, current as int, max as int) == count,
            decreases sorted.len() - count, if done { 0int } else { 1int },
        {
            removed = removed + sorted[count].metadata.file_size as u128;
            let left: u128 = if current as u128 >= removed { current as u128 - removed } else { 0 };
            count = count + 1;
            if left <= max as u128 {
                done = true;
            }
        }
        proof {
            if !done {
                assert(evict_from(t, count as int, removed as int, current as int, max as int) == t.len());
            }
        }
        let ghost ev = t.take(count as int);
        let mut victims: Vec<CacheEntry> = Vec::new();
        let mut q: usize = 0;
        while q < count
            invariant
                0 <= q <= count <= sorted.len(),
                t == entry_views(sorted@),
                entry_views(victims@) == t.take(q as int),
            decreases count - q,
        {
            let ghost before = victims@;
            assert(t[q as int] == (EntryView { path: sorted@[q as int].path@, metadata: sorted@[q as int].metadata }));
            let c = copy_entry(&sorted[q]);
            victims.push(c);
            assert(entry_views(victims@) =~= entry_views(before).push(t[q as int]));
            assert(entry_views(victims@) =~= t.take(q + 1));
            q = q + 1;
        }
        assert(entry_views(victims@) == ev);
        // split the entries
        let mut kept: Vec<CacheEntry> = Vec::new();
        let mut dropped: Vec<CacheEntry> = Vec::new();
        let mut size = self.current_size;
        let mut j: usize = 0;
        assert(entry_views(kept@) =~= split_listed(s.take(0), ev, false));
        assert(entry_views(dropped@) =~= split_listed(s.take(0), ev, true));
        while j < self.entries.len()
            invariant
                0 <= j <= self.entries.len(),
                s == entry_views(self.entries@),
                ev == entry_views(victims@),
                entry_views(kept@) == split_listed(s.take(j as int), ev, false),
                entry_views(dropped@) == split_listed(s.take(j as int), ev, true),
                size == minus(current as int, total_size(split_listed(s.take(j as int), ev, true))),
                current == old(self).current_size,
            decreases self.entries.len() - j,
        {
            let ghost before_kept = kept@;
            let ghost before_dropped = dropped@;
            let ghost x = s[j as int];
            assert(s.take(j + 1).drop_last() == s.take(j as int));
            assert(s.take(j + 1).last() == x);
            assert(x == (EntryView { path: self.entries@[j as int].path@, metadata: self.entries@[j as int].metadata }));
            let e = copy_entry(&self.entries[j]);
            if is_listed(&victims, &e) {
                size = if size >= e.metadata.file_size { size - e.metadata.file_size } else { 0 };
                dropped.push(e);
                assert(entry_views(dropped@) =~= entry_views(before_dropped).push(x));
                let ghost q = split_listed(s.take(j as int), ev, true);
                assert(q.push(x).drop_last() =~= q);
                assert(total_size(q.push(x)) == total_size(q) + x.metadata.file_size);
            } else {
                kept.push(e);
                assert(entry_views(kept@) =~= entry_views(before_kept).push(x));
            }
            j = j + 1;
        }
        assert(s.take(s.len() as int) == s);
        self.entries = kept;
        self.current_size = size;
        dropped
    }

    /// Drops the entries of `asset_id` (those with parameter hash `params_hash`
    /// only, when it is given) and uncounts their bytes; returns them, so that
    /// the caller deletes their files.
    pub fn invalidate(&mut self, asset_id: AssetId, params_hash: Option<u64>) -> (dropped: Vec<CacheEntry>)
        ensures
            final(self)@.entries == split_invalidated(old(self)@.entries, asset_id, params_hash, false),
            entry_views(dropped@) == split_invalidated(old(self)@.entries, asset_id, params_hash, true),
            final(self)@.current_size == minus(
                old(self)@.current_size as int,
                total_size(split_invalidated(old(self)@.entries, asset_id, params_hash, true)),
            ),
            final(self)@.dir == old(self)@.dir,
            final(self)@.max_size == old(self)@.max_size,
            final(self)@.enabled == old(self)@.enabled,
    {
        let ghost s = self@.entries;
        let current = self.current_size;
        let mut kept: Vec<CacheEntry> = Vec::new();
        let mut dropped: Vec<CacheEntry> = Vec::new();
        let mut size = self.current_size;
        let mut j: usize = 0;
        assert(entry_views(kept@) =~= split_invalidated(s.take(0), asset_id, params_hash, false));
        assert(entry_views(dropped@) =~= split_invalidated(s.take(0), asset_id, params_hash, true));
        while j < self.entries.len()
            invariant
                0 <= j <= self.entries.len(),
                s == entry_views(self.entries@),
                entry_views(kept@) == split_invalidated(s.take(j as int), asset_id, params_hash, false),
                entry_views(dropped@) == split_invalidated(s.take(j as int), asset_id, params_hash, true),
                size == minus(current as int, total_size(split_invalidated(s.take(j as int), asset_id, params_hash, true))),
                current == old(self).current_size,
            decreases self.entries.len() - j,
        {
            let ghost before_kept = kept@;
            let ghost before_dropped = dropped@;
            let ghost x = s[j as int];
            assert(s.take(j + 1).drop_last() == s.take(j as int));
            assert(s.take(j + 1).last() == x);
            assert(x == (EntryView { path: self.entries@[j as int].path@, metadata: self.entries@[j as int].metadata }));
            let e = copy_entry(&self.entries[j]);
            let hit = e.metadata.source_asset_id == asset_id && match params_hash {
                Some(h) => e.metadata.params_hash == h,
                None => true,
            };
            if hit {
                size = if size >= e.metadata.file_size { size - e.metadata.file_size } else { 0 };
                dropped.push(e);
                assert(entry_views(dropped@) =~= entry_views(before_dropped).push(x));
                let ghost q = split_invalidated(s.take(j as int), asset_id, params_hash, true);
                assert(q.push(x).drop_last() =~= q);
                assert(total_size(q.push(x)) == total_size(q) + x.metadata.file_size);
            } else {
                kept.push(e);
                assert(entry_views(kept@) =~= entry_views(before_kept).push(x));
            }
            j = j + 1;
        }
        assert(s.take(s.len() as int) == s);
        self.entries = kept;
        self.current_size = size;
        dropped
    }

    /// Drops every entry and counts no bytes; returns the entries, so that the
    /// caller deletes their files.
    pub fn clear(&mut self) -> (dropped: Vec<CacheEntry>)
        ensures
            entry_views(dropped@) == old(self)@.entries,
            final(self)@ == (CacheView { entries: Seq::empty(), current_size: 0, ..old(self)@ }),
    {
        let mut v: Vec<CacheEntry> = Vec::new();
        std::mem::swap(&mut v, &mut self.entries);
        self.current_size = 0;
        assert(entry_views(self.entries@) =~= Seq::<EntryView>::empty());
        v
    }

    /// Sets whether the cache is in use.
    pub fn set_enabled(&mut self, enabled: bool)
        ensures
            final(self)@ == (CacheView { enabled, ..old(self)@ }),
    {
        self.enabled = enabled;
    }

    /// Whether the cache is in use.
    pub fn is_enabled(&self) -> (b: bool)
        ensures
            b == self@.enabled,
    {
        self.enabled
    }

    /// The bytes the cache counts.
    pub fn current_size(&self) -> (n: u64)
        ensures
            n == self@.current_size,
    {
        self.current_size
    }

    /// The bytes the cache may hold, if limited.
    pub fn max_size(&self) -> (m: Option<u64>)
        ensures
            m == self@.max_size,
    {
        self.max_size
    }

    /// The directory of the cache.
    pub fn cache_dir(&self) -> (d: &str)
        ensures
            d@ == self@.dir,
    {
        self.cache_dir.as_str()
    }
}

} // verus!
