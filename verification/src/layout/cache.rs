//! Caching layout results: keys, a cache that drops the least recently used
//! entry when full, and hashing of style lists.
use vstd::prelude::*;
use std::collections::hash_map::DefaultHasher;
use std::hash::{Hash, Hasher};
use std::time::Instant;
use vstd::std_specs::hash::DefaultHasherAdditionalSpecFns;
use crate::text::owned;

verus! {

/// The SeaHash of the UTF-8 bytes of a string, as `seahash::hash` computes it.
pub uninterp spec fn seahash_of(s: Seq<char>) -> u64;

/// Calls `seahash::hash` on the UTF-8 bytes of `s`; the result is the SeaHash
/// of those bytes, a function of the string alone.
#[verifier::external_body]
fn seahash_str(s: &str) -> (r: u64)
    ensures
        r == seahash_of(s@),
{
    seahash::hash(s.as_bytes())
}

/// The writes that hashing a string makes into a hasher.
pub uninterp spec fn str_hash_writes(s: Seq<char>) -> Seq<Seq<u8>>;

/// Calls `<String as Hash>::hash` with a `DefaultHasher`: the hasher receives
/// the writes for the string, which depend on the string alone.
#[verifier::external_body]
pub(crate) fn hash_string_into(s: &String, state: &mut DefaultHasher)
    ensures
        final(state)@ == old(state)@ + str_hash_writes(s@),
{
    s.hash(state)
}

/// A key for cached layouts: tag, style hash, number of children and, for
/// text, a hash of the content.
#[derive(Debug, Clone, PartialEq, Eq, Hash)]
pub struct LayoutCacheKey {
    /// Tag of the node.
    pub tag: String,
    /// Hash of its styles.
    pub style_hash: u64,
    /// Number of children.
    pub children_count: usize,
    /// Hash of the text content, for text nodes.
    pub content_hash: Option<u64>,
}

impl LayoutCacheKey {
    /// A key without content hash.
    pub fn new(tag: &str, style_hash: u64, children_count: usize) -> (k: Self)
        ensures
            k.tag@ == tag@,
            k.style_hash == style_hash,
            k.children_count == children_count,
            k.content_hash is None,
    {
        LayoutCacheKey { tag: owned(tag), style_hash, children_count, content_hash: None }
    }

    /// A key with the SeaHash of the content.
    pub fn with_content(tag: &str, style_hash: u64, children_count: usize, content: &str) -> (k: Self)
        ensures
            k.tag@ == tag@,
            k.style_hash == style_hash,
            k.children_count == children_count,
            k.content_hash == Some(seahash_of(content@)),
    {
        let hash = seahash_str(content);
        LayoutCacheKey { tag: owned(tag), style_hash, children_count, content_hash: Some(hash) }
    }
}

/// Strict order of strings by code point, shorter prefix first (the order of
/// `String::cmp`, since UTF-8 keeps code point order).
pub open spec fn key_lt(a: Seq<char>, b: Seq<char>) -> bool
    decreases a.len(),
{
    if a.len() == 0 {
        b.len() > 0
    } else if b.len() == 0 {
        false
    } else if a[0] != b[0] {
        a[0] < b[0]
    } else {
        key_lt(a.drop_first(), b.drop_first())
    }
}

/// A style pair by the characters of its key and value.
pub type StylePair = (Seq<char>, Seq<char>);

/// The pairs by their characters.
pub open spec fn pair_views(v: Seq<(String, String)>) -> Seq<StylePair> {
    v.map_values(|p: (String, String)| (p.0@, p.1@))
}

/// Where a pair goes in a sorted list: after every pair whose key is not
/// greater, from position `j` on.
pub open spec fn insert_pos(s: Seq<StylePair>, x: StylePair, j: int) -> int
    decreases s.len() - j,
{
    if j >= s.len() {
        s.len() as int
    } else if key_lt(x.0, s[j].0) {
        j
    } else {
        insert_pos(s, x, j + 1)
    }
}

/// The pairs sorted by key, pairs with equal keys kept in their order
/// (stable sort).
pub open spec fn sort_by_key(s: Seq<StylePair>) -> Seq<StylePair>
    decreases s.len(),
{
    if s.len() == 0 {
        Seq::empty()
    } else {
        let r = sort_by_key(s.drop_last());
        r.insert(insert_pos(r, s.last(), 0), s.last())
    }
}

/// The writes that hashing the pairs in order makes: key, then value.
pub open spec fn pair_writes(s: Seq<StylePair>) -> Seq<Seq<u8>>
    decreases s.len(),
{
    if s.len() == 0 {
        Seq::empty()
    } else {
        pair_writes(s.drop_last()) + str_hash_writes(s.last().0) + str_hash_writes(s.last().1)
    }
}

/// Hashing of style lists.
#[derive(Debug, Clone, Copy, PartialEq, Eq, Structural)]
pub struct StyleHasher;

/// Whether `a` sorts strictly before `b`.
pub(crate) fn str_lt(a: &String, b: &String) -> (r: bool)
    ensures
        r == key_lt(a@, b@),
{
    let x = crate::text::chars_of(a.as_str());
    let y = crate::text::chars_of(b.as_str());
    let mut i: usize = 0;
    assert(a@.skip(0) =~= a@);
    assert(b@.skip(0) =~= b@);
    while i < x.len() && i < y.len()
        invariant
            i <= x@.len(),
            i <= y@.len(),
            x@ == a@,
            y@ == b@,
            key_lt(a@, b@) == key_lt(a@.skip(i as int), b@.skip(i as int)),
        decreases x@.len() - i,
    {
        if x[i] != y[i] {
            proof {
                assert(a@.skip(i as int)[0] == x@[i as int]);
                assert(b@.skip(i as int)[0] == y@[i as int]);
            }
            return x[i] < y[i];
        }
        proof {
            assert(a@.skip(i as int).drop_first() =~= a@.skip(i + 1));
            assert(b@.skip(i as int).drop_first() =~= b@.skip(i + 1));
        }
        i = i + 1;
    }
    i < y.len()
}

impl StyleHasher {
    /// Hash of a style list, independent of its order: the pairs are sorted
    /// by key (stably), then each key and value is hashed in turn.
    pub fn hash_styles(styles: &[(String, String)]) -> (r: u64)
        ensures
            r == DefaultHasher::spec_finish(pair_writes(sort_by_key(pair_views(styles@)))),
    {
        let n = styles.len();
        let mut sorted: Vec<(String, String)> = Vec::new();
        let mut i: usize = 0;
        while i < n
            invariant
                i <= n,
                n == styles@.len(),
                pair_views(sorted@) == sort_by_key(pair_views(styles@.take(i as int))),
            decreases n - i,
        {
            let key = styles[i].0.clone();
            let value = styles[i].1.clone();
            let ghost x: StylePair = (key@, value@);
            let ghost sv = pair_views(sorted@);
            let mut j: usize = 0;
            while j < sorted.len() && !str_lt(&key, &sorted[j].0)
                invariant
                    j <= sorted@.len(),
                    sv == pair_views(sorted@),
                    key@ == x.0,
                    insert_pos(sv, x, 0) == insert_pos(sv, x, j as int),
                decreases sorted@.len() - j,
            {
                j = j + 1;
            }
            sorted.insert(j, (key, value));
            proof {
                let pv = pair_views(styles@.take(i + 1));
                assert(pv.drop_last() =~= pair_views(styles@.take(i as int)));
                assert(pv.last() == x);
                assert(pair_views(sorted@) =~= sv.insert(j as int, x));
            }
            i = i + 1;
        }
        assert(styles@.take(n as int) =~= styles@);
        let mut hasher = DefaultHasher::new();
        let mut k: usize = 0;
        while k < sorted.len()
            invariant
                k <= sorted@.len(),
                hasher@ == pair_writes(pair_views(sorted@).take(k as int)),
            decreases sorted@.len() - k,
        {
            hash_string_into(&sorted[k].0, &mut hasher);
            hash_string_into(&sorted[k].1, &mut hasher);
            proof {
                let pv = pair_views(sorted@);
                assert(pv.take(k + 1).drop_last() =~= pv.take(k as int));
                assert(pv.take(k + 1).last() == pv[k as int]);
            }
            k = k + 1;
        }
        assert(pair_views(sorted@).take(sorted@.len() as int) =~= pair_views(sorted@));
        hasher.finish()
    }
}


/// No string sorts before itself.
pub proof fn lemma_key_lt_irreflexive(a: Seq<char>)
    ensures
        !key_lt(a, a),
    decreases a.len(),
{
    if a.len() > 0 {
        lemma_key_lt_irreflexive(a.drop_first());
    }
}

/// Two strings do not sort before each other.
pub proof fn lemma_key_lt_asymmetric(a: Seq<char>, b: Seq<char>)
    ensures
        !(key_lt(a, b) && key_lt(b, a)),
    decreases a.len(),
{
    if a.len() > 0 && b.len() > 0 && a[0] == b[0] {
        lemma_key_lt_asymmetric(a.drop_first(), b.drop_first());
    }
}

/// The order of strings is transitive.
pub proof fn lemma_key_lt_transitive(a: Seq<char>, b: Seq<char>, c: Seq<char>)
    requires
        key_lt(a, b),
        key_lt(b, c),
    ensures
        key_lt(a, c),
    decreases a.len(),
{
    if a.len() > 0 && b.len() > 0 && c.len() > 0 && a[0] == b[0] && b[0] == c[0] {
        lemma_key_lt_transitive(a.drop_first(), b.drop_first(), c.drop_first());
    }
}

/// Two different strings are ordered one way or the other.
pub proof fn lemma_key_lt_total(a: Seq<char>, b: Seq<char>)
    requires
        a != b,
    ensures
        key_lt(a, b) || key_lt(b, a),
    decreases a.len(),
{
    if a.len() > 0 && b.len() > 0 && a[0] == b[0] {
        if a.drop_first() == b.drop_first() {
            assert(a =~= seq![a[0]] + a.drop_first());
            assert(b =~= seq![b[0]] + b.drop_first());
        }
        lemma_key_lt_total(a.drop_first(), b.drop_first());
    } else if a.len() == 0 && b.len() == 0 {
        assert(a =~= b);
    }
}

/// Pairs ordered by key, then by value.
pub open spec fn pair_le(x: StylePair, y: StylePair) -> bool {
    key_lt(x.0, y.0) || (x.0 == y.0 && (key_lt(x.1, y.1) || x.1 == y.1))
}

/// The order of pairs is a total order.
proof fn lemma_pair_le_total()
    ensures
        vstd::relations::total_ordering(|x: StylePair, y: StylePair| pair_le(x, y)),
{
    let le = |x: StylePair, y: StylePair| pair_le(x, y);
    assert forall|x: StylePair| #[trigger] le(x, x) by {
        lemma_key_lt_irreflexive(x.0);
    }
    assert forall|x: StylePair, y: StylePair| #[trigger] le(x, y) && #[trigger] le(y, x) implies x == y by {
        lemma_key_lt_asymmetric(x.0, y.0);
        lemma_key_lt_asymmetric(x.1, y.1);
    }
    assert forall|x: StylePair, y: StylePair, z: StylePair| #[trigger] le(x, y) && #[trigger] le(y, z) implies le(x, z) by {
        if key_lt(x.0, y.0) && key_lt(y.0, z.0) {
            lemma_key_lt_transitive(x.0, y.0, z.0);
        }
        if key_lt(x.1, y.1) && key_lt(y.1, z.1) {
            lemma_key_lt_transitive(x.1, y.1, z.1);
        }
    }
    assert forall|x: StylePair, y: StylePair| #[trigger] le(x, y) || #[trigger] le(y, x) by {
        if x.0 != y.0 {
            lemma_key_lt_total(x.0, y.0);
        } else if x.1 != y.1 {
            lemma_key_lt_total(x.1, y.1);
        }
    }
}

/// Keys never go down along the sequence.
pub open spec fn keys_sorted(r: Seq<StylePair>) -> bool {
    forall|i: int, j: int| 0 <= i < j < r.len() ==> !key_lt(#[trigger] r[j].0, #[trigger] r[i].0)
}

/// Where a pair is inserted: after the pairs with keys not above its key,
/// before the first with a greater key.
proof fn lemma_insert_pos(s: Seq<StylePair>, x: StylePair, j: int)
    requires
        0 <= j <= s.len(),
    ensures
        j <= insert_pos(s, x, j) <= s.len(),
        forall|i: int| j <= i < insert_pos(s, x, j) ==> !key_lt(x.0, #[trigger] s[i].0),
        insert_pos(s, x, j) < s.len() ==> key_lt(x.0, s[insert_pos(s, x, j)].0),
    decreases s.len() - j,
{
    if j < s.len() && !key_lt(x.0, s[j].0) {
        lemma_insert_pos(s, x, j + 1);
    }
}

/// Sorting keeps the pairs and orders them by key.
pub proof fn lemma_sort_by_key(s: Seq<StylePair>)
    ensures
        sort_by_key(s).to_multiset() == s.to_multiset(),
        keys_sorted(sort_by_key(s)),
    decreases s.len(),
{
    broadcast use vstd::seq_lib::to_multiset_insert, vstd::seq_lib::to_multiset_build;

    if s.len() > 0 {
        let r = sort_by_key(s.drop_last());
        let x = s.last();
        lemma_sort_by_key(s.drop_last());
        lemma_insert_pos(r, x, 0);
        let p = insert_pos(r, x, 0);
        let t = r.insert(p, x);
        assert(s =~= s.drop_last().push(x));
        assert(s.drop_last().push(x).to_multiset() == s.drop_last().to_multiset().insert(x));
        assert(t.to_multiset() == r.to_multiset().insert(x));
        assert forall|i: int, j: int| 0 <= i < j < t.len() implies !key_lt(#[trigger] t[j].0, #[trigger] t[i].0) by {
            if j < p {
                assert(t[i] == r[i] && t[j] == r[j]);
            } else if j == p {
                assert(t[i] == r[i]);
                lemma_key_lt_asymmetric(t[j].0, t[i].0);
                if key_lt(x.0, r[i].0) {
                } else if x.0 != r[i].0 {
                    lemma_key_lt_total(x.0, r[i].0);
                }
            } else if i == p {
                assert(t[j] == r[j - 1]);
                // r[p] <= r[j-1] and x < r[p]
                if j - 1 > p {
                    assert(!key_lt(r[j - 1].0, r[p].0));
                    if r[j - 1].0 != r[p].0 {
                        lemma_key_lt_total(r[j - 1].0, r[p].0);
                        lemma_key_lt_transitive(x.0, r[p].0, r[j - 1].0);
                    }
                }
                lemma_key_lt_asymmetric(x.0, r[j - 1].0);
            } else if i < p {
                assert(t[i] == r[i] && t[j] == r[j - 1]);
            } else {
                assert(t[i] == r[i - 1] && t[j] == r[j - 1]);
            }
        }
    } else {
        assert(s =~= Seq::<StylePair>::empty());
    }
}

/// Keys are pairwise different.
pub open spec fn distinct_keys(s: Seq<StylePair>) -> bool {
    forall|i: int, j: int| 0 <= i < s.len() && 0 <= j < s.len() && i != j ==> #[trigger] s[i].0 != #[trigger] s[j].0
}

/// The same pairs as a list with distinct keys again have distinct keys.
proof fn lemma_distinct_keys_perm(s: Seq<StylePair>, r: Seq<StylePair>)
    requires
        distinct_keys(s),
        r.to_multiset() == s.to_multiset(),
    ensures
        distinct_keys(r),
{
    broadcast use vstd::seq_lib::group_to_multiset_ensures;

    assert(s.no_duplicates()) by {
        assert forall|i: int, j: int| 0 <= i < s.len() && 0 <= j < s.len() && i != j implies s[i] != s[j] by {
            assert(s[i].0 != s[j].0);
        }
    }
    s.lemma_multiset_has_no_duplicates();
    assert forall|x: StylePair| r.to_multiset().contains(x) implies r.to_multiset().count(x) == 1 by {
    }
    r.lemma_multiset_has_no_duplicates_conv();
    assert forall|i: int, j: int| 0 <= i < r.len() && 0 <= j < r.len() && i != j implies #[trigger] r[i].0 != #[trigger] r[j].0 by {
        if r[i].0 == r[j].0 {
            assert(r[i] != r[j]);
            assert(r.to_multiset().count(r[i]) > 0);
            assert(r.to_multiset().count(r[j]) > 0);
            assert(s.contains(r[i]));
            assert(s.contains(r[j]));
            let a = choose|a: int| 0 <= a < s.len() && s[a] == r[i];
            let b = choose|b: int| 0 <= b < s.len() && s[b] == r[j];
            assert(s[a].0 == s[b].0);
        }
    }
}

/// A list sorted by key with distinct keys is sorted as pairs.
proof fn lemma_sorted_pairs(r: Seq<StylePair>)
    requires
        keys_sorted(r),
        distinct_keys(r),
    ensures
        vstd::relations::sorted_by(r, |x: StylePair, y: StylePair| pair_le(x, y)),
{
    assert forall|i: int, j: int| 0 <= i < j < r.len() implies #[trigger] pair_le(r[i], r[j]) by {
        assert(!key_lt(r[j].0, r[i].0));
        lemma_key_lt_total(r[i].0, r[j].0);
    }
}

/// Style lists that hold the same pairs with distinct keys, in whatever
/// order, sort to the same list, so they hash alike.
pub proof fn lemma_sort_order_free(s1: Seq<StylePair>, s2: Seq<StylePair>)
    requires
        s1.to_multiset() == s2.to_multiset(),
        distinct_keys(s1),
    ensures
        sort_by_key(s1) == sort_by_key(s2),
        pair_writes(sort_by_key(s1)) == pair_writes(sort_by_key(s2)),
{
    lemma_sort_by_key(s1);
    lemma_sort_by_key(s2);
    let r1 = sort_by_key(s1);
    let r2 = sort_by_key(s2);
    lemma_distinct_keys_perm(s1, r1);
    lemma_distinct_keys_perm(s1, r2);
    lemma_sorted_pairs(r1);
    lemma_sorted_pairs(r2);
    lemma_pair_le_total();
    vstd::seq_lib::lemma_sorted_unique(r1, r2, |x: StylePair, y: StylePair| pair_le(x, y));
}

/// A point in time, from the monotonic clock.
#[verifier::external_type_specification]
#[verifier::external_body]
pub struct ExInstant(std::time::Instant);

/// Calls `Instant::now`; nothing is claimed of the value, which depends on
/// the clock.
#[verifier::external_body]
fn instant_now() -> Instant {
    Instant::now()
}

/// A key by its plain values.
pub type KeyView = (Seq<char>, u64, usize, Option<u64>);

/// A key's plain values.
pub open spec fn key_view(k: LayoutCacheKey) -> KeyView {
    (k.tag@, k.style_hash, k.children_count, k.content_hash)
}

/// Whether two keys are equal.
fn key_eq(a: &LayoutCacheKey, b: &LayoutCacheKey) -> (r: bool)
    ensures
        r == (key_view(*a) == key_view(*b)),
{
    if a.style_hash != b.style_hash || a.children_count != b.children_count {
        return false;
    }
    let same_content = match (a.content_hash, b.content_hash) {
        (Some(x), Some(y)) => x == y,
        (None, None) => true,
        _ => false,
    };
    same_content && crate::text::str_eq(a.tag.as_str(), b.tag.as_str())
}

/// A cached layout with when it was stored and last used, and how often it
/// was used.
#[derive(Debug)]
pub struct CacheEntry<V> {
    /// The cached layout.
    pub layout: V,
    /// When it was stored.
    pub created_at: Instant,
    /// When it was last used.
    pub last_accessed: Instant,
    /// How often it was used.
    pub access_count: u64,
}

impl<V> CacheEntry<V> {
    /// An entry for a layout, not used yet.
    pub fn new(layout: V) -> (e: Self)
        ensures
            e.layout == layout,
            e.access_count == 0,
    {
        let now = instant_now();
        CacheEntry { layout, created_at: now, last_accessed: now, access_count: 0 }
    }

    /// Marks the entry as used now (the count wraps at its maximum).
    pub fn access(&mut self)
        ensures
            final(self).layout == old(self).layout,
            final(self).access_count == old(self).access_count.wrapping_add(1),
    {
        self.last_accessed = instant_now();
        self.access_count = self.access_count.wrapping_add(1);
    }
}

/// How a cache was used: hits and misses (counts wrap at their maximum),
/// entries and capacity.
#[derive(Debug, Clone, Copy)]
pub struct LayoutCacheStats {
    /// Lookups that found a layout.
    pub hits: u64,
    /// Lookups that found none.
    pub misses: u64,
    /// Entries held.
    pub entries: usize,
    /// Most entries held.
    pub capacity: usize,
}

impl LayoutCacheStats {
    /// No lookups yet.
    pub fn new(capacity: usize) -> (s: Self)
        ensures
            s.hits == 0 && s.misses == 0 && s.entries == 0 && s.capacity == capacity,
    {
        LayoutCacheStats { hits: 0, misses: 0, entries: 0, capacity }
    }

    /// Counts a hit.
    pub fn record_hit(&mut self)
        ensures
            *final(self) == (LayoutCacheStats { hits: old(self).hits.wrapping_add(1), ..*old(self) }),
    {
        self.hits = self.hits.wrapping_add(1);
    }

    /// Counts a miss.
    pub fn record_miss(&mut self)
        ensures
            *final(self) == (LayoutCacheStats { misses: old(self).misses.wrapping_add(1), ..*old(self) }),
    {
        self.misses = self.misses.wrapping_add(1);
    }

    /// Forgets the hits and misses.
    pub fn reset(&mut self)
        ensures
            *final(self) == (LayoutCacheStats { hits: 0, misses: 0, ..*old(self) }),
    {
        self.hits = 0;
        self.misses = 0;
    }
}

/// The keys of a list of entries.
pub open spec fn entry_keys<V>(es: Seq<(LayoutCacheKey, CacheEntry<V>)>) -> Seq<KeyView> {
    es.map_values(|e: (LayoutCacheKey, CacheEntry<V>)| key_view(e.0))
}

/// A cache of layouts that drops the least recently used one when full.
#[derive(Debug)]
pub struct LayoutCache<V> {
    entries: Vec<(LayoutCacheKey, CacheEntry<V>)>,
    capacity: usize,
    stats: LayoutCacheStats,
}

impl<V> LayoutCache<V> {
    /// The keys are distinct, the statistics count the entries and give
    /// the capacity, and the cache holds at most its capacity (one entry
    /// when that is zero).
    pub closed spec fn wf(&self) -> bool {
        &&& entry_keys(self.entries@).no_duplicates()
        &&& self.stats.entries == self.entries@.len()
        &&& self.stats.capacity == self.capacity
        &&& self.entries@.len() <= if self.capacity == 0 { 1 } else { self.capacity as int }
    }

    /// The cached keys from least to most recently used.
    pub closed spec fn keys(&self) -> Seq<KeyView> {
        entry_keys(self.entries@)
    }

    /// The cached entries, in the same order.
    pub closed spec fn entries(&self) -> Seq<CacheEntry<V>> {
        self.entries@.map_values(|e: (LayoutCacheKey, CacheEntry<V>)| e.1)
    }

    /// The most entries held.
    pub closed spec fn capacity(&self) -> usize {
        self.capacity
    }

    /// The statistics.
    pub closed spec fn stats_view(&self) -> LayoutCacheStats {
        self.stats
    }

    /// An empty cache holding at most `capacity` layouts.
    pub fn new(capacity: usize) -> (c: Self)
        ensures
            c.wf(),
            c.keys().len() == 0,
            c.capacity() == capacity,
            c.stats_view() == (LayoutCacheStats { hits: 0, misses: 0, entries: 0, capacity }),
    {
        let c = LayoutCache { entries: Vec::new(), capacity, stats: LayoutCacheStats::new(capacity) };
        assert(entry_keys(c.entries@) =~= Seq::<KeyView>::empty());
        c
    }

    /// Where a key is among the entries.
    fn position(&self, key: &LayoutCacheKey) -> (r: Option<usize>)
        requires
            self.wf(),
        ensures
            match r {
                Some(i) => i < self.keys().len() && self.keys()[i as int] == key_view(*key),
                None => !self.keys().contains(key_view(*key)),
            },
    {
        let mut i: usize = 0;
        while i < self.entries.len()
            invariant
                i <= self.entries@.len(),
                forall|j: int| 0 <= j < i ==> self.keys()[j] != key_view(*key),
            decreases self.entries@.len() - i,
        {
            if key_eq(&self.entries[i].0, key) {
                return Some(i);
            }
            i = i + 1;
        }
        None
    }

    /// Moves the entry at `i` to the end, as the most recently used.
    fn touch(&mut self, i: usize)
        requires
            old(self).wf(),
            i < old(self).keys().len(),
        ensures
            final(self).wf(),
            final(self).entries@ == old(self).entries@.remove(i as int).push(old(self).entries@[i as int]),
            final(self).capacity == old(self).capacity,
            final(self).stats == old(self).stats,
    {
        let mut es: Vec<(LayoutCacheKey, CacheEntry<V>)> = Vec::new();
        std::mem::swap(&mut es, &mut self.entries);
        let ghost before = es@;
        let e = es.remove(i);
        es.push(e);
        proof {
            let ks = entry_keys(before);
            assert(entry_keys(es@) =~= ks.remove(i as int).push(ks[i as int]));
            assert forall|a: int, b: int|
                0 <= a < entry_keys(es@).len() && 0 <= b < entry_keys(es@).len() && a != b implies entry_keys(es@)[a]
                != entry_keys(es@)[b] by {
                let n = before.len() - 1;
                let src = |x: int| if x == n { i as int } else if x < i { x } else { x + 1 };
                assert(entry_keys(es@)[a] == ks[src(a)]);
                assert(entry_keys(es@)[b] == ks[src(b)]);
            }
        }
        self.entries = es;
    }

    /// The cached layout for a key, if there is one: it becomes the most
    /// recently used, its use is counted, and the hit or miss is counted.
    pub fn get(&mut self, key: &LayoutCacheKey) -> (r: Option<V>)
        where V: Clone,
        requires
            old(self).wf(),
        ensures
            final(self).wf(),
            final(self).capacity() == old(self).capacity(),
            match old(self).keys().index_of_first(key_view(*key)) {
                Some(i) => {
                    let e = old(self).entries()[i];
                    &&& r matches Some(v) && cloned(e.layout, v)
                    &&& final(self).keys() == old(self).keys().remove(i).push(key_view(*key))
                    &&& final(self).entries().drop_last() == old(self).entries().remove(i)
                    &&& final(self).entries().last().layout == e.layout
                    &&& final(self).entries().last().access_count == e.access_count.wrapping_add(1)
                    &&& final(self).stats_view() == (LayoutCacheStats { hits: old(self).stats_view().hits.wrapping_add(1), ..old(self).stats_view() })
                },
                None => {
                    &&& r is None
                    &&& final(self).keys() == old(self).keys()
                    &&& final(self).entries() == old(self).entries()
                    &&& final(self).stats_view() == (LayoutCacheStats { misses: old(self).stats_view().misses.wrapping_add(1), ..old(self).stats_view() })
                },
            },
    {
        match self.position(key) {
            Some(i) => {
                proof {
                    assert(old(self).keys().index_of_first(key_view(*key)) == Some(i as int)) by {
                        let ks = old(self).keys();
                        ks.index_of_first_ensures(key_view(*key));
                        if ks.index_of_first(key_view(*key)) != Some(i as int) {
                            let j = ks.index_of_first(key_view(*key))->0;
                            assert(ks[j] == ks[i as int]);
                        }
                    }
                }
                let ghost es0 = self.entries@;
                self.touch(i);
                let n = self.entries.len();
                let ghost es1 = self.entries@;
                let mut es: Vec<(LayoutCacheKey, CacheEntry<V>)> = Vec::new();
                std::mem::swap(&mut es, &mut self.entries);
                let (k, mut entry) = es.pop().unwrap();
                entry.access();
                let layout = entry.layout.clone();
                es.push((k, entry));
                proof {
                    assert(entry_keys(es@) =~= entry_keys(es1));
                }
                self.entries = es;
                self.stats.record_hit();
                proof {
                    assert(self.entries().drop_last() =~= old(self).entries().remove(i as int));
                    assert(self.keys() =~= old(self).keys().remove(i as int).push(key_view(*key)));
                }
                Some(layout)
            },
            None => {
                proof {
                    old(self).keys().index_of_first_ensures(key_view(*key));
                }
                self.stats.record_miss();
                None
            },
        }
    }

    /// The keys and entries left when a new key comes into a full cache:
    /// the least recently used entry is dropped.
    pub open spec fn after_eviction(&self, k: KeyView) -> (Seq<KeyView>, Seq<CacheEntry<V>>) {
        if self.keys().len() >= self.capacity() && !self.keys().contains(k) && self.keys().len() > 0 {
            (self.keys().drop_first(), self.entries().drop_first())
        } else {
            (self.keys(), self.entries())
        }
    }

    /// Stores a layout under a key as the most recently used entry,
    /// replacing any entry of that key; a new key in a full cache first
    /// drops the least recently used entry.
    pub fn insert(&mut self, key: LayoutCacheKey, layout: V)
        requires
            old(self).wf(),
        ensures
            final(self).wf(),
            final(self).capacity() == old(self).capacity(),
            ({
                let k = key_view(key);
                let (ks, es) = old(self).after_eviction(k);
                match ks.index_of_first(k) {
                    Some(i) => final(self).keys() == ks.remove(i).push(k) && final(self).entries().drop_last() == es.remove(i),
                    None => final(self).keys() == ks.push(k) && final(self).entries().drop_last() == es,
                }
            }),
            final(self).entries().last().layout == layout,
            final(self).entries().last().access_count == 0,
            final(self).stats_view() == (LayoutCacheStats { entries: final(self).keys().len() as usize, ..old(self).stats_view() }),
    {
        let ghost k = key_view(key);
        let pos = self.position(&key);
        let mut es: Vec<(LayoutCacheKey, CacheEntry<V>)> = Vec::new();
        std::mem::swap(&mut es, &mut self.entries);
        let ghost e0 = es@;
        let ghost ks0 = entry_keys(e0);
        if pos.is_none() && es.len() >= self.capacity && es.len() > 0 {
            es.remove(0);
            proof {
                assert(entry_keys(es@) =~= ks0.drop_first());
            }
        }
        let ghost e1 = es@;
        let ghost ks1 = entry_keys(e1);
        proof {
            assert(e1.map_values(|e: (LayoutCacheKey, CacheEntry<V>)| e.1) =~= old(self).after_eviction(k).1);
            assert(ks1 == old(self).after_eviction(k).0);
            assert forall|a: int, b: int| 0 <= a < ks1.len() && 0 <= b < ks1.len() && a != b implies ks1[a] != ks1[b] by {
                if e1.len() < e0.len() {
                    assert(ks1[a] == ks0[a + 1]);
                    assert(ks1[b] == ks0[b + 1]);
                }
            }
        }
        match pos {
            Some(i) => {
                proof {
                    ks1.index_of_first_ensures(k);
                    if ks1.index_of_first(k) != Some(i as int) {
                        let j = ks1.index_of_first(k)->0;
                        assert(ks1[j] == ks1[i as int]);
                    }
                }
                es.remove(i);
                proof {
                    assert(entry_keys(es@) =~= ks1.remove(i as int));
                }
            },
            None => {
                proof {
                    ks1.index_of_first_ensures(k);
                    if ks1.contains(k) {
                        let j = choose|j: int| 0 <= j < ks1.len() && ks1[j] == k;
                        if e1.len() < e0.len() {
                            assert(ks0[j + 1] == k);
                        }
                    }
                }
            },
        }
        let ghost e2 = es@;
        let ghost ks2 = entry_keys(e2);
        proof {
            assert forall|a: int, b: int| 0 <= a < ks2.len() && 0 <= b < ks2.len() && a != b implies ks2[a] != ks2[b] by {
                if e2.len() < e1.len() {
                    let i = pos->0 as int;
                    let src = |x: int| if x < i { x } else { x + 1 };
                    assert(ks2[a] == ks1[src(a)]);
                    assert(ks2[b] == ks1[src(b)]);
                }
            }
            assert(!ks2.contains(k)) by {
                if ks2.contains(k) {
                    let j = choose|j: int| 0 <= j < ks2.len() && ks2[j] == k;
                    if e2.len() < e1.len() {
                        let i = pos->0 as int;
                        let src = if j < i { j } else { j + 1 };
                        assert(ks1[src] == k);
                        assert(ks1[i] == k);
                    } else {
                        assert(ks1[j] == k);
                    }
                }
            }
        }
        es.push((key, CacheEntry::new(layout)));
        proof {
            assert(entry_keys(es@) =~= ks2.push(k));
            assert forall|a: int, b: int|
                0 <= a < entry_keys(es@).len() && 0 <= b < entry_keys(es@).len() && a != b implies entry_keys(es@)[a]
                != entry_keys(es@)[b] by {
                if a < ks2.len() && b < ks2.len() {
                } else if a == ks2.len() {
                    assert(ks2.contains(entry_keys(es@)[b]) || b == a);
                } else {
                    assert(ks2.contains(entry_keys(es@)[a]));
                }
            }
        }
        self.entries = es;
        self.stats.entries = self.entries.len();
        proof {
            assert(self.entries().drop_last() =~= e2.map_values(|e: (LayoutCacheKey, CacheEntry<V>)| e.1));
            match ks1.index_of_first(k) {
                Some(i) => {
                    assert(e2.map_values(|e: (LayoutCacheKey, CacheEntry<V>)| e.1) =~= e1.map_values(
                        |e: (LayoutCacheKey, CacheEntry<V>)| e.1,
                    ).remove(i));
                },
                None => {},
            }
        }
    }

    /// Drops every entry.
    pub fn clear(&mut self)
        requires
            old(self).wf(),
        ensures
            final(self).wf(),
            final(self).keys().len() == 0,
            final(self).capacity() == old(self).capacity(),
            final(self).stats_view() == (LayoutCacheStats { entries: 0, ..old(self).stats_view() }),
    {
        self.entries = Vec::new();
        self.stats.entries = 0;
        assert(entry_keys(self.entries@) =~= Seq::<KeyView>::empty());
    }

    /// The statistics.
    pub fn stats(&self) -> (r: &LayoutCacheStats)
        ensures
            *r == self.stats_view(),
    {
        &self.stats
    }

    /// The number of entries.
    pub fn len(&self) -> (n: usize)
        ensures
            n == self.keys().len(),
    {
        self.entries.len()
    }

    /// Whether there is no entry.
    pub fn is_empty(&self) -> (b: bool)
        ensures
            b == (self.keys().len() == 0),
    {
        self.entries.len() == 0
    }

    /// A cache never holds more layouts than its capacity (one, when the
    /// capacity is zero).
    pub proof fn lemma_within_capacity(&self)
        requires
            self.wf(),
        ensures
            self.keys().len() <= if self.capacity() == 0 {
                1
            } else {
                self.capacity() as int
            },
    {
    }

    /// The key stored last is found where it was stored: a lookup right
    /// after storing a layout gives that layout back.
    pub proof fn lemma_stored_is_found(&self, k: KeyView)
        requires
            self.wf(),
            self.keys().len() > 0,
            self.keys().last() == k,
        ensures
            self.keys().index_of_first(k) == Some(self.keys().len() - 1),
    {
        let ks = self.keys();
        ks.index_of_first_ensures(k);
        if ks.index_of_first(k) != Some(ks.len() - 1) {
            let j = ks.index_of_first(k)->0;
            assert(ks[j] == ks[ks.len() - 1]);
        }
    }
}

} // verus!