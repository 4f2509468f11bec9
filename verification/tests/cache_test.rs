use iris::layout::cache::{LayoutCache, LayoutCacheKey, LayoutCacheStats, StyleHasher};

/// A laid-out box, as the layout pass gives one.
#[derive(Debug, Clone, PartialEq)]
struct LayoutBox {
    x: f32,
    y: f32,
    width: f32,
    height: f32,
}

impl LayoutBox {
    fn new() -> Self {
        LayoutBox { x: 0.0, y: 0.0, width: 0.0, height: 0.0 }
    }
}

/// The share of lookups that hit.
trait HitRate {
    fn hit_rate(&self) -> f64;
}

impl HitRate for LayoutCacheStats {
    fn hit_rate(&self) -> f64 {
        let total = self.hits + self.misses;
        if total == 0 {
            0.0
        } else {
            self.hits as f64 / total as f64
        }
    }
}

impl HitRate for LayoutCache<LayoutBox> {
    fn hit_rate(&self) -> f64 {
        self.stats().hit_rate()
    }
}

fn create_test_layout() -> LayoutBox {
    let mut layout = LayoutBox::new();
    layout.x = 0.0;
    layout.y = 0.0;
    layout.width = 100.0;
    layout.height = 50.0;
    layout
}

#[test]
fn test_cache_insert_and_get() {
    let mut cache = LayoutCache::new(10);
    let key = LayoutCacheKey::new("div", 12345, 0);
    let layout = create_test_layout();

    cache.insert(key.clone(), layout);
    let retrieved = cache.get(&key);

    assert!(retrieved.is_some());
}

#[test]
fn test_cache_miss() {
    let mut cache: LayoutCache<LayoutBox> = LayoutCache::new(10);
    let key = LayoutCacheKey::new("div", 12345, 0);

    let retrieved = cache.get(&key);
    assert!(retrieved.is_none());
}

#[test]
fn test_cache_capacity() {
    let mut cache = LayoutCache::new(3);

    // 插入 3 个条目
    for i in 0..3 {
        let key = LayoutCacheKey::new(&format!("div{}", i), i as u64, 0);
        cache.insert(key, create_test_layout());
    }

    assert_eq!(cache.len(), 3);

    // 插入第 4 个条目，应该触发 LRU 驱逐
    let key = LayoutCacheKey::new("div3", 3, 0);
    cache.insert(key, create_test_layout());

    assert_eq!(cache.len(), 3);
}

#[test]
fn test_lru_eviction() {
    let mut cache = LayoutCache::new(2);

    let key1 = LayoutCacheKey::new("div1", 1, 0);
    let key2 = LayoutCacheKey::new("div2", 2, 0);
    let key3 = LayoutCacheKey::new("div3", 3, 0);

    cache.insert(key1.clone(), create_test_layout());
    cache.insert(key2.clone(), create_test_layout());

    // 访问 key1，使其成为最近使用的
    cache.get(&key1);

    // 插入 key3，应该驱逐 key2（LRU）
    cache.insert(key3.clone(), create_test_layout());

    assert!(cache.get(&key1).is_some());
    assert!(cache.get(&key2).is_none()); // 被驱逐
    assert!(cache.get(&key3).is_some());
}

#[test]
fn test_cache_stats() {
    let mut cache = LayoutCache::new(10);
    let key = LayoutCacheKey::new("div", 12345, 0);

    // 未命中
    cache.get(&key);
    assert_eq!(cache.stats().misses, 1);
    assert_eq!(cache.stats().hits, 0);

    // 插入并命中
    cache.insert(key.clone(), create_test_layout());
    cache.get(&key);
    assert_eq!(cache.stats().misses, 1);
    assert_eq!(cache.stats().hits, 1);

    // 命中率 50%
    assert!((cache.hit_rate() - 0.5).abs() < 0.01);
}

#[test]
fn test_cache_clear() {
    let mut cache = LayoutCache::new(10);

    for i in 0..5 {
        let key = LayoutCacheKey::new(&format!("div{}", i), i as u64, 0);
        cache.insert(key, create_test_layout());
    }

    assert_eq!(cache.len(), 5);
    cache.clear();
    assert_eq!(cache.len(), 0);
    assert!(cache.is_empty());
}

#[test]
fn test_cache_access_count() {
    let mut cache = LayoutCache::new(10);
    let key = LayoutCacheKey::new("div", 12345, 0);

    cache.insert(key.clone(), create_test_layout());

    // 多次访问
    for _ in 0..5 {
        cache.get(&key);
    }

    // 验证访问计数（通过 LRU 顺序间接验证）
    assert_eq!(cache.len(), 1);
}

#[test]
fn test_style_hasher() {
    let styles1 = vec![
        ("width".to_string(), "100px".to_string()),
        ("height".to_string(), "200px".to_string()),
    ];

    let styles2 = vec![
        ("height".to_string(), "200px".to_string()),
        ("width".to_string(), "100px".to_string()),
    ];

    // 相同样式不同顺序应该产生相同哈希
    let hash1 = StyleHasher::hash_styles(&styles1);
    let hash2 = StyleHasher::hash_styles(&styles2);

    assert_eq!(hash1, hash2);
}

#[test]
fn test_cache_key_with_content() {
    let key1 = LayoutCacheKey::with_content("p", 12345, 0, "Hello");
    let key2 = LayoutCacheKey::with_content("p", 12345, 0, "World");

    // 不同内容应该产生不同哈希
    assert_ne!(key1, key2);

    let key3 = LayoutCacheKey::with_content("p", 12345, 0, "Hello");
    assert_eq!(key1, key3);
}

#[test]
fn lru_order_and_replacement() {
    let mut cache: LayoutCache<u32> = LayoutCache::new(2);
    let a = LayoutCacheKey::new("a", 1, 0);
    let b = LayoutCacheKey::new("b", 2, 0);
    let c = LayoutCacheKey::new("c", 3, 0);
    cache.insert(a.clone(), 1);
    cache.insert(b.clone(), 2);
    // Storing under an existing key replaces it and makes it the newest.
    cache.insert(a.clone(), 10);
    assert_eq!(cache.len(), 2);
    cache.insert(c.clone(), 3);
    assert_eq!(cache.get(&b), None);
    assert_eq!(cache.get(&a), Some(10));
    assert_eq!(cache.get(&c), Some(3));
    assert_eq!(cache.stats().entries, 2);
    assert_eq!(cache.stats().capacity, 2);
}

#[test]
fn zero_capacity_holds_one() {
    let mut cache: LayoutCache<u8> = LayoutCache::new(0);
    cache.insert(LayoutCacheKey::new("a", 0, 0), 1);
    assert_eq!(cache.len(), 1);
    cache.insert(LayoutCacheKey::new("b", 0, 0), 2);
    assert_eq!(cache.len(), 1);
    assert_eq!(cache.get(&LayoutCacheKey::new("b", 0, 0)), Some(2));
    let mut stats = *cache.stats();
    stats.record_miss();
    stats.reset();
    assert_eq!((stats.hits, stats.misses), (0, 0));
}
