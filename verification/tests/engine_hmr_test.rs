use iris::engine::hmr::{HMRManager, PatchType};
#[test]
fn test_check_file_change() {
    let mut hmr = HMRManager::new();
    
    // 首次检查（应该检测到变化）
    assert!(hmr.check_file_change("test.vue", 1000));
    
    // 相同时间戳（应该没有变化）
    assert!(!hmr.check_file_change("test.vue", 1000));
    
    // 新的时间戳（应该检测到变化）
    assert!(hmr.check_file_change("test.vue", 2000));
}

#[test]
fn test_generate_vue_reload_patch() {
    let mut hmr = HMRManager::new();
    let patch = hmr.generate_vue_reload_patch("App.vue", "<template>...</template>");
    
    assert_eq!(patch.patch_type, PatchType::VueReload);
    assert_eq!(patch.file_path, "App.vue");
    assert!(patch.content.is_some());
}

#[test]
fn test_generate_css_update_patch() {
    let mut hmr = HMRManager::new();
    let patch = hmr.generate_css_update_patch("style.css", "body { color: red; }");
    
    assert_eq!(patch.patch_type, PatchType::CSSUpdate);
    assert_eq!(patch.file_path, "style.css");
}

#[test]
fn test_generate_full_reload_patch() {
    let mut hmr = HMRManager::new();
    let patch = hmr.generate_full_reload_patch("Entry file changed");
    
    assert_eq!(patch.patch_type, PatchType::FullReload);
    assert_eq!(patch.content, Some("Entry file changed".to_string()));
}

#[test]
fn test_pending_patches() {
    let mut hmr = HMRManager::new();
    
    hmr.generate_vue_reload_patch("A.vue", "...");
    hmr.generate_vue_reload_patch("B.vue", "...");
    
    let patches = hmr.get_pending_patches();
    assert_eq!(patches.len(), 2);
    
    // 再次获取应该为空
    let patches = hmr.get_pending_patches();
    assert_eq!(patches.len(), 0);
}

#[test]
fn test_clear_timestamps() {
    let mut hmr = HMRManager::new();
    
    hmr.set_file_timestamp("A.vue", 1000);
    hmr.set_file_timestamp("B.vue", 2000);
    
    assert_eq!(hmr.file_timestamps.len(), 2);
    
    hmr.clear_timestamps();
    assert_eq!(hmr.file_timestamps.len(), 0);
}
