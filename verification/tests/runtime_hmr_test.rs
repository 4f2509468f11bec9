use iris::runtime::hmr::generate_patch;
#[test]
fn test_generate_patch() {
    let old_source = "<template><div>Old</div></template>";
    let new_source = "<template><div>New</div></template>";

    let patch = generate_patch(old_source, new_source, "App.vue").unwrap();

    assert_eq!(patch.patch_type, "vue-reload");
    assert_eq!(patch.path, "App.vue");
    assert!(!patch.changes.is_empty());
}

#[test]
fn test_no_changes() {
    let source = "<template><div>Same</div></template>";

    let patch = generate_patch(source, source, "App.vue").unwrap();

    // 无变更时应该返回空 changes
    assert!(patch.changes.is_empty() || patch.changes[0].change_type != "reload");
}

#[test]
fn line_endings_do_not_count_as_changes() {
    let patch = generate_patch("a\nb", "a\r\nb\n", "x.vue").unwrap();
    assert!(patch.changes.is_empty());
    let patch = generate_patch("a\nb", "a\nc", "x.vue").unwrap();
    assert_eq!(patch.changes.len(), 1);
    assert_eq!(patch.changes[0].change_type, "reload");
    assert_eq!(patch.changes[0].content, "a\nc");
}
