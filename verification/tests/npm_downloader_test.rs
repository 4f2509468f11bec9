use iris::engine::npm_downloader::NpmDownloader;
use std::path::PathBuf;

#[test]
fn test_internal_package_detection() {
    // 测试内部包识别
    assert!(NpmDownloader::is_internal_package("iris"));
    assert!(NpmDownloader::is_internal_package("@irisverse/iris"));
    assert!(NpmDownloader::is_internal_package("iris-runtime"));
    assert!(NpmDownloader::is_internal_package("iris-core"));
    assert!(NpmDownloader::is_internal_package("iris-gpu"));
    assert!(NpmDownloader::is_internal_package("iris-layout"));
    assert!(NpmDownloader::is_internal_package("iris-dom"));
    assert!(NpmDownloader::is_internal_package("iris-sfc"));
    assert!(NpmDownloader::is_internal_package("iris-cssom"));
    assert!(NpmDownloader::is_internal_package("iris-jetcrab"));
    assert!(NpmDownloader::is_internal_package("iris-jetcrab-engine"));
    assert!(NpmDownloader::is_internal_package("iris-jetcrab-cli"));

    // 测试外部包（应该返回 false）
    assert!(!NpmDownloader::is_internal_package("vue"));
    assert!(!NpmDownloader::is_internal_package("pinia"));
    assert!(!NpmDownloader::is_internal_package("@vue/runtime-core"));
    assert!(!NpmDownloader::is_internal_package("axios"));
    assert!(!NpmDownloader::is_internal_package("lodash"));
}

#[test]
fn internal_packages_are_refused() {
    assert!(NpmDownloader::check_downloadable("iris").is_err());
    assert_eq!(
        NpmDownloader::check_downloadable("iris-runtime").unwrap_err(),
        "Package 'iris-runtime' is an internal Iris package, skipping download"
    );
    assert!(NpmDownloader::check_downloadable("vue").is_ok());
    let d = NpmDownloader::new(PathBuf::from("/tmp/nm"));
    assert_eq!(d.get_package_path("@vue/runtime-core"), PathBuf::from("/tmp/nm/@vue/runtime-core"));
    assert_eq!(d.node_modules_path(), &PathBuf::from("/tmp/nm"));
}

#[test]
fn registry_urls_and_versions() {
    assert_eq!(NpmDownloader::metadata_url("vue", None), "https://registry.npmjs.org/vue");
    assert_eq!(NpmDownloader::metadata_url("vue", Some("3.5.33")), "https://registry.npmjs.org/vue/3.5.33");
    let v = NpmDownloader::resolve_version("vue", None, Some("3.5.0".to_string()), Some("u".to_string())).unwrap();
    assert_eq!(v.version, "3.5.0");
    assert_eq!(v.tarball_url, "u");
    assert_eq!(
        NpmDownloader::resolve_version("vue", None, None, None).unwrap_err(),
        "No 'latest' version found for vue"
    );
    assert_eq!(
        NpmDownloader::resolve_version("vue", Some("1.0.0"), None, None).unwrap_err(),
        "No tarball URL found for vue@1.0.0"
    );
    let w = NpmDownloader::resolve_version("vue", Some("1.0.0"), None, Some("t".to_string())).unwrap();
    assert_eq!(w.version, "1.0.0");
}
