use cargo_version_info::badge::{
    badge_adrs, badge_number_of_tests, badge_platform, cached_test_count, count_listed_tests,
    count_test_artifacts, guess_if_published, is_workflow_file, select_package, test_count_step,
    workflow_publishes, PackageLocation, PlatformFiles, TestCountAction, TestCountCache,
    TestCountStep,
};

#[test]
fn adr_and_tests_badges() {
    assert_eq!(
        badge_adrs(true).unwrap(),
        "[![ADRs](https://img.shields.io/badge/ADRs-index-informational)](docs/adr/index.typ)\n"
    );
    assert!(badge_adrs(false).is_none());
    assert_eq!(badge_number_of_tests(Some(42)).unwrap(), "[![Tests](https://img.shields.io/badge/tests-42-blue)](tests/)\n");
    assert!(badge_number_of_tests(None).is_none());
}

#[test]
fn platform_badges() {
    let none = PlatformFiles { fly_toml: false, fly_dir: false, dockerfile: None, vercel_json: false, vercel_dir: false };
    assert!(badge_platform(&none).is_none());
    let docker = PlatformFiles { dockerfile: Some("FROM x\n# deploy to fly.io\n".to_string()), vercel_json: true, ..none };
    assert!(badge_platform(&docker).unwrap().contains("platform-Fly.io-8A2BE2"));
    let vercel = PlatformFiles { fly_toml: false, fly_dir: false, dockerfile: Some("FROM x".to_string()), vercel_json: false, vercel_dir: true };
    assert_eq!(badge_platform(&vercel).unwrap(), "[![Platform](https://img.shields.io/badge/platform-Vercel-black)](docs/adr/)\n");
}

#[test]
fn publishing_guess() {
    assert!(!guess_if_published(true, true, true, true));
    assert!(guess_if_published(false, false, false, true));
    assert!(!guess_if_published(false, false, false, false));
    assert!(workflow_publishes("run: cargo publish --token x"));
    assert!(!workflow_publishes("run: cargo test"));
    assert!(is_workflow_file("release.yml"));
    assert!(is_workflow_file("ci.yaml"));
    assert!(!is_workflow_file(".yml"));
    assert!(!is_workflow_file("notes.txt"));
    assert!(!is_workflow_file("yml"));
}

#[test]
fn test_count_cache_matches_package_and_key() {
    let cache = TestCountCache { package: "demo".to_string(), cache_key: "abc".to_string(), test_count: 12 };
    assert_eq!(cached_test_count(&cache, "demo", "abc"), Some(12));
    assert_eq!(cached_test_count(&cache, "demo", "def"), None);
    assert_eq!(cached_test_count(&cache, "other", "abc"), None);
}

const ARTIFACTS: &str = "{\"reason\":\"compiler-artifact\",\"package_id\":\"demo@0.1.0\",\"target\":{\"kind\":[\"test\"]},\"executable\":\"/t/a\"}\n{\"reason\":\"compiler-artifact\",\"package_id\":\"demo@0.1.0\",\"target\":{\"kind\":[\"lib\"]},\"executable\":null}\n{\"reason\":\"compiler-artifact\",\"package_id\":\"other@0.1.0\",\"target\":{\"kind\":[\"test\"]},\"executable\":\"/t/b\"}\nnot json\n{\"reason\":\"build-finished\",\"success\":true}\n{\"reason\":\"compiler-artifact\",\"package_id\":\"demo@0.1.0\",\"target\":{\"kind\":[\"bin\",\"test\"]},\"executable\":\"/t/c\"}\n";

#[test]
fn test_executables_are_counted() {
    assert_eq!(count_test_artifacts(ARTIFACTS, "demo"), 2);
    assert_eq!(count_test_artifacts(ARTIFACTS, "other"), 1);
    assert_eq!(count_test_artifacts(ARTIFACTS, "dem"), 0);
    assert_eq!(count_listed_tests("a::b: test\nc: test\nd: bench\n\n2 tests, 0 benchmarks\n"), 2);
}

#[test]
fn test_count_steps() {
    let step = TestCountStep::Artifacts { success: true, stdout: ARTIFACTS.to_string() };
    assert_eq!(test_count_step(&step, "demo"), TestCountAction::Found(2));
    let step = TestCountStep::Artifacts { success: true, stdout: String::new() };
    assert_eq!(test_count_step(&step, "demo"), TestCountAction::Compile);
    let step = TestCountStep::Artifacts { success: false, stdout: ARTIFACTS.to_string() };
    assert_eq!(test_count_step(&step, "demo"), TestCountAction::NoCount);
    assert_eq!(test_count_step(&TestCountStep::Compiled { success: true }, "demo"), TestCountAction::List);
    assert_eq!(test_count_step(&TestCountStep::Compiled { success: false }, "demo"), TestCountAction::NoCount);
    let step = TestCountStep::Listed { success: true, stdout: "x: test\n".to_string() };
    assert_eq!(test_count_step(&step, "demo"), TestCountAction::Found(1));
    let step = TestCountStep::Listed { success: true, stdout: "".to_string() };
    assert_eq!(test_count_step(&step, "demo"), TestCountAction::NoCount);
}

fn loc(dir: Option<&str>, manifest: Option<&str>) -> PackageLocation {
    PackageLocation { dir: dir.map(|s| s.to_string()), manifest: manifest.map(|s| s.to_string()) }
}

#[test]
fn package_selection_order() {
    let locs = vec![loc(Some("/w/a"), Some("/w/a/Cargo.toml")), loc(Some("/w/b"), Some("/w/b/Cargo.toml"))];
    assert_eq!(select_package(&locs, &Some("/w/b".to_string()), &None, Some(0), None), Some(1));
    assert_eq!(select_package(&locs, &Some("/x".to_string()), &Some("/w/a/Cargo.toml".to_string()), None, None), Some(0));
    assert_eq!(select_package(&locs, &None, &None, Some(1), Some(0)), Some(1));
    assert_eq!(select_package(&locs, &None, &None, None, Some(0)), Some(0));
    assert_eq!(select_package(&locs, &Some("/x".to_string()), &None, None, None), None);
}
