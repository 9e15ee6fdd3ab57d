use lp::paths::{
    clean_path, get_module_extension, header_to_anchor, is_notebook_path, join_path, module_name,
    prepare_module_file_extension,
};

#[test]
fn test_prepare_module_file_extension() {
    assert_eq!(prepare_module_file_extension("example.lpnb"), "example");
    assert_eq!(prepare_module_file_extension("script.py.lpnb"), "script.py");
    assert_eq!(prepare_module_file_extension("regular_file.txt"), "regular_file.txt");
}

#[test]
fn test_module_name() {
    assert_eq!(module_name("example.py.lpnb"), "example");
    assert_eq!(module_name("Dockerfile.lpnb"), "Dockerfile");
    assert_eq!(module_name("script.lpnb"), "script");
}

#[test]
fn test_get_module_extension() {
    assert_eq!(get_module_extension("script.py.lpnb"), "py");
    assert_eq!(get_module_extension("Dockerfile.lpnb"), "Dockerfile");
    assert_eq!(get_module_extension("file.txt.lpnb"), "txt");
}

#[test]
fn test_clean_path() {
    assert_eq!(clean_path("/projects/myapp", "/projects/myapp/src/main.rs"), "src/main.rs");
    assert_eq!(clean_path("/projects/myapp", "/other/location/file.txt"), "/other/location/file.txt");
}

#[test]
fn test_header_to_anchor() {
    assert_eq!(header_to_anchor("Introduction"), "Introduction");
    assert_eq!(header_to_anchor("Getting Started"), "Getting-Started");
    assert_eq!(header_to_anchor("  Multiple   Spaces  "), "Multiple---Spaces");
}

#[test]
fn anchor_keeps_case_and_other_characters() {
    assert_eq!(header_to_anchor("\tMixed Case: A/B\n"), "Mixed-Case:-A/B");
    assert_eq!(header_to_anchor(""), "");
    assert_eq!(header_to_anchor("   "), "");
}

#[test]
fn anchor_is_idempotent() {
    for h in ["Getting Started", "  a  b  ", "x", "", "Already-Anchored"] {
        let once = header_to_anchor(h);
        assert_eq!(header_to_anchor(&once), once);
        assert!(!once.contains(' '));
    }
    assert_eq!(header_to_anchor("Already-Anchored"), "Already-Anchored");
}

#[test]
fn module_name_examples_and_idempotence() {
    assert_eq!(module_name("dir/a.py.lpnb"), "dir/a");
    assert_eq!(module_name("Dockerfile.lpnb"), "Dockerfile");
    assert_eq!(module_name("a.lpnb"), "a");
    for p in ["dir/a.py.lpnb", "Dockerfile.lpnb", "a.lpnb", "x/y/z.cpp.lpnb"] {
        let once = module_name(p);
        assert_eq!(module_name(&once), once);
    }
}

#[test]
fn module_name_of_dotted_name_is_not_a_fixed_point() {
    let once = module_name("x.tar.py.lpnb");
    assert_eq!(once, "x.tar");
    assert_eq!(module_name(&once), "x");
}

#[test]
fn extensions_of_hidden_and_nested_files() {
    assert_eq!(prepare_module_file_extension(".lpnb"), ".lpnb");
    assert_eq!(prepare_module_file_extension("dir.d/file"), "dir.d/file");
    assert_eq!(get_module_extension("dir/Dockerfile.lpnb"), "Dockerfile");
    assert_eq!(module_name("dir.d/a.py.lpnb"), "dir.d/a");
    assert!(is_notebook_path("a/b.py.lpnb"));
    assert!(!is_notebook_path("a/b.py"));
    assert!(!is_notebook_path("a/.lpnb"));
}

#[test]
fn clean_path_is_by_component() {
    assert_eq!(clean_path("/projects/my", "/projects/myapp/src/main.rs"), "/projects/myapp/src/main.rs");
    assert_eq!(clean_path("src/", "src/a.py.lpnb"), "a.py.lpnb");
    assert_eq!(clean_path("src", "src"), "");
    assert_eq!(clean_path("a", "a//b"), "b");
    assert_eq!(clean_path("a/", "a//b"), "b");
    assert_eq!(clean_path("/", "/x/y"), "x/y");
}

#[test]
fn join_path_adds_one_separator() {
    assert_eq!(join_path("targets", "docs"), "targets/docs");
    assert_eq!(join_path("targets/", "docs"), "targets/docs");
    assert_eq!(join_path("", "docs"), "docs");
    assert_eq!(join_path("targets", "/abs"), "/abs");
}
