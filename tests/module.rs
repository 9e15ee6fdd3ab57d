use lp::error::LPError;
use lp::structs::{Module, Project};

const ROOT: &str = "/work/project";

const ONE_SECTION: &str = r#"
sections:
  - code: |
        fn hello() {}
    docs: |
        # Hello Function
        This function says hello.
"#;

const DUPLICATES: &str = r#"
sections:
  - code: |
        fn hello() {}
    docs: |
        # Duplicate Header
        This function says hello.
  - code: |
        fn world() {}
    docs: |
        # Duplicate Header
        This function says world.
"#;

fn at(name: &str) -> String {
    format!("{}/{}", ROOT, name)
}

fn plain(path: &str) -> Module {
    Module { path: path.to_string(), sections: None }
}

#[test]
fn test_module_new_non_literate_file() {
    let module = Module::new(ROOT, &at("test.txt"), Some("some content")).unwrap();
    assert!(module.sections.is_none());
    assert_eq!(module.path, "test.txt");
}

#[test]
fn test_module_new_literate_file() {
    let module = Module::new(ROOT, &at("test.rs.lpnb"), Some(ONE_SECTION)).unwrap();
    assert!(module.sections.is_some());
    assert_eq!(module.sections.as_ref().unwrap().len(), 1);
    assert_eq!(module.path, "test.rs.lpnb");
}

#[test]
fn test_module_new_error_duplicate_headers() {
    let result = Module::new(ROOT, &at("test.lpnb"), Some(DUPLICATES));
    assert!(result.is_err());
}

#[test]
fn unreadable_notebook_becomes_a_plain_module() {
    let module = Module::new(ROOT, &at("gone.py.lpnb"), None).unwrap();
    assert!(module.sections.is_none());
    assert_eq!(module.path, "gone.py.lpnb");
}

#[test]
fn malformed_notebook_is_an_error() {
    match Module::new(ROOT, &at("bad.py.lpnb"), Some("sections: {")) {
        Err(LPError::CannotReadFile(_)) => {}
        _ => panic!("expected a read error"),
    }
}

#[test]
fn test_resolve_relative_module_path_same_dir() {
    assert_eq!(plain("dir/module.lpnb").resolve_relative_module_path("other.lpnb"), "dir/other.lpnb");
}

#[test]
fn test_resolve_relative_module_path_parent_dir() {
    assert_eq!(
        plain("dir/subdir/module.lpnb").resolve_relative_module_path("../other.lpnb"),
        "dir/other.lpnb"
    );
}

#[test]
fn test_resolve_relative_module_path_empty() {
    assert_eq!(plain("dir/module.py.lpnb").resolve_relative_module_path(""), "dir/module");
}

#[test]
fn test_resolve_relative_module_path_subdirectory() {
    assert_eq!(
        plain("dir/module.lpnb").resolve_relative_module_path("subdir/other.lpnb"),
        "dir/subdir/other.lpnb"
    );
}

#[test]
fn resolving_normalizes_dots_and_slashes() {
    assert_eq!(plain("a.py.lpnb").resolve_relative_module_path("b"), "b");
    assert_eq!(plain("x/a.py.lpnb").resolve_relative_module_path("./y//b"), "x/y/b");
    assert_eq!(plain("x/a.py.lpnb").resolve_relative_module_path("../../b"), "../b");
}

#[test]
fn test_project_new_empty_dir() {
    let project = Project::new(ROOT, &vec![]).unwrap();
    assert!(project.modules.is_empty());
}

#[test]
fn test_project_new_non_literate_files() {
    let files = vec![
        (at("file1.txt"), Some("content".to_string())),
        (at("file2.rs"), Some("fn main() {}".to_string())),
    ];
    let project = Project::new(ROOT, &files).unwrap();
    assert_eq!(project.modules.len(), 2);
    for module in &project.modules {
        assert!(module.sections.is_none());
    }
}

#[test]
fn test_project_new_literate_files() {
    let files = vec![(at("test.rs.lpnb"), Some(ONE_SECTION.to_string()))];
    let project = Project::new(ROOT, &files).unwrap();
    assert_eq!(project.modules.len(), 1);
    let module = &project.modules[0];
    assert!(module.sections.is_some());
    assert_eq!(module.sections.as_ref().unwrap().len(), 1);
}

#[test]
fn test_project_new_mixed_files() {
    let files = vec![
        (at("file.txt"), Some("content".to_string())),
        (at("test.rs.lpnb"), Some(ONE_SECTION.to_string())),
    ];
    let project = Project::new(ROOT, &files).unwrap();
    assert_eq!(project.modules.len(), 2);
    let with_sections = project.modules.iter().filter(|m| m.sections.is_some()).count();
    let without_sections = project.modules.iter().filter(|m| m.sections.is_none()).count();
    assert_eq!(with_sections, 1);
    assert_eq!(without_sections, 1);
}

#[test]
fn test_project_new_nested_directories() {
    let files = vec![
        (at("file.txt"), Some("content".to_string())),
        (at("subdir/file.txt"), Some("content".to_string())),
        (at("another/nested/file.txt"), Some("content".to_string())),
    ];
    let project = Project::new(ROOT, &files).unwrap();
    assert_eq!(project.modules.len(), 3);
    assert_eq!(project.modules[2].path, "another/nested/file.txt");
}

#[test]
fn test_project_new_error_propagation() {
    let files = vec![(at("test.lpnb"), Some(DUPLICATES.to_string()))];
    let result = Project::new(ROOT, &files);
    assert!(result.is_err());
    match result {
        Err(LPError::DuplicateHeader(_)) => {}
        _ => panic!("Expected DuplicateHeader error"),
    }
}
