use lp::index::ProjectIndex;
use lp::structs::{Module, Project, Section};

fn section(code: &str, header: Option<&str>) -> Section {
    Section {
        code: code.to_string(),
        docs: format!("docs of {}", code),
        header: header.map(|h| h.to_string()),
        references: vec![],
    }
}

fn create_test_project() -> Project {
    let module1 = Module {
        path: "module1.rs.lpnb".to_string(),
        sections: Some(vec![section("code1", Some("Header 1")), section("code2", Some("Header 2"))]),
    };
    let module2 = Module {
        path: "subdir/module2.rs.lpnb".to_string(),
        sections: Some(vec![section("code4", Some("Header 3")), section("code3", None)]),
    };
    let module_no_sections = Module { path: "empty.rs.lpnb".to_string(), sections: None };
    Project { modules: vec![module1, module2, module_no_sections] }
}

#[test]
fn test_new_project_index() {
    let project = create_test_project();
    let index = ProjectIndex::new(&project);

    assert!(index.contains_module("module1"));
    assert!(index.contains_module("subdir/module2"));
    assert!(!index.contains_module("empty"));

    assert_eq!(index.section_count("module1"), Some(2));
    assert_eq!(index.section_count("subdir/module2"), Some(1));
}

#[test]
fn test_get_section() {
    let project = create_test_project();
    let index = ProjectIndex::new(&project);

    let found = index.get_section("module1", "Header-1");
    assert!(found.is_some());
    assert_eq!(found.unwrap().code, "code1");

    let found = index.get_section("subdir/module2", "Header-3");
    assert!(found.is_some());
    assert_eq!(found.unwrap().code, "code4");

    assert!(index.get_section("nonexistent", "Header-1").is_none());
    assert!(index.get_section("module1", "Nonexistent-Header").is_none());
    assert!(index.get_section("empty", "Any-Header").is_none());
}

#[test]
fn modules_without_headed_sections_are_left_out() {
    let project = Project {
        modules: vec![Module { path: "plain.py.lpnb".to_string(), sections: Some(vec![section("x", None)]) }],
    };
    let index = ProjectIndex::new(&project);
    assert!(!index.contains_module("plain"));
    assert_eq!(index.section_count("plain"), None);
}

#[test]
fn headers_are_looked_up_by_anchor() {
    let project = Project {
        modules: vec![Module {
            path: "a.py.lpnb".to_string(),
            sections: Some(vec![section("x", Some("## Two  Words "))]),
        }],
    };
    let index = ProjectIndex::new(&project);
    assert_eq!(index.get_section("a", "Two--Words").unwrap().code, "x");
    assert!(index.get_section("a", "## Two  Words ").is_none());
}

#[test]
fn a_later_module_with_the_same_name_wins() {
    let project = Project {
        modules: vec![
            Module { path: "a.py.lpnb".to_string(), sections: Some(vec![section("first", Some("# H"))]) },
            Module { path: "a.cpp.lpnb".to_string(), sections: Some(vec![section("second", Some("# G"))]) },
        ],
    };
    let index = ProjectIndex::new(&project);
    assert_eq!(index.section_count("a"), Some(1));
    assert_eq!(index.get_section("a", "G").unwrap().code, "second");
    assert!(index.get_section("a", "H").is_none());
}

#[test]
fn a_repeated_anchor_within_a_module_counts_once() {
    let project = Project {
        modules: vec![Module {
            path: "a.py.lpnb".to_string(),
            sections: Some(vec![section("first", Some("# H")), section("second", Some("## H"))]),
        }],
    };
    let index = ProjectIndex::new(&project);
    assert_eq!(index.section_count("a"), Some(1));
    assert_eq!(index.get_section("a", "H").unwrap().code, "second");
}
