use lp::builder::Builder;
use lp::cli::{Params, ParamsProcessor};
use lp::code::code_builder::{code_file, CodeBuilder};
use lp::config::Config;
use lp::docs::docs_builder::DocsBuilder;
use lp::emission::Emission;
use lp::error::LPError;
use lp::index::ProjectIndex;
use lp::plugins::PluginsCaller;
use lp::structs::{Module, Project, Section};

fn section(code: &str, docs: &str, header: &str) -> Section {
    Section {
        code: code.to_string(),
        docs: docs.to_string(),
        header: Some(header.to_string()),
        references: vec![],
    }
}

fn code_config() -> lp::code::config::Config {
    lp::code::config::Config::new("/target".to_string(), "/source".to_string(), "/plugins".to_string())
}

fn docs_config() -> lp::docs::config::Config {
    lp::docs::config::Config::new("/target".to_string(), "/source".to_string())
}

#[test]
fn test_prepare_target_path() {
    let project = Project { modules: vec![] };
    let index = ProjectIndex::new(&project);
    let plugins = PluginsCaller::empty();
    let builder = CodeBuilder::new(code_config(), &project, &index, &plugins);
    assert_eq!(builder.prepare_target_path("module.rs.lpnb"), "/target/module.rs");
}

#[test]
fn code_builder_test_get_module_source_path() {
    let project = Project { modules: vec![] };
    let index = ProjectIndex::new(&project);
    let plugins = PluginsCaller::empty();
    let builder = CodeBuilder::new(code_config(), &project, &index, &plugins);
    assert_eq!(builder.get_module_source_path("dir/module.rs.lpnb"), "/source/dir/module.rs.lpnb");
}

#[test]
fn test_get_all_code() {
    let module = Module {
        path: "test.rs.lpnb".to_string(),
        sections: Some(vec![
            section("fn hello() {}", "# Hello Function", "Hello Function"),
            section("fn world() {}", "# World Function", "World Function"),
        ]),
    };
    let project = Project { modules: vec![] };
    let index = ProjectIndex::new(&project);
    let plugins = PluginsCaller::empty();
    let builder = CodeBuilder::new(code_config(), &project, &index, &plugins);
    assert_eq!(builder.get_all_code(&module), "fn hello() {}\nfn world() {}");
    assert_eq!(builder.assemble_code("use x;", &module), "use x;\nfn hello() {}\nfn world() {}");
}

#[test]
fn notebook_without_plugin_fails_with_plugin_not_found() {
    let project = Project {
        modules: vec![Module { path: "a.py.lpnb".to_string(), sections: Some(vec![section("x", "# A", "# A")]) }],
    };
    let index = ProjectIndex::new(&project);
    let plugins = PluginsCaller::empty();
    let builder = CodeBuilder::new(code_config(), &project, &index, &plugins);
    match builder.build() {
        Err(LPError::PluginNotFound(ext)) => assert_eq!(ext, "py"),
        _ => panic!("expected a missing plugin"),
    }
}

#[test]
fn plain_files_need_no_plugin() {
    let project = Project { modules: vec![Module { path: "notes.txt".to_string(), sections: None }] };
    let index = ProjectIndex::new(&project);
    let plugins = PluginsCaller::empty();
    let builder = CodeBuilder::new(code_config(), &project, &index, &plugins);
    let plan = builder.build().unwrap();
    assert_eq!(plan.len(), 1);
    match &plan[0] {
        Emission::Copy { from, to } => {
            assert_eq!(from, "/source/notes.txt");
            assert_eq!(to, "/target/notes.txt");
        }
        _ => panic!("expected a copy"),
    }
}

#[test]
fn test_prepare_target_path_with_extension() {
    let project = Project { modules: vec![] };
    let builder = DocsBuilder::new(docs_config(), &project);
    let (target_path, extension) = builder.prepare_target_path("module.rs.lpnb");
    assert_eq!(target_path, "/target/module.md");
    assert_eq!(extension, "rs");
}

#[test]
fn test_prepare_target_path_without_extension() {
    let project = Project { modules: vec![] };
    let builder = DocsBuilder::new(docs_config(), &project);
    let (target_path, extension) = builder.prepare_target_path("README");
    assert_eq!(target_path, "/target/README");
    assert_eq!(extension, "");
}

#[test]
fn test_prepare_target_path_nested_path() {
    let project = Project { modules: vec![] };
    let builder = DocsBuilder::new(docs_config(), &project);
    let (target_path, extension) = builder.prepare_target_path("dir/subdir/module.py.lpnb");
    assert_eq!(target_path, "/target/dir/subdir/module.md");
    assert_eq!(extension, "py");
}

#[test]
fn docs_target_of_notebook_without_inner_extension() {
    let project = Project { modules: vec![] };
    let builder = DocsBuilder::new(docs_config(), &project);
    let (target_path, extension) = builder.prepare_target_path("Dockerfile.lpnb");
    assert_eq!(target_path, "/target/Dockerfile.md");
    assert_eq!(extension, "");
}

#[test]
fn docs_builder_test_get_module_source_path() {
    let project = Project { modules: vec![] };
    let builder = DocsBuilder::new(docs_config(), &project);
    assert_eq!(builder.get_module_source_path("dir/module.rs.lpnb"), "/source/dir/module.rs.lpnb");
}

#[test]
fn test_prepare_final_docs_single_section() {
    let project = Project { modules: vec![] };
    let builder = DocsBuilder::new(docs_config(), &project);
    let sections = vec![section("fn hello() {}", "# Hello Function", "Hello Function")];
    let result = builder.prepare_final_docs(&sections, "rs");
    assert_eq!(result, "# Hello Function\n```rs\nfn hello() {}\n```");
}

#[test]
fn test_prepare_final_docs_multiple_sections() {
    let project = Project { modules: vec![] };
    let builder = DocsBuilder::new(docs_config(), &project);
    let sections = vec![
        section("fn hello() {}", "# Hello Function", "Hello Function"),
        section("fn world() {}", "# World Function", "World Function"),
    ];
    let result = builder.prepare_final_docs(&sections, "rs");
    let expected = "# Hello Function\n```rs\nfn hello() {}\n```\n# World Function\n```rs\nfn world() {}\n```";
    assert_eq!(result, expected);
}

#[test]
fn final_docs_of_no_sections_is_empty() {
    let project = Project { modules: vec![] };
    let builder = DocsBuilder::new(docs_config(), &project);
    assert_eq!(builder.prepare_final_docs(&vec![], "rs"), "");
}

#[test]
fn config_places_output_roots_below_target() {
    let config = Config::new("targets", "src", "plugins", true);
    assert_eq!(config.docs_dir, "targets/docs");
    assert_eq!(config.code_dir, "targets/code");
    assert_eq!(config.code_plugins_dir, "plugins");
    assert_eq!(config.source_dir, "src");
    assert!(config.force);
}

#[test]
fn test_new_builder_and_init() {
    let config = Config::new("tmp/target", "tmp/src", "tmp/plugins", false);
    let builder = Builder::new(config, Project { modules: vec![] }, PluginsCaller::empty());
    let plan = builder.build();
    assert!(plan.is_ok());
    let plan = plan.unwrap();
    assert_eq!(plan.create, vec!["tmp/target/docs".to_string(), "tmp/target/code".to_string()]);
    assert!(plan.remove.is_empty());
}

#[test]
fn test_validate_params() {
    let processor = ParamsProcessor::new();
    let params = Params {
        src_dir: ".".to_string(),
        target_dir: "target".to_string(),
        plugins_dir: "plugins".to_string(),
        force: false,
    };
    let is_dir = std::path::Path::new(&params.src_dir).is_dir();
    assert!(processor.validate_params(&params, is_dir).is_none());
}

#[test]
fn test_validate_params_invalid() {
    let processor = ParamsProcessor::new();
    let params = Params {
        src_dir: "tests_invalid".to_string(),
        target_dir: "target".to_string(),
        plugins_dir: "plugins".to_string(),
        force: false,
    };
    let is_dir = std::path::Path::new(&params.src_dir).is_dir();
    assert!(processor.validate_params(&params, is_dir).is_some());
}

#[test]
fn invalid_params_give_source_directory_not_found() {
    let processor = ParamsProcessor::new();
    let params = Params {
        src_dir: "missing".to_string(),
        target_dir: "target".to_string(),
        plugins_dir: "plugins".to_string(),
        force: false,
    };
    match processor.process_cli_params(params, false) {
        Err(e) => {
            assert!(matches!(e, LPError::SourceDirectoryNotFound(ref p) if p == "missing"));
            assert_eq!(e.message(), "Source directory not found: missing");
        }
        Ok(_) => panic!("expected an error"),
    }
}

#[test]
fn error_messages() {
    assert_eq!(LPError::Io("denied".to_string()).message(), "IO error: denied");
    assert_eq!(LPError::DuplicateHeader("A".to_string()).message(), "Duplicate header found: A");
    assert_eq!(LPError::CannotReadFile("f".to_string()).message(), "Cannot read file: f");
    assert_eq!(LPError::PluginNotFound("py".to_string()).message(), "No plugin for files extension: py");
    assert_eq!(
        LPError::IncorrectReference("b".to_string(), "Missing".to_string()).message(),
        "Impossible to refer to the module: b, section: Missing"
    );
    assert_eq!(LPError::LuaRuntime("x".to_string()).message(), "Lua error: x");
}

#[test]
fn code_file_ends_the_cleaned_code_with_a_line_break() {
    assert_eq!(code_file(""), "\n");
    assert_eq!(code_file("x = 1"), "x = 1\n");
}

fn cross_reference_project() -> Project {
    let mut a = section("use_b()", "# A\n[b](b#B)", "# A");
    a.references = vec![lp::structs::Reference { path: "b".to_string(), header: "B".to_string() }];
    Project {
        modules: vec![
            Module { path: "a.py.lpnb".to_string(), sections: Some(vec![a]) },
            Module { path: "b.py.lpnb".to_string(), sections: Some(vec![section("def b(): pass", "# B", "# B")]) },
        ],
    }
}

#[test]
fn imports_without_an_import_plugin_fail_with_plugin_not_found() {
    let project = cross_reference_project();
    let index = ProjectIndex::new(&project);
    let plugins = PluginsCaller::empty();
    let builder = CodeBuilder::new(code_config(), &project, &index, &plugins);
    let requests = builder.import_requests(&project.modules[0]).unwrap();
    assert_eq!(requests.len(), 1);
    assert_eq!(requests[0].current_path, "a.py");
    assert_eq!(requests[0].referenced_path, "b.py");
    assert_eq!(requests[0].code_block, "def b(): pass");
    assert!(matches!(builder.get_all_imports(&project.modules[0]), Err(LPError::PluginNotFound(ref e)) if e == "py"));
    assert!(matches!(builder.prepare_final_code(&project.modules[1]), Err(LPError::PluginNotFound(ref e)) if e == "py"));
}

#[test]
fn a_bad_reference_is_reported_before_any_missing_plugin() {
    let mut project = cross_reference_project();
    project.modules[0].sections.as_mut().unwrap()[0].references[0].header = "Missing".to_string();
    let index = ProjectIndex::new(&project);
    let plugins = PluginsCaller::empty();
    let builder = CodeBuilder::new(code_config(), &project, &index, &plugins);
    match builder.build() {
        Err(LPError::IncorrectReference(p, h)) => {
            assert_eq!(p, "b");
            assert_eq!(h, "Missing");
        }
        _ => panic!("expected IncorrectReference"),
    }
}
