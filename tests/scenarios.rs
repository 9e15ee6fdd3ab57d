use lp::builder::{BuildPlan, Builder};
use lp::config::Config;
use lp::emission::Emission;
use lp::error::LPError;
use lp::index::ProjectIndex;
use lp::paths::header_to_anchor;
use lp::plugins::{PluginScript, PluginsCaller};
use lp::structs::Project;

const PASSTHROUGH_PLUGIN: &str = r#"
function get_import_code(current_path, referenced_path, code_block)
    return ""
end
function clean_code(code)
    return code
end
"#;

const IMPORTING_PLUGIN: &str = r#"
function get_import_code(current_path, referenced_path, code_block)
    return "import " .. referenced_path .. ":" .. code_block
end
function clean_code(code)
    return code
end
"#;

fn plugins(lua: &mlua::Lua, code: &str) -> PluginsCaller {
    let scripts = vec![PluginScript { key: "py".to_string(), name: "py.lua".to_string(), code: code.to_string() }];
    PluginsCaller::new(lua, &scripts).unwrap()
}

fn project(files: &[(&str, &str)]) -> Result<Project, LPError> {
    let files: Vec<(String, Option<String>)> =
        files.iter().map(|(p, c)| (format!("src/{}", p), Some(c.to_string()))).collect();
    Project::new("src", &files)
}

fn build(files: &[(&str, &str)], plugin: &str, force: bool) -> Result<BuildPlan, LPError> {
    let lua = mlua::Lua::new();
    let project = project(files)?;
    let builder = Builder::new(Config::new("targets", "src", "plugins", force), project, plugins(&lua, plugin));
    builder.build()
}

fn written<'a>(plan: &'a [Emission], path: &str) -> &'a str {
    for e in plan {
        if let Emission::Write { to, contents } = e {
            if to == path {
                return contents;
            }
        }
    }
    panic!("nothing written to {}", path)
}

fn copied(plan: &[Emission], path: &str) -> String {
    for e in plan {
        if let Emission::Copy { from, to } = e {
            if to == path {
                return from.clone();
            }
        }
    }
    panic!("nothing copied to {}", path)
}

const HELLO: &str = "sections:\n  - code: |\n      def a():\n          pass\n    docs: |\n      # A\n";

#[test]
fn single_notebook_builds_code_and_docs() {
    let plan = build(&[("hello.py.lpnb", HELLO)], PASSTHROUGH_PLUGIN, false).unwrap();
    assert_eq!(written(&plan.code, "targets/code/hello.py"), "\ndef a():\n    pass\n\n");
    assert_eq!(written(&plan.docs, "targets/docs/hello.md"), "# A\n\n```py\ndef a():\n    pass\n\n```");
}

const A_REFERS_TO_B: &str = "sections:\n  - code: a_code\n    docs: \"# X\\nsee [X](b#Y)\"\n";
const B_DEFINES_Y: &str = "sections:\n  - code: Z\n    docs: \"# Y\"\n";

#[test]
fn cross_module_reference_becomes_an_import() {
    let plan = build(&[("a.py.lpnb", A_REFERS_TO_B), ("b.py.lpnb", B_DEFINES_Y)], IMPORTING_PLUGIN, false).unwrap();
    let code = written(&plan.code, "targets/code/a.py");
    assert!(code.starts_with("import b.py:Z\n"));
    assert_eq!(code, "import b.py:Z\na_code\n");
    assert_eq!(written(&plan.code, "targets/code/b.py"), "\nZ\n");
}

#[test]
fn duplicate_headers_fail_the_build() {
    let dup = "sections:\n  - {code: a, docs: \"# Dup\"}\n  - {code: b, docs: \"# Dup\"}\n";
    match build(&[("x.py.lpnb", dup)], PASSTHROUGH_PLUGIN, false) {
        Err(LPError::DuplicateHeader(h)) => assert_eq!(h, "Dup"),
        _ => panic!("expected DuplicateHeader"),
    }
}

#[test]
fn missing_header_fails_the_build() {
    let a = "sections:\n  - code: a\n    docs: \"# X\\n[bad](b#Missing)\"\n";
    match build(&[("a.py.lpnb", a), ("b.py.lpnb", B_DEFINES_Y)], PASSTHROUGH_PLUGIN, false) {
        Err(LPError::IncorrectReference(p, h)) => {
            assert_eq!(p, "b");
            assert_eq!(h, "Missing");
        }
        _ => panic!("expected IncorrectReference"),
    }
}

#[test]
fn self_references_are_checked_but_not_imported() {
    let a = "sections:\n  - {code: one, docs: \"# One\"}\n  - {code: two, docs: \"# Two\\n[up](#One)\"}\n";
    let plan = build(&[("a.py.lpnb", a)], IMPORTING_PLUGIN, false).unwrap();
    assert_eq!(written(&plan.code, "targets/code/a.py"), "\none\ntwo\n");
    let bad = "sections:\n  - {code: two, docs: \"# Two\\n[up](#Nowhere)\"}\n";
    assert!(matches!(
        build(&[("a.py.lpnb", bad)], IMPORTING_PLUGIN, false),
        Err(LPError::IncorrectReference(_, _))
    ));
}

#[test]
fn plain_files_are_copied_to_both_trees() {
    let plan = build(&[("raw.txt", "bytes\u{0}\n")], PASSTHROUGH_PLUGIN, false).unwrap();
    assert_eq!(copied(&plan.code, "targets/code/raw.txt"), "src/raw.txt");
    assert_eq!(copied(&plan.docs, "targets/docs/raw.txt"), "src/raw.txt");
}

#[test]
fn force_clears_both_output_roots_first() {
    let plan = build(&[("raw.txt", "x")], PASSTHROUGH_PLUGIN, true).unwrap();
    assert_eq!(plan.remove, vec!["targets/docs".to_string(), "targets/code".to_string()]);
    assert_eq!(plan.create, vec!["targets/docs".to_string(), "targets/code".to_string()]);
}

#[test]
fn without_force_nothing_is_removed() {
    let plan = build(&[("raw.txt", "x")], PASSTHROUGH_PLUGIN, false).unwrap();
    assert!(plan.remove.is_empty());
}

#[test]
fn docs_follow_the_section_layout() {
    let nb = "sections:\n  - {code: c1, docs: d1}\n  - {code: c2, docs: \"# H\"}\n";
    let plan = build(&[("dir/m.py.lpnb", nb)], PASSTHROUGH_PLUGIN, false).unwrap();
    assert_eq!(written(&plan.docs, "targets/docs/dir/m.md"), "d1\n```py\nc1\n```\n# H\n```py\nc2\n```");
}

#[test]
fn every_reference_of_a_successful_build_resolves_to_written_code() {
    let files = [("a.py.lpnb", A_REFERS_TO_B), ("b.py.lpnb", B_DEFINES_Y)];
    let plan = build(&files, IMPORTING_PLUGIN, false).unwrap();
    let project = project(&files).unwrap();
    let index = ProjectIndex::new(&project);
    for module in &project.modules {
        for section in module.sections.as_ref().unwrap() {
            for reference in &section.references {
                let target = module.resolve_relative_module_path(&reference.path);
                let found = index.get_section(&target, &header_to_anchor(&reference.header));
                assert!(found.is_some());
                assert!(written(&plan.code, &format!("targets/code/{}.py", target)).contains(&found.unwrap().code));
            }
        }
    }
}

#[test]
fn a_missing_plugin_fails_notebook_builds() {
    let lua = mlua::Lua::new();
    let project = project(&[("hello.py.lpnb", HELLO)]).unwrap();
    let other = vec![PluginScript { key: "js".to_string(), name: "js.lua".to_string(), code: PASSTHROUGH_PLUGIN.to_string() }];
    let builder = Builder::new(Config::new("targets", "src", "plugins", false), project, PluginsCaller::new(&lua, &other).unwrap());
    match builder.build() {
        Err(LPError::PluginNotFound(e)) => assert_eq!(e, "py"),
        _ => panic!("expected PluginNotFound"),
    }
}

#[test]
fn roots_are_planned_before_the_build() {
    let lua = mlua::Lua::new();
    let project = project(&[("raw.txt", "x")]).unwrap();
    let builder = Builder::new(Config::new("targets", "src", "plugins", true), project, plugins(&lua, PASSTHROUGH_PLUGIN));
    let (remove, create) = builder.init_plan();
    assert_eq!(remove, vec!["targets/docs".to_string(), "targets/code".to_string()]);
    assert_eq!(create, remove);
}
