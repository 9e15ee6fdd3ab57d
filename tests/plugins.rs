use lp::error::LPError;
use lp::plugins::{get_plugin_funcs, plugin_key, PluginScript, PluginsCaller};

fn script(key: &str, code: &str) -> PluginScript {
    PluginScript { key: key.to_string(), name: format!("{}.lua", key), code: code.to_string() }
}

fn load(scripts: Vec<PluginScript>) -> Result<PluginsCaller, LPError> {
    let lua = mlua::Lua::new();
    PluginsCaller::new(&lua, &scripts)
}

#[test]
fn test_new_with_valid_plugins() {
    let plugin_code = r#"
        function get_import_code(current_path, referenced_path, code_block)
            return "import " .. code_block
        end

        function clean_code(code)
            return "cleaned " .. code
        end
        "#;
    let result = load(vec![script("test_plugin", plugin_code)]);
    assert!(result.is_ok());
    let caller = result.unwrap();
    assert_eq!(caller.import_extensions().len(), 1);
    assert_eq!(caller.cleaning_extensions().len(), 1);
    assert!(caller.import_extensions().contains(&"test_plugin".to_string()));
    assert!(caller.cleaning_extensions().contains(&"test_plugin".to_string()));
}

#[test]
fn test_new_with_empty_directory() {
    let result = load(vec![]);
    assert!(result.is_ok());
    let caller = result.unwrap();
    assert_eq!(caller.import_extensions().len(), 0);
    assert_eq!(caller.cleaning_extensions().len(), 0);
}

#[test]
fn test_new_with_invalid_plugin() {
    let result = load(vec![script("invalid_plugin", "garbage code that will fail")]);
    assert!(result.is_err());
    match result {
        Err(LPError::LuaRuntime(_)) => {}
        _ => panic!("Expected LuaRuntime error"),
    }
}

#[test]
fn plugin_without_cleaning_function_is_refused() {
    let code = "function get_import_code(a, b, c) return '' end";
    let lua = mlua::Lua::new();
    match PluginsCaller::new(&lua, &vec![script("only_import", code)]) {
        Err(LPError::LuaRuntime(m)) => assert!(m.contains("clean_code")),
        _ => panic!("Expected LuaRuntime error"),
    }
}

#[test]
fn test_call_plugin_import_func_success() {
    let plugin_code = r#"
        function get_import_code(current_path, referenced_path, code_block)
            return "import " .. current_path .. " " .. referenced_path .. " " .. code_block
        end

        function clean_code(code)
            return "cleaned " .. code
        end
        "#;
    let lua = mlua::Lua::new();
    let caller = PluginsCaller::new(&lua, &vec![script("rs", plugin_code)]).unwrap();
    let result = caller.call_plugin_import_func("rs", "/path/to/current.rs", "/path/to/referenced.rs", "fn main() {}");
    assert!(result.is_ok());
    let import_code = result.unwrap();
    assert!(import_code.contains("import"));
    assert!(import_code.contains("/path/to/current.rs"));
    assert!(import_code.contains("/path/to/referenced.rs"));
    assert!(import_code.contains("fn main() {}"));
}

#[test]
fn test_call_plugin_import_func_not_found() {
    let plugin_code = r#"
        function get_import_code(current_path, referenced_path, code_block)
            return "import code"
        end

        function clean_code(code)
            return "cleaned code"
        end
        "#;
    let lua = mlua::Lua::new();
    let caller = PluginsCaller::new(&lua, &vec![script("rust", plugin_code)]).unwrap();
    let result = caller.call_plugin_import_func("python", "file.py", "other.py", "code");
    assert!(result.is_err());
    match result {
        Err(LPError::PluginNotFound(ext)) => assert_eq!(ext, "python"),
        _ => panic!("Expected PluginNotFound error"),
    }
}

#[test]
fn test_call_plugin_cleaning_func_success() {
    let plugin_code = r#"
        function get_import_code(current_path, referenced_path, code_block)
            return "import code"
        end

        function clean_code(code)
            return "cleaned " .. code
        end
        "#;
    let lua = mlua::Lua::new();
    let caller = PluginsCaller::new(&lua, &vec![script("rust", plugin_code)]).unwrap();
    let result = caller.call_plugin_cleaning_func("rust", "fn main() {}");
    assert!(result.is_ok());
    assert_eq!(result.unwrap(), "cleaned fn main() {}");
}

#[test]
fn test_call_plugin_cleaning_func_not_found() {
    let plugin_code = r#"
        function get_import_code(current_path, referenced_path, code_block)
            return "import code"
        end

        function clean_code(code)
            return "cleaned code"
        end
        "#;
    let lua = mlua::Lua::new();
    let caller = PluginsCaller::new(&lua, &vec![script("rust", plugin_code)]).unwrap();
    let result = caller.call_plugin_cleaning_func("py", "def main(): pass");
    assert!(result.is_err());
    match result {
        Err(LPError::PluginNotFound(_)) => {}
        _ => panic!("Expected PluginNotFound error"),
    }
}

#[test]
fn test_multiple_plugins() {
    let rust = r#"
        function get_import_code(current_path, referenced_path, code_block)
            return "rust import: " .. code_block
        end

        function clean_code(code)
            return "rust cleaned: " .. code
        end
        "#;
    let python = r#"
        function get_import_code(current_path, referenced_path, code_block)
            return "python import: " .. code_block
        end

        function clean_code(code)
            return "python cleaned: " .. code
        end
        "#;
    let lua = mlua::Lua::new();
    let caller = PluginsCaller::new(&lua, &vec![script("rust", rust), script("python", python)]).unwrap();
    assert_eq!(caller.import_extensions().len(), 2);
    assert_eq!(caller.cleaning_extensions().len(), 2);
    let rust_import = caller.call_plugin_import_func("rust", "file.rs", "other.rs", "fn main() {}").unwrap();
    assert_eq!(rust_import, "rust import: fn main() {}");
    let python_cleaned = caller.call_plugin_cleaning_func("python", "def main(): pass").unwrap();
    assert_eq!(python_cleaned, "python cleaned: def main(): pass");
}

#[test]
fn a_failing_plugin_call_is_a_lua_error() {
    let code = "function get_import_code(a, b, c) error('boom') end function clean_code(c) return nil end";
    let lua = mlua::Lua::new();
    let caller = PluginsCaller::new(&lua, &vec![script("py", code)]).unwrap();
    assert!(matches!(caller.call_plugin_import_func("py", "a", "b", "c"), Err(LPError::LuaRuntime(_))));
    assert!(matches!(caller.call_plugin_cleaning_func("py", "x"), Err(LPError::LuaRuntime(_))));
}

#[test]
fn plugin_keys_are_stems_of_script_files() {
    assert_eq!(plugin_key("py.lua"), Some("py".to_string()));
    assert_eq!(plugin_key("/plugins/js.lua"), Some("js".to_string()));
    assert_eq!(plugin_key("a.b.lua"), Some("a.b".to_string()));
    assert_eq!(plugin_key("readme.txt"), None);
    assert_eq!(plugin_key(".lua"), None);
}

fn names(list: &[&str]) -> Vec<String> {
    list.iter().map(|n| n.to_string()).collect()
}

#[test]
fn test_get_plugin_funcs_success() {
    let lua = mlua::Lua::new();
    let lua_code = r#"
        function test_function()
            return "hello world"
        end

        function another_function(arg)
            return arg * 2
        end
        "#;
    let result = get_plugin_funcs(&lua, "plugin.lua", lua_code, &names(&["test_function", "another_function"]));
    assert!(result.is_ok());
    assert_eq!(result.unwrap().len(), 2);
}

#[test]
fn test_get_plugin_funcs_invalid_lua() {
    let lua = mlua::Lua::new();
    let lua_code = r#"
        garbage
        "#;
    let result = get_plugin_funcs(&lua, "plugin.lua", lua_code, &names(&["test_function"]));
    assert!(result.is_err());
    match result {
        Err(LPError::LuaRuntime(_)) => {}
        _ => panic!("Expected LuaRuntime error"),
    }
}

#[test]
fn test_get_plugin_funcs_missing_function() {
    let lua = mlua::Lua::new();
    let lua_code = r#"
        function test_function()
            return "hello world"
        end
        "#;
    let result = get_plugin_funcs(&lua, "plugin.lua", lua_code, &names(&["nonexistent_function"]));
    assert!(result.is_err());
    match result {
        Err(LPError::LuaRuntime(_)) => {}
        _ => panic!("Expected LuaRuntime error"),
    }
}

#[test]
fn test_get_plugin_funcs_execute_functions() {
    let lua = mlua::Lua::new();
    let lua_code = r#"
        function add(a, b)
            return a + b
        end

        function concat(a, b)
            return a .. b
        end
        "#;
    let result = get_plugin_funcs(&lua, "plugin.lua", lua_code, &names(&["add", "concat"]));
    assert!(result.is_ok());
    let funcs = result.unwrap();
    assert_eq!(funcs.len(), 2);
    let add_result: i32 = funcs[0].call((5, 7)).expect("Failed to call add function");
    assert_eq!(add_result, 12);
    let concat_result: String = funcs[1].call(("hello", " world")).expect("Failed to call concat function");
    assert_eq!(concat_result, "hello world");
}

#[test]
fn test_get_plugin_funcs_empty_function_list() {
    let lua = mlua::Lua::new();
    let lua_code = r#"
        function test_function()
            return "hello world"
        end
        "#;
    let result = get_plugin_funcs(&lua, "plugin.lua", lua_code, &names(&[]));
    assert!(result.is_ok());
    assert_eq!(result.unwrap().len(), 0);
}
