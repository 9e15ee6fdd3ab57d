//! The plugin registry: scripts that synthesize import lines and clean code, one per
//! file extension, run by an embedded Lua interpreter.
use vstd::prelude::*;
use vstd::string::StringExecFns;
use crate::error::LPError;
use crate::paths::{
    ext_dot_pub, extension, file_name, has_extension, name_start_pub, without_extension,
};
use crate::text::{chars_of, string_of};

verus! {

#[verifier::external_type_specification]
#[verifier::external_body]
pub struct ExLua(mlua::Lua);

#[verifier::external_type_specification]
#[verifier::external_body]
pub struct ExFunction(mlua::Function);

/// Relies on `mlua::Lua::load` and `Chunk::exec`: runs `code`, named `name`, in `lua`,
/// or fails with the interpreter's message.
#[verifier::external_body]
fn run_script(lua: &mlua::Lua, name: &str, code: &str) -> (r: Result<(), String>) {
    lua.load(code).set_name(name).exec().map_err(|e| e.to_string())
}

/// Relies on `mlua::Table::get` on the globals of `lua`: the global function called
/// `name`, or the interpreter's message when there is none.
#[verifier::external_body]
fn global_function(lua: &mlua::Lua, name: &str) -> (r: Result<mlua::Function, String>) {
    lua.globals().get::<mlua::Function>(name).map_err(|e| e.to_string())
}

/// Relies on `mlua::Function::call`: calls `f` with `args` as string arguments and
/// expects a string back, or fails with the interpreter's message.
#[verifier::external_body]
fn call_function(f: &mlua::Function, args: &Vec<String>) -> (r: Result<String, String>) {
    f.call::<String>(mlua::Variadic::from_iter(args.iter().cloned())).map_err(|e| e.to_string())
}

/// Runs the plugin script `code`, named `plugin_name`, in `lua` and fetches the global
/// functions called `func_names`, in that order. Fails with `LuaRuntime` when the script
/// does not run or one of the functions is missing.
pub fn get_plugin_funcs(
    lua: &mlua::Lua,
    plugin_name: &str,
    code: &str,
    func_names: &Vec<String>,
) -> (r: Result<Vec<mlua::Function>, LPError>)
    ensures
        match r {
            Ok(funcs) => funcs@.len() == func_names@.len(),
            Err(e) => e is LuaRuntime,
        },
{
    match run_script(lua, plugin_name, code) {
        Ok(()) => {},
        Err(m) => return Err(LPError::LuaRuntime(m)),
    }
    let mut funcs: Vec<mlua::Function> = Vec::new();
    let mut i: usize = 0;
    while i < func_names.len()
        invariant
            i <= func_names@.len(),
            funcs@.len() == i,
        decreases func_names@.len() - i,
    {
        let name = &func_names[i];
        match global_function(lua, name.as_str()) {
            Ok(f) => funcs.push(f),
            Err(m) => return Err(
                LPError::LuaRuntime(
                    String::from_str("No ").concat(name.as_str()).concat(" function: ").concat(m.as_str()),
                ),
            ),
        }
        i += 1;
    }
    Ok(funcs)
}

/// The script extension of plugin files.
pub open spec fn plugin_ext() -> Seq<char> {
    seq!['l', 'u', 'a']
}

/// The registry key of a plugin file: its stem, when its extension is the script
/// extension.
pub open spec fn plugin_key_of(file: Seq<char>) -> Option<Seq<char>> {
    if has_extension(file) && extension(file) == plugin_ext() {
        Some(file_name(without_extension(file)))
    } else {
        None
    }
}

/// The registry key for the plugin file `file`, or `None` when it is not a plugin file.
pub fn plugin_key(file: &str) -> (r: Option<String>)
    ensures
        opt_string_view(r) == plugin_key_of(file@),
{
    let v = chars_of(file);
    match ext_dot_pub(&v) {
        Some(d) => {
            let is_lua = v.len() - d == 4 && v[d + 1] == 'l' && v[d + 2] == 'u' && v[d + 3] == 'a';
            let ghost t = v@.skip(d + 1);
            assert(plugin_ext().len() == 3 && plugin_ext()[0] == 'l' && plugin_ext()[1] == 'u'
                && plugin_ext()[2] == 'a');
            if is_lua {
                assert(t =~= plugin_ext());
                let mut stem: Vec<char> = Vec::new();
                let st = name_start_pub(&v);
                let mut k: usize = st;
                while k < d
                    invariant
                        st <= k <= d < v@.len(),
                        stem@ == v@.subrange(st as int, k as int),
                    decreases d - k,
                {
                    stem.push(v[k]);
                    assert(v@.subrange(st as int, k + 1) == v@.subrange(st as int, k as int).push(v@[k as int]));
                    k += 1;
                }
                proof {
                    crate::paths::lemma_name_of_stripped(v@);
                }
                Some(string_of(&stem))
            } else {
                assert(t != plugin_ext()) by {
                    if t == plugin_ext() {
                        assert(t[0] == 'l' && t[1] == 'u' && t[2] == 'a');
                    }
                }
                None
            }
        },
        None => None,
    }
}

pub open spec fn opt_string_view(o: Option<String>) -> Option<Seq<char>> {
    match o {
        Some(s) => Some(s@),
        None => None,
    }
}

/// A plugin script as read from the plugins directory.
pub struct PluginScript {
    /// The registry key: the file's stem.
    pub key: String,
    /// The name the interpreter reports the script under (its path).
    pub name: String,
    /// The script's text.
    pub code: String,
}

/// The name of the import function every plugin defines.
pub const PLUGIN_IMPORT_CODE_FUNC_NAME: &'static str = "get_import_code";

/// The name of the cleaning function every plugin defines.
pub const PLUGIN_CLEANING_CODE_FUNC_NAME: &'static str = "clean_code";

/// Calls the functions of the plugins, chosen by file extension.
pub struct PluginsCaller {
    plugin_import_functions: Vec<(String, mlua::Function)>,
    plugin_cleaning_functions: Vec<(String, mlua::Function)>,
}

pub open spec fn keys_of<X>(e: Seq<(String, X)>) -> Set<Seq<char>> {
    Set::new(|k: Seq<char>| exists|i: int| 0 <= i < e.len() && (#[trigger] e[i]).0@ == k)
}

/// Position of the entry whose key is `k`.
fn position<X>(e: &Vec<(String, X)>, k: &String) -> (r: Option<usize>)
    ensures
        match r {
            Some(i) => i < e@.len() && e@[i as int].0@ == k@,
            None => !keys_of(e@).contains(k@),
        },
{
    let mut i: usize = 0;
    while i < e.len()
        invariant
            i <= e@.len(),
            forall|j: int| 0 <= j < i ==> (#[trigger] e@[j]).0@ != k@,
        decreases e@.len() - i,
    {
        if e[i].0.eq(k) {
            return Some(i);
        }
        i += 1;
    }
    None
}

/// Puts `f` under `k`, replacing what was there.
fn put_function(e: &mut Vec<(String, mlua::Function)>, k: String, f: mlua::Function)
    ensures
        keys_of(final(e)@) == keys_of(old(e)@).insert(k@),
{
    let ghost kv = k@;
    let ghost before = e@;
    match position(e, &k) {
        Some(p) => {
            assert(before[p as int].0@ == kv);
            e[p] = (k, f);
            assert(e@ == before.update(p as int, e@[p as int]));
            assert(e@[p as int].0@ == kv);
            assert forall|q: Seq<char>| keys_of(before).insert(kv).contains(q) implies #[trigger] keys_of(e@).contains(q) by {
                if q == kv {
                    assert(e@[p as int].0@ == q);
                } else {
                    let i = choose|i: int| 0 <= i < before.len() && (#[trigger] before[i]).0@ == q;
                    assert(i != p);
                    assert(e@[i] == before[i]);
                    assert(e@[i].0@ == q);
                }
            }
            assert forall|q: Seq<char>| #[trigger] keys_of(e@).contains(q) implies keys_of(before).insert(kv).contains(q) by {
                let i = choose|i: int| 0 <= i < e@.len() && (#[trigger] e@[i]).0@ == q;
                if i != p {
                    assert(before[i] == e@[i]);
                    assert(before[i].0@ == q);
                }
            }
        },
        None => {
            e.push((k, f));
            assert(e@.len() == before.len() + 1);
            assert(e@[before.len() as int].0@ == kv);
            assert forall|q: Seq<char>| keys_of(before).insert(kv).contains(q) implies #[trigger] keys_of(e@).contains(q) by {
                if q == kv {
                    assert(e@[before.len() as int].0@ == q);
                } else {
                    let i = choose|i: int| 0 <= i < before.len() && (#[trigger] before[i]).0@ == q;
                    assert(e@[i] == before[i]);
                    assert(e@[i].0@ == q);
                }
            }
            assert forall|q: Seq<char>| #[trigger] keys_of(e@).contains(q) implies keys_of(before).insert(kv).contains(q) by {
                let i = choose|i: int| 0 <= i < e@.len() && (#[trigger] e@[i]).0@ == q;
                if i < before.len() {
                    assert(before[i] == e@[i]);
                    assert(before[i].0@ == q);
                }
            }
        },
    }
    assert(keys_of(e@) =~= keys_of(before).insert(kv));
}

/// The keys of `e`, in order.
fn keys_list(e: &Vec<(String, mlua::Function)>) -> (r: Vec<String>)
    ensures
        r@.len() == e@.len(),
        forall|i: int| 0 <= i < r@.len() ==> (#[trigger] r@[i])@ == e@[i].0@,
        forall|k: Seq<char>| keys_of(e@).contains(k) <==> exists|i: int| 0 <= i < r@.len() && (#[trigger] r@[i])@ == k,
{
    let mut r: Vec<String> = Vec::new();
    let mut i: usize = 0;
    while i < e.len()
        invariant
            i <= e@.len(),
            r@.len() == i,
            forall|j: int| 0 <= j < i ==> (#[trigger] r@[j])@ == e@[j].0@,
        decreases e@.len() - i,
    {
        r.push(e[i].0.clone());
        i += 1;
    }
    assert forall|k: Seq<char>| keys_of(e@).contains(k) <==> exists|i: int| 0 <= i < r@.len() && (#[trigger] r@[i])@ == k by {
        if keys_of(e@).contains(k) {
            let i = choose|i: int| 0 <= i < e@.len() && (#[trigger] e@[i]).0@ == k;
            assert(r@[i]@ == k);
        }
        if exists|i: int| 0 <= i < r@.len() && (#[trigger] r@[i])@ == k {
            let i = choose|i: int| 0 <= i < r@.len() && (#[trigger] r@[i])@ == k;
            assert(e@[i].0@ == k);
        }
    }
    r
}

/// The keys of the given scripts.
pub open spec fn script_keys(scripts: Seq<PluginScript>) -> Set<Seq<char>> {
    Set::new(|k: Seq<char>| exists|i: int| 0 <= i < scripts.len() && (#[trigger] scripts[i]).key@ == k)
}

impl PluginsCaller {
    /// The extensions with an import function.
    pub closed spec fn import_exts(&self) -> Set<Seq<char>> {
        keys_of(self.plugin_import_functions@)
    }

    /// The extensions with a cleaning function.
    pub closed spec fn cleaning_exts(&self) -> Set<Seq<char>> {
        keys_of(self.plugin_cleaning_functions@)
    }

    /// A registry without plugins.
    pub fn empty() -> (r: PluginsCaller)
        ensures
            r.import_exts() == Set::<Seq<char>>::empty(),
            r.cleaning_exts() == Set::<Seq<char>>::empty(),
    {
        let r = PluginsCaller { plugin_import_functions: Vec::new(), plugin_cleaning_functions: Vec::new() };
        assert(keys_of(r.plugin_import_functions@) =~= Set::<Seq<char>>::empty());
        assert(keys_of(r.plugin_cleaning_functions@) =~= Set::<Seq<char>>::empty());
        r
    }

    /// Loads each script into `lua`, in order, and registers its import and cleaning
    /// functions under its key; a later script with the same key wins. Fails with
    /// `LuaRuntime` when a script does not run or lacks one of the two functions.
    pub fn new(lua: &mlua::Lua, scripts: &Vec<PluginScript>) -> (r: Result<PluginsCaller, LPError>)
        ensures
            match r {
                Ok(c) => c.import_exts() == script_keys(scripts@) && c.cleaning_exts() == script_keys(
                    scripts@,
                ),
                Err(e) => e is LuaRuntime,
            },
            scripts@.len() == 0 ==> r is Ok,
    {
        let mut caller = PluginsCaller::empty();
        let mut i: usize = 0;
        while i < scripts.len()
            invariant
                i <= scripts@.len(),
                caller.import_exts() == script_keys(scripts@.take(i as int)),
                caller.cleaning_exts() == script_keys(scripts@.take(i as int)),
            decreases scripts@.len() - i,
        {
            let script = &scripts[i];
            let mut names: Vec<String> = Vec::new();
            names.push(String::from_str(PLUGIN_IMPORT_CODE_FUNC_NAME));
            names.push(String::from_str(PLUGIN_CLEANING_CODE_FUNC_NAME));
            let mut funcs = match get_plugin_funcs(lua, script.name.as_str(), script.code.as_str(), &names) {
                Ok(f) => f,
                Err(e) => return Err(e),
            };
            let cleaning = funcs.pop().unwrap();
            let import = funcs.pop().unwrap();
            put_function(&mut caller.plugin_import_functions, script.key.clone(), import);
            put_function(&mut caller.plugin_cleaning_functions, script.key.clone(), cleaning);
            assert(script_keys(scripts@.take(i + 1)) =~= script_keys(scripts@.take(i as int)).insert(
                script.key@,
            )) by {
                assert forall|k: Seq<char>| #[trigger] script_keys(scripts@.take(i + 1)).contains(k)
                    == script_keys(scripts@.take(i as int)).insert(script.key@).contains(k) by {
                    if script_keys(scripts@.take(i + 1)).contains(k) {
                        let j = choose|j: int| 0 <= j < i + 1 && (#[trigger] scripts@.take(i + 1)[j]).key@ == k;
                        if j < i {
                            assert(scripts@.take(i as int)[j] == scripts@.take(i + 1)[j]);
                        }
                    }
                    if script_keys(scripts@.take(i as int)).contains(k) {
                        let j = choose|j: int| 0 <= j < i && (#[trigger] scripts@.take(i as int)[j]).key@ == k;
                        assert(scripts@.take(i as int)[j] == scripts@.take(i + 1)[j]);
                    }
                    if k == script.key@ {
                        assert(scripts@.take(i + 1)[i as int] == scripts@[i as int]);
                    }
                }
            }
            i += 1;
        }
        assert(scripts@.take(scripts@.len() as int) == scripts@);
        Ok(caller)
    }

    /// The extensions that have an import function.
    pub fn import_extensions(&self) -> (r: Vec<String>)
        ensures
            forall|k: Seq<char>| self.import_exts().contains(k) <==> exists|i: int| 0 <= i < r@.len() && (#[trigger] r@[i])@ == k,
    {
        keys_list(&self.plugin_import_functions)
    }

    /// The extensions that have a cleaning function.
    pub fn cleaning_extensions(&self) -> (r: Vec<String>)
        ensures
            forall|k: Seq<char>| self.cleaning_exts().contains(k) <==> exists|i: int| 0 <= i < r@.len() && (#[trigger] r@[i])@ == k,
    {
        keys_list(&self.plugin_cleaning_functions)
    }

    /// Calls the import function of the plugin for `extension` with the path of the
    /// file being assembled, the path of the file the fragment comes from, and the
    /// fragment; returns the snippet to splice in.
    pub fn call_plugin_import_func(
        &self,
        extension: &str,
        current_path: &str,
        referenced_path: &str,
        code_block: &str,
    ) -> (r: Result<String, LPError>)
        ensures
            !self.import_exts().contains(extension@) <==> r matches Err(LPError::PluginNotFound(_)),
            match r {
                Err(LPError::PluginNotFound(e)) => e@ == extension@,
                Err(e) => e is LuaRuntime,
                Ok(_) => true,
            },
    {
        let key = String::from_str(extension);
        match position(&self.plugin_import_functions, &key) {
            Some(i) => {
                let mut args: Vec<String> = Vec::new();
                args.push(String::from_str(current_path));
                args.push(String::from_str(referenced_path));
                args.push(String::from_str(code_block));
                match call_function(&self.plugin_import_functions[i].1, &args) {
                    Ok(s) => Ok(s),
                    Err(m) => Err(LPError::LuaRuntime(m)),
                }
            },
            None => Err(LPError::PluginNotFound(key)),
        }
    }

    /// Calls the cleaning function of the plugin for `extension` on `code`; returns the
    /// cleaned code.
    pub fn call_plugin_cleaning_func(&self, extension: &str, code: &str) -> (r: Result<String, LPError>)
        ensures
            !self.cleaning_exts().contains(extension@) <==> r matches Err(LPError::PluginNotFound(_)),
            match r {
                Err(LPError::PluginNotFound(e)) => e@ == extension@,
                Err(e) => e is LuaRuntime,
                Ok(_) => true,
            },
    {
        let key = String::from_str(extension);
        match position(&self.plugin_cleaning_functions, &key) {
            Some(i) => {
                let mut args: Vec<String> = Vec::new();
                args.push(String::from_str(code));
                match call_function(&self.plugin_cleaning_functions[i].1, &args) {
                    Ok(s) => Ok(s),
                    Err(m) => Err(LPError::LuaRuntime(m)),
                }
            },
            None => Err(LPError::PluginNotFound(key)),
        }
    }
}

} // verus!
