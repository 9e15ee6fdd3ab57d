//! Assembling each module of a project into the code tree: references are checked,
//! import lines are synthesized by the plugins, and the sections' code is joined.
use vstd::prelude::*;
use vstd::string::StringExecFns;
use crate::code::config::Config;
use crate::emission::Emission;
use crate::error::LPError;
use crate::index::ProjectIndex;
use crate::module::resolve_relative;
use crate::paths::{
    anchor_of, ext_dot_pub, extension, get_module_extension, has_extension, header_to_anchor, join,
    join_vec, module_extension, strip_notebook_ext, strip_notebook_ext_vec, with_extension,
    with_extension_vec,
};
use crate::plugins::PluginsCaller;
use crate::structs::{sections_view, Module, ModuleView, Project, RefView, SectionView};
use crate::text::{chars_of, join_lines, join_strings, slice_vec, string_of, strings_view};

verus! {

/// The index of a project, as a map.
pub type IndexView = Map<Seq<char>, Map<Seq<char>, SectionView>>;

/// Reference `r`, made from the module at `mod_path`, names a section of the index.
pub open spec fn resolves(idx: IndexView, mod_path: Seq<char>, r: RefView) -> bool {
    let t = resolve_relative(mod_path, r.path);
    idx.contains_key(t) && idx[t].contains_key(anchor_of(r.header))
}

/// The section that reference `r`, made from the module at `mod_path`, names.
pub open spec fn target_section(idx: IndexView, mod_path: Seq<char>, r: RefView) -> SectionView {
    idx[resolve_relative(mod_path, r.path)][anchor_of(r.header)]
}

/// Every reference of module `m` names a section of the index.
pub open spec fn refs_resolve(idx: IndexView, m: ModuleView) -> bool {
    match m.sections {
        Some(ss) => forall|i: int, j: int|
            0 <= i < ss.len() && 0 <= j < ss[i].references.len() ==> resolves(
                idx,
                m.path,
                #[trigger] ss[i].references[j],
            ),
        None => true,
    }
}

/// Reference `j` of section `i` of module `m` is the first, in section and reference
/// order, that names no section of the index.
pub open spec fn is_first_unresolved(idx: IndexView, m: ModuleView, i: int, j: int) -> bool {
    let ss = m.sections->0;
    &&& m.sections is Some
    &&& 0 <= i < ss.len()
    &&& 0 <= j < ss[i].references.len()
    &&& !resolves(idx, m.path, ss[i].references[j])
    &&& forall|a: int, b: int|
        0 <= a < i && 0 <= b < ss[a].references.len() ==> resolves(idx, m.path, #[trigger] ss[a].references[b])
    &&& forall|b: int| 0 <= b < j ==> resolves(idx, m.path, #[trigger] ss[i].references[b])
}

/// Error `e` names the first reference of module `m` that names no section.
pub open spec fn reports_first_unresolved(idx: IndexView, m: ModuleView, e: LPError) -> bool {
    match e {
        LPError::IncorrectReference(p, h) => exists|i: int, j: int|
            #[trigger] is_first_unresolved(idx, m, i, j) && m.sections->0[i].references[j] == (RefView {
                path: p@,
                header: h@,
            }),
        _ => false,
    }
}

/// Every reference of every module names a section of the index.
pub open spec fn all_refs_resolve(idx: IndexView, mods: Seq<ModuleView>) -> bool {
    forall|k: int| 0 <= k < mods.len() ==> refs_resolve(idx, #[trigger] mods[k])
}

/// Reference `r` of the module at `mod_path` asks for an import: its path is not empty
/// and is not the module's own path without the notebook extension.
pub open spec fn wants_import(mod_path: Seq<char>, r: RefView) -> bool {
    r.path != strip_notebook_ext(mod_path) && r.path.len() > 0
}

/// The path handed to a plugin for the referenced module `target`: given the extension
/// of the referring module, when that has one.
pub open spec fn referenced_path(mod_path: Seq<char>, target: Seq<char>) -> Seq<char> {
    let cur = strip_notebook_ext(mod_path);
    if has_extension(cur) {
        with_extension(target, extension(cur))
    } else {
        target
    }
}

/// What an import request stands for.
pub struct RequestView {
    pub current_path: Seq<char>,
    pub referenced_path: Seq<char>,
    pub code_block: Seq<char>,
}

/// The import request that reference `r` of the module at `mod_path` makes.
pub open spec fn request_for(idx: IndexView, mod_path: Seq<char>, r: RefView) -> RequestView {
    RequestView {
        current_path: strip_notebook_ext(mod_path),
        referenced_path: referenced_path(mod_path, resolve_relative(mod_path, r.path)),
        code_block: target_section(idx, mod_path, r).code,
    }
}

/// The import requests of a list of references, in order.
pub open spec fn section_requests(idx: IndexView, mod_path: Seq<char>, refs: Seq<RefView>) -> Seq<
    RequestView,
> {
    refs.filter_map(
        |r: RefView|
            if wants_import(mod_path, r) {
                Some(request_for(idx, mod_path, r))
            } else {
                None
            },
    )
}

/// The import requests of the sections of a module, section by section.
pub open spec fn module_requests(idx: IndexView, mod_path: Seq<char>, ss: Seq<SectionView>) -> Seq<
    RequestView,
>
    decreases ss.len(),
{
    if ss.len() == 0 {
        Seq::empty()
    } else {
        module_requests(idx, mod_path, ss.drop_last()) + section_requests(
            idx,
            mod_path,
            ss.last().references,
        )
    }
}

/// The import requests of module `m`.
pub open spec fn requests_of(idx: IndexView, m: ModuleView) -> Seq<RequestView> {
    match m.sections {
        Some(ss) => module_requests(idx, m.path, ss),
        None => Seq::empty(),
    }
}

/// The code of the sections, in order.
pub open spec fn codes_of(m: ModuleView) -> Seq<Seq<char>> {
    match m.sections {
        Some(ss) => ss.map_values(|s: SectionView| s.code),
        None => Seq::empty(),
    }
}

/// The plugins with import functions for `imports` and cleaning functions for
/// `cleanings` serve notebook `m`: its extension has a cleaning function, and an import
/// function too when it makes import requests.
pub open spec fn served(
    imports: Set<Seq<char>>,
    cleanings: Set<Seq<char>>,
    idx: IndexView,
    m: ModuleView,
) -> bool {
    m.sections is Some ==> covers(imports, cleanings, idx, m)
}

/// The extension of module `m` has a cleaning function, and an import function too when
/// `m` makes import requests.
pub open spec fn covers(imports: Set<Seq<char>>, cleanings: Set<Seq<char>>, idx: IndexView, m: ModuleView) -> bool {
    cleanings.contains(module_extension(m.path)) && (requests_of(idx, m).len() > 0 ==> imports.contains(
        module_extension(m.path),
    ))
}

/// Where the code of the module at `path` goes: below the code root, without the
/// notebook extension.
pub open spec fn code_target(root: Seq<char>, path: Seq<char>) -> Seq<char> {
    strip_notebook_ext(join(root, path))
}

/// The emission for module `m`: a copy of a plain file, or the assembled code of a
/// notebook, which ends with a line break.
pub open spec fn code_emission(e: Emission, m: ModuleView, root: Seq<char>, source: Seq<char>) -> bool {
    match m.sections {
        Some(_) => e matches Emission::Write { to: t, contents: c } && t@ == code_target(root, m.path)
            && exists|cleaned: Seq<char>| #[trigger] code_file_text(cleaned) == c@,
        None => e matches Emission::Copy { from: f, to: t } && t@ == code_target(root, m.path) && f@
            == join(source, m.path),
    }
}

/// The text of a code file whose cleaned code is `cleaned`: that code and a line break.
pub open spec fn code_file_text(cleaned: Seq<char>) -> Seq<char> {
    cleaned + "\n"@
}

/// The text of a code file whose cleaned code is `cleaned`.
pub fn code_file(cleaned: &str) -> (r: String)
    ensures
        r@ == code_file_text(cleaned@),
{
    String::from_str(cleaned).concat("\n")
}

/// A call that the import function of a plugin is to receive.
pub struct ImportRequest {
    pub current_path: String,
    pub referenced_path: String,
    pub code_block: String,
}

impl View for ImportRequest {
    type V = RequestView;

    open spec fn view(&self) -> RequestView {
        RequestView {
            current_path: self.current_path@,
            referenced_path: self.referenced_path@,
            code_block: self.code_block@,
        }
    }
}

pub open spec fn requests_view(v: Seq<ImportRequest>) -> Seq<RequestView> {
    v.map_values(|q: ImportRequest| q@)
}

/// `target` given the extension of `current`, when that has one.
fn rewrite_extension(target: &String, current: &Vec<char>) -> (r: String)
    ensures
        r@ == (if has_extension(current@) {
            with_extension(target@, extension(current@))
        } else {
            target@
        }),
{
    let len = current.len();
    match ext_dot_pub(current) {
        Some(d) => {
            let ext = slice_vec(current, d + 1, len);
            assert(ext@ == current@.skip(d + 1));
            string_of(&with_extension_vec(&chars_of(target.as_str()), &ext))
        },
        None => target.clone(),
    }
}

/// Builds the code tree of a project.
pub struct CodeBuilder<'a> {
    config: Config,
    project: &'a Project,
    plugins_caller: &'a PluginsCaller,
    index: &'a ProjectIndex,
}

impl<'a> CodeBuilder<'a> {
    pub closed spec fn config(&self) -> Config {
        self.config
    }

    pub closed spec fn project(&self) -> &'a Project {
        self.project
    }

    pub closed spec fn plugins(&self) -> &'a PluginsCaller {
        self.plugins_caller
    }

    pub closed spec fn index(&self) -> &'a ProjectIndex {
        self.index
    }

    /// A builder for `project`, resolving references through `index` and running the
    /// plugins of `plugins_caller`.
    pub fn new(
        config: Config,
        project: &'a Project,
        index: &'a ProjectIndex,
        plugins_caller: &'a PluginsCaller,
    ) -> (r: CodeBuilder<'a>)
        ensures
            r.config() == config,
            r.project() == project,
            r.index() == index,
            r.plugins() == plugins_caller,
    {
        CodeBuilder { config, project, plugins_caller, index }
    }

    /// The target of the module at `path` in the code tree.
    pub fn prepare_target_path(&self, path: &str) -> (r: String)
        ensures
            r@ == code_target(self.config().target_code_dir@, path@),
    {
        let t = join_vec(&chars_of(self.config.target_code_dir.as_str()), &chars_of(path));
        string_of(&strip_notebook_ext_vec(&t))
    }

    /// The path of the module at `path` in the source tree.
    pub fn get_module_source_path(&self, path: &str) -> (r: String)
        ensures
            r@ == join(self.config().source_dir@, path@),
    {
        string_of(&join_vec(&chars_of(self.config.source_dir.as_str()), &chars_of(path)))
    }

    /// Checks that every reference of `module` names a section of the index; fails with
    /// `IncorrectReference` carrying one that does not.
    pub fn validate_references(&self, module: &Module) -> (r: Result<(), LPError>)
        ensures
            r is Ok <==> refs_resolve(self.index()@, module@),
            match r {
                Err(e) => reports_first_unresolved(self.index()@, module@, e),
                Ok(_) => true,
            },
    {
        let ss = match &module.sections {
            Some(ss) => ss,
            None => return Ok(()),
        };
        let ghost sv = sections_view(ss@);
        let ghost idx = self.index()@;
        let mut i: usize = 0;
        while i < ss.len()
            invariant
                i <= ss@.len(),
                sv == sections_view(ss@),
                module@.sections == Some(sv),
                idx == self.index()@,
                forall|a: int, b: int|
                    0 <= a < i && 0 <= b < sv[a].references.len() ==> resolves(
                        idx,
                        module@.path,
                        #[trigger] sv[a].references[b],
                    ),
            decreases ss@.len() - i,
        {
            let refs = &ss[i].references;
            let mut j: usize = 0;
            while j < refs.len()
                invariant
                    i < ss@.len(),
                    j <= refs@.len(),
                    refs == ss@[i as int].references,
                    sv == sections_view(ss@),
                    module@.sections == Some(sv),
                    idx == self.index()@,
                    forall|a: int, b: int|
                        0 <= a < i && 0 <= b < sv[a].references.len() ==> resolves(
                            idx,
                            module@.path,
                            #[trigger] sv[a].references[b],
                        ),
                    forall|b: int| 0 <= b < j ==> resolves(idx, module@.path, #[trigger] sv[i as int].references[b]),
                decreases refs@.len() - j,
            {
                let r = &refs[j];
                assert(sv[i as int].references[j as int] == r@);
                let target = module.resolve_relative_module_path(r.path.as_str());
                let anchor = header_to_anchor(r.header.as_str());
                match self.index.get_section(target.as_str(), anchor.as_str()) {
                    Some(_) => {},
                    None => {
                        let e = LPError::IncorrectReference(r.path.clone(), r.header.clone());
                        assert(is_first_unresolved(idx, module@, i as int, j as int));
                        return Err(e);
                    },
                }
                j += 1;
            }
            i += 1;
        }
        Ok(())
    }

    /// The import requests of `module`, section by section and reference by reference;
    /// fails with `IncorrectReference` when a reference that asks for an import names no
    /// section.
    pub fn import_requests(&self, module: &Module) -> (r: Result<Vec<ImportRequest>, LPError>)
        ensures
            match r {
                Ok(v) => requests_view(v@) == requests_of(self.index()@, module@),
                Err(e) => e is IncorrectReference && !refs_resolve(self.index()@, module@),
            },
            refs_resolve(self.index()@, module@) ==> r is Ok,
    {
        let ss = match &module.sections {
            Some(ss) => ss,
            None => {
                let v: Vec<ImportRequest> = Vec::new();
                assert(requests_view(v@) =~= Seq::<RequestView>::empty());
                return Ok(v);
            },
        };
        let ghost sv = sections_view(ss@);
        let ghost idx = self.index()@;
        let ghost mp = module@.path;
        let cur = strip_notebook_ext_vec(&chars_of(module.path.as_str()));
        let cur_s = string_of(&cur);
        let mut out: Vec<ImportRequest> = Vec::new();
        let mut i: usize = 0;
        assert(requests_view(out@) =~= module_requests(idx, mp, sv.take(0)));
        while i < ss.len()
            invariant
                i <= ss@.len(),
                sv == sections_view(ss@),
                module@.sections == Some(sv),
                idx == self.index()@,
                mp == module@.path,
                cur@ == strip_notebook_ext(mp),
                cur_s@ == cur@,
                requests_view(out@) == module_requests(idx, mp, sv.take(i as int)),
            decreases ss@.len() - i,
        {
            let refs = &ss[i].references;
            let ghost rv = sv[i as int].references;
            let ghost base = requests_view(out@);
            let mut j: usize = 0;
            assert(rv.take(0) =~= Seq::<RefView>::empty());
            assert(base + section_requests(idx, mp, rv.take(0)) =~= base);
            while j < refs.len()
                invariant
                    i < ss@.len(),
                    j <= refs@.len(),
                    refs == ss@[i as int].references,
                    rv == sv[i as int].references,
                    sv == sections_view(ss@),
                    module@.sections == Some(sv),
                    idx == self.index()@,
                    mp == module@.path,
                    cur@ == strip_notebook_ext(mp),
                    cur_s@ == cur@,
                    requests_view(out@) == base + section_requests(idx, mp, rv.take(j as int)),
                decreases refs@.len() - j,
            {
                let r = &refs[j];
                assert(rv[j as int] == r@);
                assert(rv.take(j + 1).drop_last() == rv.take(j as int));
                assert(rv.take(j + 1).last() == r@);
                if !r.path.eq(&cur_s) && r.path.unicode_len() > 0 {
                    let target = module.resolve_relative_module_path(r.path.as_str());
                    let anchor = header_to_anchor(r.header.as_str());
                    match self.index.get_section(target.as_str(), anchor.as_str()) {
                        Some(s) => {
                            let q = ImportRequest {
                                current_path: cur_s.clone(),
                                referenced_path: rewrite_extension(&target, &cur),
                                code_block: s.code.clone(),
                            };
                            assert(q@ == request_for(idx, mp, r@));
                            let ghost before = requests_view(out@);
                            out.push(q);
                            assert(requests_view(out@) =~= before.push(q@));
                            assert(section_requests(idx, mp, rv.take(j + 1)) =~= section_requests(
                                idx,
                                mp,
                                rv.take(j as int),
                            ) + seq![q@]);
                        },
                        None => {
                            assert(!resolves(idx, mp, sv[i as int].references[j as int]));
                            return Err(LPError::IncorrectReference(r.path.clone(), r.header.clone()));
                        },
                    }
                }
                j += 1;
            }
            assert(rv.take(rv.len() as int) == rv);
            assert(sv.take(i + 1).drop_last() == sv.take(i as int));
            assert(sv.take(i + 1).last() == sv[i as int]);
            i += 1;
        }
        assert(sv.take(sv.len() as int) == sv);
        Ok(out)
    }

    /// The code of the sections of `module`, joined by line breaks.
    pub fn get_all_code(&self, module: &Module) -> (r: String)
        ensures
            r@ == join_lines(codes_of(module@)),
    {
        let mut parts: Vec<String> = Vec::new();
        match &module.sections {
            Some(ss) => {
                let mut i: usize = 0;
                while i < ss.len()
                    invariant
                        i <= ss@.len(),
                        parts@.len() == i,
                        forall|k: int| 0 <= k < i ==> (#[trigger] parts@[k])@ == ss@[k].code@,
                    decreases ss@.len() - i,
                {
                    parts.push(ss[i].code.clone());
                    i += 1;
                }
                assert(strings_view(parts@) =~= codes_of(module@));
            },
            None => {
                assert(strings_view(parts@) =~= codes_of(module@));
            },
        }
        join_strings(&parts)
    }

    /// The import snippets that the plugin for the module's extension gives for its
    /// import requests, joined by line breaks.
    pub fn get_all_imports(&self, module: &Module) -> (r: Result<String, LPError>)
        ensures
            match r {
                Ok(s) => (exists|outs: Seq<Seq<char>>|
                    outs.len() == requests_of(self.index()@, module@).len() && s@ == #[trigger] join_lines(outs))
                    && (requests_of(self.index()@, module@).len() > 0 ==> self.plugins().import_exts().contains(
                    module_extension(module@.path),
                )),
                Err(LPError::PluginNotFound(e)) => e@ == module_extension(module@.path)
                    && !self.plugins().import_exts().contains(e@) && requests_of(self.index()@, module@).len() > 0,
                Err(LPError::LuaRuntime(_)) => requests_of(self.index()@, module@).len() > 0,
                Err(LPError::IncorrectReference(_, _)) => !refs_resolve(self.index()@, module@),
                Err(_) => false,
            },
            refs_resolve(self.index()@, module@) && requests_of(self.index()@, module@).len() == 0
                ==> (r matches Ok(s) && s@.len() == 0),
            refs_resolve(self.index()@, module@) && requests_of(self.index()@, module@).len() > 0
                && !self.plugins().import_exts().contains(module_extension(module@.path))
                ==> r matches Err(LPError::PluginNotFound(_)),
    {
        let reqs = match self.import_requests(module) {
            Ok(v) => v,
            Err(e) => return Err(e),
        };
        let ext = get_module_extension(module.path.as_str());
        let mut outs: Vec<String> = Vec::new();
        let mut i: usize = 0;
        while i < reqs.len()
            invariant
                i <= reqs@.len(),
                outs@.len() == i,
                ext@ == module_extension(module@.path),
                requests_view(reqs@) == requests_of(self.index()@, module@),
                i > 0 ==> self.plugins().import_exts().contains(ext@),
            decreases reqs@.len() - i,
        {
            let q = &reqs[i];
            match self.plugins_caller.call_plugin_import_func(
                ext.as_str(),
                q.current_path.as_str(),
                q.referenced_path.as_str(),
                q.code_block.as_str(),
            ) {
                Ok(s) => outs.push(s),
                Err(e) => return Err(e),
            }
            i += 1;
        }
        let joined = join_strings(&outs);
        assert(strings_view(outs@).len() == requests_of(self.index()@, module@).len());
        assert(joined@ == join_lines(strings_view(outs@)));
        Ok(joined)
    }

    /// The file contents of a notebook module before cleaning: the import snippets, a
    /// line break, and the code of its sections joined by line breaks.
    pub fn assemble_code(&self, imports: &str, module: &Module) -> (r: String)
        ensures
            r@ == imports@ + "\n"@ + join_lines(codes_of(module@)),
    {
        let body = self.get_all_code(module);
        String::from_str(imports).concat("\n").concat(body.as_str())
    }

    /// The cleaned code of a notebook module: its assembled code handed to the cleaning
    /// function of the plugin for its extension.
    pub fn prepare_final_code(&self, module: &Module) -> (r: Result<String, LPError>)
        ensures
            match r {
                Ok(_) => covers(self.plugins().import_exts(), self.plugins().cleaning_exts(), self.index()@, module@),
                Err(LPError::PluginNotFound(e)) => e@ == module_extension(module@.path) && !covers(
                    self.plugins().import_exts(),
                    self.plugins().cleaning_exts(),
                    self.index()@,
                    module@,
                ),
                Err(LPError::LuaRuntime(_)) => true,
                Err(LPError::IncorrectReference(_, _)) => !refs_resolve(self.index()@, module@),
                Err(_) => false,
            },
            refs_resolve(self.index()@, module@) && requests_of(self.index()@, module@).len() == 0
                && !self.plugins().cleaning_exts().contains(module_extension(module@.path))
                ==> r matches Err(LPError::PluginNotFound(_)),
            refs_resolve(self.index()@, module@) && requests_of(self.index()@, module@).len() > 0
                && !self.plugins().import_exts().contains(module_extension(module@.path))
                ==> r matches Err(LPError::PluginNotFound(_)),
    {
        let imports = match self.get_all_imports(module) {
            Ok(s) => s,
            Err(e) => return Err(e),
        };
        let raw = self.assemble_code(imports.as_str(), module);
        let ext = get_module_extension(module.path.as_str());
        self.plugins_caller.call_plugin_cleaning_func(ext.as_str(), raw.as_str())
    }

    /// What building the code tree writes, module by module. Every reference of every
    /// module is checked first; then each notebook is assembled, imports and cleaning
    /// done by the plugin for its extension, and each other file is copied.
    pub fn build(&self) -> (r: Result<Vec<Emission>, LPError>)
        ensures
            match r {
                Ok(plan) => {
                    &&& all_refs_resolve(self.index()@, self.project()@)
                    &&& plan@.len() == self.project()@.len()
                    &&& forall|i: int|
                        0 <= i < plan@.len() ==> code_emission(
                            #[trigger] plan@[i],
                            self.project()@[i],
                            self.config().target_code_dir@,
                            self.config().source_dir@,
                        )
                    &&& forall|i: int|
                        0 <= i < self.project()@.len() ==> served(
                            self.plugins().import_exts(),
                            self.plugins().cleaning_exts(),
                            self.index()@,
                            #[trigger] self.project()@[i],
                        )
                },
                Err(LPError::IncorrectReference(p, h)) => exists|k: int|
                    0 <= k < self.project()@.len() && !refs_resolve(self.index()@, #[trigger] self.project()@[k])
                        && (forall|x: int| 0 <= x < k ==> refs_resolve(self.index()@, #[trigger] self.project()@[x]))
                        && reports_first_unresolved(
                        self.index()@,
                        self.project()@[k],
                        LPError::IncorrectReference(p, h),
                    ),
                Err(LPError::PluginNotFound(e)) => all_refs_resolve(self.index()@, self.project()@) && exists|
                    i: int,
                |
                    0 <= i < self.project()@.len() && e@ == module_extension(self.project()@[i].path) && !served(
                        self.plugins().import_exts(),
                        self.plugins().cleaning_exts(),
                        self.index()@,
                        #[trigger] self.project()@[i],
                    ),
                Err(LPError::LuaRuntime(_)) => all_refs_resolve(self.index()@, self.project()@) && exists|i: int|
                    0 <= i < self.project()@.len() && (#[trigger] self.project()@[i]).sections is Some,
                Err(_) => false,
            },
            !all_refs_resolve(self.index()@, self.project()@) ==> r matches Err(
                LPError::IncorrectReference(_, _),
            ),
    {
        let mods = &self.project.modules;
        let ghost idx = self.index()@;
        let mut i: usize = 0;
        while i < mods.len()
            invariant
                i <= mods@.len(),
                mods == self.project().modules,
                idx == self.index()@,
                forall|k: int| 0 <= k < i ==> refs_resolve(idx, #[trigger] self.project()@[k]),
            decreases mods@.len() - i,
        {
            assert(self.project()@[i as int] == mods@[i as int]@);
            match self.validate_references(&mods[i]) {
                Ok(()) => {},
                Err(e) => {
                    return Err(e);
                },
            }
            i += 1;
        }
        let mut plan: Vec<Emission> = Vec::new();
        let mut i: usize = 0;
        while i < mods.len()
            invariant
                i <= mods@.len(),
                mods == self.project().modules,
                idx == self.index()@,
                all_refs_resolve(idx, self.project()@),
                plan@.len() == i,
                forall|k: int|
                    0 <= k < i ==> code_emission(
                        #[trigger] plan@[k],
                        self.project()@[k],
                        self.config().target_code_dir@,
                        self.config().source_dir@,
                    ),
                forall|k: int|
                    0 <= k < i ==> served(
                        self.plugins().import_exts(),
                        self.plugins().cleaning_exts(),
                        idx,
                        #[trigger] self.project()@[k],
                    ),
            decreases mods@.len() - i,
        {
            let m = &mods[i];
            assert(self.project()@[i as int] == m@);
            assert(refs_resolve(idx, self.project()@[i as int]));
            let target = self.prepare_target_path(m.path.as_str());
            let ghost before = plan@;
            if m.sections.is_some() {
                let code = match self.prepare_final_code(m) {
                    Ok(c) => c,
                    Err(e) => {
                        return Err(e);
                    },
                };
                let contents = code_file(code.as_str());
                let e = Emission::Write { to: target, contents };
                assert(code_emission(e, m@, self.config().target_code_dir@, self.config().source_dir@));
                plan.push(e);
            } else {
                let source = self.get_module_source_path(m.path.as_str());
                let e = Emission::Copy { from: source, to: target };
                assert(code_emission(e, m@, self.config().target_code_dir@, self.config().source_dir@));
                plan.push(e);
            }
            assert forall|k: int| 0 <= k < i + 1 implies code_emission(
                #[trigger] plan@[k],
                self.project()@[k],
                self.config().target_code_dir@,
                self.config().source_dir@,
            ) by {
                if k < i {
                    assert(plan@[k] == before[k]);
                }
            }
            i += 1;
        }
        Ok(plan)
    }
}

} // verus!
