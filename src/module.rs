//! Turning the files of a source tree into modules, and resolving a reference's path
//! relative to the module that makes it.
use vstd::prelude::*;
use crate::error::LPError;
use crate::paths::{
    clean_path, is_notebook, is_notebook_path, join, join_vec, module_name, module_name_of, parent,
    parent_vec, relative_to,
};
use crate::sections::{first_duplicate_anchor, notebook_sections, LiterateFile};
use crate::structs::{sections_view, Module, ModuleView, Project};
use crate::text::{chars_of, string_of};

verus! {

/// The lexical normal form of a path: repeated slashes merged, `.` elements dropped, each
/// `..` element taken away together with the element before it.
pub uninterp spec fn cleaned_path(p: Seq<char>) -> Seq<char>;

/// Relies on `path_clean::clean`: the lexical normal form of `p`.
#[verifier::external_body]
fn clean_text(p: &str) -> (r: String)
    ensures
        r@ == cleaned_path(p@),
{
    path_clean::clean(p).to_string_lossy().into_owned()
}

/// The module that `rel` names when a module at `mod_path` refers to it: its own
/// module name when `rel` is empty, else `rel` beside it, normalized.
pub open spec fn resolve_relative(mod_path: Seq<char>, rel: Seq<char>) -> Seq<char> {
    if rel.len() == 0 {
        module_name_of(mod_path)
    } else {
        cleaned_path(join(parent(mod_path), rel))
    }
}

/// Why a file could not become a module.
pub enum LoadFailure {
    Duplicate(Seq<char>),
    Undecodable,
}

/// The module that the file at `path` below `root` becomes, given its content when it
/// could be read.
pub open spec fn load_module(root: Seq<char>, path: Seq<char>, content: Option<Seq<char>>) -> Result<
    ModuleView,
    LoadFailure,
> {
    let rel = relative_to(root, path);
    if !is_notebook(path) || content is None {
        Ok(ModuleView { path: rel, sections: None })
    } else {
        match notebook_sections(content->0) {
            None => Err(LoadFailure::Undecodable),
            Some(ss) => match first_duplicate_anchor(ss) {
                Some(a) => Err(LoadFailure::Duplicate(a)),
                None => Ok(ModuleView { path: rel, sections: Some(ss) }),
            },
        }
    }
}

/// The error that stands for a load failure.
pub open spec fn reports(e: LPError, f: LoadFailure) -> bool {
    match (e, f) {
        (LPError::DuplicateHeader(a), LoadFailure::Duplicate(b)) => a@ == b,
        (LPError::CannotReadFile(_), LoadFailure::Undecodable) => true,
        _ => false,
    }
}

pub open spec fn opt_str_view(o: Option<&str>) -> Option<Seq<char>> {
    match o {
        Some(s) => Some(s@),
        None => None,
    }
}

impl Module {
    /// The module for the file at `path` below `source_dir`. `content` is the file's text
    /// when it could be read; it is only looked at for a notebook. A notebook that could
    /// not be read becomes a module without sections.
    pub fn new(source_dir: &str, path: &str, content: Option<&str>) -> (r: Result<Module, LPError>)
        ensures
            match r {
                Ok(m) => load_module(source_dir@, path@, opt_str_view(content)) == Ok::<
                    ModuleView,
                    LoadFailure,
                >(m@),
                Err(e) => load_module(source_dir@, path@, opt_str_view(content)) is Err
                    && reports(e, load_module(source_dir@, path@, opt_str_view(content))->Err_0),
            },
    {
        let mod_path = clean_path(source_dir, path);
        if !is_notebook_path(path) {
            return Ok(Module { path: mod_path, sections: None });
        }
        let text = match content {
            Some(t) => t,
            None => return Ok(Module { path: mod_path, sections: None }),
        };
        let file = match LiterateFile::new(text) {
            Ok(f) => f,
            Err(e) => {
                proof {
                    crate::sections::lemma_unique_iff_no_duplicate(notebook_sections(text@)->0);
                }
                return Err(e);
            },
        };
        proof {
            crate::sections::lemma_unique_iff_no_duplicate(sections_view(file.sections@));
        }
        Ok(Module { path: mod_path, sections: Some(file.sections) })
    }

    /// The module name that `path`, as written in a reference made from this module,
    /// stands for: this module's own name when `path` is empty, else `path` taken
    /// beside this module and normalized.
    pub fn resolve_relative_module_path(&self, path: &str) -> (r: String)
        ensures
            r@ == resolve_relative(self.path@, path@),
    {
        if path.unicode_len() == 0 {
            return module_name(self.path.as_str());
        }
        let dir = parent_vec(&chars_of(self.path.as_str()));
        let combined = string_of(&join_vec(&dir, &chars_of(path)));
        clean_text(combined.as_str())
    }
}

/// The modules that the files become, in order, or the first failure.
pub open spec fn load_project(root: Seq<char>, files: Seq<(Seq<char>, Option<Seq<char>>)>) -> Result<
    Seq<ModuleView>,
    LoadFailure,
>
    decreases files.len(),
{
    if files.len() == 0 {
        Ok(Seq::empty())
    } else {
        match load_project(root, files.drop_last()) {
            Err(f) => Err(f),
            Ok(ms) => match load_module(root, files.last().0, files.last().1) {
                Ok(m) => Ok(ms.push(m)),
                Err(f) => Err(f),
            },
        }
    }
}

proof fn lemma_load_project_prefix(
    root: Seq<char>,
    files: Seq<(Seq<char>, Option<Seq<char>>)>,
    k: int,
)
    requires
        0 <= k <= files.len(),
        load_project(root, files.take(k)) is Err,
    ensures
        load_project(root, files) == load_project(root, files.take(k)),
    decreases files.len() - k,
{
    if k < files.len() {
        assert(files.drop_last().take(k) == files.take(k));
        lemma_load_project_prefix(root, files.drop_last(), k);
    } else {
        assert(files.take(k) == files);
    }
}

/// A source tree holding a notebook whose sections repeat an anchor yields no project,
/// so nothing can be built from it.
pub proof fn lemma_duplicate_fails_load(
    root: Seq<char>,
    files: Seq<(Seq<char>, Option<Seq<char>>)>,
    k: int,
)
    requires
        0 <= k < files.len(),
        is_notebook(files[k].0),
        files[k].1 is Some,
        notebook_sections(files[k].1->0) is Some,
        !crate::sections::anchors_unique(notebook_sections(files[k].1->0)->0),
    ensures
        load_project(root, files) is Err,
    decreases files.len(),
{
    crate::sections::lemma_unique_iff_no_duplicate(notebook_sections(files[k].1->0)->0);
    if k < files.len() - 1 {
        assert(files.drop_last()[k] == files[k]);
        lemma_duplicate_fails_load(root, files.drop_last(), k);
    } else {
        assert(files.last() == files[k]);
    }
}

impl Project {
    /// The project made of the files of a source tree: each file's path, and its text
    /// when it could be read. Fails with the first file that cannot become a module.
    pub fn new(source_dir: &str, files: &Vec<(String, Option<String>)>) -> (r: Result<Project, LPError>)
        ensures
            match r {
                Ok(p) => load_project(source_dir@, files.deep_view()) == Ok::<
                    Seq<ModuleView>,
                    LoadFailure,
                >(p@),
                Err(e) => load_project(source_dir@, files.deep_view()) is Err && reports(
                    e,
                    load_project(source_dir@, files.deep_view())->Err_0,
                ),
            },
    {
        let ghost fv = files.deep_view();
        let mut modules: Vec<Module> = Vec::new();
        assert(fv.take(0) =~= Seq::<(Seq<char>, Option<Seq<char>>)>::empty());
        assert(modules@.map_values(|m: Module| m@) =~= Seq::<ModuleView>::empty());
        let mut i: usize = 0;
        while i < files.len()
            invariant
                i <= files@.len(),
                fv == files.deep_view(),
                load_project(source_dir@, fv.take(i as int)) == Ok::<Seq<ModuleView>, LoadFailure>(
                    modules@.map_values(|m: Module| m@),
                ),
            decreases files@.len() - i,
        {
            assert(fv.take(i + 1).drop_last() == fv.take(i as int));
            let (path, content) = (&files[i].0, &files[i].1);
            let c = match content {
                Some(t) => Some(t.as_str()),
                None => None,
            };
            assert(opt_str_view(c) == fv[i as int].1);
            match Module::new(source_dir, path.as_str(), c) {
                Ok(m) => {
                    let ghost before = modules@;
                    modules.push(m);
                    assert(modules@.map_values(|m: Module| m@) =~= before.map_values(|m: Module| m@).push(m@));
                },
                Err(e) => {
                    proof {
                        lemma_load_project_prefix(source_dir@, fv, i + 1);
                    }
                    return Err(e);
                },
            }
            i += 1;
        }
        assert(fv.take(fv.len() as int) == fv);
        Ok(Project { modules })
    }
}

} // verus!
