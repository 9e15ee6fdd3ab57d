//! Rendering each module of a project into the documentation tree.
use vstd::prelude::*;
use vstd::string::StringExecFns;
use crate::docs::config::Config;
use crate::emission::Emission;
use crate::paths::{
    ext_dot, ext_dot_pub, extension, file_name, has_extension, is_notebook, join, join_dir, join_vec,
    lemma_behind_dir, lemma_ext_dot_bound, lemma_join_dir, lemma_name_of_stripped,
    lemma_strip_shorter, module_name_of, strip_notebook_ext, strip_notebook_ext_vec,
    with_extension, with_extension_vec, without_extension,
};
use crate::structs::{sections_view, ModuleView, Project, Section, SectionView};
use crate::text::{chars_of, join_lines, join_strings, slice_vec, string_of, strings_view};

verus! {

/// Where the documentation of the module at `path` goes, and the extension shown on its
/// code blocks: a notebook `<p>.<e>.lpnb` goes to `<p>.md` and shows `e`; any other file
/// keeps its path.
pub open spec fn docs_target(root: Seq<char>, path: Seq<char>) -> (Seq<char>, Seq<char>) {
    let t = join(root, path);
    let s = strip_notebook_ext(t);
    if s != t {
        (with_extension(s, seq!['m', 'd']), extension(s))
    } else {
        (s, extension(s))
    }
}

/// A section rendered as its docs followed by its code in a fenced block.
pub open spec fn section_doc(s: SectionView, ext: Seq<char>) -> Seq<char> {
    s.docs + "\n```"@ + ext + "\n"@ + s.code + "\n```"@
}

/// The documentation of a notebook: its sections rendered and joined by line breaks.
pub open spec fn final_docs(ss: Seq<SectionView>, ext: Seq<char>) -> Seq<char> {
    join_lines(ss.map_values(|s: SectionView| section_doc(s, ext)))
}

/// The emission for module `m`: its rendered documentation, or a copy of the file.
pub open spec fn docs_emission(e: Emission, m: ModuleView, root: Seq<char>, source: Seq<char>) -> bool {
    let (to, ext) = docs_target(root, m.path);
    match m.sections {
        Some(ss) => e matches Emission::Write { to: t, contents: c } && t@ == to && c@ == final_docs(
            ss,
            ext,
        ),
        None => e matches Emission::Copy { from: f, to: t } && t@ == to && f@ == join(source, m.path),
    }
}

/// A notebook at a relative path `p` is documented at `root/<module name of p>.md`, and
/// its code blocks show the extension that is left of `p` once the notebook extension
/// is gone.
pub proof fn lemma_docs_layout(root: Seq<char>, path: Seq<char>)
    requires
        is_notebook(path),
        path.len() > 0,
        path[0] != '/',
    ensures
        docs_target(root, path) == (
            join(root, module_name_of(path) + seq!['.', 'm', 'd']),
            extension(strip_notebook_ext(path)),
        ),
{
    let x = join_dir(root, path);
    lemma_join_dir(root, path);
    lemma_behind_dir(x, path);
    let t = join(root, path);
    let sp = strip_notebook_ext(path);
    lemma_ext_dot_bound(path);
    lemma_name_of_stripped(path);
    let d = ext_dot(path)->0;
    assert(sp == path.take(d));
    assert(strip_notebook_ext(t) != t) by {
        assert(strip_notebook_ext(t).len() == x.len() + d);
    }
    lemma_behind_dir(x, sp);
    assert(file_name(sp).len() > 0);
    let m = module_name_of(path);
    assert(m == without_extension(sp));
    let md = m + seq!['.', 'm', 'd'];
    assert(with_extension(sp, seq!['m', 'd']) =~= md);
    // The module name begins where the path does, so both are joined the same way.
    if has_extension(sp) {
        lemma_ext_dot_bound(sp);
    }
    assert(m.len() > 0 && m[0] == path[0]) by {
        if has_extension(sp) {
            assert(m == sp.take(ext_dot(sp)->0));
        }
    }
    assert(md[0] == path[0]);
    lemma_join_dir(root, md);
    assert(join_dir(root, md) == x);
}

/// The documentation file of a notebook at a relative path holds its sections, each
/// rendered as docs and a fenced code block tagged with the notebook's inner extension,
/// joined by line breaks.
pub proof fn lemma_docs_shape(e: Emission, m: ModuleView, root: Seq<char>, source: Seq<char>)
    requires
        docs_emission(e, m, root, source),
        m.sections is Some,
        is_notebook(m.path),
        m.path.len() > 0,
        m.path[0] != '/',
    ensures
        e matches Emission::Write { to, contents } && to@ == join(
            root,
            module_name_of(m.path) + seq!['.', 'm', 'd'],
        ) && contents@ == final_docs(m.sections->0, extension(strip_notebook_ext(m.path))),
{
    lemma_docs_layout(root, m.path);
}

/// Builds the documentation tree of a project.
pub struct DocsBuilder<'a> {
    config: Config,
    project: &'a Project,
}

impl<'a> DocsBuilder<'a> {
    /// A builder for `project` with `config`.
    pub fn new(config: Config, project: &'a Project) -> (r: DocsBuilder<'a>)
        ensures
            r.config() == config,
            r.project() == project,
    {
        DocsBuilder { config, project }
    }

    pub closed spec fn config(&self) -> Config {
        self.config
    }

    pub closed spec fn project(&self) -> &'a Project {
        self.project
    }

    /// The documentation path of the module at `path`, and the extension shown on its
    /// code blocks (empty when there is none).
    pub fn prepare_target_path(&self, path: &str) -> (r: (String, String))
        ensures
            (r.0@, r.1@) == docs_target(self.config().target_docs_dir@, path@),
    {
        let t = join_vec(&chars_of(self.config.target_docs_dir.as_str()), &chars_of(path));
        let s = strip_notebook_ext_vec(&t);
        let ext = match ext_dot_pub(&s) {
            Some(d) => {
                assert(s@.subrange(d + 1, s@.len() as int) == s@.skip(d + 1));
                slice_vec(&s, d + 1, s.len())
            },
            None => Vec::new(),
        };
        assert(ext@ == extension(s@));
        proof {
            lemma_strip_shorter(t@);
        }
        if s.len() != t.len() {
            let md = vec!['m', 'd'];
            assert(md@ =~= seq!['m', 'd']);
            (string_of(&with_extension_vec(&s, &md)), string_of(&ext))
        } else {
            (string_of(&s), string_of(&ext))
        }
    }

    /// The path of the module at `path` in the source tree.
    pub fn get_module_source_path(&self, path: &str) -> (r: String)
        ensures
            r@ == join(self.config().source_dir@, path@),
    {
        string_of(&join_vec(&chars_of(self.config.source_dir.as_str()), &chars_of(path)))
    }

    /// The sections rendered as docs and fenced code, joined by line breaks.
    pub fn prepare_final_docs(&self, sections: &Vec<Section>, extension: &str) -> (r: String)
        ensures
            r@ == final_docs(sections_view(sections@), extension@),
    {
        render_sections(sections, extension)
    }

    /// What building the documentation tree writes, module by module.
    pub fn build(&self) -> (r: Vec<Emission>)
        ensures
            r@.len() == self.project()@.len(),
            forall|i: int|
                0 <= i < r@.len() ==> docs_emission(
                    #[trigger] r@[i],
                    self.project()@[i],
                    self.config().target_docs_dir@,
                    self.config().source_dir@,
                ),
    {
        let mods = &self.project.modules;
        let mut out: Vec<Emission> = Vec::new();
        let mut i: usize = 0;
        while i < mods.len()
            invariant
                i <= mods@.len(),
                mods == self.project().modules,
                out@.len() == i,
                forall|k: int|
                    0 <= k < i ==> docs_emission(
                        #[trigger] out@[k],
                        self.project()@[k],
                        self.config().target_docs_dir@,
                        self.config().source_dir@,
                    ),
            decreases mods@.len() - i,
        {
            let m = &mods[i];
            assert(self.project()@[i as int] == m@);
            let source = self.get_module_source_path(m.path.as_str());
            let (target, ext) = self.prepare_target_path(m.path.as_str());
            let e = match &m.sections {
                Some(ss) => Emission::Write { to: target, contents: render_sections(ss, ext.as_str()) },
                None => Emission::Copy { from: source, to: target },
            };
            out.push(e);
            i += 1;
        }
        out
    }
}

/// The sections rendered as docs and fenced code, joined by line breaks.
fn render_sections(sections: &Vec<Section>, extension: &str) -> (r: String)
    ensures
        r@ == final_docs(sections_view(sections@), extension@),
{
    let mut parts: Vec<String> = Vec::new();
    let mut i: usize = 0;
    while i < sections.len()
        invariant
            i <= sections@.len(),
            parts@.len() == i,
            forall|k: int| 0 <= k < i ==> (#[trigger] parts@[k])@ == section_doc(sections@[k]@, extension@),
        decreases sections@.len() - i,
    {
        let s = &sections[i];
        let doc = s.docs.clone().concat("\n```").concat(extension).concat("\n").concat(s.code.as_str()).concat(
            "\n```",
        );
        parts.push(doc);
        i += 1;
    }
    assert(strings_view(parts@) =~= sections_view(sections@).map_values(
        |s: SectionView| section_doc(s, extension@),
    ));
    join_strings(&parts)
}

} // verus!
