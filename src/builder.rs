//! The build as a whole: the index is made once, the code tree and then the
//! documentation tree are planned, and the output roots are prepared.
use vstd::prelude::*;
use crate::code::code_builder::{
    all_refs_resolve, code_emission, refs_resolve, reports_first_unresolved, resolves, served,
    target_section, CodeBuilder,
};
use crate::config::Config;
use crate::docs::docs_builder::{docs_emission, DocsBuilder};
use crate::emission::Emission;
use crate::error::LPError;
use crate::index::{index_of, lemma_index_origin, ProjectIndex};
use crate::module::resolve_relative;
use crate::paths::{
    anchor_of, is_notebook, join, join_dir, lemma_behind_dir, lemma_join_dir, module_extension,
    module_name_of,
};
use crate::plugins::PluginsCaller;
use crate::structs::{ModuleView, Project};
use crate::text::strings_view;

verus! {

/// What a build asks of the filesystem, in order: remove the directories of `remove`
/// (those that exist), create those of `create`, then carry out the emissions of `code`
/// and of `docs`.
#[derive(Debug)]
pub struct BuildPlan {
    pub remove: Vec<String>,
    pub create: Vec<String>,
    pub code: Vec<Emission>,
    pub docs: Vec<Emission>,
}

/// Builds the code and the documentation of a project.
pub struct Builder {
    config: Config,
    project: Project,
    index: ProjectIndex,
    plugins: PluginsCaller,
}

impl Builder {
    /// The index is the index of the project.
    #[verifier::type_invariant]
    spec fn indexes_project(&self) -> bool {
        self.index@ == index_of(self.project@)
    }

    pub closed spec fn config(&self) -> Config {
        self.config
    }

    pub closed spec fn project(&self) -> Project {
        self.project
    }

    pub closed spec fn plugins(&self) -> PluginsCaller {
        self.plugins
    }

    /// A builder for `project` with `config`, running the plugins of `plugins`; the
    /// project's section index is made here.
    pub fn new(config: Config, project: Project, plugins: PluginsCaller) -> (r: Builder)
        ensures
            r.config() == config,
            r.project() == project,
            r.plugins() == plugins,
    {
        let index = ProjectIndex::new(&project);
        Builder { config, project, index, plugins }
    }

    /// The output roots to remove (both when `force` is set, else none) and then to
    /// create (both), before anything is written.
    pub fn init_plan(&self) -> (r: (Vec<String>, Vec<String>))
        ensures
            strings_view(r.0@) == (if self.config().force {
                seq![self.config().docs_dir@, self.config().code_dir@]
            } else {
                Seq::empty()
            }),
            strings_view(r.1@) == seq![self.config().docs_dir@, self.config().code_dir@],
    {
        let mut remove: Vec<String> = Vec::new();
        if self.config.force {
            remove.push(self.config.docs_dir.clone());
            remove.push(self.config.code_dir.clone());
        }
        let mut create: Vec<String> = Vec::new();
        create.push(self.config.docs_dir.clone());
        create.push(self.config.code_dir.clone());
        assert(strings_view(remove@) =~= (if self.config().force {
            seq![self.config().docs_dir@, self.config().code_dir@]
        } else {
            Seq::empty()
        }));
        assert(strings_view(create@) =~= seq![self.config().docs_dir@, self.config().code_dir@]);
        (remove, create)
    }

    /// The plan of the build, or the first error of the code build.
    pub fn build(&self) -> (r: Result<BuildPlan, LPError>)
        ensures
            match r {
                Ok(p) => {
                    &&& strings_view(p.remove@) == (if self.config().force {
                        seq![self.config().docs_dir@, self.config().code_dir@]
                    } else {
                        Seq::empty()
                    })
                    &&& strings_view(p.create@) == seq![self.config().docs_dir@, self.config().code_dir@]
                    &&& all_refs_resolve(index_of(self.project()@), self.project()@)
                    &&& p.code@.len() == self.project()@.len()
                    &&& forall|i: int|
                        0 <= i < p.code@.len() ==> code_emission(
                            #[trigger] p.code@[i],
                            self.project()@[i],
                            self.config().code_dir@,
                            self.config().source_dir@,
                        )
                    &&& p.docs@.len() == self.project()@.len()
                    &&& forall|i: int|
                        0 <= i < p.docs@.len() ==> docs_emission(
                            #[trigger] p.docs@[i],
                            self.project()@[i],
                            self.config().docs_dir@,
                            self.config().source_dir@,
                        )
                    &&& forall|i: int|
                        0 <= i < self.project()@.len() ==> served(
                            self.plugins().import_exts(),
                            self.plugins().cleaning_exts(),
                            index_of(self.project()@),
                            #[trigger] self.project()@[i],
                        )
                },
                Err(LPError::IncorrectReference(p, h)) => exists|k: int|
                    0 <= k < self.project()@.len() && !refs_resolve(
                        index_of(self.project()@),
                        #[trigger] self.project()@[k],
                    ) && (forall|x: int|
                        0 <= x < k ==> refs_resolve(index_of(self.project()@), #[trigger] self.project()@[x]))
                        && reports_first_unresolved(
                        index_of(self.project()@),
                        self.project()@[k],
                        LPError::IncorrectReference(p, h),
                    ),
                Err(LPError::PluginNotFound(e)) => all_refs_resolve(index_of(self.project()@), self.project()@)
                    && exists|i: int|
                    0 <= i < self.project()@.len() && e@ == module_extension(self.project()@[i].path) && !served(
                        self.plugins().import_exts(),
                        self.plugins().cleaning_exts(),
                        index_of(self.project()@),
                        #[trigger] self.project()@[i],
                    ),
                Err(LPError::LuaRuntime(_)) => all_refs_resolve(index_of(self.project()@), self.project()@)
                    && exists|i: int|
                    0 <= i < self.project()@.len() && (#[trigger] self.project()@[i]).sections is Some,
                Err(_) => false,
            },
            !all_refs_resolve(index_of(self.project()@), self.project()@) ==> r matches Err(
                LPError::IncorrectReference(_, _),
            ),
    {
        proof {
            use_type_invariant(self);
        }
        let code_config = crate::code::config::Config::new(
            self.config.code_dir.clone(),
            self.config.source_dir.clone(),
            self.config.code_plugins_dir.clone(),
        );
        let code_builder = CodeBuilder::new(code_config, &self.project, &self.index, &self.plugins);
        let built = code_builder.build();
        assert(code_builder.project()@ == self.project()@);
        assert(code_builder.index()@ == index_of(self.project()@));
        assert(code_builder.plugins().import_exts() == self.plugins().import_exts());
        let code = match built {
            Ok(plan) => plan,
            Err(e) => {
                assert(e is IncorrectReference ==> !all_refs_resolve(index_of(self.project()@), self.project()@));
                return Err(e);
            },
        };
        let docs_config = crate::docs::config::Config::new(
            self.config.docs_dir.clone(),
            self.config.source_dir.clone(),
        );
        let docs = DocsBuilder::new(docs_config, &self.project).build();
        let (remove, create) = self.init_plan();
        Ok(BuildPlan { remove, create, code, docs })
    }
}

/// After a successful build every reference of every section resolves, through the
/// index of the project, to a section of a notebook module whose code the plan writes;
/// that module's name is the one the reference resolves to.
pub proof fn lemma_reference_completeness(
    mods: Seq<ModuleView>,
    plan: Seq<Emission>,
    root: Seq<char>,
    source: Seq<char>,
    k: int,
    i: int,
    j: int,
)
    requires
        all_refs_resolve(index_of(mods), mods),
        plan.len() == mods.len(),
        forall|x: int| 0 <= x < plan.len() ==> code_emission(#[trigger] plan[x], mods[x], root, source),
        0 <= k < mods.len(),
        mods[k].sections is Some,
        0 <= i < mods[k].sections->0.len(),
        0 <= j < mods[k].sections->0[i].references.len(),
    ensures
        resolves(index_of(mods), mods[k].path, mods[k].sections->0[i].references[j]),
        exists|m: int, s: int|
            0 <= m < mods.len() && mods[m].sections is Some && 0 <= s < mods[m].sections->0.len()
                && #[trigger] mods[m].sections->0[s] == target_section(
                index_of(mods),
                mods[k].path,
                mods[k].sections->0[i].references[j],
            ) && module_name_of(mods[m].path) == resolve_relative(
                mods[k].path,
                mods[k].sections->0[i].references[j].path,
            ) && plan[m] is Write,
{
    let idx = index_of(mods);
    let r = mods[k].sections->0[i].references[j];
    assert(refs_resolve(idx, mods[k]));
    assert(resolves(idx, mods[k].path, r));
    let name = resolve_relative(mods[k].path, r.path);
    let a = anchor_of(r.header);
    lemma_index_origin(mods, name, a);
    let (m, s) = choose|m: int, s: int|
        0 <= m < mods.len() && mods[m].sections is Some && 0 <= s < mods[m].sections->0.len()
            && #[trigger] mods[m].sections->0[s] == index_of(mods)[name][a] && module_name_of(mods[m].path)
            == name && crate::structs::section_anchor(mods[m].sections->0[s]) == Some(a);
    assert(code_emission(plan[m], mods[m], root, source));
}

/// A file that is not a notebook is planned as a copy of its source to the same relative
/// place in both output trees.
pub proof fn lemma_passthrough(
    mods: Seq<ModuleView>,
    code_plan: Seq<Emission>,
    docs_plan: Seq<Emission>,
    code_root: Seq<char>,
    docs_root: Seq<char>,
    source: Seq<char>,
    i: int,
)
    requires
        code_plan.len() == mods.len(),
        docs_plan.len() == mods.len(),
        forall|x: int| 0 <= x < code_plan.len() ==> code_emission(#[trigger] code_plan[x], mods[x], code_root, source),
        forall|x: int| 0 <= x < docs_plan.len() ==> docs_emission(#[trigger] docs_plan[x], mods[x], docs_root, source),
        0 <= i < mods.len(),
        mods[i].sections is None,
        !is_notebook(mods[i].path),
    ensures
        code_plan[i] matches Emission::Copy { from, to } && from@ == join(source, mods[i].path) && to@
            == join(code_root, mods[i].path),
        docs_plan[i] matches Emission::Copy { from, to } && from@ == join(source, mods[i].path) && to@
            == join(docs_root, mods[i].path),
{
    let path = mods[i].path;
    lemma_join_dir(code_root, path);
    lemma_behind_dir(join_dir(code_root, path), path);
    lemma_join_dir(docs_root, path);
    lemma_behind_dir(join_dir(docs_root, path), path);
    assert(code_emission(code_plan[i], mods[i], code_root, source));
    assert(docs_emission(docs_plan[i], mods[i], docs_root, source));
}

} // verus!
