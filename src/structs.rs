//! The data of a project: references, sections, modules, and their views.
use vstd::prelude::*;
use crate::paths::{anchor_of, anchor_vec};
use crate::text::{chars_of, string_of};

verus! {

/// A reference from a section to a section of some module of the same project.
#[derive(Debug)]
pub struct Reference {
    /// The referenced module's name relative to the referring module (no extension);
    /// empty for the referring module itself.
    pub path: String,
    /// The referenced section's header as written, without the leading `#`s.
    pub header: String,
}

/// What a reference stands for.
pub struct RefView {
    pub path: Seq<char>,
    pub header: Seq<char>,
}

impl View for Reference {
    type V = RefView;

    open spec fn view(&self) -> RefView {
        RefView { path: self.path@, header: self.header@ }
    }
}

/// The smallest unit of a notebook: a code fragment with its documentation.
#[derive(Debug)]
pub struct Section {
    pub code: String,
    pub docs: String,
    /// The first line of `docs`, trimmed, when it begins with `#`.
    pub header: Option<String>,
    /// The references found in the links of `docs`, in order.
    pub references: Vec<Reference>,
}

/// What a section stands for.
pub struct SectionView {
    pub code: Seq<char>,
    pub docs: Seq<char>,
    pub header: Option<Seq<char>>,
    pub references: Seq<RefView>,
}

pub open spec fn opt_view(o: Option<String>) -> Option<Seq<char>> {
    match o {
        Some(s) => Some(s@),
        None => None,
    }
}

impl View for Section {
    type V = SectionView;

    open spec fn view(&self) -> SectionView {
        SectionView {
            code: self.code@,
            docs: self.docs@,
            header: opt_view(self.header),
            references: self.references@.map_values(|r: Reference| r@),
        }
    }
}

/// A file of the source tree: its path below the source directory, and its sections
/// when it is a notebook.
#[derive(Debug)]
pub struct Module {
    pub path: String,
    pub sections: Option<Vec<Section>>,
}

/// What a module stands for.
pub struct ModuleView {
    pub path: Seq<char>,
    pub sections: Option<Seq<SectionView>>,
}

pub open spec fn sections_view(v: Seq<Section>) -> Seq<SectionView> {
    v.map_values(|s: Section| s@)
}

impl View for Module {
    type V = ModuleView;

    open spec fn view(&self) -> ModuleView {
        ModuleView {
            path: self.path@,
            sections: match self.sections {
                Some(v) => Some(sections_view(v@)),
                None => None,
            },
        }
    }
}

/// The modules of a source tree.
#[derive(Debug)]
pub struct Project {
    pub modules: Vec<Module>,
}

impl View for Project {
    type V = Seq<ModuleView>;

    open spec fn view(&self) -> Seq<ModuleView> {
        self.modules@.map_values(|m: Module| m@)
    }
}

/// `h` without its leading `#`s.
pub open spec fn strip_hashes(h: Seq<char>) -> Seq<char>
    decreases h.len(),
{
    if h.len() > 0 && h[0] == '#' {
        strip_hashes(h.drop_first())
    } else {
        h
    }
}

/// The anchor under which a section can be referred to, if it has a header.
pub open spec fn section_anchor(s: SectionView) -> Option<Seq<char>> {
    match s.header {
        Some(h) => Some(anchor_of(strip_hashes(h))),
        None => None,
    }
}

proof fn lemma_strip_hashes_skip(h: Seq<char>, i: int)
    requires
        0 <= i <= h.len(),
        forall|k: int| 0 <= k < i ==> h[k] == '#',
    ensures
        strip_hashes(h) == strip_hashes(h.skip(i)),
    decreases i,
{
    if i > 0 {
        assert(h.drop_first().skip(i - 1) == h.skip(i));
        lemma_strip_hashes_skip(h.drop_first(), i - 1);
    } else {
        assert(h.skip(0) == h);
    }
}

/// The anchor of a raw header line.
pub(crate) fn header_anchor(h: &String) -> (r: String)
    ensures
        r@ == anchor_of(strip_hashes(h@)),
{
    let v = chars_of(h.as_str());
    let mut i: usize = 0;
    while i < v.len() && v[i] == '#'
        invariant
            i <= v@.len(),
            forall|k: int| 0 <= k < i ==> v@[k] == '#',
        decreases v@.len() - i,
    {
        i += 1;
    }
    let mut rest: Vec<char> = Vec::new();
    let mut k: usize = i;
    while k < v.len()
        invariant
            i <= k <= v@.len(),
            rest@ == v@.subrange(i as int, k as int),
        decreases v@.len() - k,
    {
        rest.push(v[k]);
        assert(v@.subrange(i as int, k + 1) == v@.subrange(i as int, k as int).push(v@[k as int]));
        k += 1;
    }
    proof {
        lemma_strip_hashes_skip(v@, i as int);
        assert(rest@ == v@.skip(i as int));
    }
    string_of(&anchor_vec(&rest))
}

impl Reference {
    /// A copy of this reference.
    pub fn copy(&self) -> (r: Reference)
        ensures
            r@ == self@,
    {
        Reference { path: self.path.clone(), header: self.header.clone() }
    }
}

impl Section {
    /// The section's header as an anchor: leading `#`s removed, trimmed, spaces turned
    /// into hyphens.
    pub fn get_header(&self) -> (r: Option<String>)
        ensures
            opt_view(r) == section_anchor(self@),
    {
        match &self.header {
            Some(h) => Some(header_anchor(h)),
            None => None,
        }
    }

    /// A copy of this section.
    pub fn copy(&self) -> (r: Section)
        ensures
            r@ == self@,
    {
        let mut refs: Vec<Reference> = Vec::new();
        let mut i: usize = 0;
        while i < self.references.len()
            invariant
                i <= self.references@.len(),
                refs@.len() == i,
                forall|j: int| 0 <= j < i ==> #[trigger] refs@[j]@ == self.references@[j]@,
            decreases self.references@.len() - i,
        {
            refs.push(self.references[i].copy());
            i += 1;
        }
        assert(refs@.map_values(|r: Reference| r@) =~= self.references@.map_values(
            |r: Reference| r@,
        ));
        let header = match &self.header {
            Some(h) => Some(h.clone()),
            None => None,
        };
        Section { code: self.code.clone(), docs: self.docs.clone(), header, references: refs }
    }
}

} // verus!
