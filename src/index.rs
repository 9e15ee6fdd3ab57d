//! The section index: module name, then anchor, to section, for a whole project.
use vstd::prelude::*;
use vstd::set::axiom_set_insert_len;
use vstd::string::StringExecFns;
use crate::paths::{module_name, module_name_of};
use crate::structs::{section_anchor, sections_view, ModuleView, Project, Section, SectionView};

verus! {

/// The map that inserting the entries of `e` in order into an empty map gives.
pub open spec fn assoc_map<V>(e: Seq<(Seq<char>, V)>) -> Map<Seq<char>, V>
    decreases e.len(),
{
    if e.len() == 0 {
        Map::empty()
    } else {
        assoc_map(e.drop_last()).insert(e.last().0, e.last().1)
    }
}

/// No key occurs twice among the entries.
pub open spec fn keys_unique<V>(e: Seq<(Seq<char>, V)>) -> bool {
    forall|i: int, j: int| 0 <= i < j < e.len() ==> #[trigger] e[i].0 != #[trigger] e[j].0
}

/// The sections of a module under their anchors; a later section wins.
pub open spec fn anchor_map(ss: Seq<SectionView>) -> Map<Seq<char>, SectionView>
    decreases ss.len(),
{
    if ss.len() == 0 {
        Map::empty()
    } else {
        match section_anchor(ss.last()) {
            Some(a) => anchor_map(ss.drop_last()).insert(a, ss.last()),
            None => anchor_map(ss.drop_last()),
        }
    }
}

/// Some section has an anchor.
pub open spec fn has_anchored(ss: Seq<SectionView>) -> bool {
    exists|i: int| 0 <= i < ss.len() && (#[trigger] section_anchor(ss[i])) is Some
}

/// The index of a project: for each module with at least one headed section, its
/// module name maps to its sections under their anchors; a later module wins.
pub open spec fn index_of(mods: Seq<ModuleView>) -> Map<Seq<char>, Map<Seq<char>, SectionView>>
    decreases mods.len(),
{
    if mods.len() == 0 {
        Map::empty()
    } else {
        let prev = index_of(mods.drop_last());
        let m = mods.last();
        match m.sections {
            Some(ss) => if has_anchored(ss) {
                prev.insert(module_name_of(m.path), anchor_map(ss))
            } else {
                prev
            },
            None => prev,
        }
    }
}

proof fn lemma_assoc_last<V>(e: Seq<(Seq<char>, V)>, k: Seq<char>, i: int)
    requires
        0 <= i < e.len(),
        e[i].0 == k,
        forall|j: int| i < j < e.len() ==> (#[trigger] e[j]).0 != k,
    ensures
        assoc_map(e).contains_key(k),
        assoc_map(e)[k] == e[i].1,
    decreases e.len(),
{
    if i < e.len() - 1 {
        assert(e.last() == e[e.len() - 1]);
        lemma_assoc_last(e.drop_last(), k, i);
    }
}

proof fn lemma_assoc_absent<V>(e: Seq<(Seq<char>, V)>, k: Seq<char>)
    requires
        forall|j: int| 0 <= j < e.len() ==> (#[trigger] e[j]).0 != k,
    ensures
        !assoc_map(e).contains_key(k),
    decreases e.len(),
{
    if e.len() > 0 {
        assert(e.last() == e[e.len() - 1]);
        lemma_assoc_absent(e.drop_last(), k);
    }
}

proof fn lemma_assoc_len<V>(e: Seq<(Seq<char>, V)>)
    requires
        keys_unique(e),
    ensures
        assoc_map(e).dom().finite(),
        assoc_map(e).dom().len() == e.len(),
    decreases e.len(),
{
    if e.len() > 0 {
        let p = e.drop_last();
        assert(keys_unique(p)) by {
            assert forall|i: int, j: int| 0 <= i < j < p.len() implies #[trigger] p[i].0 != #[trigger] p[j].0 by {
                assert(p[i] == e[i] && p[j] == e[j]);
            }
        }
        lemma_assoc_len(p);
        assert forall|j: int| 0 <= j < p.len() implies (#[trigger] p[j]).0 != e.last().0 by {
            assert(p[j] == e[j]);
        }
        lemma_assoc_absent(p, e.last().0);
        axiom_set_insert_len(assoc_map(p).dom(), e.last().0);
    }
}

proof fn lemma_assoc_update<V>(e: Seq<(Seq<char>, V)>, i: int, v: V)
    requires
        keys_unique(e),
        0 <= i < e.len(),
    ensures
        assoc_map(e.update(i, (e[i].0, v))) == assoc_map(e).insert(e[i].0, v),
        keys_unique(e.update(i, (e[i].0, v))),
{
    let k = e[i].0;
    let u = e.update(i, (k, v));
    assert forall|a: int, b: int| 0 <= a < b < u.len() implies #[trigger] u[a].0 != #[trigger] u[b].0 by {
        assert(u[a].0 == e[a].0 && u[b].0 == e[b].0);
    }
    assert forall|q: Seq<char>| #[trigger] assoc_map(u).contains_key(q) == assoc_map(e).insert(k, v).contains_key(q)
        && (assoc_map(u).contains_key(q) ==> assoc_map(u)[q] == assoc_map(e).insert(k, v)[q]) by {
        if q == k {
            lemma_assoc_last(u, k, i);
            lemma_assoc_last(e, k, i);
        } else if exists|j: int| 0 <= j < e.len() && (#[trigger] e[j]).0 == q {
            let j = choose|j: int| 0 <= j < e.len() && (#[trigger] e[j]).0 == q;
            lemma_assoc_last(u, q, j);
            lemma_assoc_last(e, q, j);
        } else {
            assert forall|j: int| 0 <= j < u.len() implies (#[trigger] u[j]).0 != q by {
                assert(u[j].0 == e[j].0);
            }
            lemma_assoc_absent(u, q);
            lemma_assoc_absent(e, q);
        }
    }
    assert(assoc_map(u) =~= assoc_map(e).insert(k, v));
}

proof fn lemma_anchor_map_origin(ss: Seq<SectionView>, a: Seq<char>)
    requires
        anchor_map(ss).contains_key(a),
    ensures
        exists|s: int|
            0 <= s < ss.len() && #[trigger] ss[s] == anchor_map(ss)[a] && section_anchor(ss[s]) == Some(a),
    decreases ss.len(),
{
    let p = ss.drop_last();
    let last = ss.len() - 1;
    assert(ss.last() == ss[last]);
    match section_anchor(ss.last()) {
        Some(b) => {
            if b != a {
                lemma_anchor_map_origin(p, a);
                let s = choose|s: int|
                    0 <= s < p.len() && #[trigger] p[s] == anchor_map(p)[a] && section_anchor(p[s]) == Some(a);
                assert(ss[s] == p[s]);
            }
        },
        None => {
            lemma_anchor_map_origin(p, a);
            let s = choose|s: int|
                0 <= s < p.len() && #[trigger] p[s] == anchor_map(p)[a] && section_anchor(p[s]) == Some(a);
            assert(ss[s] == p[s]);
        },
    }
}

/// Each section of the index is a section, under its anchor, of a module whose
/// module name is the one it is filed under.
pub proof fn lemma_index_origin(mods: Seq<ModuleView>, name: Seq<char>, a: Seq<char>)
    requires
        index_of(mods).contains_key(name),
        index_of(mods)[name].contains_key(a),
    ensures
        exists|m: int, s: int|
            0 <= m < mods.len() && mods[m].sections is Some && 0 <= s < mods[m].sections->0.len()
                && #[trigger] mods[m].sections->0[s] == index_of(mods)[name][a] && module_name_of(
                mods[m].path,
            ) == name && section_anchor(mods[m].sections->0[s]) == Some(a),
    decreases mods.len(),
{
    let p = mods.drop_last();
    let last = mods.len() - 1;
    let m = mods.last();
    assert(m == mods[last]);
    let inserted = match m.sections {
        Some(ss) => has_anchored(ss) && module_name_of(m.path) == name,
        None => false,
    };
    if inserted {
        let ss = m.sections->0;
        lemma_anchor_map_origin(ss, a);
        let s = choose|s: int|
            0 <= s < ss.len() && #[trigger] ss[s] == anchor_map(ss)[a] && section_anchor(ss[s]) == Some(a);
        assert(mods[last].sections->0[s] == index_of(mods)[name][a]);
    } else {
        lemma_index_origin(p, name, a);
        let (mm, s) = choose|mm: int, s: int|
            0 <= mm < p.len() && p[mm].sections is Some && 0 <= s < p[mm].sections->0.len()
                && #[trigger] p[mm].sections->0[s] == index_of(p)[name][a] && module_name_of(p[mm].path)
                == name && section_anchor(p[mm].sections->0[s]) == Some(a);
        assert(mods[mm] == p[mm]);
        assert(mods[mm].sections->0[s] == index_of(mods)[name][a]);
    }
}

/// What a list of anchored sections stands for.
pub open spec fn inner_view(v: Seq<(String, Section)>) -> Seq<(Seq<char>, SectionView)> {
    v.map_values(|p: (String, Section)| (p.0@, p.1@))
}

/// What the list of indexed modules stands for.
pub open spec fn outer_view(v: Seq<(String, Vec<(String, Section)>)>) -> Seq<
    (Seq<char>, Map<Seq<char>, SectionView>),
> {
    v.map_values(|p: (String, Vec<(String, Section)>)| (p.0@, assoc_map(inner_view(p.1@))))
}

/// Position of the last entry whose key is `k`.
fn last_position<X>(e: &Vec<(String, X)>, k: &String) -> (r: Option<usize>)
    ensures
        match r {
            Some(i) => i < e@.len() && e@[i as int].0@ == k@ && forall|j: int|
                i < j < e@.len() ==> (#[trigger] e@[j]).0@ != k@,
            None => forall|j: int| 0 <= j < e@.len() ==> (#[trigger] e@[j]).0@ != k@,
        },
{
    let mut i: usize = e.len();
    while i > 0
        invariant
            i <= e@.len(),
            forall|j: int| i <= j < e@.len() ==> (#[trigger] e@[j]).0@ != k@,
        decreases i,
    {
        if e[i - 1].0.eq(k) {
            return Some(i - 1);
        }
        i -= 1;
    }
    None
}

/// Puts section `s` under anchor `k`, replacing what was there.
fn put_section(e: &mut Vec<(String, Section)>, k: String, s: Section)
    requires
        keys_unique(inner_view(old(e)@)),
    ensures
        keys_unique(inner_view(final(e)@)),
        assoc_map(inner_view(final(e)@)) == assoc_map(inner_view(old(e)@)).insert(k@, s@),
        final(e)@.len() > 0,
{
    let ghost ov = inner_view(e@);
    match last_position(e, &k) {
        Some(p) => {
            let ghost sv = s@;
            e[p] = (k, s);
            assert(inner_view(e@) =~= ov.update(p as int, (ov[p as int].0, sv)));
            proof {
                lemma_assoc_update(ov, p as int, sv);
            }
        },
        None => {
            let ghost kv = k@;
            let ghost sv = s@;
            e.push((k, s));
            assert(inner_view(e@).drop_last() =~= ov);
            assert forall|a: int, b: int| 0 <= a < b < inner_view(e@).len() implies #[trigger] inner_view(e@)[a].0
                != #[trigger] inner_view(e@)[b].0 by {
                if b == ov.len() {
                    assert(e@[a].0@ != kv);
                } else {
                    assert(inner_view(e@)[a] == ov[a]);
                    assert(inner_view(e@)[b] == ov[b]);
                }
            }
        },
    }
}

/// Puts the sections `v` under module name `k`, replacing what was there.
fn put_module(e: &mut Vec<(String, Vec<(String, Section)>)>, k: String, v: Vec<(String, Section)>)
    requires
        keys_unique(outer_view(old(e)@)),
    ensures
        keys_unique(outer_view(final(e)@)),
        outer_view(final(e)@).len() > 0,
        assoc_map(outer_view(final(e)@)) == assoc_map(outer_view(old(e)@)).insert(
            k@,
            assoc_map(inner_view(v@)),
        ),
        forall|i: int|
            0 <= i < final(e)@.len() ==> (exists|j: int|
                0 <= j < old(e)@.len() && (#[trigger] final(e)@[i]).1 == old(e)@[j].1) || final(e)@[i].1
                == v,
{
    let ghost ov = outer_view(e@);
    let ghost old_e = e@;
    let ghost mv = assoc_map(inner_view(v@));
    let ghost vv = v;
    match last_position(e, &k) {
        Some(p) => {
            e[p] = (k, v);
            assert(outer_view(e@) =~= ov.update(p as int, (ov[p as int].0, mv)));
            proof {
                lemma_assoc_update(ov, p as int, mv);
            }
            assert forall|i: int| 0 <= i < e@.len() implies (exists|j: int|
                0 <= j < old_e.len() && (#[trigger] e@[i]).1 == old_e[j].1) || e@[i].1 == vv by {
                if i != p {
                    assert(e@[i] == old_e[i]);
                }
            }
        },
        None => {
            let ghost kv = k@;
            e.push((k, v));
            assert(outer_view(e@).drop_last() =~= ov);
            assert forall|a: int, b: int| 0 <= a < b < outer_view(e@).len() implies #[trigger] outer_view(e@)[a].0
                != #[trigger] outer_view(e@)[b].0 by {
                if b == ov.len() {
                    assert(e@[a].0@ != kv);
                } else {
                    assert(outer_view(e@)[a] == ov[a]);
                    assert(outer_view(e@)[b] == ov[b]);
                }
            }
            assert forall|i: int| 0 <= i < e@.len() implies (exists|j: int|
                0 <= j < old_e.len() && (#[trigger] e@[i]).1 == old_e[j].1) || e@[i].1 == vv by {
                if i < old_e.len() {
                    assert(e@[i] == old_e[i]);
                }
            }
        },
    }
}

/// The headed sections of a module under their anchors.
fn anchored_sections(ss: &Vec<Section>) -> (r: Vec<(String, Section)>)
    ensures
        keys_unique(inner_view(r@)),
        assoc_map(inner_view(r@)) == anchor_map(sections_view(ss@)),
        r@.len() > 0 <==> has_anchored(sections_view(ss@)),
{
    let ghost sv = sections_view(ss@);
    let mut out: Vec<(String, Section)> = Vec::new();
    let mut j: usize = 0;
    assert(assoc_map(inner_view(out@)) =~= anchor_map(sv.take(0)));
    while j < ss.len()
        invariant
            j <= ss@.len(),
            sv == sections_view(ss@),
            keys_unique(inner_view(out@)),
            assoc_map(inner_view(out@)) == anchor_map(sv.take(j as int)),
            out@.len() > 0 <==> has_anchored(sv.take(j as int)),
        decreases ss@.len() - j,
    {
        let ghost t = sv.take(j + 1);
        assert(t.drop_last() == sv.take(j as int));
        assert(t.last() == ss@[j as int]@);
        match ss[j].get_header() {
            Some(a) => {
                put_section(&mut out, a, ss[j].copy());
                assert(section_anchor(t[j as int]) is Some);
            },
            None => {
                assert(has_anchored(t) ==> has_anchored(sv.take(j as int))) by {
                    if has_anchored(t) {
                        let i = choose|i: int| 0 <= i < t.len() && (#[trigger] section_anchor(t[i])) is Some;
                        assert(t[i] == sv.take(j as int)[i]);
                    }
                }
            },
        }
        assert(has_anchored(sv.take(j as int)) ==> has_anchored(t)) by {
            if has_anchored(sv.take(j as int)) {
                let i = choose|i: int| 0 <= i < j && (#[trigger] section_anchor(sv.take(j as int)[i])) is Some;
                assert(t[i] == sv.take(j as int)[i]);
            }
        }
        j += 1;
    }
    assert(sv.take(sv.len() as int) == sv);
    out
}

/// Index of the sections of a project, by module name and anchor.
pub struct ProjectIndex {
    sections: Vec<(String, Vec<(String, Section)>)>,
}

impl View for ProjectIndex {
    type V = Map<Seq<char>, Map<Seq<char>, SectionView>>;

    closed spec fn view(&self) -> Map<Seq<char>, Map<Seq<char>, SectionView>> {
        assoc_map(outer_view(self.sections@))
    }
}

impl ProjectIndex {
    /// No module name occurs twice, nor an anchor twice within a module.
    pub closed spec fn wf(&self) -> bool {
        &&& keys_unique(outer_view(self.sections@))
        &&& forall|i: int|
            0 <= i < self.sections@.len() ==> keys_unique(inner_view(#[trigger] self.sections@[i].1@))
    }

    /// Indexes the headed sections of every module of `project`.
    pub fn new(project: &Project) -> (r: ProjectIndex)
        ensures
            r.wf(),
            r@ == index_of(project@),
    {
        let ghost mods = project@;
        let mut entries: Vec<(String, Vec<(String, Section)>)> = Vec::new();
        let mut i: usize = 0;
        assert(assoc_map(outer_view(entries@)) =~= index_of(mods.take(0)));
        while i < project.modules.len()
            invariant
                i <= project.modules@.len(),
                mods == project@,
                keys_unique(outer_view(entries@)),
                forall|k: int| 0 <= k < entries@.len() ==> keys_unique(inner_view(#[trigger] entries@[k].1@)),
                assoc_map(outer_view(entries@)) == index_of(mods.take(i as int)),
            decreases project.modules@.len() - i,
        {
            let ghost t = mods.take(i + 1);
            assert(t.drop_last() == mods.take(i as int));
            assert(t.last() == project.modules@[i as int]@);
            let m = &project.modules[i];
            match &m.sections {
                Some(ss) => {
                    let inner = anchored_sections(ss);
                    if inner.len() > 0 {
                        let name = module_name(m.path.as_str());
                        let ghost before = entries@;
                        let ghost iv = inner;
                        put_module(&mut entries, name, inner);
                        assert forall|k: int| 0 <= k < entries@.len() implies keys_unique(
                            inner_view(#[trigger] entries@[k].1@),
                        ) by {
                            if entries@[k].1 != iv {
                                let j = choose|j: int| 0 <= j < before.len() && entries@[k].1 == before[j].1;
                                assert(keys_unique(inner_view(before[j].1@)));
                            }
                        }
                    }
                },
                None => {},
            }
            i += 1;
        }
        assert(mods.take(mods.len() as int) == mods);
        ProjectIndex { sections: entries }
    }

    /// The section of module `path` (a module name, without extensions) whose anchor is
    /// `header`.
    pub fn get_section(&self, path: &str, header: &str) -> (r: Option<&Section>)
        ensures
            match r {
                Some(s) => self@.contains_key(path@) && self@[path@].contains_key(header@)
                    && self@[path@][header@] == s@,
                None => !(self@.contains_key(path@) && self@[path@].contains_key(header@)),
            },
    {
        let name = String::from_str(path);
        let anchor = String::from_str(header);
        let ghost ov = outer_view(self.sections@);
        match last_position(&self.sections, &name) {
            Some(i) => {
                proof {
                    lemma_assoc_last(ov, name@, i as int);
                }
                let inner = &self.sections[i].1;
                let ghost iv = inner_view(inner@);
                match last_position(inner, &anchor) {
                    Some(k) => {
                        proof {
                            lemma_assoc_last(iv, anchor@, k as int);
                        }
                        Some(&inner[k].1)
                    },
                    None => {
                        proof {
                            assert forall|j: int| 0 <= j < iv.len() implies (#[trigger] iv[j]).0 != anchor@ by {
                                assert(iv[j].0 == inner@[j].0@);
                            }
                            lemma_assoc_absent(iv, anchor@);
                        }
                        None
                    },
                }
            },
            None => {
                proof {
                    assert forall|j: int| 0 <= j < ov.len() implies (#[trigger] ov[j]).0 != name@ by {
                        assert(ov[j].0 == self.sections@[j].0@);
                    }
                    lemma_assoc_absent(ov, name@);
                }
                None
            },
        }
    }

    /// Whether module `name` has an entry.
    pub fn contains_module(&self, name: &str) -> (r: bool)
        ensures
            r == self@.contains_key(name@),
    {
        let key = String::from_str(name);
        let ghost ov = outer_view(self.sections@);
        match last_position(&self.sections, &key) {
            Some(i) => {
                proof {
                    lemma_assoc_last(ov, key@, i as int);
                }
                true
            },
            None => {
                proof {
                    assert forall|j: int| 0 <= j < ov.len() implies (#[trigger] ov[j]).0 != key@ by {
                        assert(ov[j].0 == self.sections@[j].0@);
                    }
                    lemma_assoc_absent(ov, key@);
                }
                false
            },
        }
    }

    /// How many anchors module `name` has, if it has an entry.
    pub fn section_count(&self, name: &str) -> (r: Option<usize>)
        requires
            self.wf(),
        ensures
            match r {
                Some(n) => self@.contains_key(name@) && self@[name@].dom().len() == n,
                None => !self@.contains_key(name@),
            },
    {
        let key = String::from_str(name);
        let ghost ov = outer_view(self.sections@);
        match last_position(&self.sections, &key) {
            Some(i) => {
                proof {
                    lemma_assoc_last(ov, key@, i as int);
                    lemma_assoc_len(inner_view(self.sections@[i as int].1@));
                }
                Some(self.sections[i].1.len())
            },
            None => {
                proof {
                    assert forall|j: int| 0 <= j < ov.len() implies (#[trigger] ov[j]).0 != key@ by {
                        assert(ov[j].0 == self.sections@[j].0@);
                    }
                    lemma_assoc_absent(ov, key@);
                }
                None
            },
        }
    }
}

} // verus!
