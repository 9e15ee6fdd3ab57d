//! Decoding a notebook file into its sections: header, references, and the rule that
//! no two sections of one notebook share an anchor.
use std::collections::BTreeMap;
use vstd::prelude::*;
use vstd::string::StringExecFns;
use crate::error::LPError;
use crate::structs::{opt_view, section_anchor, sections_view, RefView, Reference, Section, SectionView};
use crate::text::{chars_of, find_char, first_index_of, slice_vec, string_of, string_of_range, trim_vec, trimmed};

verus! {

/// What a CommonMark parse of `docs` yields, event by event: the destination of each
/// event that opens a link, `None` for every other event.
pub uninterp spec fn markdown_link_starts(docs: Seq<char>) -> Seq<Option<Seq<char>>>;

/// Relies on `pulldown_cmark::Parser::new`: the events of a CommonMark parse of `docs`,
/// in order, each one that opens a link given as its destination.
#[verifier::external_body]
fn link_events(docs: &str) -> (r: Vec<Option<String>>)
    ensures
        r.deep_view() == markdown_link_starts(docs@),
{
    pulldown_cmark::Parser::new(docs).map(
        |e| match e {
            pulldown_cmark::Event::Start(pulldown_cmark::Tag::Link(_, dest, _)) => Some(
                dest.into_string(),
            ),
            _ => None,
        },
    ).collect()
}

/// What a YAML decoder makes of `content` when asked for a mapping from strings to
/// sequences of mappings from strings to strings; `None` when it fails.
pub uninterp spec fn yaml_document(content: Seq<char>) -> Option<
    Seq<(Seq<char>, Seq<Seq<(Seq<char>, Seq<char>)>>)>,
>;

/// Relies on `serde_yaml::from_str`: decodes `content` as a mapping from strings to
/// sequences of mappings from strings to strings, or fails with a message.
#[verifier::external_body]
fn decode_yaml(content: &str) -> (r: Result<Vec<(String, Vec<Vec<(String, String)>>)>, String>)
    ensures
        match r {
            Ok(d) => yaml_document(content@) == Some(d.deep_view()),
            Err(_) => yaml_document(content@) is None,
        },
{
    match serde_yaml::from_str::<BTreeMap<String, Vec<BTreeMap<String, String>>>>(content) {
        Ok(m) => Ok(
            m.into_iter().map(|(k, l)| (k, l.into_iter().map(|s| s.into_iter().collect()).collect())).collect(),
        ),
        Err(e) => Err(e.to_string()),
    }
}

/// The value under the first entry whose key is `key`.
pub open spec fn value_at<V>(entries: Seq<(Seq<char>, V)>, key: Seq<char>) -> Option<V>
    decreases entries.len(),
{
    if entries.len() == 0 {
        None
    } else if entries[0].0 == key {
        Some(entries[0].1)
    } else {
        value_at(entries.drop_first(), key)
    }
}

/// The `(code, docs)` pairs of a list of decoded sections, if each has both fields.
pub open spec fn raw_section_list(l: Seq<Seq<(Seq<char>, Seq<char>)>>) -> Option<
    Seq<(Seq<char>, Seq<char>)>,
>
    decreases l.len(),
{
    if l.len() == 0 {
        Some(Seq::empty())
    } else {
        match (raw_section_list(l.drop_last()), value_at(l.last(), "code"@), value_at(l.last(), "docs"@)) {
            (Some(p), Some(c), Some(d)) => Some(p.push((c, d))),
            _ => None,
        }
    }
}

/// The `(code, docs)` pairs that a notebook file holds, if it decodes.
pub open spec fn notebook_raw_sections(content: Seq<char>) -> Option<Seq<(Seq<char>, Seq<char>)>> {
    match yaml_document(content) {
        Some(doc) => match value_at(doc, "sections"@) {
            Some(l) => raw_section_list(l),
            None => None,
        },
        None => None,
    }
}

/// The first line of `s`.
pub open spec fn first_line(s: Seq<char>) -> Seq<char> {
    match first_index_of(s, '\n') {
        Some(i) => s.take(i),
        None => s,
    }
}

/// The header of a section's docs: the first line, trimmed, when it begins with `#`.
pub open spec fn header_of(docs: Seq<char>) -> Option<Seq<char>> {
    let t = trimmed(first_line(docs));
    if t.len() > 0 && t[0] == '#' {
        Some(t)
    } else {
        None
    }
}

/// The reference that a link destination makes: split at its first `#`; none when it
/// has no `#` or when both halves are empty.
pub open spec fn reference_of_link(dest: Seq<char>) -> Option<RefView> {
    match first_index_of(dest, '#') {
        Some(i) => {
            let p = dest.take(i);
            let h = dest.skip(i + 1);
            if p.len() > 0 || h.len() > 0 {
                Some(RefView { path: p, header: h })
            } else {
                None
            }
        },
        None => None,
    }
}

/// The references made by the links among `events`, in order.
pub open spec fn references_of_links(events: Seq<Option<Seq<char>>>) -> Seq<RefView> {
    events.filter_map(
        |e: Option<Seq<char>>|
            match e {
                Some(d) => reference_of_link(d),
                None => None,
            },
    )
}

/// The section made from a decoded `(code, docs)` pair.
pub open spec fn section_of_raw(code: Seq<char>, docs: Seq<char>) -> SectionView {
    SectionView {
        code,
        docs,
        header: header_of(docs),
        references: references_of_links(markdown_link_starts(docs)),
    }
}

/// The sections of a notebook file, if it decodes.
pub open spec fn notebook_sections(content: Seq<char>) -> Option<Seq<SectionView>> {
    match notebook_raw_sections(content) {
        Some(raw) => Some(raw.map_values(|p: (Seq<char>, Seq<char>)| section_of_raw(p.0, p.1))),
        None => None,
    }
}

/// Section `j` has an anchor that an earlier section has too.
pub open spec fn repeats_earlier(ss: Seq<SectionView>, j: int) -> bool {
    &&& section_anchor(ss[j]) is Some
    &&& exists|i: int| 0 <= i < j && section_anchor(ss[i]) == section_anchor(ss[j])
}

/// The anchor of the first section that repeats an earlier anchor.
pub open spec fn first_duplicate_anchor(ss: Seq<SectionView>) -> Option<Seq<char>>
    decreases ss.len(),
{
    if ss.len() == 0 {
        None
    } else {
        match first_duplicate_anchor(ss.drop_last()) {
            Some(a) => Some(a),
            None => if repeats_earlier(ss, ss.len() - 1) {
                section_anchor(ss.last())
            } else {
                None
            },
        }
    }
}

/// No two sections share an anchor.
pub open spec fn anchors_unique(ss: Seq<SectionView>) -> bool {
    forall|i: int, j: int|
        0 <= i < j < ss.len() && (#[trigger] section_anchor(ss[i])) is Some ==> section_anchor(ss[i])
            != #[trigger] section_anchor(ss[j])
}

proof fn lemma_first_duplicate_prefix(ss: Seq<SectionView>, k: int)
    requires
        0 <= k <= ss.len(),
        first_duplicate_anchor(ss.take(k)) is Some,
    ensures
        first_duplicate_anchor(ss) == first_duplicate_anchor(ss.take(k)),
    decreases ss.len() - k,
{
    if k < ss.len() {
        assert(ss.drop_last().take(k) == ss.take(k));
        lemma_first_duplicate_prefix(ss.drop_last(), k);
    } else {
        assert(ss.take(k) == ss);
    }
}

/// A notebook has no repeated anchor exactly when no first repetition exists.
pub proof fn lemma_unique_iff_no_duplicate(ss: Seq<SectionView>)
    ensures
        anchors_unique(ss) <==> first_duplicate_anchor(ss) is None,
    decreases ss.len(),
{
    if ss.len() > 0 {
        let p = ss.drop_last();
        lemma_unique_iff_no_duplicate(p);
        let j = ss.len() - 1;
        if anchors_unique(ss) {
            assert(anchors_unique(p)) by {
                assert forall|i: int, k: int|
                    0 <= i < k < p.len() && (#[trigger] section_anchor(p[i])) is Some implies section_anchor(p[i])
                        != #[trigger] section_anchor(p[k]) by {
                    assert(p[i] == ss[i] && p[k] == ss[k]);
                }
            }
            if repeats_earlier(ss, j) {
                let i = choose|i: int| 0 <= i < j && section_anchor(ss[i]) == section_anchor(ss[j]);
                assert(section_anchor(ss[i]) != section_anchor(ss[j]));
            }
        }
        if first_duplicate_anchor(ss) is None {
            assert(anchors_unique(p));
            assert(!repeats_earlier(ss, j));
            assert forall|i: int, k: int|
                0 <= i < k < ss.len() && (#[trigger] section_anchor(ss[i])) is Some implies section_anchor(ss[i])
                    != #[trigger] section_anchor(ss[k]) by {
                if k < j {
                    assert(p[i] == ss[i] && p[k] == ss[k]);
                } else {
                    if section_anchor(ss[i]) == section_anchor(ss[k]) {
                        assert(repeats_earlier(ss, j));
                    }
                }
            }
        }
    }
}

/// A section of a notebook file as it is stored: code and docs.
#[derive(Debug)]
pub struct RawSection {
    pub code: String,
    pub docs: String,
}

impl RawSection {
    /// The raw header, with its `#`s: the first line of the docs, trimmed, when it
    /// begins with `#`.
    pub fn get_header(&self) -> (r: Option<String>)
        ensures
            opt_view(r) == header_of(self.docs@),
    {
        let v = chars_of(self.docs.as_str());
        let line = match find_char(&v, '\n') {
            Some(i) => slice_vec(&v, 0, i),
            None => v,
        };
        let t = trim_vec(&line);
        if t.len() > 0 && t[0] == '#' {
            Some(string_of(&t))
        } else {
            None
        }
    }

    /// The references to other sections made by the links of the docs.
    pub fn get_references(&self) -> (r: Vec<Reference>)
        ensures
            r@.map_values(|x: Reference| x@) == references_of_links(
                markdown_link_starts(self.docs@),
            ),
    {
        let events = link_events(self.docs.as_str());
        references_from_links(&events)
    }
}

/// The reference that a link destination makes, if any.
pub fn reference_from_link(dest: &String) -> (r: Option<Reference>)
    ensures
        match r {
            Some(x) => reference_of_link(dest@) == Some(x@),
            None => reference_of_link(dest@) is None,
        },
{
    let v = chars_of(dest.as_str());
    let n = v.len();
    match find_char(&v, '#') {
        Some(i) => {
            if i > 0 || i + 1 < n {
                let path = string_of_range(&v, 0, i);
                let header = string_of_range(&v, i + 1, n);
                assert(v@.subrange(i + 1, v@.len() as int) == v@.skip(i + 1));
                Some(Reference { path, header })
            } else {
                None
            }
        },
        None => None,
    }
}

/// The references made by the links among `events` (one entry per markdown event, the
/// destination of those that open a link), in order.
pub fn references_from_links(events: &Vec<Option<String>>) -> (r: Vec<Reference>)
    ensures
        r@.map_values(|x: Reference| x@) == references_of_links(events.deep_view()),
{
    let ghost ev = events.deep_view();
    let mut out: Vec<Reference> = Vec::new();
    let mut i: usize = 0;
    while i < events.len()
        invariant
            i <= events@.len(),
            ev == events.deep_view(),
            out@.map_values(|x: Reference| x@) == references_of_links(ev.take(i as int)),
        decreases events@.len() - i,
    {
        assert(ev.take(i + 1).drop_last() == ev.take(i as int));
        assert(ev[i as int] == opt_view(events@[i as int]));
        match &events[i] {
            Some(d) => {
                match reference_from_link(d) {
                    Some(x) => {
                        let ghost before = out@;
                        out.push(x);
                        assert(out@.map_values(|x: Reference| x@) =~= before.map_values(
                            |x: Reference| x@,
                        ) + seq![x@]);
                    },
                    None => {},
                }
            },
            None => {},
        }
        i += 1;
    }
    assert(ev.take(ev.len() as int) == ev);
    out
}

/// Position of the first entry whose key is `key`.
fn find_entry<V: DeepView>(entries: &Vec<(String, V)>, key: &String) -> (r: Option<usize>)
    ensures
        match r {
            Some(i) => i < entries@.len() && value_at(entries.deep_view(), key@) == Some(
                entries@[i as int].1.deep_view(),
            ),
            None => value_at(entries.deep_view(), key@) is None,
        },
{
    let ghost dv = entries.deep_view();
    assert(dv.skip(0) == dv);
    let mut i: usize = 0;
    while i < entries.len()
        invariant
            i <= entries@.len(),
            dv == entries.deep_view(),
            value_at(dv, key@) == value_at(dv.skip(i as int), key@),
        decreases entries@.len() - i,
    {
        assert(dv.skip(i as int)[0] == dv[i as int]);
        assert(dv.skip(i as int).drop_first() == dv.skip(i + 1));
        if entries[i].0.eq(key) {
            return Some(i);
        }
        i += 1;
    }
    None
}

proof fn lemma_raw_list_prefix(l: Seq<Seq<(Seq<char>, Seq<char>)>>, k: int)
    requires
        0 <= k <= l.len(),
        raw_section_list(l.take(k)) is None,
    ensures
        raw_section_list(l) is None,
    decreases l.len() - k,
{
    if k < l.len() {
        assert(l.drop_last().take(k) == l.take(k));
        lemma_raw_list_prefix(l.drop_last(), k);
    } else {
        assert(l.take(k) == l);
    }
}

pub open spec fn raw_view(v: Seq<RawSection>) -> Seq<(Seq<char>, Seq<char>)> {
    v.map_values(|s: RawSection| (s.code@, s.docs@))
}

/// The sections of a decoded document, if it holds them all with both fields.
fn raw_sections(doc: &Vec<(String, Vec<Vec<(String, String)>>)>) -> (r: Option<Vec<RawSection>>)
    ensures
        match r {
            Some(v) => value_at(doc.deep_view(), "sections"@) is Some && raw_section_list(
                value_at(doc.deep_view(), "sections"@)->0,
            ) == Some(raw_view(v@)),
            None => value_at(doc.deep_view(), "sections"@) is None || raw_section_list(
                value_at(doc.deep_view(), "sections"@)->0,
            ) is None,
        },
{
    let sections_key = String::from_str("sections");
    let code_key = String::from_str("code");
    let docs_key = String::from_str("docs");
    let k = match find_entry(doc, &sections_key) {
        Some(k) => k,
        None => return None,
    };
    let list = &doc[k].1;
    let ghost l = list.deep_view();
    assert(value_at(doc.deep_view(), "sections"@) == Some(l));
    let mut out: Vec<RawSection> = Vec::new();
    let mut i: usize = 0;
    while i < list.len()
        invariant
            i <= list@.len(),
            l == list.deep_view(),
            value_at(doc.deep_view(), "sections"@) == Some(l),
            code_key@ == "code"@,
            docs_key@ == "docs"@,
            raw_section_list(l.take(i as int)) == Some(raw_view(out@)),
        decreases list@.len() - i,
    {
        assert(l.take(i + 1).drop_last() == l.take(i as int));
        assert(l.take(i + 1).last() == list@[i as int].deep_view());
        let entries = &list[i];
        let c = find_entry(entries, &code_key);
        let d = find_entry(entries, &docs_key);
        match (c, d) {
            (Some(c), Some(d)) => {
                let ghost before = out@;
                out.push(RawSection { code: entries[c].1.clone(), docs: entries[d].1.clone() });
                assert(raw_view(out@) =~= raw_view(before).push((entries@[c as int].1@, entries@[d as int].1@)));
            },
            _ => {
                proof {
                    lemma_raw_list_prefix(l, i + 1);
                }
                return None;
            },
        }
        i += 1;
    }
    assert(l.take(l.len() as int) == l);
    Some(out)
}

/// The sections of a notebook file, in order.
#[derive(Debug)]
pub struct LiterateFile {
    pub sections: Vec<Section>,
}

impl LiterateFile {
    /// Decodes a notebook file. Fails with `DuplicateHeader` carrying the anchor of the
    /// first section whose anchor an earlier section already has, and with
    /// `CannotReadFile` when the content does not decode. References are not checked.
    pub fn new(content: &str) -> (r: Result<LiterateFile, LPError>)
        ensures
            match r {
                Ok(f) => notebook_sections(content@) == Some(sections_view(f.sections@))
                    && anchors_unique(sections_view(f.sections@)),
                Err(LPError::DuplicateHeader(a)) => notebook_sections(content@) is Some
                    && first_duplicate_anchor(notebook_sections(content@)->0) == Some(a@),
                Err(LPError::CannotReadFile(_)) => notebook_sections(content@) is None,
                Err(_) => false,
            },
            notebook_sections(content@) is Some && !anchors_unique(notebook_sections(content@)->0)
                ==> r matches Err(LPError::DuplicateHeader(_)),
    {
        let doc = match decode_yaml(content) {
            Ok(d) => d,
            Err(m) => return Err(LPError::CannotReadFile(m)),
        };
        let raws = match raw_sections(&doc) {
            Some(r) => r,
            None => return Err(
                LPError::CannotReadFile(
                    String::from_str("each section needs the string fields `code` and `docs`"),
                ),
            ),
        };
        let ghost ss = notebook_sections(content@)->0;
        assert(ss =~= raw_view(raws@).map_values(|p: (Seq<char>, Seq<char>)| section_of_raw(p.0, p.1)));
        let mut sections: Vec<Section> = Vec::new();
        let mut anchors: Vec<Option<String>> = Vec::new();
        let mut j: usize = 0;
        while j < raws.len()
            invariant
                j <= raws@.len(),
                ss.len() == raws@.len(),
                ss == notebook_sections(content@)->0,
                notebook_sections(content@) is Some,
                forall|k: int| 0 <= k < ss.len() ==> #[trigger] ss[k] == section_of_raw(raws@[k].code@, raws@[k].docs@),
                sections_view(sections@) == ss.take(j as int),
                anchors@.len() == j,
                forall|k: int| 0 <= k < j ==> opt_view(#[trigger] anchors@[k]) == section_anchor(ss[k]),
                first_duplicate_anchor(ss.take(j as int)) is None,
            decreases raws@.len() - j,
        {
            let raw = &raws[j];
            let header = raw.get_header();
            let references = raw.get_references();
            let section = Section {
                code: raw.code.clone(),
                docs: raw.docs.clone(),
                header,
                references,
            };
            assert(section@ == ss[j as int]);
            let anchor = section.get_header();
            let ghost before = sections@;
            sections.push(section);
            assert(sections_view(sections@) =~= ss.take(j + 1)) by {
                assert(ss.take(j + 1) =~= ss.take(j as int).push(ss[j as int]));
            }
            let ghost t = ss.take(j + 1);
            assert(t.drop_last() == ss.take(j as int));
            match anchor {
                Some(h) => {
                    let mut found = false;
                    let mut i: usize = 0;
                    while i < j
                        invariant
                            i <= j,
                            anchors@.len() == j,
                            found <==> exists|k: int| 0 <= k < i && opt_view(anchors@[k]) == Some(h@),
                        decreases j - i,
                    {
                        match &anchors[i] {
                            Some(a) => {
                                if a.eq(&h) {
                                    found = true;
                                }
                            },
                            None => {},
                        }
                        i += 1;
                    }
                    if found {
                        assert(repeats_earlier(t, j as int)) by {
                            let k = choose|k: int| 0 <= k < j && opt_view(anchors@[k]) == Some(h@);
                            assert(t[k] == ss[k]);
                        }
                        proof {
                            lemma_first_duplicate_prefix(ss, j + 1);
                        }
                        return Err(LPError::DuplicateHeader(h));
                    }
                    assert(!repeats_earlier(t, j as int)) by {
                        if repeats_earlier(t, j as int) {
                            let k = choose|k: int| 0 <= k < j && section_anchor(t[k]) == section_anchor(t[j as int]);
                            assert(t[k] == ss[k]);
                            assert(opt_view(anchors@[k]) == Some(h@));
                        }
                    }
                    anchors.push(Some(h));
                },
                None => {
                    anchors.push(None);
                },
            }
            j += 1;
        }
        assert(ss.take(ss.len() as int) == ss);
        proof {
            lemma_unique_iff_no_duplicate(ss);
        }
        Ok(LiterateFile { sections })
    }
}

} // verus!
