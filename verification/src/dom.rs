//! The document model: a flat arena of elements in document order,
//! upward ancestor search, and document-order heading association.

use crate::text::{eq_ci, str_eq, str_eq_ci, trim, trim_text};
use vstd::prelude::*;

verus! {

/// One element of the parsed document, reduced to the plain values the
/// extraction algorithms read.
pub struct Elem {
    /// Tag name as the parser reported it.
    pub tag: String,
    /// The `id` attribute, when present.
    pub id: Option<String>,
    /// The `class` attribute, when present.
    pub class: Option<String>,
    /// The `role` attribute, when present.
    pub role: Option<String>,
    /// The `name` attribute, when present.
    pub name: Option<String>,
    /// The `property` attribute, when present.
    pub property: Option<String>,
    /// The `content` attribute, when present.
    pub content: Option<String>,
    /// The element's raw inner markup.
    pub inner: String,
    /// Index of the nearest enclosing element, if any.
    pub parent: Option<usize>,
}

/// A parsed document: its elements in document order (depth-first,
/// pre-order), so that the index of an element is its document-order
/// rank.
pub struct Doc {
    pub elems: Vec<Elem>,
}

impl Doc {
    /// Well-formed: every parent comes strictly earlier in document
    /// order, as pre-order traversal guarantees.
    pub open spec fn wf(self) -> bool {
        forall|i: int|
            0 <= i < self.elems@.len() ==> (#[trigger] self.elems@[i].parent matches Some(p) ==> p
                < i)
    }

    pub open spec fn len(self) -> int {
        self.elems@.len() as int
    }

    pub open spec fn at(self, i: int) -> Elem {
        self.elems@[i]
    }
}

/// `a` is a strict ancestor of `i`: it lies on `i`'s parent chain.
pub open spec fn anc(doc: Doc, i: int, a: int) -> bool
    decreases i,
        when doc.wf() && 0 <= i < doc.len()
{
    match doc.at(i).parent {
        None => false,
        Some(p) => p == a || anc(doc, p as int, a),
    }
}

/// The nearest ancestor of `i` whose tag equals `tag` up to ASCII case,
/// walking strictly upward.
pub open spec fn find_anc_tag(doc: Doc, i: int, tag: Seq<char>) -> Option<int>
    decreases i,
        when doc.wf() && 0 <= i < doc.len()
{
    match doc.at(i).parent {
        None => None,
        Some(p) => if eq_ci(doc.at(p as int).tag@, tag) {
            Some(p as int)
        } else {
            find_anc_tag(doc, p as int, tag)
        },
    }
}

/// A sectioning element: `section`, `article`, or a `div` whose `role`
/// attribute is exactly `main`.
pub open spec fn is_section_elem(e: Elem) -> bool {
    ||| eq_ci(e.tag@, "section"@)
    ||| eq_ci(e.tag@, "article"@)
    ||| (eq_ci(e.tag@, "div"@) && (e.role matches Some(r) && r@ == "main"@))
}

/// An upward-search criterion: a specific tag name, or any sectioning
/// element.
pub enum Selector {
    Tag(String),
    Section,
}

pub open spec fn sel_match(sel: Selector, e: Elem) -> bool {
    match sel {
        Selector::Tag(t) => eq_ci(e.tag@, t@),
        Selector::Section => is_section_elem(e),
    }
}

/// The nearest ancestor of `i` matching `sel`, walking strictly upward.
pub open spec fn find_anc_sel(doc: Doc, i: int, sel: Selector) -> Option<int>
    decreases i,
        when doc.wf() && 0 <= i < doc.len()
{
    match doc.at(i).parent {
        None => None,
        Some(p) => if sel_match(sel, doc.at(p as int)) {
            Some(p as int)
        } else {
            find_anc_sel(doc, p as int, sel)
        },
    }
}

pub fn elem_matches_selector(e: &Elem, sel: &Selector) -> (r: bool)
    ensures
        r == sel_match(*sel, *e),
{
    match sel {
        Selector::Tag(t) => str_eq_ci(e.tag.as_str(), t.as_str()),
        Selector::Section => {
            str_eq_ci(e.tag.as_str(), "section") || str_eq_ci(e.tag.as_str(), "article") || (
            str_eq_ci(e.tag.as_str(), "div") && match &e.role {
                Some(r) => str_eq(r.as_str(), "main"),
                None => false,
            })
        },
    }
}

/// Nearest ancestor matching the selector, or nothing before the root.
pub fn find_parent_with_selector(doc: &Doc, start: usize, sel: &Selector) -> (r: Option<usize>)
    requires
        doc.wf(),
        start < doc.elems.len(),
    ensures
        match r {
            Some(j) => j < doc.elems.len() && find_anc_sel(*doc, start as int, *sel) == Some(
                j as int,
            ),
            None => find_anc_sel(*doc, start as int, *sel) is None,
        },
{
    let mut cur = start;
    loop
        invariant
            doc.wf(),
            cur < doc.elems.len(),
            find_anc_sel(*doc, start as int, *sel) == find_anc_sel(*doc, cur as int, *sel),
        decreases cur,
    {
        let p = doc.elems[cur].parent;
        match p {
            None => {
                return None;
            },
            Some(pp) => {
                if elem_matches_selector(&doc.elems[pp], sel) {
                    return Some(pp);
                } else {
                    cur = pp;
                }
            },
        }
    }
}

/// Nearest ancestor with the given tag name, compared without regard
/// to ASCII case, or nothing before the root.
pub fn find_parent_with_tag(doc: &Doc, start: usize, tag: &str) -> (r: Option<usize>)
    requires
        doc.wf(),
        start < doc.elems.len(),
    ensures
        match r {
            Some(j) => j < doc.elems.len() && find_anc_tag(*doc, start as int, tag@) == Some(
                j as int,
            ),
            None => find_anc_tag(*doc, start as int, tag@) is None,
        },
{
    let mut cur = start;
    loop
        invariant
            doc.wf(),
            cur < doc.elems.len(),
            find_anc_tag(*doc, start as int, tag@) == find_anc_tag(*doc, cur as int, tag@),
        decreases cur,
    {
        let p = doc.elems[cur].parent;
        match p {
            None => {
                return None;
            },
            Some(pp) => {
                if str_eq_ci(doc.elems[pp].tag.as_str(), tag) {
                    return Some(pp);
                } else {
                    cur = pp;
                }
            },
        }
    }
}

/// Whether `i` is inside a `tfoot` element.
pub open spec fn in_tfoot(doc: Doc, i: int) -> bool {
    find_anc_tag(doc, i, "tfoot"@) is Some
}

pub fn elem_in_tfoot(doc: &Doc, i: usize) -> (r: bool)
    requires
        doc.wf(),
        i < doc.elems.len(),
    ensures
        r == in_tfoot(*doc, i as int),
{
    find_parent_with_tag(doc, i, "tfoot").is_some()
}

/// Whether `a` lies on `i`'s parent chain, decided by walking upward.
pub fn elem_has_ancestor(doc: &Doc, i: usize, a: usize) -> (r: bool)
    requires
        doc.wf(),
        i < doc.elems.len(),
    ensures
        r == anc(*doc, i as int, a as int),
{
    let mut cur = i;
    loop
        invariant
            doc.wf(),
            cur < doc.elems.len(),
            anc(*doc, i as int, a as int) == anc(*doc, cur as int, a as int),
        decreases cur,
    {
        let p = doc.elems[cur].parent;
        match p {
            None => {
                return false;
            },
            Some(pp) => {
                if pp == a {
                    return true;
                } else {
                    cur = pp;
                }
            },
        }
    }
}

pub open spec fn is_heading_elem(e: Elem) -> bool {
    ||| eq_ci(e.tag@, "h1"@)
    ||| eq_ci(e.tag@, "h2"@)
    ||| eq_ci(e.tag@, "h3"@)
    ||| eq_ci(e.tag@, "h4"@)
    ||| eq_ci(e.tag@, "h5"@)
    ||| eq_ci(e.tag@, "h6"@)
}

pub fn elem_is_heading(e: &Elem) -> (r: bool)
    ensures
        r == is_heading_elem(*e),
{
    str_eq_ci(e.tag.as_str(), "h1") || str_eq_ci(e.tag.as_str(), "h2") || str_eq_ci(
        e.tag.as_str(),
        "h3",
    ) || str_eq_ci(e.tag.as_str(), "h4") || str_eq_ci(e.tag.as_str(), "h5") || str_eq_ci(
        e.tag.as_str(),
        "h6",
    )
}

/// The heading element nearest before position `t` in document order.
pub open spec fn prev_heading(doc: Doc, t: int) -> Option<int>
    decreases t,
        when 0 <= t
{
    if t <= 0 {
        None
    } else if is_heading_elem(doc.at(t - 1)) {
        Some(t - 1)
    } else {
        prev_heading(doc, t - 1)
    }
}

/// Law: the heading association picks the nearest preceding heading —
/// the chosen heading precedes the table and no heading lies between
/// the two; when none is chosen, no heading precedes the table at all.
pub proof fn lemma_prev_heading_nearest(doc: Doc, t: int)
    requires
        0 <= t,
    ensures
        match prev_heading(doc, t) {
            Some(h) => 0 <= h < t && is_heading_elem(doc.at(h)) && forall|k: int|
                h < k < t ==> !is_heading_elem(#[trigger] doc.at(k)),
            None => forall|k: int| 0 <= k < t ==> !is_heading_elem(#[trigger] doc.at(k)),
        },
    decreases t,
{
    if t > 0 && !is_heading_elem(doc.at(t - 1)) {
        lemma_prev_heading_nearest(doc, t - 1);
    }
}

/// The trimmed text of the nearest heading preceding `table` in
/// document order, or nothing when no heading precedes it.
pub fn find_preceding_heading(doc: &Doc, table: usize) -> (r: Option<String>)
    requires
        table <= doc.elems.len(),
    ensures
        match prev_heading(*doc, table as int) {
            Some(h) => r matches Some(s) && s@ == trim(doc.elems@[h].inner@),
            None => r is None,
        },
{
    let mut i = table;
    while i > 0
        invariant
            i <= table <= doc.elems.len(),
            prev_heading(*doc, table as int) == prev_heading(*doc, i as int),
        decreases i,
    {
        if elem_is_heading(&doc.elems[i - 1]) {
            return Some(trim_text(doc.elems[i - 1].inner.as_str()));
        }
        i -= 1;
    }
    None
}

/// `anc` is transitive along the parent chain.
pub proof fn lemma_anc_trans(doc: Doc, i: int, a: int, b: int)
    requires
        doc.wf(),
        0 <= i < doc.len(),
        0 <= a < doc.len(),
        anc(doc, i, a),
        anc(doc, a, b),
    ensures
        anc(doc, i, b),
    decreases i,
{
    match doc.at(i).parent {
        None => {},
        Some(p) => {
            if p == a {
            } else {
                lemma_anc_trans(doc, p as int, a, b);
            }
        },
    }
}

/// A found tagged ancestor really is an ancestor with that tag.
pub proof fn lemma_find_anc_tag_sound(doc: Doc, i: int, tag: Seq<char>)
    requires
        doc.wf(),
        0 <= i < doc.len(),
        find_anc_tag(doc, i, tag) is Some,
    ensures
        find_anc_tag(doc, i, tag) matches Some(a) && 0 <= a < doc.len() && anc(doc, i, a) && eq_ci(
            doc.at(a).tag@,
            tag,
        ),
    decreases i,
{
    match doc.at(i).parent {
        None => {},
        Some(p) => {
            if eq_ci(doc.at(p as int).tag@, tag) {
            } else {
                lemma_find_anc_tag_sound(doc, p as int, tag);
                assert forall|a: int| anc(doc, p as int, a) implies anc(doc, i, a) by {}
            }
        },
    }
}

/// If some ancestor bears the tag, the upward search finds one.
pub proof fn lemma_find_anc_tag_complete(doc: Doc, i: int, a: int, tag: Seq<char>)
    requires
        doc.wf(),
        0 <= i < doc.len(),
        0 <= a < doc.len(),
        anc(doc, i, a),
        eq_ci(doc.at(a).tag@, tag),
    ensures
        find_anc_tag(doc, i, tag) is Some,
    decreases i,
{
    match doc.at(i).parent {
        None => {},
        Some(p) => {
            if p == a {
            } else if eq_ci(doc.at(p as int).tag@, tag) {
            } else {
                lemma_find_anc_tag_complete(doc, p as int, a, tag);
            }
        },
    }
}

/// Law: the rows of a table that itself sits inside a `tfoot` element
/// are all inside that `tfoot` too, whatever cells they hold.
pub proof fn lemma_tfoot_descendants(doc: Doc, t: int, r: int)
    requires
        doc.wf(),
        0 <= t < doc.len(),
        0 <= r < doc.len(),
        in_tfoot(doc, t),
        anc(doc, r, t),
    ensures
        in_tfoot(doc, r),
{
    lemma_find_anc_tag_sound(doc, t, "tfoot"@);
    let a = find_anc_tag(doc, t, "tfoot"@).unwrap();
    lemma_anc_trans(doc, r, t, a);
    lemma_find_anc_tag_complete(doc, r, a, "tfoot"@);
}

} // verus!
