//! The table extractor and page scanner: per-table structure,
//! contextual metadata, and the ordered list of extracted tables.

use crate::classify::{
    cell_texts, clamped_data_count, column_count, compute_data_row_count, count_footer_rows,
    count_header_rows, extract_cells, footer_run, header_run, rows_of_table,
    table_rows,
};
use crate::dom::{find_anc_sel, prev_heading, Doc, Selector};
use crate::text::{eq_ci, str_eq, str_eq_ci, trim, trim_text};
use vstd::prelude::*;

verus! {

/// Identifying and contextual attributes of one extracted table.
pub struct TableMetadata {
    pub id: Option<String>,
    pub class: Option<String>,
    pub caption: Option<String>,
    pub position: usize,
    pub row_count: usize,
    pub column_count: usize,
    pub header_row_count: usize,
    pub footer_row_count: usize,
    pub parent_section: Option<String>,
    pub preceding_heading: Option<String>,
}

/// The textual content of one extracted table.
pub struct TableData {
    pub headers: Vec<String>,
    pub rows: Vec<Vec<String>>,
}

/// One extracted table record.
pub struct Table {
    pub metadata: TableMetadata,
    pub data: TableData,
}

/// Page-level descriptive metadata.
pub struct PageMetadata {
    pub url: String,
    pub title: Option<String>,
    pub description: Option<String>,
    pub author: Option<String>,
    pub published_date: Option<String>,
    pub last_modified: Option<String>,
}

/// Everything one extraction run produces.
pub struct ExtractionResult {
    pub page: PageMetadata,
    pub tables: Vec<Table>,
    pub extraction_time_ms: u128,
}

pub open spec fn opt_text(o: Option<String>) -> Option<Seq<char>> {
    match o {
        None => None,
        Some(s) => Some(s@),
    }
}

fn clone_opt_string(o: &Option<String>) -> (r: Option<String>)
    ensures
        opt_text(r) == opt_text(*o),
{
    match o {
        None => None,
        Some(s) => Some(s.clone()),
    }
}

/// The first descendant of `a` with the given tag at or after
/// position `j`, in document order.
pub open spec fn first_desc_from(doc: Doc, a: int, tag: Seq<char>, j: int) -> Option<int>
    decreases doc.len() - j,
{
    if j < 0 || j >= doc.len() {
        None
    } else if crate::dom::anc(doc, j, a) && eq_ci(doc.at(j).tag@, tag) {
        Some(j)
    } else {
        first_desc_from(doc, a, tag, j + 1)
    }
}

/// The first element with the given tag at or after position `j`.
pub open spec fn first_tag_from(doc: Doc, tag: Seq<char>, j: int) -> Option<int>
    decreases doc.len() - j,
{
    if j < 0 || j >= doc.len() {
        None
    } else if eq_ci(doc.at(j).tag@, tag) {
        Some(j)
    } else {
        first_tag_from(doc, tag, j + 1)
    }
}

/// The trimmed text of a table's first `caption` descendant.
pub open spec fn caption_text(doc: Doc, t: int) -> Option<Seq<char>> {
    match first_desc_from(doc, t, "caption"@, 0) {
        None => None,
        Some(c) => Some(trim(doc.at(c).inner@)),
    }
}

/// The identifier of the nearest enclosing sectioning element: its
/// `id` attribute when present, else its `class` attribute.
pub open spec fn section_label(doc: Doc, t: int) -> Option<Seq<char>> {
    match find_anc_sel(doc, t, Selector::Section) {
        None => None,
        Some(s) => if doc.at(s).id is Some {
            opt_text(doc.at(s).id)
        } else {
            opt_text(doc.at(s).class)
        },
    }
}

/// The trimmed text of the nearest preceding heading.
pub open spec fn heading_text(doc: Doc, t: int) -> Option<Seq<char>> {
    match prev_heading(doc, t) {
        None => None,
        Some(h) => Some(trim(doc.at(h).inner@)),
    }
}

pub open spec fn header_count(doc: Doc, t: int) -> int {
    header_run(doc, table_rows(doc, t))
}

pub open spec fn footer_count(doc: Doc, t: int) -> int {
    footer_run(doc, table_rows(doc, t))
}

pub open spec fn data_count(doc: Doc, t: int) -> int {
    clamped_data_count(table_rows(doc, t).len() as int, header_count(doc, t), footer_count(doc, t))
}

/// The column headers: the normalized texts of the first row's header
/// cells, when a header zone exists; empty otherwise.
pub open spec fn headers_of(doc: Doc, t: int) -> Seq<Seq<char>> {
    if header_count(doc, t) > 0 {
        cell_texts(doc, table_rows(doc, t)[0], "th"@)
    } else {
        Seq::empty()
    }
}

/// The data rows: for each row after the header zone and before the
/// footer zone, the normalized texts of its ordinary cells.
pub open spec fn data_rows_of(doc: Doc, t: int) -> Seq<Seq<Seq<char>>> {
    Seq::new(
        data_count(doc, t) as nat,
        |i: int| cell_texts(doc, table_rows(doc, t)[header_count(doc, t) + i], "td"@),
    )
}

/// The column count is a maximum: no row is wider, and some row (when
/// any exists) reaches it.
pub open spec fn column_count_ok(doc: Doc, t: int, c: int) -> bool {
    let rows = table_rows(doc, t);
    &&& rows.len() == 0 ==> c == 0
    &&& forall|i: int|
        0 <= i < rows.len() ==> crate::classify::row_width(doc, #[trigger] rows[i]) <= c
    &&& rows.len() > 0 ==> exists|i: int|
        0 <= i < rows.len() && c == crate::classify::row_width(doc, #[trigger] rows[i])
}

/// What it means for `tbl` to be the record of the table at element
/// index `t`, reported at 1-based position `pos`.
pub open spec fn table_matches(doc: Doc, t: int, pos: int, tbl: Table) -> bool {
    &&& opt_text(tbl.metadata.id) == opt_text(doc.at(t).id)
    &&& opt_text(tbl.metadata.class) == opt_text(doc.at(t).class)
    &&& opt_text(tbl.metadata.caption) == caption_text(doc, t)
    &&& tbl.metadata.position == pos
    &&& tbl.metadata.row_count == table_rows(doc, t).len()
    &&& column_count_ok(doc, t, tbl.metadata.column_count as int)
    &&& tbl.metadata.header_row_count == header_count(doc, t)
    &&& tbl.metadata.footer_row_count == footer_count(doc, t)
    &&& opt_text(tbl.metadata.parent_section) == section_label(doc, t)
    &&& opt_text(tbl.metadata.preceding_heading) == heading_text(doc, t)
    &&& tbl.data.headers.deep_view() == headers_of(doc, t)
    &&& tbl.data.rows.deep_view() == data_rows_of(doc, t)
}

/// First descendant of `a` carrying the given tag, by forward scan.
fn find_first_desc(doc: &Doc, a: usize, tag: &str) -> (r: Option<usize>)
    requires
        doc.wf(),
        a < doc.elems.len(),
    ensures
        match r {
            Some(j) => j < doc.elems.len() && first_desc_from(*doc, a as int, tag@, 0) == Some(
                j as int,
            ),
            None => first_desc_from(*doc, a as int, tag@, 0) is None,
        },
{
    let n = doc.elems.len();
    let mut j: usize = 0;
    while j < n
        invariant
            doc.wf(),
            a < n == doc.elems.len(),
            j <= n,
            first_desc_from(*doc, a as int, tag@, 0) == first_desc_from(
                *doc,
                a as int,
                tag@,
                j as int,
            ),
        decreases n - j,
    {
        if str_eq_ci(doc.elems[j].tag.as_str(), tag) && crate::dom::elem_has_ancestor(doc, j, a) {
            return Some(j);
        }
        j += 1;
    }
    None
}

/// Extract one table's record: attributes, caption, enclosing section,
/// preceding heading, classified rows, headers, data rows and column
/// count.
pub fn extract_one_table(doc: &Doc, t: usize, pos: usize) -> (r: Table)
    requires
        doc.wf(),
        t < doc.elems.len(),
    ensures
        table_matches(*doc, t as int, pos as int, r),
{
    let id = clone_opt_string(&doc.elems[t].id);
    let class = clone_opt_string(&doc.elems[t].class);
    let caption = match find_first_desc(doc, t, "caption") {
        None => None,
        Some(c) => Some(trim_text(doc.elems[c].inner.as_str())),
    };
    let parent_section = match crate::dom::find_parent_with_selector(doc, t, &Selector::Section) {
        None => None,
        Some(s) => {
            if doc.elems[s].id.is_some() {
                clone_opt_string(&doc.elems[s].id)
            } else {
                clone_opt_string(&doc.elems[s].class)
            }
        },
    };
    let preceding_heading = crate::dom::find_preceding_heading(doc, t);
    let rows = rows_of_table(doc, t);
    let row_count = rows.len();
    let h = count_header_rows(doc, &rows);
    let f = count_footer_rows(doc, &rows);
    let d = compute_data_row_count(row_count, h, f);
    let c = column_count(doc, &rows);
    let headers = if h > 0 {
        extract_cells(doc, rows[0], "th")
    } else {
        Vec::new()
    };
    let ghost rows_int = rows@.map_values(|x: usize| x as int);
    proof {
        assert(rows_int == table_rows(*doc, t as int));
        assert forall|k: int| 0 <= k < rows_int.len() implies #[trigger] rows_int[k] == rows@[k]
            as int by {}
        assert(h + d <= rows@.len());
    }
    let mut data: Vec<Vec<String>> = Vec::new();
    let mut i: usize = 0;
    while i < d
        invariant
            doc.wf(),
            t < doc.elems.len(),
            rows_int == table_rows(*doc, t as int),
            rows_int == rows@.map_values(|x: usize| x as int),
            forall|k: int| 0 <= k < rows@.len() ==> #[trigger] rows@[k] < doc.elems.len(),
            row_count == rows@.len(),
            h + d <= rows@.len(),
            i <= d,
            data@.len() == i as int,
            forall|k: int|
                0 <= k < i ==> (#[trigger] data@[k]).deep_view() == cell_texts(
                    *doc,
                    rows_int[h + k],
                    "td"@,
                ),
        decreases d - i,
    {
        proof {
            assert(h + i < rows@.len());
        }
        let row_cells = extract_cells(doc, rows[h + i], "td");
        proof {
            assert(rows@[h + i] as int == rows_int[h + i as int]);
        }
        data.push(row_cells);
        i += 1;
    }
    proof {
        assert(data.deep_view() =~= data_rows_of(*doc, t as int));
        if h > 0 {
            assert(rows_int[0] == rows@[0] as int);
            assert(headers.deep_view() == headers_of(*doc, t as int));
        } else {
            assert(headers.deep_view() =~= headers_of(*doc, t as int));
        }
        assert(column_count_ok(*doc, t as int, c as int)) by {
            assert forall|k: int| 0 <= k < rows_int.len() implies crate::classify::row_width(
                *doc,
                #[trigger] rows_int[k],
            ) <= c as int by {
                assert(rows_int[k] == rows@[k] as int);
            }
            if rows_int.len() > 0 {
                let w = choose|k: int|
                    0 <= k < rows@.len() && c == crate::classify::row_width(
                        *doc,
                        #[trigger] rows@[k] as int,
                    );
                assert(rows_int[w] == rows@[w] as int);
                assert(c == crate::classify::row_width(*doc, rows_int[w]));
            }
        }
    }
    Table {
        metadata: TableMetadata {
            id,
            class,
            caption,
            position: pos,
            row_count,
            column_count: c,
            header_row_count: h,
            footer_row_count: f,
            parent_section,
            preceding_heading,
        },
        data: TableData { headers, rows: data },
    }
}

/// The element indices below `n` whose tag is the given one, in
/// document order.
pub open spec fn tag_upto(doc: Doc, tag: Seq<char>, n: int) -> Seq<int>
    decreases n,
{
    if n <= 0 {
        Seq::empty()
    } else if 0 <= n - 1 < doc.len() && eq_ci(doc.at(n - 1).tag@, tag) {
        tag_upto(doc, tag, n - 1).push(n - 1)
    } else {
        tag_upto(doc, tag, n - 1)
    }
}

/// All `table` elements of the document, in document order.
pub open spec fn table_elems(doc: Doc) -> Seq<int> {
    tag_upto(doc, "table"@, doc.len())
}

/// Law: a document without a single `table` element yields no table
/// records at all.
pub proof fn lemma_no_tables(doc: Doc, n: int)
    requires
        forall|j: int| 0 <= j < doc.len() ==> !eq_ci(#[trigger] doc.at(j).tag@, "table"@),
    ensures
        tag_upto(doc, "table"@, n).len() == 0,
    decreases n,
{
    if n > 0 {
        lemma_no_tables(doc, n - 1);
    }
}

/// Scan the whole document: every table element, in document order,
/// becomes one record, with 1-based positions assigned in that order.
pub fn extract_tables(doc: &Doc) -> (r: Vec<Table>)
    requires
        doc.wf(),
    ensures
        r@.len() == table_elems(*doc).len(),
        forall|k: int|
            0 <= k < r@.len() ==> table_matches(*doc, table_elems(*doc)[k], k + 1, #[trigger] r@[k]),
{
    let n = doc.elems.len();
    let mut r: Vec<Table> = Vec::new();
    let mut j: usize = 0;
    while j < n
        invariant
            doc.wf(),
            n == doc.elems.len(),
            j <= n,
            r@.len() == tag_upto(*doc, "table"@, j as int).len(),
            r@.len() <= j,
            forall|k: int|
                0 <= k < r@.len() ==> table_matches(
                    *doc,
                    tag_upto(*doc, "table"@, j as int)[k],
                    k + 1,
                    #[trigger] r@[k],
                ),
        decreases n - j,
    {
        if str_eq_ci(doc.elems[j].tag.as_str(), "table") {
            let pos = r.len() + 1;
            let tbl = extract_one_table(doc, j, pos);
            r.push(tbl);
        }
        proof {
            let prev = tag_upto(*doc, "table"@, j as int);
            let next = tag_upto(*doc, "table"@, j + 1);
            assert forall|k: int| 0 <= k < prev.len() implies next[k] == prev[k] by {}
        }
        j += 1;
    }
    r
}

/// The `content` attribute of the first `meta` element whose `name` or
/// `property` attribute equals `key` exactly.
pub open spec fn first_meta_from(doc: Doc, key: Seq<char>, j: int) -> Option<int>
    decreases doc.len() - j,
{
    if j < 0 || j >= doc.len() {
        None
    } else if eq_ci(doc.at(j).tag@, "meta"@) && ((doc.at(j).name matches Some(v) && v@ == key) || (
    doc.at(j).property matches Some(v) && v@ == key)) {
        Some(j)
    } else {
        first_meta_from(doc, key, j + 1)
    }
}

pub open spec fn meta_content(doc: Doc, key: Seq<char>) -> Option<Seq<char>> {
    match first_meta_from(doc, key, 0) {
        None => None,
        Some(j) => opt_text(doc.at(j).content),
    }
}

/// The page title: the first `title` element's trimmed inner markup.
pub open spec fn title_text(doc: Doc) -> Option<Seq<char>> {
    match first_tag_from(doc, "title"@, 0) {
        None => None,
        Some(j) => Some(trim(doc.at(j).inner@)),
    }
}

pub open spec fn or_else(a: Option<Seq<char>>, b: Option<Seq<char>>) -> Option<Seq<char>> {
    match a {
        Some(v) => Some(v),
        None => b,
    }
}

/// First element of the document carrying the given tag.
fn find_first_with_tag(doc: &Doc, tag: &str) -> (r: Option<usize>)
    ensures
        match r {
            Some(j) => j < doc.elems.len() && first_tag_from(*doc, tag@, 0) == Some(j as int),
            None => first_tag_from(*doc, tag@, 0) is None,
        },
{
    let n = doc.elems.len();
    let mut j: usize = 0;
    while j < n
        invariant
            n == doc.elems.len(),
            j <= n,
            first_tag_from(*doc, tag@, 0) == first_tag_from(*doc, tag@, j as int),
        decreases n - j,
    {
        if str_eq_ci(doc.elems[j].tag.as_str(), tag) {
            return Some(j);
        }
        j += 1;
    }
    None
}

/// The lookup behind every metadata field: the first matching `meta`
/// element's `content` attribute, when both exist.
pub fn get_meta_content(doc: &Doc, key: &str) -> (r: Option<String>)
    ensures
        opt_text(r) == meta_content(*doc, key@),
{
    let n = doc.elems.len();
    let mut j: usize = 0;
    while j < n
        invariant
            n == doc.elems.len(),
            j <= n,
            first_meta_from(*doc, key@, 0) == first_meta_from(*doc, key@, j as int),
        decreases n - j,
    {
        let e = &doc.elems[j];
        let name_hit = match &e.name {
            Some(v) => str_eq(v.as_str(), key),
            None => false,
        };
        let prop_hit = match &e.property {
            Some(v) => str_eq(v.as_str(), key),
            None => false,
        };
        if str_eq_ci(e.tag.as_str(), "meta") && (name_hit || prop_hit) {
            return clone_opt_string(&e.content);
        }
        j += 1;
    }
    None
}

/// Page-level metadata: the source URL, the title element's text, and
/// a handful of named meta tags, each independently optional.
pub fn extract_page_metadata(doc: &Doc, url: &str) -> (r: PageMetadata)
    ensures
        r.url@ == url@,
        opt_text(r.title) == title_text(*doc),
        opt_text(r.description) == or_else(
            meta_content(*doc, "description"@),
            meta_content(*doc, "og:description"@),
        ),
        opt_text(r.author) == meta_content(*doc, "author"@),
        opt_text(r.published_date) == or_else(
            meta_content(*doc, "article:published_time"@),
            meta_content(*doc, "pubdate"@),
        ),
        opt_text(r.last_modified) == or_else(
            meta_content(*doc, "article:modified_time"@),
            meta_content(*doc, "lastmod"@),
        ),
{
    let title = match find_first_with_tag(doc, "title") {
        None => None,
        Some(j) => Some(trim_text(doc.elems[j].inner.as_str())),
    };
    let description = match get_meta_content(doc, "description") {
        Some(v) => Some(v),
        None => get_meta_content(doc, "og:description"),
    };
    let author = get_meta_content(doc, "author");
    let published_date = match get_meta_content(doc, "article:published_time") {
        Some(v) => Some(v),
        None => get_meta_content(doc, "pubdate"),
    };
    let last_modified = match get_meta_content(doc, "article:modified_time") {
        Some(v) => Some(v),
        None => get_meta_content(doc, "lastmod"),
    };
    PageMetadata {
        url: String::from_str(url),
        title,
        description,
        author,
        published_date,
        last_modified,
    }
}

} // verus!
