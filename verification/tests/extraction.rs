use table_extractor::dom::{Doc, Elem, Selector};
use table_extractor::extract::{extract_page_metadata, extract_tables};

fn el(tag: &str, parent: Option<usize>) -> Elem {
    Elem {
        tag: tag.to_string(),
        id: None,
        class: None,
        role: None,
        name: None,
        property: None,
        content: None,
        inner: String::new(),
        parent,
    }
}

fn el_text(tag: &str, parent: Option<usize>, inner: &str) -> Elem {
    let mut e = el(tag, parent);
    e.inner = inner.to_string();
    e
}

#[test]
fn no_tables_yields_empty_list() {
    let doc = Doc {
        elems: vec![
            el("html", None),
            el("body", Some(0)),
            el_text("p", Some(1), "no tables here"),
            el_text("h1", Some(1), "Heading"),
        ],
    };
    let tables = extract_tables(&doc);
    assert_eq!(tables.len(), 0);
}

#[test]
fn thead_and_two_body_rows_round_trip() {
    // One table: a <thead> row of three <th>s, two <tbody> rows of
    // three <td>s each.
    let doc = Doc {
        elems: vec![
            el("html", None),
            el("body", Some(0)),
            el("table", Some(1)),
            el("thead", Some(2)),
            el("tr", Some(3)),
            el_text("th", Some(4), "Name"),
            el_text("th", Some(4), "Age"),
            el_text("th", Some(4), "City"),
            el("tbody", Some(2)),
            el("tr", Some(8)),
            el_text("td", Some(9), "Ada"),
            el_text("td", Some(9), "36"),
            el_text("td", Some(9), "London"),
            el("tr", Some(8)),
            el_text("td", Some(13), "Grace"),
            el_text("td", Some(13), "45"),
            el_text("td", Some(13), "Arlington"),
        ],
    };
    let tables = extract_tables(&doc);
    assert_eq!(tables.len(), 1);
    let t = &tables[0];
    assert_eq!(t.metadata.position, 1);
    assert_eq!(t.metadata.row_count, 3);
    assert_eq!(t.metadata.header_row_count, 1);
    assert_eq!(t.metadata.footer_row_count, 0);
    assert_eq!(t.metadata.column_count, 3);
    assert_eq!(
        t.data.headers,
        vec!["Name".to_string(), "Age".to_string(), "City".to_string()]
    );
    assert_eq!(
        t.data.rows,
        vec![
            vec!["Ada".to_string(), "36".to_string(), "London".to_string()],
            vec![
                "Grace".to_string(),
                "45".to_string(),
                "Arlington".to_string()
            ],
        ]
    );
}

#[test]
fn zone_counts_partition_row_count() {
    let doc = Doc {
        elems: vec![
            el("html", None),
            el("table", Some(0)),
            el("tr", Some(1)),
            el_text("th", Some(2), "H"),
            el("tr", Some(1)),
            el_text("td", Some(4), "d1"),
            el("tfoot", Some(1)),
            el("tr", Some(6)),
            el_text("td", Some(7), "f1"),
        ],
    };
    let tables = extract_tables(&doc);
    let m = &tables[0].metadata;
    let data_rows = tables[0].data.rows.len();
    assert_eq!(m.row_count, 3);
    assert_eq!(m.header_row_count, 1);
    assert_eq!(m.footer_row_count, 1);
    assert_eq!(data_rows, 1);
    assert_eq!(
        m.header_row_count + m.footer_row_count + data_rows,
        m.row_count
    );
}

#[test]
fn overlapping_zones_clamp_data_rows_to_zero() {
    // A single row that is both a header row and a footer row: the
    // data-row count falls back to zero.
    let doc = Doc {
        elems: vec![
            el("html", None),
            el("table", Some(0)),
            el("tfoot", Some(1)),
            el("tr", Some(2)),
            el_text("th", Some(3), "only"),
        ],
    };
    let tables = extract_tables(&doc);
    let m = &tables[0].metadata;
    assert_eq!(m.row_count, 1);
    assert_eq!(m.header_row_count, 1);
    assert_eq!(m.footer_row_count, 1);
    assert_eq!(tables[0].data.rows.len(), 0);
}

#[test]
fn positions_are_assigned_in_document_order() {
    let doc = Doc {
        elems: vec![
            el("html", None),
            el("table", Some(0)),
            el("tr", Some(1)),
            el_text("td", Some(2), "a"),
            el("table", Some(0)),
            el("tr", Some(4)),
            el_text("td", Some(5), "b"),
            el("table", Some(0)),
        ],
    };
    let tables = extract_tables(&doc);
    assert_eq!(tables.len(), 3);
    assert_eq!(tables[0].metadata.position, 1);
    assert_eq!(tables[1].metadata.position, 2);
    assert_eq!(tables[2].metadata.position, 3);
    assert_eq!(tables[0].data.rows, vec![vec!["a".to_string()]]);
    assert_eq!(tables[1].data.rows, vec![vec!["b".to_string()]]);
}

#[test]
fn column_count_is_the_maximum_over_irregular_rows() {
    let doc = Doc {
        elems: vec![
            el("html", None),
            el("table", Some(0)),
            el("tr", Some(1)),
            el_text("th", Some(2), "a"),
            el_text("th", Some(2), "b"),
            el("tr", Some(1)),
            el_text("td", Some(5), "1"),
            el_text("th", Some(5), "x"),
            el_text("td", Some(5), "2"),
            el_text("td", Some(5), "3"),
            el("tr", Some(1)),
            el_text("td", Some(10), "only"),
        ],
    };
    let tables = extract_tables(&doc);
    assert_eq!(tables[0].metadata.column_count, 4);
}

#[test]
fn tfoot_rows_with_only_ordinary_cells_count_as_footer() {
    let doc = Doc {
        elems: vec![
            el("html", None),
            el("table", Some(0)),
            el("tbody", Some(1)),
            el("tr", Some(2)),
            el_text("td", Some(3), "data"),
            el("tfoot", Some(1)),
            el("tr", Some(5)),
            el_text("td", Some(6), "total"),
        ],
    };
    let tables = extract_tables(&doc);
    let m = &tables[0].metadata;
    assert_eq!(m.footer_row_count, 1);
    assert_eq!(m.header_row_count, 0);
    assert_eq!(tables[0].data.rows, vec![vec!["data".to_string()]]);
}

#[test]
fn whole_table_nested_in_tfoot_counts_all_rows_as_footer() {
    let doc = Doc {
        elems: vec![
            el("html", None),
            el("table", Some(0)),
            el("tfoot", Some(1)),
            el("table", Some(2)),
            el("tr", Some(3)),
            el_text("td", Some(4), "x"),
            el("tr", Some(3)),
            el_text("td", Some(6), "y"),
        ],
    };
    let tables = extract_tables(&doc);
    // The nested table is the second one found; all of its rows are
    // inside the outer tfoot, so all are footer rows.
    assert_eq!(tables.len(), 2);
    let inner = &tables[1];
    assert_eq!(inner.metadata.row_count, 2);
    assert_eq!(inner.metadata.footer_row_count, 2);
    assert_eq!(inner.data.rows.len(), 0);
}

#[test]
fn nearest_preceding_heading_is_chosen() {
    let doc = Doc {
        elems: vec![
            el("html", None),
            el_text("h2", Some(0), "A"),
            el("table", Some(0)),
            el_text("h2", Some(0), "B"),
            el("table", Some(0)),
        ],
    };
    let tables = extract_tables(&doc);
    assert_eq!(tables[0].metadata.preceding_heading, Some("A".to_string()));
    assert_eq!(tables[1].metadata.preceding_heading, Some("B".to_string()));
}

#[test]
fn heading_after_the_table_is_not_used() {
    let doc = Doc {
        elems: vec![
            el("html", None),
            el_text("h2", Some(0), "A"),
            el("table", Some(0)),
            el("table", Some(0)),
            el_text("h2", Some(0), "B"),
        ],
    };
    let tables = extract_tables(&doc);
    assert_eq!(tables[0].metadata.preceding_heading, Some("A".to_string()));
    assert_eq!(tables[1].metadata.preceding_heading, Some("A".to_string()));
}

#[test]
fn table_without_preceding_heading_has_none() {
    let doc = Doc {
        elems: vec![el("html", None), el("table", Some(0)), el_text("h1", Some(0), "later")],
    };
    let tables = extract_tables(&doc);
    assert_eq!(tables[0].metadata.preceding_heading, None);
}

#[test]
fn caption_id_class_and_section_are_reported() {
    let mut section = el("section", Some(0));
    section.id = Some("stats".to_string());
    let mut table = el("table", Some(1));
    table.id = Some("t1".to_string());
    table.class = Some("wide".to_string());
    let doc = Doc {
        elems: vec![
            el("html", None),
            section,
            table,
            el_text("caption", Some(2), "  Quarterly results "),
            el("tr", Some(2)),
            el_text("td", Some(4), "x"),
        ],
    };
    let tables = extract_tables(&doc);
    let m = &tables[0].metadata;
    assert_eq!(m.id, Some("t1".to_string()));
    assert_eq!(m.class, Some("wide".to_string()));
    assert_eq!(m.caption, Some("Quarterly results".to_string()));
    assert_eq!(m.parent_section, Some("stats".to_string()));
}

#[test]
fn section_falls_back_to_class_when_id_is_absent() {
    let mut article = el("article", Some(0));
    article.class = Some("post".to_string());
    let doc = Doc {
        elems: vec![el("html", None), article, el("table", Some(1))],
    };
    let tables = extract_tables(&doc);
    assert_eq!(
        tables[0].metadata.parent_section,
        Some("post".to_string())
    );
}

#[test]
fn div_with_role_main_is_a_section() {
    let mut div = el("div", Some(0));
    div.role = Some("main".to_string());
    div.id = Some("main-area".to_string());
    let doc = Doc {
        elems: vec![el("html", None), div, el("table", Some(1))],
    };
    let tables = extract_tables(&doc);
    assert_eq!(
        tables[0].metadata.parent_section,
        Some("main-area".to_string())
    );
}

#[test]
fn plain_div_is_not_a_section() {
    let mut div = el("div", Some(0));
    div.id = Some("wrapper".to_string());
    let doc = Doc {
        elems: vec![el("html", None), div, el("table", Some(1))],
    };
    let tables = extract_tables(&doc);
    assert_eq!(tables[0].metadata.parent_section, None);
}

#[test]
fn ancestor_search_by_tag_is_case_insensitive() {
    let doc = Doc {
        elems: vec![el("html", None), el("TFOOT", Some(0)), el("tr", Some(1))],
    };
    let found = table_extractor::dom::find_parent_with_tag(&doc, 2, "tfoot");
    assert_eq!(found, Some(1));
}

#[test]
fn ancestor_search_stops_at_the_nearest_match() {
    let doc = Doc {
        elems: vec![
            el("html", None),
            el("div", Some(0)),
            el("div", Some(1)),
            el("p", Some(2)),
        ],
    };
    let found = table_extractor::dom::find_parent_with_tag(&doc, 3, "div");
    assert_eq!(found, Some(2));
    let missing = table_extractor::dom::find_parent_with_tag(&doc, 3, "table");
    assert_eq!(missing, None);
    let by_sel = table_extractor::dom::find_parent_with_selector(
        &doc,
        3,
        &Selector::Tag("div".to_string()),
    );
    assert_eq!(by_sel, Some(2));
}

#[test]
fn page_metadata_reads_title_and_meta_tags() {
    let mut desc = el("meta", Some(0));
    desc.name = Some("description".to_string());
    desc.content = Some("a page".to_string());
    let mut author = el("meta", Some(0));
    author.name = Some("author".to_string());
    author.content = Some("Someone".to_string());
    let mut published = el("meta", Some(0));
    published.property = Some("article:published_time".to_string());
    published.content = Some("2021-01-01".to_string());
    let doc = Doc {
        elems: vec![
            el("html", None),
            el_text("title", Some(0), "  My Page \n"),
            desc,
            author,
            published,
        ],
    };
    let page = extract_page_metadata(&doc, "http://example.com");
    assert_eq!(page.url, "http://example.com".to_string());
    assert_eq!(page.title, Some("My Page".to_string()));
    assert_eq!(page.description, Some("a page".to_string()));
    assert_eq!(page.author, Some("Someone".to_string()));
    assert_eq!(page.published_date, Some("2021-01-01".to_string()));
    assert_eq!(page.last_modified, None);
}

#[test]
fn description_falls_back_to_open_graph() {
    let mut og = el("meta", Some(0));
    og.property = Some("og:description".to_string());
    og.content = Some("og text".to_string());
    let doc = Doc {
        elems: vec![el("html", None), og],
    };
    let page = extract_page_metadata(&doc, "u");
    assert_eq!(page.description, Some("og text".to_string()));
}

#[test]
fn absent_metadata_stays_absent() {
    let doc = Doc {
        elems: vec![el("html", None)],
    };
    let page = extract_page_metadata(&doc, "u");
    assert_eq!(page.title, None);
    assert_eq!(page.description, None);
    assert_eq!(page.author, None);
    assert_eq!(page.published_date, None);
    assert_eq!(page.last_modified, None);
}
