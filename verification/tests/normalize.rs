use table_extractor::text::{clean_cell_text, csv_line, str_eq, str_eq_ci, trim_text};

#[test]
fn markup_is_stripped_and_whitespace_collapsed() {
    assert_eq!(
        clean_cell_text("<b>  Hello   World</b>\n"),
        "Hello World".to_string()
    );
}

#[test]
fn normalization_is_idempotent_on_examples() {
    let inputs = [
        "<b>  Hello   World</b>\n",
        "  a  b  ",
        "<td><span>x</span> y</td>",
        "",
        " \t\n ",
        "a>b<c",
        "<div x",
    ];
    for input in inputs {
        let once = clean_cell_text(input);
        let twice = clean_cell_text(&once);
        assert_eq!(once, twice);
    }
}

#[test]
fn unclosed_angle_bracket_is_kept_as_text() {
    assert_eq!(clean_cell_text("<div x"), "<div x".to_string());
    assert_eq!(clean_cell_text("a>b<c"), "a>b<c".to_string());
    assert_eq!(clean_cell_text("<div>x"), "x".to_string());
}

#[test]
fn nested_markup_is_removed_span_by_span() {
    assert_eq!(
        clean_cell_text("<a href=\"x\">link</a> and <i>more</i>"),
        "link and more".to_string()
    );
}

#[test]
fn empty_and_blank_inputs_normalize_to_empty() {
    assert_eq!(clean_cell_text(""), String::new());
    assert_eq!(clean_cell_text("   \n\t  "), String::new());
    assert_eq!(clean_cell_text("<b></b>"), String::new());
}

#[test]
fn non_breaking_space_is_collapsed_like_whitespace() {
    assert_eq!(clean_cell_text("a\u{A0}\u{A0}b"), "a b".to_string());
}

#[test]
fn trim_removes_only_the_edges() {
    assert_eq!(trim_text("  a  b  "), "a  b".to_string());
    assert_eq!(trim_text("ab"), "ab".to_string());
    assert_eq!(trim_text(""), String::new());
}

#[test]
fn csv_line_joins_plain_fields_with_commas() {
    let fields = vec!["a".to_string(), "b".to_string(), "c".to_string()];
    assert_eq!(csv_line(&fields), "a,b,c".to_string());
    assert_eq!(csv_line(&Vec::new()), String::new());
    assert_eq!(csv_line(&vec![String::new()]), String::new());
}

#[test]
fn csv_line_quotes_embedded_commas_quotes_and_breaks() {
    let fields = vec![
        "plain".to_string(),
        "a,b".to_string(),
        "say \"hi\"".to_string(),
        "line\nbreak".to_string(),
    ];
    assert_eq!(
        csv_line(&fields),
        "plain,\"a,b\",\"say \"\"hi\"\"\",\"line\nbreak\"".to_string()
    );
}

#[test]
fn string_comparisons_behave() {
    assert!(str_eq("abc", "abc"));
    assert!(!str_eq("abc", "abd"));
    assert!(!str_eq("abc", "ab"));
    assert!(str_eq_ci("TfOoT", "tfoot"));
    assert!(!str_eq_ci("tfoot", "tfoo"));
    assert!(!str_eq_ci("tfoot", "thead"));
}
