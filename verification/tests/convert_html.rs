use pagestore::convert::{html_page, is_markdown_filename, markdown_document, ConversionError};
use pagestore::html::{indent_html, indent_html_checked};

#[test]
fn indent_html_reindents_nested_tags() {
    let out = indent_html("<ul>\n<li>a</li>\n</ul>", 4);
    assert_eq!(out, "    <ul>\n        <li>a</li>\n    </ul>\n");
}

#[test]
fn indent_html_keeps_blank_lines_bare() {
    let out = indent_html("a\n\nb", 4);
    assert_eq!(out, "    a\n\n    b\n");
}

#[test]
fn indent_html_does_not_grow_after_self_closing_tags() {
    let out = indent_html("<br/>\nx", 4);
    assert_eq!(out, "    <br/>\n    x\n");
}

#[test]
fn indent_html_of_empty_input_is_empty() {
    let out = indent_html("", 4);
    assert_eq!(out, "");
}

#[test]
fn indent_checked_reports_underflow() {
    assert!(indent_html_checked("</div>", 0).is_none());
    assert_eq!(indent_html_checked("</div>", 4), Some("</div>\n".to_string()));
}

#[test]
fn markdown_document_wraps_rendered_markdown() {
    let doc = markdown_document("hello", "# Hi").expect("conversion");
    let expected = "<!DOCTYPE html>\n<html lang=\"en\">\n<head>\n    <meta charset=\"UTF-8\">\n    <meta name=\"viewport\" content=\"width=device-width, initial-scale=1.0\">\n    <title>hello</title>\n</head>\n<body>\n    <h1>Hi</h1>\n</body>\n</html>";
    assert_eq!(doc, expected);
}

#[test]
fn markdown_document_renders_gfm_strikethrough() {
    let doc = markdown_document("t", "~gone~").expect("conversion");
    assert!(doc.contains("<del>gone</del>"));
}

#[test]
fn conversion_error_messages_name_their_source() {
    assert_eq!(ConversionError::Io("missing".to_string()).message(), "IO error: missing");
    assert_eq!(ConversionError::Markdown("bad".to_string()).message(), "Markdown error: bad");
    assert_eq!(ConversionError::Custom("odd".to_string()).message(), "Error: odd");
}

#[test]
fn markdown_filenames_need_a_real_md_extension() {
    assert!(is_markdown_filename("notes.md"));
    assert!(is_markdown_filename("a.b.md"));
    assert!(!is_markdown_filename("md"));
    assert!(!is_markdown_filename(".md"));
    assert!(!is_markdown_filename("notes.txt"));
    assert!(!is_markdown_filename("notes.md.bak"));
}

#[test]
fn html_page_reports_indent_underflow_as_custom_error() {
    let r = html_page("t", "</div>\n</div>");
    match r {
        Err(ConversionError::Custom(_)) => {}
        _ => panic!("expected a custom error"),
    }
    let ok = html_page("t", "<p>x</p>").expect("page");
    assert!(ok.contains("    <p>x</p>\n"));
}
