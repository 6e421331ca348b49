use atldp::sheet::{escape, placeholder_svg, PLACEHOLDER_HEAD, PLACEHOLDER_TAIL};

#[test]
fn escapes_title_markup() {
    assert_eq!(escape("A & B <line>"), "A &amp; B &lt;line&gt;");
}

#[test]
fn escape_leaves_plain_text_and_does_not_double_escape() {
    assert_eq!(escape("Test line 138 kV"), "Test line 138 kV");
    assert_eq!(escape(""), "");
    assert_eq!(escape("&amp;"), "&amp;amp;");
    assert_eq!(escape("<>&"), "&lt;&gt;&amp;");
    assert_eq!(escape("Linha São Paulo — 500 kV"), "Linha São Paulo — 500 kV");
}

#[test]
fn empty_project_yields_placeholder() {
    let svg = placeholder_svg("Empty");
    assert!(svg.starts_with("<svg"));
    assert!(svg.contains("Nothing to draw"));
    assert!(svg.contains(">Empty</text>"));
    assert!(svg.trim_end().ends_with("</svg>"));
}

#[test]
fn placeholder_is_head_name_tail() {
    let svg = placeholder_svg("A & B");
    assert_eq!(svg, format!("{PLACEHOLDER_HEAD}A &amp; B{PLACEHOLDER_TAIL}"));
    assert_eq!(
        svg,
        "<svg xmlns='http://www.w3.org/2000/svg' width='1100' height='200' viewBox='0 0 1100 200' font-family='sans-serif'><rect width='1100' height='200' fill='#ffffff'/><text x='70' y='40' font-size='18' font-weight='bold'>A &amp; B</text><text x='70' y='70' font-size='12' fill='#777'>Nothing to draw — spot towers and load terrain first.</text></svg>"
    );
}
