use nom_cheatsheet::page::{
    html_page, markdown_html, render_page, styled_page, themed_page, PageError,
};

#[test]
fn a_page_is_the_style_sheets_and_the_document() {
    assert_eq!(
        html_page("BASE", "DARK", "LIGHT", "<p>body</p>\n"),
        "<!DOCTYPE html>\n<html lang=\"en\">\n<head>\n    <meta charset=\"UTF-8\">\n    <title>Nom Cheatsheet</title>\n    <style>\nBASE@media (prefers-color-scheme: dark) {DARK}\n@media (prefers-color-scheme: light) {LIGHT}\n\n.markdown-body {\n    margin: 0 auto;\n    padding: 45px;\n}\n\n@media (max-width: 767px) {\n    .markdown-body {\n        padding: 15px;\n    }\n}\n    </style>\n</head>\n<body class=\"markdown-body\">\n<article>\n<p>body</p>\n</article>\n</body>\n</html>\n"
    );
}

#[test]
fn a_styled_page_holds_the_two_themes() {
    let page = styled_page("<p>body</p>\n", "BASE").unwrap();
    assert!(page.contains("    <style>\nBASE@media (prefers-color-scheme: dark) {/*\n * theme \"Solarized (dark)\" generated by syntect\n */\n\n.code {\n"));
    assert!(page.contains("}\n@media (prefers-color-scheme: light) {/*\n * theme \"Solarized (light)\" generated by syntect\n */\n\n.code {\n"));
    assert!(page.ends_with("<article>\n<p>body</p>\n</article>\n</body>\n</html>\n"));
    assert_eq!(styled_page("<p>body</p>\n", "BASE"), Ok(page));
}

#[test]
fn a_theme_that_the_highlighter_lacks() {
    assert_eq!(
        themed_page("b", "c", "no such theme", "Solarized (light)"),
        Err(PageError::MissingDarkTheme)
    );
    assert_eq!(
        themed_page("b", "c", "Solarized (dark)", "no such theme"),
        Err(PageError::MissingLightTheme)
    );
    assert_eq!(
        themed_page("b", "c", "Solarized (dark)", "Solarized (light)"),
        styled_page("b", "c")
    );
    let other = themed_page("b", "c", "InspiredGitHub", "base16-ocean.light").unwrap();
    assert!(other.contains("theme \"GitHub\"") || other.contains("generated by syntect"));
}

#[test]
fn markdown_becomes_html() {
    let html = markdown_html("# Two words\n\n| a | b |\n|---|---|\n| x<br>y | `z` |\n\n```rust\nfn main() {}\n```\n");
    assert!(html.contains("<h1>"), "{html}");
    assert!(html.contains("id=\"two-words\""), "{html}");
    assert!(html.contains("<table>"), "{html}");
    assert!(html.contains("<td>x<br>y</td>"), "{html}");
    assert!(html.contains("<code>z</code>"), "{html}");
    assert!(html.contains("<pre class=\"syntax-highlighting\"><code class=\"language-rust\">"), "{html}");
    assert!(html.contains("<span class=\"source rust\">"), "{html}");
    assert_eq!(markdown_html("plain\n"), "<p>plain</p>\n");
}

#[test]
fn a_rendered_page_is_the_styled_page_of_the_html() {
    let markdown = "# Title\n\ntext\n";
    assert_eq!(render_page(markdown, "BASE"), styled_page(&markdown_html(markdown), "BASE"));
    assert!(render_page(markdown, "BASE").unwrap().contains("<article>\n<h1>"));
}
