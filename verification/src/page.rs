//! The page that shows the document: the document as HTML, set inside a
//! page with the style sheets for a light and a dark colour scheme.

use vstd::prelude::*;
use crate::text::{push_str, string_of};

verus! {

/// Why no page can be made.
#[derive(Debug, Clone, Copy, PartialEq, Eq, Structural)]
pub enum PageError {
    /// The highlighter has no style sheet for the dark colour scheme.
    MissingDarkTheme,
    /// The highlighter has no style sheet for the light colour scheme.
    MissingLightTheme,
}

/// The style sheet that the highlighter has for the theme of this name,
/// with its default themes and one class for each scope; `None` where it has
/// no such theme or cannot write it as a style sheet.
pub uninterp spec fn theme_css(name: Seq<char>) -> Option<Seq<char>>;

/// Looks the theme up among those of `syntect`'s `ThemeSet::load_defaults`
/// and writes it as a style sheet with `css_for_theme_with_class_style`, in
/// the class style `Spaced`. The themes are part of that crate, so the result
/// is a function of the name alone, and is named.
#[verifier::external_body]
fn theme_stylesheet(name: &str) -> (out: Option<String>)
    ensures
        match out {
            Some(css) => theme_css(name@) == Some(css@),
            None => theme_css(name@) is None,
        },
{
    let set = syntect::highlighting::ThemeSet::load_defaults();
    let theme = set.themes.get(name)?;
    syntect::html::css_for_theme_with_class_style(theme, syntect::html::ClassStyle::Spaced).ok()
}

/// The HTML that the renderer makes of a document in Markdown: with or
/// without tables, with or without an `id` for each heading, made of the
/// prefix and the text of the heading, with raw HTML let through or left
/// out, and with its code blocks highlighted by classes.
pub uninterp spec fn rendered_html(
    markdown: Seq<char>,
    tables: bool,
    heading_ids: Option<Seq<char>>,
    raw_html: bool,
) -> Seq<char>;

/// Calls `comrak::markdown_to_html_with_plugins` with default options but
/// for the three given, the extension `table`, the extension `header_ids` and
/// the render option that lets raw HTML through, and with comrak's adapter
/// for syntect, set to use classes, as the highlighter of code blocks. The
/// HTML goes by the document and the three options alone, and is named.
#[verifier::external_body]
fn markdown_to_html(markdown: &str, tables: bool, heading_ids: Option<String>, raw_html: bool) -> (out:
    String)
    ensures
        out@ == rendered_html(
            markdown@,
            tables,
            match heading_ids {
                Some(prefix) => Some(prefix@),
                None => None,
            },
            raw_html,
        ),
{
    let mut options = comrak::Options::default();
    options.extension.table = tables;
    options.extension.header_ids = heading_ids;
    options.render.unsafe_ = raw_html;
    let adapter = comrak::plugins::syntect::SyntectAdapterBuilder::new().css().build();
    let mut plugins = comrak::Plugins::default();
    plugins.render.codefence_syntax_highlighter = Some(&adapter);
    comrak::markdown_to_html_with_plugins(markdown, &options, &plugins)
}

/// The HTML of a document: with tables, with an `id` for each heading, and
/// with raw HTML let through.
pub open spec fn document_html(markdown: Seq<char>) -> Seq<char> {
    rendered_html(markdown, true, Some(Seq::empty()), true)
}

/// The page for a document in Markdown.
pub open spec fn rendered_page(markdown: Seq<char>, base_css: Seq<char>) -> Result<
    Seq<char>,
    PageError,
> {
    styled(document_html(markdown), base_css)
}

/// The name of the theme for the dark colour scheme.
pub open spec fn dark_theme() -> Seq<char> {
    "Solarized (dark)"@
}

/// The name of the theme for the light colour scheme.
pub open spec fn light_theme() -> Seq<char> {
    "Solarized (light)"@
}

/// How every page starts, up to its style sheets.
pub open spec fn page_head() -> Seq<char> {
    "<!DOCTYPE html>\n<html lang=\"en\">\n<head>\n    <meta charset=\"UTF-8\">\n    <title>Nom Cheatsheet</title>\n    <style>\n"@
}

/// What stands between the style sheets and the document.
pub open spec fn page_neck() -> Seq<char> {
    "\n\n.markdown-body {\n    margin: 0 auto;\n    padding: 45px;\n}\n\n@media (max-width: 767px) {\n    .markdown-body {\n        padding: 15px;\n    }\n}\n    </style>\n</head>\n<body class=\"markdown-body\">\n<article>\n"@
}

/// How every page ends.
pub open spec fn page_foot() -> Seq<char> {
    "</article>\n</body>\n</html>\n"@
}

/// The page: the base style sheet, the style sheets of the highlighter for
/// the dark and for the light colour scheme, each for the readers who prefer
/// it, and the document as HTML.
pub open spec fn page_text(
    base_css: Seq<char>,
    dark_css: Seq<char>,
    light_css: Seq<char>,
    body: Seq<char>,
) -> Seq<char> {
    page_head() + base_css + "@media (prefers-color-scheme: dark) {"@ + dark_css
        + "}\n@media (prefers-color-scheme: light) {"@ + light_css + "}"@ + page_neck() + body
        + page_foot()
}

/// The page for a document, with the style sheets that the highlighter has
/// for the themes of the two names.
pub open spec fn themed(
    body: Seq<char>,
    base_css: Seq<char>,
    dark: Seq<char>,
    light: Seq<char>,
) -> Result<Seq<char>, PageError> {
    match theme_css(dark) {
        None => Err(PageError::MissingDarkTheme),
        Some(dark_css) => match theme_css(light) {
            None => Err(PageError::MissingLightTheme),
            Some(light_css) => Ok(page_text(base_css, dark_css, light_css, body)),
        },
    }
}

/// The page for a document, with the style sheets of the two Solarized
/// themes.
pub open spec fn styled(body: Seq<char>, base_css: Seq<char>) -> Result<Seq<char>, PageError> {
    themed(body, base_css, dark_theme(), light_theme())
}

/// Sets the document, given as HTML, inside a page with the three style
/// sheets.
pub fn html_page(base_css: &str, dark_css: &str, light_css: &str, body: &str) -> (out: String)
    ensures
        out@ == page_text(base_css@, dark_css@, light_css@, body@),
{
    let mut out: Vec<char> = Vec::new();
    push_str(
        &mut out,
        "<!DOCTYPE html>\n<html lang=\"en\">\n<head>\n    <meta charset=\"UTF-8\">\n    <title>Nom Cheatsheet</title>\n    <style>\n",
    );
    push_str(&mut out, base_css);
    push_str(&mut out, "@media (prefers-color-scheme: dark) {");
    push_str(&mut out, dark_css);
    push_str(&mut out, "}\n@media (prefers-color-scheme: light) {");
    push_str(&mut out, light_css);
    push_str(&mut out, "}");
    push_str(
        &mut out,
        "\n\n.markdown-body {\n    margin: 0 auto;\n    padding: 45px;\n}\n\n@media (max-width: 767px) {\n    .markdown-body {\n        padding: 15px;\n    }\n}\n    </style>\n</head>\n<body class=\"markdown-body\">\n<article>\n",
    );
    push_str(&mut out, body);
    push_str(&mut out, "</article>\n</body>\n</html>\n");
    string_of(out.as_slice())
}

/// Sets the document, given as HTML, inside a page with the base style sheet
/// and the style sheets that the highlighter has for the themes named `dark`
/// and `light`. Where the highlighter lacks one of the two, no page is made.
pub fn themed_page(body: &str, base_css: &str, dark: &str, light: &str) -> (r: Result<
    String,
    PageError,
>)
    ensures
        match r {
            Ok(page) => themed(body@, base_css@, dark@, light@) == Ok::<Seq<char>, PageError>(
                page@,
            ),
            Err(e) => themed(body@, base_css@, dark@, light@) == Err::<Seq<char>, PageError>(e),
        },
{
    let dark_css = match theme_stylesheet(dark) {
        Some(css) => css,
        None => {
            return Err(PageError::MissingDarkTheme);
        },
    };
    let light_css = match theme_stylesheet(light) {
        Some(css) => css,
        None => {
            return Err(PageError::MissingLightTheme);
        },
    };
    Ok(html_page(base_css, dark_css.as_str(), light_css.as_str(), body))
}

/// Sets the document, given as HTML, inside a page with the base style sheet
/// and the style sheets of the two Solarized themes.
pub fn styled_page(body: &str, base_css: &str) -> (r: Result<String, PageError>)
    ensures
        match r {
            Ok(page) => styled(body@, base_css@) == Ok::<Seq<char>, PageError>(page@),
            Err(e) => styled(body@, base_css@) == Err::<Seq<char>, PageError>(e),
        },
{
    themed_page(body, base_css, "Solarized (dark)", "Solarized (light)")
}

/// Turns a document in Markdown into HTML: with tables, with an `id` for
/// each heading, and with raw HTML let through.
pub fn markdown_html(markdown: &str) -> (out: String)
    ensures
        out@ == document_html(markdown@),
{
    markdown_to_html(markdown, true, Some(String::new()), true)
}

/// Turns a document in Markdown into a page: the document as HTML, inside a
/// page with the base style sheet and the style sheets of the two Solarized
/// themes.
pub fn render_page(markdown: &str, base_css: &str) -> (r: Result<String, PageError>)
    ensures
        match r {
            Ok(page) => rendered_page(markdown@, base_css@) == Ok::<Seq<char>, PageError>(page@),
            Err(e) => rendered_page(markdown@, base_css@) == Err::<Seq<char>, PageError>(e),
        },
{
    let html = markdown_html(markdown);
    styled_page(html.as_str(), base_css)
}

} // verus!
