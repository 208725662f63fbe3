use nom_cheatsheet::codespan::markdown_format_code;
use nom_cheatsheet::{format_remainder, Fragment};

#[test]
fn test_markdown_format_code() {
    assert_eq!(markdown_format_code("abc"), "`abc`");
    assert_eq!(markdown_format_code("`abc`"), "`` `abc` ``");
    assert_eq!(markdown_format_code(" `abc` "), "``  `abc`  ``");
    assert_eq!(markdown_format_code(" `abc`"), "``  `abc` ``");
    assert_eq!(markdown_format_code("`abc` "), "`` `abc`  ``");
    assert_eq!(markdown_format_code("``abc``"), "``` ``abc`` ```");
    assert_eq!(markdown_format_code("`"), "`` ` ``");
    assert_eq!(markdown_format_code("``"), "``` `` ```");
}

#[test]
fn the_fence_stands_at_the_ends_only() {
    for text in ["abc", "`abc`", " `abc` ", "a``b`c", "``", " ", "a b", "```x", "x```", ""] {
        let span: Vec<char> = markdown_format_code(text).chars().collect();
        let fence = span.iter().take_while(|c| **c == '`').count();
        let longest = text.split(|c| c != '`').map(str::len).max().unwrap_or(0);
        if !text.is_empty() {
            assert_eq!(fence, longest + 1);
        }
        let n = longest + 1;
        let mut starts = Vec::new();
        let mut i = 0;
        while i < span.len() {
            if span[i] == '`' {
                let mut j = i;
                while j < span.len() && span[j] == '`' {
                    j += 1;
                }
                if j - i == n {
                    starts.push(i);
                }
                i = j;
            } else {
                i += 1;
            }
        }
        if text.is_empty() {
            assert!(starts.is_empty());
        } else {
            assert_eq!(starts, vec![0, span.len() - n]);
        }
    }
}

#[test]
fn the_items_at_the_root_are_those_of_the_modules() {
    assert_eq!(nom_cheatsheet::markdown_format_code("a"), "`a`");
    assert_eq!(format_remainder(&Fragment::Text("a")), "`\"a\"`");
}
