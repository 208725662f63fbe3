use nom_cheatsheet::reference::{
    import_statement_of, is_excluded, reference_cell_of, resolve_cell, resolve_reference,
    Reference,
};
use nom_cheatsheet::text::{chars_of, string_of};

fn reference(module: &str, name: &str, docsurl: &str) -> Reference {
    Reference { module: module.to_string(), name: name.to_string(), docsurl: docsurl.to_string() }
}

#[test]
fn a_function_in_a_module() {
    assert_eq!(
        resolve_reference(&chars_of("character::complete::alpha1")),
        reference(
            "character::complete",
            "alpha1",
            "https://docs.rs/nom/latest/nom/character/complete/fn.alpha1.html"
        )
    );
}

#[test]
fn a_type_and_a_name_without_module() {
    assert_eq!(
        resolve_reference(&chars_of("error::ErrorKind")),
        reference("error", "ErrorKind", "https://docs.rs/nom/latest/nom/error/enum.ErrorKind.html")
    );
    assert_eq!(
        resolve_reference(&chars_of("IResult")),
        reference("", "IResult", "https://docs.rs/nom/latest/nom/enum.IResult.html")
    );
    assert_eq!(
        resolve_reference(&chars_of("_x")),
        reference("", "_x", "https://docs.rs/nom/latest/nom/enum._x.html")
    );
    assert_eq!(
        resolve_reference(&chars_of("a::")),
        reference("a", "", "https://docs.rs/nom/latest/nom/a/enum..html")
    );
    assert_eq!(
        resolve_reference(&chars_of("m::ßeta")),
        reference("m", "ßeta", "https://docs.rs/nom/latest/nom/m/fn.ßeta.html")
    );
}

#[test]
fn the_references_of_a_cell() {
    let refs = resolve_cell(&chars_of("a::f<br><br>b::c::G<br>"));
    assert_eq!(
        refs,
        vec![
            reference("a", "f", "https://docs.rs/nom/latest/nom/a/fn.f.html"),
            reference("b::c", "G", "https://docs.rs/nom/latest/nom/b/c/enum.G.html"),
        ]
    );
    assert!(resolve_cell(&chars_of("")).is_empty());
    assert!(resolve_cell(&chars_of("<br>")).is_empty());
}

#[test]
fn the_cell_of_the_rendered_table() {
    let refs = resolve_cell(&chars_of("a::f<br>b::c::G"));
    assert_eq!(
        string_of(&reference_cell_of(&refs)),
        "a::[f](https://docs.rs/nom/latest/nom/a/fn.f.html)<br>b::c::[G](https://docs.rs/nom/latest/nom/b/c/enum.G.html)"
    );
    assert_eq!(string_of(&reference_cell_of(&[])), "");
}

#[test]
fn import_statements() {
    let r = resolve_reference(&chars_of("bytes::complete::tag"));
    assert_eq!(
        string_of(&import_statement_of(&r)),
        "#[allow(unused_imports)] use nom::bytes::complete::tag;"
    );
    let top = resolve_reference(&chars_of("IResult"));
    assert_eq!(string_of(&import_statement_of(&top)), "#[allow(unused_imports)] use nom::IResult;");
}

#[test]
fn modules_that_are_left_out() {
    assert!(is_excluded(&chars_of("bytes::streaming")));
    assert!(is_excluded(&chars_of("streaming")));
    assert!(is_excluded(&chars_of("bits")));
    assert!(is_excluded(&chars_of("bits::complete")));
    assert!(!is_excluded(&chars_of("bytes::complete")));
    assert!(!is_excluded(&chars_of("streaming::x")));
    assert!(!is_excluded(&chars_of("x::bits")));
    assert!(!is_excluded(&chars_of("")));
}
