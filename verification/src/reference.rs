//! References to documented items: from the text of a table cell to module
//! path, name, documentation address and import statement.

use vstd::prelude::*;
use crate::text::{
    char_is_lowercase, chars_of, is_lowercase_char, join, lemma_join_split, lemma_split_from_len,
    matches_at, push_all, push_str, split, split_chars, starts_with_at, string_of, views,
};

verus! {

/// One documented item: the module it lives in, its name, and the address of
/// its documentation.
#[derive(Debug, PartialEq, Eq)]
pub struct Reference {
    pub module: String,
    pub name: String,
    pub docsurl: String,
}

/// A `Reference` as plain text.
pub struct ReferenceView {
    pub module: Seq<char>,
    pub name: Seq<char>,
    pub docsurl: Seq<char>,
}

impl View for Reference {
    type V = ReferenceView;

    open spec fn view(&self) -> ReferenceView {
        ReferenceView { module: self.module@, name: self.name@, docsurl: self.docsurl@ }
    }
}

impl Clone for Reference {
    fn clone(&self) -> (out: Self)
        ensures
            out == *self,
    {
        Reference {
            module: self.module.clone(),
            name: self.name.clone(),
            docsurl: self.docsurl.clone(),
        }
    }
}

/// The views of the references of a list, in order.
pub open spec fn reference_views(refs: Seq<Reference>) -> Seq<ReferenceView> {
    refs.map_values(|r: Reference| r@)
}

/// What separates the segments of a path: `::`.
pub open spec fn scope_sep() -> Seq<char> {
    seq![':', ':']
}

/// What separates the references of one cell: `<br>`.
pub open spec fn reference_sep() -> Seq<char> {
    seq!['<', 'b', 'r', '>']
}

/// Where the documentation of every module starts.
pub open spec fn docs_base() -> Seq<char> {
    "https://docs.rs/nom/latest/nom/"@
}

/// The segments as a path of directories: each followed by `/`.
pub open spec fn directories(segments: Seq<Seq<char>>) -> Seq<char>
    decreases segments.len(),
{
    if segments.len() == 0 {
        Seq::empty()
    } else {
        directories(segments.drop_last()) + segments.last() + seq!['/']
    }
}

/// The name is that of a function: its first character is a lowercase one.
pub open spec fn is_callable(name: Seq<char>) -> bool {
    name.len() > 0 && is_lowercase_char(name[0])
}

/// What precedes the name in the address of a page: `fn.` for a function,
/// `enum.` for any other item.
pub open spec fn category_marker(name: Seq<char>) -> Seq<char> {
    if is_callable(name) {
        "fn."@
    } else {
        "enum."@
    }
}

/// The address of the documentation of the item `name` in the module made of
/// `segments`.
pub open spec fn docs_url(segments: Seq<Seq<char>>, name: Seq<char>) -> Seq<char> {
    docs_base() + directories(segments) + category_marker(name) + name + ".html"@
}

/// The reference that `raw` denotes: its last segment is the name, those
/// before it are the module.
pub open spec fn resolve(raw: Seq<char>) -> ReferenceView {
    let parts = split(raw, scope_sep());
    ReferenceView {
        module: join(parts.drop_last(), scope_sep()),
        name: parts.last(),
        docsurl: docs_url(parts.drop_last(), parts.last()),
    }
}

/// The references that the pieces of a cell denote, empty pieces left out.
pub open spec fn resolve_all(pieces: Seq<Seq<char>>) -> Seq<ReferenceView>
    decreases pieces.len(),
{
    if pieces.len() == 0 {
        Seq::empty()
    } else if pieces.last().len() == 0 {
        resolve_all(pieces.drop_last())
    } else {
        resolve_all(pieces.drop_last()).push(resolve(pieces.last()))
    }
}

/// The references of a cell: its text split at `<br>`, each piece resolved.
pub open spec fn cell_references(cell: Seq<char>) -> Seq<ReferenceView> {
    resolve_all(split(cell, reference_sep()))
}

/// `s` ends with `pat`.
pub open spec fn ends_with(s: Seq<char>, pat: Seq<char>) -> bool {
    matches_at(s, pat, s.len() - pat.len())
}

/// The module is left out of the import statements: its path ends with
/// `streaming` or starts with `bits`.
pub open spec fn is_excluded_module(module: Seq<char>) -> bool {
    ends_with(module, "streaming"@) || matches_at(module, "bits"@, 0)
}

/// The statement that imports the item.
pub open spec fn import_statement(r: ReferenceView) -> Seq<char> {
    "#[allow(unused_imports)] use nom::"@ + (if r.module.len() > 0 {
        r.module + scope_sep()
    } else {
        Seq::empty()
    }) + r.name + seq![';']
}

/// The item as it stands in a cell of the rendered table: the module path,
/// then the name as a link to its documentation.
pub open spec fn reference_link(r: ReferenceView) -> Seq<char> {
    r.module + "::["@ + r.name + "]("@ + r.docsurl + seq![')']
}

/// The links of the references, with `<br>` between each two.
pub open spec fn reference_cell(refs: Seq<ReferenceView>) -> Seq<char> {
    join(refs.map_values(|r: ReferenceView| reference_link(r)), reference_sep())
}

/// Resolves one reference: the text after the last `::` is the name, the
/// text before it the module, and the address of the documentation is made of
/// both.
pub fn resolve_reference(raw: &[char]) -> (out: Reference)
    ensures
        out@ == resolve(raw@),
{
    let sep: Vec<char> = vec![':', ':'];
    assert(sep@ =~= scope_sep());
    let mut parts = split_chars(raw, sep.as_slice());
    let ghost all = views(parts@);
    let name = parts.pop().unwrap();
    assert(views(parts@) =~= all.drop_last());
    assert(name@ == all.last());
    let mut module: Vec<char> = Vec::new();
    let mut url: Vec<char> = Vec::new();
    push_str(&mut url, "https://docs.rs/nom/latest/nom/");
    let mut i: usize = 0;
    while i < parts.len()
        invariant
            i <= parts.len(),
            sep@ == scope_sep(),
            module@ == join(views(parts@).take(i as int), scope_sep()),
            url@ == docs_base() + directories(views(parts@).take(i as int)),
        decreases parts.len() - i,
    {
        proof {
            let next = views(parts@).take(i + 1);
            assert(next.drop_last() =~= views(parts@).take(i as int));
            assert(next.last() == parts@[i as int]@);
        }
        if i > 0 {
            push_all(&mut module, sep.as_slice());
        }
        push_all(&mut module, parts[i].as_slice());
        push_all(&mut url, parts[i].as_slice());
        url.push('/');
        proof {
            let next = views(parts@).take(i + 1);
            assert(module@ =~= join(next, scope_sep()));
            assert(url@ =~= docs_base() + directories(next));
        }
        i += 1;
    }
    proof {
        assert(views(parts@).take(parts.len() as int) =~= views(parts@));
    }
    if name.len() > 0 && char_is_lowercase(name[0]) {
        push_str(&mut url, "fn.");
    } else {
        push_str(&mut url, "enum.");
    }
    push_all(&mut url, name.as_slice());
    push_str(&mut url, ".html");
    proof {
        assert(url@ =~= docs_url(all.drop_last(), all.last()));
    }
    Reference {
        module: string_of(module.as_slice()),
        name: string_of(name.as_slice()),
        docsurl: string_of(url.as_slice()),
    }
}

/// Resolves the references of one cell: the pieces between `<br>` that are
/// not empty, each by `resolve_reference`.
pub fn resolve_cell(cell: &[char]) -> (out: Vec<Reference>)
    ensures
        reference_views(out@) == cell_references(cell@),
{
    let sep: Vec<char> = vec!['<', 'b', 'r', '>'];
    assert(sep@ =~= reference_sep());
    let pieces = split_chars(cell, sep.as_slice());
    let mut out: Vec<Reference> = Vec::new();
    let mut i: usize = 0;
    while i < pieces.len()
        invariant
            i <= pieces.len(),
            reference_views(out@) == resolve_all(views(pieces@).take(i as int)),
        decreases pieces.len() - i,
    {
        proof {
            let next = views(pieces@).take(i + 1);
            assert(next.drop_last() =~= views(pieces@).take(i as int));
            assert(next.last() == pieces@[i as int]@);
        }
        if pieces[i].len() > 0 {
            let ghost before = reference_views(out@);
            let r = resolve_reference(pieces[i].as_slice());
            out.push(r);
            proof {
                assert(reference_views(out@) =~= before.push(r@));
            }
        }
        i += 1;
    }
    proof {
        assert(views(pieces@).take(pieces.len() as int) =~= views(pieces@));
    }
    out
}

/// Whether the module is left out of the import statements.
pub fn is_excluded(module: &[char]) -> (b: bool)
    ensures
        b == is_excluded_module(module@),
{
    let suffix = chars_of("streaming");
    let prefix = chars_of("bits");
    let at_end = suffix.len() <= module.len() && starts_with_at(
        module,
        suffix.as_slice(),
        module.len() - suffix.len(),
    );
    at_end || starts_with_at(module, prefix.as_slice(), 0)
}

/// The statement that imports the item of `r`.
pub fn import_statement_of(r: &Reference) -> (out: Vec<char>)
    ensures
        out@ == import_statement(r@),
{
    let mut out: Vec<char> = Vec::new();
    push_str(&mut out, "#[allow(unused_imports)] use nom::");
    let module = chars_of(r.module.as_str());
    if module.len() > 0 {
        push_all(&mut out, module.as_slice());
        out.push(':');
        out.push(':');
    }
    push_str(&mut out, r.name.as_str());
    out.push(';');
    proof {
        assert(out@ =~= import_statement(r@));
    }
    out
}

/// The references as they stand in a cell of the rendered table.
pub fn reference_cell_of(refs: &[Reference]) -> (out: Vec<char>)
    ensures
        out@ == reference_cell(reference_views(refs@)),
{
    let ghost links = reference_views(refs@).map_values(|r: ReferenceView| reference_link(r));
    let mut out: Vec<char> = Vec::new();
    let mut i: usize = 0;
    while i < refs.len()
        invariant
            i <= refs.len(),
            links == reference_views(refs@).map_values(|r: ReferenceView| reference_link(r)),
            out@ == join(links.take(i as int), reference_sep()),
        decreases refs.len() - i,
    {
        let ghost before = out@;
        if i > 0 {
            push_str(&mut out, "<br>");
            proof {
                reveal_strlit("<br>");
                assert("<br>"@ =~= reference_sep());
            }
        }
        let r = &refs[i];
        push_str(&mut out, r.module.as_str());
        push_str(&mut out, "::[");
        push_str(&mut out, r.name.as_str());
        push_str(&mut out, "](");
        push_str(&mut out, r.docsurl.as_str());
        out.push(')');
        proof {
            let next = links.take(i + 1);
            assert(next.drop_last() =~= links.take(i as int));
            assert(next.last() == reference_link(refs@[i as int]@));
            assert(out@ =~= join(next, reference_sep()));
        }
        i += 1;
    }
    proof {
        assert(links.take(refs.len() as int) =~= links);
    }
    out
}

/// A reference spells its module and its name: the text that was resolved
/// is the name alone, with no module, or the module, `::` and the name.
pub proof fn lemma_resolve_spells(raw: Seq<char>)
    ensures
        split(raw, scope_sep()).len() == 1 ==> resolve(raw).module.len() == 0 && resolve(raw).name
            == raw,
        split(raw, scope_sep()).len() != 1 ==> resolve(raw).module + scope_sep() + resolve(
            raw,
        ).name == raw,
{
    let parts = split(raw, scope_sep());
    lemma_join_split(raw, scope_sep());
    lemma_split_from_len(raw, scope_sep(), 0);
    if parts.len() == 1 {
        assert(parts.drop_last().len() == 0);
    }
}

} // verus!
