//! Splitting a template into text and fenced code blocks, and writing it out
//! again with the code blocks that are to be run collected beside it.

use vstd::prelude::*;
use crate::error::TemplateError;
use crate::text::{
    chars_of, copy_range, decimal, find, find_from, lemma_find_from, line_end, line_end_from,
    line_ending_at, line_ending_from, matches_at, push_all, push_decimal, push_str, same_text,
    starts_with_at, string_of,
};

verus! {

/// A fenced code block: the language named after the opening fence, and the
/// code between the line of the opening fence and the closing fence.
#[derive(Debug, PartialEq, Eq)]
pub struct CodeBlock {
    pub language: String,
    pub code: String,
}

/// One piece of a template.
#[derive(Debug, PartialEq, Eq)]
pub enum Component {
    Text(String),
    CodeBlock(CodeBlock),
}

/// A `Component` as plain text.
pub enum ComponentView {
    Text(Seq<char>),
    CodeBlock { language: Seq<char>, code: Seq<char> },
}

impl View for Component {
    type V = ComponentView;

    open spec fn view(&self) -> ComponentView {
        match self {
            Component::Text(text) => ComponentView::Text(text@),
            Component::CodeBlock(block) => ComponentView::CodeBlock {
                language: block.language@,
                code: block.code@,
            },
        }
    }
}

/// The views of the components of a list, in order.
pub open spec fn component_views(components: Seq<Component>) -> Seq<ComponentView> {
    components.map_values(|c: Component| c@)
}

/// A code block that is to be run: the place of its component in the
/// template, and the source of the program made of it.
#[derive(Debug, PartialEq, Eq)]
pub struct Example {
    pub index: usize,
    pub source: String,
}

/// An `Example` as plain values.
pub struct ExampleView {
    pub index: nat,
    pub source: Seq<char>,
}

impl View for Example {
    type V = ExampleView;

    open spec fn view(&self) -> ExampleView {
        ExampleView { index: self.index as nat, source: self.source@ }
    }
}

/// The views of the examples of a list, in order.
pub open spec fn example_views(examples: Seq<Example>) -> Seq<ExampleView> {
    examples.map_values(|e: Example| e@)
}

/// The fence of a code block: three back-quotes.
pub open spec fn fence() -> Seq<char> {
    seq!['`', '`', '`']
}

/// The code block that starts at `pos`: its language, its code, and the index
/// after its closing fence. The language is the rest of the line of the
/// opening fence; the code is what follows that line up to the next fence.
pub open spec fn code_block_at(s: Seq<char>, pos: int) -> Option<(Seq<char>, Seq<char>, int)> {
    if matches_at(s, fence(), pos) {
        let eol = line_end(s, pos + 3);
        match line_ending_at(s, eol) {
            Some(start) => match find_from(s, fence(), start) {
                Some(close) => Some((s.subrange(pos + 3, eol), s.subrange(start, close), close + 3)),
                None => None,
            },
            None => None,
        }
    } else {
        None
    }
}

/// Where the text that starts at `pos` stops: at the next fence, or at the
/// end where none follows. `None` where no text stands at `pos`.
pub open spec fn text_at(s: Seq<char>, pos: int) -> Option<int> {
    match find_from(s, fence(), pos) {
        Some(next) => if pos < next {
            Some(next)
        } else {
            None
        },
        None => if pos < s.len() {
            Some(s.len() as int)
        } else {
            None
        },
    }
}

/// The component that starts at `pos`, and the index after it: a code block
/// where one stands there, text otherwise.
pub open spec fn component_at(s: Seq<char>, pos: int) -> Option<(ComponentView, int)> {
    match code_block_at(s, pos) {
        Some((language, code, end)) => Some((ComponentView::CodeBlock { language, code }, end)),
        None => match text_at(s, pos) {
            Some(end) => Some((ComponentView::Text(s.subrange(pos, end)), end)),
            None => None,
        },
    }
}

/// A component that starts at `pos` ends after `pos`, inside the text.
pub proof fn lemma_component_at_advances(s: Seq<char>, pos: int)
    requires
        0 <= pos <= s.len(),
    ensures
        component_at(s, pos) matches Some((_, end)) ==> pos < end <= s.len(),
{
    lemma_find_from(s, fence(), pos);
    if matches_at(s, fence(), pos) {
        lemma_line_end_bounds(s, pos + 3);
        let eol = line_end(s, pos + 3);
        if let Some(start) = line_ending_at(s, eol) {
            lemma_find_from(s, fence(), start);
        }
    }
}

/// `line_end` stops inside the text.
pub proof fn lemma_line_end_bounds(s: Seq<char>, pos: int)
    requires
        0 <= pos <= s.len(),
    ensures
        pos <= line_end(s, pos) <= s.len(),
    decreases s.len() - pos,
{
    if pos < s.len() && s[pos] != '\r' && s[pos] != '\n' {
        lemma_line_end_bounds(s, pos + 1);
    }
}

/// The components that follow one another from `pos` on, and the index after
/// the last of them.
pub open spec fn components_at(s: Seq<char>, pos: int) -> (Seq<ComponentView>, int)
    decreases s.len() - pos,
{
    if 0 <= pos <= s.len() {
        match component_at(s, pos) {
            Some((component, next)) => {
                proof {
                    lemma_component_at_advances(s, pos);
                }
                let (rest, end) = components_at(s, next);
                (seq![component] + rest, end)
            },
            None => (Seq::empty(), pos),
        }
    } else {
        (Seq::empty(), pos)
    }
}

/// The text that one component was read from: text as it is, a code block
/// between its fences.
pub open spec fn component_source(component: ComponentView) -> Seq<char> {
    match component {
        ComponentView::Text(text) => text,
        ComponentView::CodeBlock { language, code } => fence() + language + seq!['\n'] + code
            + fence(),
    }
}

/// The text that the components were read from, one after the other.
pub open spec fn source_of(components: Seq<ComponentView>) -> Seq<char>
    decreases components.len(),
{
    if components.len() == 0 {
        Seq::empty()
    } else {
        source_of(components.drop_last()) + component_source(components.last())
    }
}

/// The language that a code block is shown with: `rust` for one marked
/// `ignore`, its own otherwise.
pub open spec fn shown_language(language: Seq<char>) -> Seq<char> {
    if language == "ignore"@ {
        "rust"@
    } else {
        language
    }
}

/// The code block is one to run: its language is `rust` or `rs`.
pub open spec fn is_runnable(language: Seq<char>) -> bool {
    language == "rust"@ || language == "rs"@
}

/// One component as it is written out: text as it is; a code block as its
/// fence and shown language, a line feed, its code, a line feed and a fence.
pub open spec fn rendered_component(component: ComponentView) -> Seq<char> {
    match component {
        ComponentView::Text(text) => text,
        ComponentView::CodeBlock { language, code } => fence() + shown_language(language) + seq![
            '\n',
        ] + code + seq!['\n'] + fence(),
    }
}

/// The components written out one after the other.
pub open spec fn rendered_components(components: Seq<ComponentView>) -> Seq<char>
    decreases components.len(),
{
    if components.len() == 0 {
        Seq::empty()
    } else {
        rendered_components(components.drop_last()) + rendered_component(components.last())
    }
}

/// What is added to the code of a block to make a program that can be
/// tested: a test that calls its `main`.
pub open spec fn test_harness() -> Seq<char> {
    "\n#[cfg(test)]\nmod tests {\n    use super::*;\n\n    #[test]\n    fn test_main() {\n        main();\n    }\n}"@
}

/// The examples among the first `n` components: each code block to run, with
/// its place among the components.
pub open spec fn examples_of(components: Seq<ComponentView>, n: int) -> Seq<ExampleView>
    decreases n,
{
    if n <= 0 || n > components.len() {
        Seq::empty()
    } else {
        match components[n - 1] {
            ComponentView::CodeBlock { language, code } => if is_runnable(language) {
                examples_of(components, n - 1).push(
                    ExampleView { index: (n - 1) as nat, source: code + test_harness() },
                )
            } else {
                examples_of(components, n - 1)
            },
            ComponentView::Text(_) => examples_of(components, n - 1),
        }
    }
}

/// Where the program of the example with this index is kept.
pub open spec fn example_path(index: nat) -> Seq<char> {
    "examples/example"@ + decimal(index) + ".rs"@
}

/// What reading a template for its code blocks gives: the template written
/// out again, and the examples to run.
#[derive(Debug, PartialEq, Eq)]
pub struct CodeBlocks {
    pub text: String,
    pub examples: Vec<Example>,
}

/// What `segment` returns for the template `s`.
pub open spec fn segmented(s: Seq<char>) -> Result<Seq<ComponentView>, TemplateError> {
    let (components, end) = components_at(s, 0);
    if s.len() == 0 {
        Err(TemplateError::Empty)
    } else if end < s.len() {
        Err(TemplateError::UnterminatedFence { position: end as usize })
    } else {
        Ok(components)
    }
}

/// Reads the code block that starts at `pos`; `None` where no fence stands
/// there, the line of the fence does not end, or no closing fence follows.
pub fn parse_code_block(s: &[char], pos: usize) -> (r: Option<(CodeBlock, usize)>)
    ensures
        match r {
            Some((block, end)) => code_block_at(s@, pos as int) == Some(
                (block.language@, block.code@, end as int),
            ) && pos < end <= s.len(),
            None => code_block_at(s@, pos as int) is None,
        },
{
    let mark: Vec<char> = vec!['`', '`', '`'];
    assert(mark@ =~= fence());
    if !starts_with_at(s, mark.as_slice(), pos) {
        return None;
    }
    assert(pos + 3 <= s.len());
    let eol = line_end_from(s, pos + 3);
    let start = match line_ending_from(s, eol) {
        Some(p) => p,
        None => {
            return None;
        },
    };
    let close = match find(s, mark.as_slice(), start) {
        Some(p) => p,
        None => {
            return None;
        },
    };
    proof {
        lemma_find_from(s@, fence(), start as int);
    }
    let language = string_of(copy_range(s, pos + 3, eol).as_slice());
    let code = string_of(copy_range(s, start, close).as_slice());
    Some((CodeBlock { language, code }, close + 3))
}

/// Reads the text that starts at `pos`, up to the next fence or the end;
/// `None` where a fence stands at `pos` or nothing is left.
pub fn parse_outside_code_blocks(s: &[char], pos: usize) -> (r: Option<(String, usize)>)
    ensures
        match r {
            Some((text, end)) => text_at(s@, pos as int) == Some(end as int) && text@
                == s@.subrange(pos as int, end as int) && pos < end <= s.len(),
            None => text_at(s@, pos as int) is None,
        },
{
    let mark: Vec<char> = vec!['`', '`', '`'];
    assert(mark@ =~= fence());
    proof {
        lemma_find_from(s@, fence(), pos as int);
    }
    let end = match find(s, mark.as_slice(), pos) {
        Some(next) => next,
        None => s.len(),
    };
    if end <= pos {
        return None;
    }
    Some((string_of(copy_range(s, pos, end).as_slice()), end))
}

/// Reads the component that starts at `pos`: a code block where one stands
/// there, text otherwise.
pub fn parse_component(s: &[char], pos: usize) -> (r: Option<(Component, usize)>)
    ensures
        match r {
            Some((component, end)) => component_at(s@, pos as int) == Some(
                (component@, end as int),
            ) && pos < end <= s.len(),
            None => component_at(s@, pos as int) is None,
        },
{
    match parse_code_block(s, pos) {
        Some((block, end)) => Some((Component::CodeBlock(block), end)),
        None => match parse_outside_code_blocks(s, pos) {
            Some((text, end)) => Some((Component::Text(text), end)),
            None => None,
        },
    }
}

/// Splits a template into its components. They cover the template without
/// gap or overlap. An empty template is refused, and so is one with a fence
/// that opens no code block.
pub fn segment(s: &[char]) -> (r: Result<Vec<Component>, TemplateError>)
    ensures
        match r {
            Ok(components) => segmented(s@) == Ok::<Seq<ComponentView>, TemplateError>(
                component_views(components@),
            ),
            Err(e) => segmented(s@) == Err::<Seq<ComponentView>, TemplateError>(e),
        },
{
    let mut components: Vec<Component> = Vec::new();
    let mut at: usize = 0;
    loop
        invariant_except_break
            at <= s.len(),
            components_at(s@, 0) == (
                component_views(components@) + components_at(s@, at as int).0,
                components_at(s@, at as int).1,
            ),
        ensures
            at <= s.len(),
            components_at(s@, 0) == (component_views(components@), at as int),
        decreases s.len() - at,
    {
        let ghost before = component_views(components@);
        match parse_component(s, at) {
            Some((component, next)) => {
                proof {
                    assert(components_at(s@, at as int).0 == seq![component@] + components_at(
                        s@,
                        next as int,
                    ).0);
                }
                components.push(component);
                proof {
                    assert(component_views(components@) =~= before.push(component@));
                    assert(component_views(components@) + components_at(s@, next as int).0
                        =~= before + components_at(s@, at as int).0);
                }
                at = next;
            },
            None => {
                proof {
                    assert(component_views(components@) + Seq::<ComponentView>::empty()
                        =~= component_views(components@));
                }
                break;
            },
        }
    }
    if s.len() == 0 {
        Err(TemplateError::Empty)
    } else if at < s.len() {
        Err(TemplateError::UnterminatedFence { position: at })
    } else {
        Ok(components)
    }
}

/// What `do_code_blocks` returns for the template `s`: the components
/// written out, and the examples among them.
pub open spec fn code_blocks_of(s: Seq<char>) -> Result<(Seq<char>, Seq<ExampleView>), TemplateError> {
    match segmented(s) {
        Ok(components) => Ok(
            (rendered_components(components), examples_of(components, components.len() as int)),
        ),
        Err(e) => Err(e),
    }
}

/// Appends one component, written out, to `out`.
fn push_component(out: &mut Vec<char>, component: &Component)
    ensures
        final(out)@ == old(out)@ + rendered_component(component@),
{
    match component {
        Component::Text(text) => {
            push_str(out, text.as_str());
        },
        Component::CodeBlock(block) => {
            let language = chars_of(block.language.as_str());
            let ignore = chars_of("ignore");
            out.push('`');
            out.push('`');
            out.push('`');
            if same_text(language.as_slice(), ignore.as_slice()) {
                push_str(out, "rust");
            } else {
                push_all(out, language.as_slice());
            }
            out.push('\n');
            push_str(out, block.code.as_str());
            out.push('\n');
            out.push('`');
            out.push('`');
            out.push('`');
            proof {
                assert(out@ =~= old(out)@ + rendered_component(component@));
            }
        },
    }
}

/// Whether a code block with this language is one to run.
pub fn is_runnable_language(language: &str) -> (b: bool)
    ensures
        b == is_runnable(language@),
{
    let chars = chars_of(language);
    let long = chars_of("rust");
    let short = chars_of("rs");
    same_text(chars.as_slice(), long.as_slice()) || same_text(chars.as_slice(), short.as_slice())
}

/// Reads a template for its code blocks. The template is written out again,
/// each code block between fences of its own lines and one marked `ignore`
/// shown as `rust`. Every block in `rust` or `rs` is also returned as an
/// example: its code, followed by a test that calls its `main`, under the
/// place of the block among the components.
pub fn do_code_blocks(input: &str) -> (r: Result<CodeBlocks, TemplateError>)
    ensures
        match r {
            Ok(out) => code_blocks_of(input@) == Ok::<
                (Seq<char>, Seq<ExampleView>),
                TemplateError,
            >((out.text@, example_views(out.examples@))),
            Err(e) => code_blocks_of(input@) == Err::<(Seq<char>, Seq<ExampleView>), TemplateError>(
                e,
            ),
        },
{
    let chars = chars_of(input);
    let components = match segment(chars.as_slice()) {
        Ok(components) => components,
        Err(e) => {
            return Err(e);
        },
    };
    let ghost all = component_views(components@);
    let mut text: Vec<char> = Vec::new();
    let mut examples: Vec<Example> = Vec::new();
    let mut i: usize = 0;
    while i < components.len()
        invariant
            i <= components.len(),
            all == component_views(components@),
            text@ == rendered_components(all.take(i as int)),
            example_views(examples@) == examples_of(all, i as int),
        decreases components.len() - i,
    {
        proof {
            assert(all.take(i + 1).drop_last() =~= all.take(i as int));
            assert(all.take(i + 1).last() == components@[i as int]@);
        }
        push_component(&mut text, &components[i]);
        match &components[i] {
            Component::CodeBlock(block) => {
                if is_runnable_language(block.language.as_str()) {
                    let mut source = chars_of(block.code.as_str());
                    push_str(
                        &mut source,
                        "\n#[cfg(test)]\nmod tests {\n    use super::*;\n\n    #[test]\n    fn test_main() {\n        main();\n    }\n}",
                    );
                    let ghost before = example_views(examples@);
                    let example = Example { index: i, source: string_of(source.as_slice()) };
                    examples.push(example);
                    proof {
                        assert(example_views(examples@) =~= before.push(example@));
                    }
                }
            },
            Component::Text(_) => {},
        }
        i += 1;
    }
    proof {
        assert(all.take(components.len() as int) =~= all);
    }
    Ok(CodeBlocks { text: string_of(text.as_slice()), examples })
}

/// Where the program of the example with this index is kept.
pub fn example_path_of(index: usize) -> (path: String)
    ensures
        path@ == example_path(index as nat),
{
    let mut out: Vec<char> = Vec::new();
    push_str(&mut out, "examples/example");
    push_decimal(&mut out, index);
    push_str(&mut out, ".rs");
    string_of(out.as_slice())
}

/// The source of a first component and further ones starts with that of the
/// first.
proof fn lemma_source_of_prepend(first: ComponentView, rest: Seq<ComponentView>)
    ensures
        source_of(seq![first] + rest) == component_source(first) + source_of(rest),
    decreases rest.len(),
{
    let all = seq![first] + rest;
    if rest.len() == 0 {
        assert(all.drop_last() =~= Seq::<ComponentView>::empty());
        assert(all.last() == first);
        assert(source_of(all.drop_last()) =~= Seq::<char>::empty());
        assert(source_of(all) =~= component_source(first) + source_of(rest));
    } else {
        assert(all.drop_last() =~= seq![first] + rest.drop_last());
        assert(all.last() == rest.last());
        lemma_source_of_prepend(first, rest.drop_last());
        assert(source_of(all) =~= component_source(first) + source_of(rest));
    }
}

/// The components read from `pos` on cover the text from `pos` up to where
/// reading stopped, in order, without gap or overlap, as long as no line ends
/// with a carriage return.
pub proof fn lemma_components_cover(s: Seq<char>, pos: int)
    requires
        0 <= pos <= s.len(),
        forall|i: int| 0 <= i < s.len() ==> s[i] != '\r',
    ensures
        source_of(components_at(s, pos).0) == s.subrange(pos, components_at(s, pos).1),
    decreases s.len() - pos,
{
    lemma_component_at_advances(s, pos);
    match component_at(s, pos) {
        Some((component, next)) => {
            lemma_components_cover(s, next);
            lemma_source_of_prepend(component, components_at(s, next).0);
            lemma_find_from(s, fence(), pos);
            let end = components_at(s, next).1;
            lemma_components_at_bounds(s, next);
            if let Some((language, code, stop)) = code_block_at(s, pos) {
                lemma_line_end_bounds(s, pos + 3);
                let eol = line_end(s, pos + 3);
                let start = line_ending_at(s, eol).unwrap();
                lemma_find_from(s, fence(), start);
                assert(component_source(component) =~= s.subrange(pos, next));
            }
            assert(s.subrange(pos, next) + s.subrange(next, end) =~= s.subrange(pos, end));
        },
        None => {
            assert(s.subrange(pos, pos) =~= Seq::<char>::empty());
        },
    }
}

/// Reading components stops inside the text.
pub proof fn lemma_components_at_bounds(s: Seq<char>, pos: int)
    requires
        0 <= pos <= s.len(),
    ensures
        pos <= components_at(s, pos).1 <= s.len(),
    decreases s.len() - pos,
{
    lemma_component_at_advances(s, pos);
    if let Some((_, next)) = component_at(s, pos) {
        lemma_components_at_bounds(s, next);
    }
}

/// The components of a template that `segment` accepts make up the template,
/// as long as no line of it ends with a carriage return.
pub proof fn lemma_segments_cover(s: Seq<char>)
    requires
        segmented(s) is Ok,
        forall|i: int| 0 <= i < s.len() ==> s[i] != '\r',
    ensures
        source_of(segmented(s)->Ok_0) == s,
{
    lemma_components_cover(s, 0);
    lemma_components_at_bounds(s, 0);
    assert(s.subrange(0, s.len() as int) =~= s);
}

} // verus!
