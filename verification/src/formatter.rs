//! The output buffer of the formatter: a list of fragments that the syntax
//! elements push, and its rendering into text against the source file.

use std::string::FromUtf8Error;

use vstd::prelude::*;
use vstd::string::StringExecFns;
use vstd::string::StringSliceAdditionalSpecFns;
use vstd::utf8::{decode_utf8, valid_utf8};

use crate::grammar::{
    compiler_flag_name, CompilerFlag, FunctionArgument, GlobalStatement, ImportContent, Span,
};
use crate::types::DataType;

verus! {

#[verifier::external_type_specification]
#[verifier::external_body]
pub struct ExFromUtf8Error(FromUtf8Error);

/// `String::from_utf8`: the string that the bytes encode, where they are
/// valid UTF-8, and an error otherwise.
#[verifier::external_body]
fn string_from_utf8(bytes: Vec<u8>) -> (r: Result<String, FromUtf8Error>)
    ensures
        r matches Ok(s) ==> valid_utf8(bytes@) && s@ == decode_utf8(bytes@),
        r.is_err() ==> !valid_utf8(bytes@),
{
    String::from_utf8(bytes)
}

/// `char::to_string`: the string of the one character.
#[verifier::external_body]
pub(crate) fn char_to_string(c: char) -> (r: String)
    ensures
        r@ == seq![c],
{
    c.to_string()
}

/// A piece of formatted output.
pub enum Fragment {
    Space,
    Newline,
    Indentation,
    Text(String),
    Span {
        /// Start byte offset into source file.
        start_offset: usize,
        /// End byte offset into source file.
        end_offset: usize,
    },
}

/// The value of a [`Fragment`].
pub enum FragmentView {
    Space,
    Newline,
    Indentation,
    Text(Seq<char>),
    Span(usize, usize),
}

impl View for Fragment {
    type V = FragmentView;

    open spec fn view(&self) -> FragmentView {
        match self {
            Fragment::Space => FragmentView::Space,
            Fragment::Newline => FragmentView::Newline,
            Fragment::Indentation => FragmentView::Indentation,
            Fragment::Text(t) => FragmentView::Text(t@),
            Fragment::Span { start_offset, end_offset } => FragmentView::Span(
                *start_offset,
                *end_offset,
            ),
        }
    }
}

/// The fragments that the formatter has produced so far.
pub struct Output {
    buffer: Vec<Fragment>,
}

/// The views of a list of fragments.
pub open spec fn fragment_views(fs: Seq<Fragment>) -> Seq<FragmentView> {
    fs.map_values(|f: Fragment| f@)
}

impl View for Output {
    type V = Seq<FragmentView>;

    closed spec fn view(&self) -> Seq<FragmentView> {
        fragment_views(self.buffer@)
    }
}

impl Default for Output {
    fn default() -> (r: Self)
        ensures
            r@ == Seq::<FragmentView>::empty(),
    {
        let r = Output { buffer: Vec::new() };
        assert(r@ =~= Seq::<FragmentView>::empty());
        r
    }
}

/// An error of [`Output::format`].
pub enum FormattingError {
    /// The span does not exist within the source file.
    SpanDoesntExist { start: usize, end: usize },
    /// The span cannot be converted into UTF8 text.
    InvalidSpan(FromUtf8Error),
}

/// What a fragment, or a list of them, becomes against the bytes of the
/// source file.
pub enum Rendered {
    /// The text.
    Text(Seq<char>),
    /// A span that ends past the source file, from `start` to `end`.
    Missing(usize, usize),
    /// A span whose bytes are not valid UTF-8.
    NotUtf8,
}

/// The bytes of the source file from the smaller of the two offsets up to
/// and including the larger.
pub open spec fn span_bytes(source: Seq<u8>, a: usize, b: usize) -> Seq<u8> {
    let start = if a <= b { a } else { b };
    let end = if a <= b { b } else { a };
    source.subrange(start as int, end + 1)
}

/// What one fragment becomes: a space, a line break, four spaces, its
/// text, or the source text of its span.
pub open spec fn render_fragment(f: FragmentView, source: Seq<u8>) -> Rendered {
    match f {
        FragmentView::Space => Rendered::Text(seq![' ']),
        FragmentView::Newline => Rendered::Text(seq!['\n']),
        FragmentView::Indentation => Rendered::Text("    "@),
        FragmentView::Text(t) => Rendered::Text(t),
        FragmentView::Span(a, b) => {
            let start = if a <= b { a } else { b };
            let end = if a <= b { b } else { a };
            if end >= source.len() {
                Rendered::Missing(start, end)
            } else if valid_utf8(span_bytes(source, a, b)) {
                Rendered::Text(decode_utf8(span_bytes(source, a, b)))
            } else {
                Rendered::NotUtf8
            }
        },
    }
}

/// What a list of fragments becomes: their texts one after the other, or
/// the failure of the first fragment that fails.
pub open spec fn render(fs: Seq<FragmentView>, source: Seq<u8>) -> Rendered
    decreases fs.len(),
{
    if fs.len() == 0 {
        Rendered::Text(Seq::empty())
    } else {
        match render(fs.drop_last(), source) {
            Rendered::Text(t) => match render_fragment(fs.last(), source) {
                Rendered::Text(p) => Rendered::Text(t + p),
                failure => failure,
            },
            failure => failure,
        }
    }
}

/// Once a prefix of the fragments fails to render, the whole list fails
/// the same way.
pub proof fn lemma_render_failure_persists(fs: Seq<FragmentView>, source: Seq<u8>, k: int)
    requires
        0 <= k <= fs.len(),
        !(render(fs.take(k), source) is Text),
    ensures
        render(fs, source) == render(fs.take(k), source),
    decreases fs.len() - k,
{
    if k == fs.len() {
        assert(fs.take(k) =~= fs);
    } else {
        assert(fs.take(k + 1).drop_last() =~= fs.take(k));
        lemma_render_failure_persists(fs, source, k + 1);
    }
}

/// Formatting two lists of fragments one after the other gives their texts
/// one after the other; where the first fails, the whole fails the same
/// way, and where only the second fails, the whole fails as it does.
pub proof fn law_render_append(a: Seq<FragmentView>, b: Seq<FragmentView>, source: Seq<u8>)
    ensures
        render(a + b, source) == match render(a, source) {
            Rendered::Text(ta) => match render(b, source) {
                Rendered::Text(tb) => Rendered::Text(ta + tb),
                failure => failure,
            },
            failure => failure,
        },
    decreases b.len(),
{
    if b.len() == 0 {
        assert(a + b =~= a);
        assert(render(b, source) == Rendered::Text(Seq::<char>::empty()));
        if let Rendered::Text(ta) = render(a, source) {
            assert(ta + Seq::<char>::empty() =~= ta);
        }
    } else {
        law_render_append(a, b.drop_last(), source);
        assert((a + b).drop_last() =~= a + b.drop_last());
        assert((a + b).last() == b.last());
        if let Rendered::Text(ta) = render(a, source) {
            if let Rendered::Text(tb) = render(b.drop_last(), source) {
                if let Rendered::Text(p) = render_fragment(b.last(), source) {
                    assert(ta + tb + p =~= ta + (tb + p));
                }
            }
        }
    }
}

/// The formatted text of an element with a span, pushed on an output.
pub trait SpanTextOutput {
    /// The fragments that [`SpanTextOutput::output`] pushes.
    spec fn fragments(&self) -> Seq<FragmentView>;

    fn output(&self, output: &mut Output)
        ensures
            final(output)@ == old(output)@ + self.fragments(),
    ;
}

/// The formatted text of an element, given its span, pushed on an output.
///
/// It is the responsibility of the caller to ensure that the buffer is in
/// the correct state to have text appended. E.G. The buffer is at the start
/// of a new line.
///
/// It is the responsibility of the function implementation to add a space
/// to the end of the buffer before returning.
pub trait TextOutput {
    /// The fragments that [`TextOutput::output`] pushes for `span`.
    spec fn fragments_at(&self, span: Span) -> Seq<FragmentView>;

    /// Gets the formatted string representation of an AST element.
    fn output(&self, span: &Span, output: &mut Output)
        ensures
            final(output)@ == old(output)@ + self.fragments_at(*span),
    ;
}

impl<T: TextOutput> SpanTextOutput for (T, Span) {
    open spec fn fragments(&self) -> Seq<FragmentView> {
        self.0.fragments_at(self.1)
    }

    fn output(&self, output: &mut Output) {
        self.0.output(&self.1, output);
    }
}

impl Output {
    fn push_fragment(&mut self, f: Fragment)
        ensures
            final(self)@ == old(self)@.push(f@),
    {
        let ghost before = self.buffer@;
        self.buffer.push(f);
        assert(fragment_views(self.buffer@) =~= fragment_views(before).push(f@));
    }

    fn push_space(&mut self)
        ensures
            final(self)@ == old(self)@.push(FragmentView::Space),
    {
        self.push_fragment(Fragment::Space);
    }

    fn push_newline(&mut self)
        ensures
            final(self)@ == old(self)@.push(FragmentView::Newline),
    {
        self.push_fragment(Fragment::Newline);
    }

    fn push_text(&mut self, text: String)
        ensures
            final(self)@ == old(self)@.push(FragmentView::Text(text@)),
    {
        self.push_fragment(Fragment::Text(text));
    }

    fn push_char(&mut self, character: char)
        ensures
            final(self)@ == old(self)@.push(FragmentView::Text(seq![character])),
    {
        self.push_fragment(Fragment::Text(char_to_string(character)));
    }

    fn push_output<TOutput: SpanTextOutput>(&mut self, output: &TOutput)
        ensures
            final(self)@ == old(self)@ + output.fragments(),
    {
        output.output(self);
    }

    fn push_span(&mut self, span: &Span)
        ensures
            final(self)@ == old(self)@.push(FragmentView::Span(span.start, span.end)),
    {
        self.push_fragment(Fragment::Span { start_offset: span.start, end_offset: span.end });
    }

    /// The text of the fragments against the source `file_content`: each
    /// space, line break, indentation (four spaces) and text as it is, and
    /// each span as the source text from its smaller offset up to and
    /// including its larger one. A span that ends past the source gives
    /// `SpanDoesntExist`, and one whose bytes are not UTF-8 `InvalidSpan`:
    /// the first such span decides.
    pub fn format(self, file_content: &str) -> (r: Result<String, FormattingError>)
        ensures
            r matches Ok(text) ==> render(self@, file_content.spec_bytes()) == Rendered::Text(
                text@,
            ),
            r matches Err(FormattingError::SpanDoesntExist { start, end }) ==> render(
                self@,
                file_content.spec_bytes(),
            ) == Rendered::Missing(start, end),
            r matches Err(FormattingError::InvalidSpan(_)) ==> render(
                self@,
                file_content.spec_bytes(),
            ) == Rendered::NotUtf8,
    {
        let bytes = file_content.as_bytes();
        let ghost source = file_content.spec_bytes();
        let ghost fs = self@;
        let mut text = String::new();
        let mut i: usize = 0;
        proof {
            assert(fs.take(0) =~= Seq::<FragmentView>::empty());
        }
        while i < self.buffer.len()
            invariant
                i <= self.buffer.len(),
                bytes@ == source,
                source == file_content.spec_bytes(),
                fs == self@,
                fs == fragment_views(self.buffer@),
                render(fs.take(i as int), source) == Rendered::Text(text@),
            decreases self.buffer.len() - i,
        {
            proof {
                assert(fs.take(i + 1).drop_last() =~= fs.take(i as int));
                assert(fs.take(i + 1).last() == self.buffer@[i as int]@);
            }
            let ghost prev = text@;
            let ghost mut piece: Seq<char> = Seq::empty();
            match &self.buffer[i] {
                Fragment::Space => {
                    text.append(" ");
                    proof {
                        reveal_strlit(" ");
                        piece = seq![' '];
                    }
                },
                Fragment::Newline => {
                    text.append("\n");
                    proof {
                        reveal_strlit("\n");
                        piece = seq!['\n'];
                    }
                },
                Fragment::Indentation => {
                    text.append("    ");
                    proof {
                        piece = "    "@;
                    }
                },
                Fragment::Text(frag_text) => {
                    text.append(frag_text.as_str());
                    proof {
                        piece = frag_text@;
                    }
                },
                Fragment::Span { start_offset, end_offset } => {
                    let start = if *start_offset <= *end_offset {
                        *start_offset
                    } else {
                        *end_offset
                    };
                    let end = if *start_offset <= *end_offset {
                        *end_offset
                    } else {
                        *start_offset
                    };
                    if end >= bytes.len() {
                        proof {
                            let pre = fs.take(i + 1);
                            assert(pre.last() == FragmentView::Span(*start_offset, *end_offset));
                            assert(render_fragment(pre.last(), source) == Rendered::Missing(
                                start,
                                end,
                            ));
                            assert(render(pre, source) == Rendered::Missing(start, end));
                            lemma_render_failure_persists(fs, source, i + 1);
                        }
                        return Err(FormattingError::SpanDoesntExist { start, end });
                    }
                    let mut span: Vec<u8> = Vec::new();
                    let mut k: usize = start;
                    while k <= end
                        invariant
                            start <= k <= end + 1,
                            end < bytes@.len(),
                            span@ == bytes@.subrange(start as int, k as int),
                        decreases end + 1 - k,
                    {
                        span.push(bytes[k]);
                        k += 1;
                        proof {
                            assert(span@ =~= bytes@.subrange(start as int, k as int));
                        }
                    }
                    assert(span@ == span_bytes(source, *start_offset, *end_offset));
                    match string_from_utf8(span) {
                        Ok(span_text) => {
                            text.append(span_text.as_str());
                            proof {
                                piece = span_text@;
                            }
                        },
                        Err(e) => {
                            proof {
                                let pre = fs.take(i + 1);
                                assert(pre.last() == FragmentView::Span(
                                    *start_offset,
                                    *end_offset,
                                ));
                                assert(render_fragment(pre.last(), source) == Rendered::NotUtf8);
                                assert(render(pre, source) == Rendered::NotUtf8);
                                lemma_render_failure_persists(fs, source, i + 1);
                            }
                            return Err(FormattingError::InvalidSpan(e));
                        },
                    }
                },
            }
            proof {
                let pre = fs.take(i + 1);
                assert(render_fragment(pre.last(), source) == Rendered::Text(piece));
                assert(text@ == prev + piece);
                assert(render(pre, source) == Rendered::Text(text@));
            }
            i += 1;
        }
        proof {
            assert(fs.take(self.buffer.len() as int) =~= fs);
        }
        Ok(text)
    }
}

/// The fragments of a string: its text.
impl TextOutput for String {
    open spec fn fragments_at(&self, span: Span) -> Seq<FragmentView> {
        seq![FragmentView::Text(self@)]
    }

    fn output(&self, span: &Span, output: &mut Output) {
        output.push_text(self.clone());
    }
}

/// The fragments of a data type: the source text of its span, then a
/// space.
impl TextOutput for DataType {
    open spec fn fragments_at(&self, span: Span) -> Seq<FragmentView> {
        seq![FragmentView::Span(span.start, span.end), FragmentView::Space]
    }

    fn output(&self, span: &Span, output: &mut Output) {
        output.push_span(span);
        output.push_space();
    }
}

/// The text `#[flag]` of a compiler flag.
pub open spec fn flag_text(flag: CompilerFlag) -> Seq<char> {
    "#["@ + compiler_flag_name(flag) + "]"@
}

/// The fragments of a compiler flag: `#[flag]`.
impl TextOutput for CompilerFlag {
    open spec fn fragments_at(&self, span: Span) -> Seq<FragmentView> {
        seq![FragmentView::Text(flag_text(*self))]
    }

    fn output(&self, span: &Span, output: &mut Output) {
        let mut text = String::from_str("#[");
        text.append(self.name());
        text.append("]");
        output.push_text(text);
    }
}

/// The fragments of the names of an import, each followed by a space.
pub open spec fn import_names_fragments(items: Seq<(String, Span)>) -> Seq<FragmentView>
    decreases items.len(),
{
    if items.len() == 0 {
        Seq::empty()
    } else {
        import_names_fragments(items.drop_last()) + seq![
            FragmentView::Text(items.last().0@),
            FragmentView::Space,
        ]
    }
}

/// The fragments of what an import takes: `*`, or `{ ` and each name
/// followed by a space, then `}`.
impl TextOutput for ImportContent {
    open spec fn fragments_at(&self, span: Span) -> Seq<FragmentView> {
        match self {
            ImportContent::ImportAll => seq![FragmentView::Text(seq!['*'])],
            ImportContent::ImportSpecific(items) => seq![FragmentView::Text("{ "@)]
                + import_names_fragments(items@) + seq![FragmentView::Text(seq!['}'])],
        }
    }

    fn output(&self, span: &Span, output: &mut Output) {
        match self {
            ImportContent::ImportAll => output.push_char('*'),
            ImportContent::ImportSpecific(items) => {
                let ghost start = output@;
                output.push_text(String::from_str("{ "));
                let mut i: usize = 0;
                proof {
                    assert(items@.take(0) =~= Seq::<(String, Span)>::empty());
                    assert(output@ =~= start + seq![FragmentView::Text("{ "@)]
                        + import_names_fragments(items@.take(0)));
                }
                while i < items.len()
                    invariant
                        i <= items.len(),
                        output@ == start + seq![FragmentView::Text("{ "@)] + import_names_fragments(
                            items@.take(i as int),
                        ),
                    decreases items.len() - i,
                {
                    proof {
                        assert(items@.take(i + 1).drop_last() =~= items@.take(i as int));
                    }
                    output.push_output(&items[i]);
                    output.push_space();
                    i += 1;
                    proof {
                        assert(output@ =~= start + seq![FragmentView::Text("{ "@)]
                            + import_names_fragments(items@.take(i as int)));
                    }
                }
                output.push_char('}');
                proof {
                    assert(items@.take(items.len() as int) =~= items@);
                    assert(output@ =~= start + self.fragments_at(*span));
                }
            },
        }
    }
}

/// The fragments of an argument named `name`: `ref` and a space where it
/// is passed by reference, then the name.
pub open spec fn arg_fragments(is_ref: bool, name: Seq<char>) -> Seq<FragmentView> {
    if is_ref {
        seq![FragmentView::Text("ref"@), FragmentView::Space, FragmentView::Text(name)]
    } else {
        seq![FragmentView::Text(name)]
    }
}

fn push_arg(output: &mut Output, is_ref: bool, text: &(String, Span))
    ensures
        final(output)@ == old(output)@ + arg_fragments(is_ref, text.0@),
{
    let ghost start = output@;
    if is_ref {
        output.push_text(String::from_str("ref"));
        output.push_space();
    }
    output.push_output(text);
    assert(output@ =~= start + arg_fragments(is_ref, text.0@));
}

/// The fragments of a function argument: those of its name where it has
/// one, and the source text of its span otherwise.
impl TextOutput for FunctionArgument {
    open spec fn fragments_at(&self, span: Span) -> Seq<FragmentView> {
        match self {
            FunctionArgument::Generic(is_ref, text) => arg_fragments(is_ref.0, text.0@),
            FunctionArgument::Typed(is_ref, text, _) => arg_fragments(is_ref.0, text.0@),
            FunctionArgument::Error => seq![FragmentView::Span(span.start, span.end)],
        }
    }

    fn output(&self, span: &Span, output: &mut Output) {
        match self {
            FunctionArgument::Generic(is_ref, text) => push_arg(output, is_ref.0, text),
            FunctionArgument::Typed(is_ref, text, _) => push_arg(output, is_ref.0, text),
            FunctionArgument::Error => output.push_span(span),
        }
    }
}

/// The fragments of compiler flags, each followed by a line break.
pub open spec fn flags_fragments(flags: Seq<(CompilerFlag, Span)>) -> Seq<FragmentView>
    decreases flags.len(),
{
    if flags.len() == 0 {
        Seq::empty()
    } else {
        flags_fragments(flags.drop_last()) + seq![
            FragmentView::Text(flag_text(flags.last().0)),
            FragmentView::Newline,
        ]
    }
}

/// The fragments of arguments, each followed by `,` and a space.
pub open spec fn args_with_commas(args: Seq<(FunctionArgument, Span)>) -> Seq<FragmentView>
    decreases args.len(),
{
    if args.len() == 0 {
        Seq::empty()
    } else {
        args_with_commas(args.drop_last()) + args.last().0.fragments_at(args.last().1) + seq![
            FragmentView::Text(seq![',']),
            FragmentView::Space,
        ]
    }
}

/// The fragments of a list of arguments: each but the last followed by `,`
/// and a space, then the last.
pub open spec fn args_fragments(args: Seq<(FunctionArgument, Span)>) -> Seq<FragmentView> {
    if args.len() == 0 {
        Seq::empty()
    } else {
        args_with_commas(args.drop_last()) + args.last().0.fragments_at(args.last().1)
    }
}

/// Pushes each compiler flag followed by a line break.
fn push_flags(output: &mut Output, flags: &Vec<(CompilerFlag, Span)>)
    ensures
        final(output)@ == old(output)@ + flags_fragments(flags@),
{
    let ghost start = output@;
    let mut i: usize = 0;
    proof {
        assert(flags@.take(0) =~= Seq::<(CompilerFlag, Span)>::empty());
        assert(output@ =~= start + flags_fragments(flags@.take(0)));
    }
    while i < flags.len()
        invariant
            i <= flags.len(),
            output@ == start + flags_fragments(flags@.take(i as int)),
        decreases flags.len() - i,
    {
        proof {
            assert(flags@.take(i + 1).drop_last() =~= flags@.take(i as int));
        }
        output.push_output(&flags[i]);
        output.push_newline();
        i += 1;
        proof {
            assert(output@ =~= start + flags_fragments(flags@.take(i as int)));
        }
    }
    proof {
        assert(flags@.take(flags.len() as int) =~= flags@);
    }
}

/// Pushes the arguments, each but the last followed by `,` and a space.
fn push_args(output: &mut Output, args: &Vec<(FunctionArgument, Span)>)
    ensures
        final(output)@ == old(output)@ + args_fragments(args@),
{
    let ghost before_args = output@;
    let count = if args.len() == 0 {
        0
    } else {
        args.len() - 1
    };
    let mut j: usize = 0;
    proof {
        assert(args@.take(0) =~= Seq::<(FunctionArgument, Span)>::empty());
        assert(output@ =~= before_args + args_with_commas(args@.take(0)));
    }
    while j < count
        invariant
            j <= count,
            count <= args.len(),
            args.len() > 0 ==> count == args.len() - 1,
            output@ == before_args + args_with_commas(args@.take(j as int)),
        decreases count - j,
    {
        proof {
            assert(args@.take(j + 1).drop_last() =~= args@.take(j as int));
        }
        output.push_output(&args[j]);
        output.push_char(',');
        output.push_space();
        j += 1;
        proof {
            assert(output@ =~= before_args + args_with_commas(args@.take(j as int)));
        }
    }
    if args.len() > 0 {
        output.push_output(&args[args.len() - 1]);
        proof {
            assert(args@.take(count as int) =~= args@.drop_last());
            assert(output@ =~= before_args + args_fragments(args@));
        }
    } else {
        proof {
            assert(output@ =~= before_args + args_fragments(args@));
        }
    }
}

/// The fragments of a global statement. An import: `pub ` where it is
/// public, `import`, what it takes, `from` and the path, with spaces
/// between, then a line break. A function definition: each compiler flag
/// on a line of its own, `pub ` where it is public, the keyword, a space,
/// the name, the arguments in parentheses, `: ` and the source text of the
/// return type where there is one, then `{ Null }` and a line break. The
/// main block and other statements give none.
impl TextOutput for GlobalStatement {
    open spec fn fragments_at(&self, span: Span) -> Seq<FragmentView> {
        match self {
            GlobalStatement::Import(public, import, content, from, path) => (if public.0 {
                seq![FragmentView::Text("pub "@)]
            } else {
                Seq::empty()
            }) + import.fragments() + seq![FragmentView::Space] + content.fragments() + seq![
                FragmentView::Space,
            ] + from.fragments() + seq![FragmentView::Space] + path.fragments() + seq![
                FragmentView::Newline,
            ],
            GlobalStatement::FunctionDefinition(
                compiler_flags,
                public,
                function_keyword,
                name,
                args,
                return_type,
                content,
            ) => flags_fragments(compiler_flags@) + (if public.0 {
                seq![FragmentView::Text("pub "@)]
            } else {
                Seq::empty()
            }) + function_keyword.fragments() + seq![FragmentView::Space] + name.fragments()
                + seq![FragmentView::Text(seq!['('])] + args_fragments(args@) + seq![
                FragmentView::Text(seq![')']),
            ] + (match return_type {
                Some(ret_ty) => seq![FragmentView::Text(seq![':']), FragmentView::Space]
                    + ret_ty.fragments(),
                None => Seq::empty(),
            }) + seq![FragmentView::Text("{ Null }"@), FragmentView::Newline],
            GlobalStatement::Main(_, _, _) => Seq::empty(),
            GlobalStatement::Statement(_) => Seq::empty(),
        }
    }

    #[verifier::spinoff_prover]
    #[verifier::rlimit(50)]
    fn output(&self, span: &Span, output: &mut Output) {
        let ghost start = output@;
        match self {
            GlobalStatement::Import(public, import, content, from, path) => {
                if public.0 {
                    output.push_text(String::from_str("pub "));
                }
                output.push_output(import);
                output.push_space();
                output.push_output(content);
                output.push_space();
                output.push_output(from);
                output.push_space();
                output.push_output(path);
                output.push_newline();
                assert(output@ =~= start + self.fragments_at(*span));
            },
            GlobalStatement::FunctionDefinition(
                compiler_flags,
                public,
                function_keyword,
                name,
                args,
                return_type,
                content,
            ) => {
                push_flags(output, compiler_flags);
                if public.0 {
                    output.push_text(String::from_str("pub "));
                }
                output.push_output(function_keyword);
                output.push_space();
                output.push_output(name);
                output.push_char('(');
                push_args(output, args);
                output.push_char(')');
                match return_type {
                    Some(ret_ty) => {
                        output.push_char(':');
                        output.push_space();
                        output.push_output(ret_ty);
                    },
                    None => {},
                }
                output.push_text(String::from_str("{ Null }"));
                output.push_newline();
                assert(output@ =~= start + self.fragments_at(*span));
            },
            GlobalStatement::Main(_, _, _) => {
                assert(output@ =~= start + self.fragments_at(*span));
            },
            GlobalStatement::Statement(_) => {
                assert(output@ =~= start + self.fragments_at(*span));
            },
        }
    }
}

} // verus!
