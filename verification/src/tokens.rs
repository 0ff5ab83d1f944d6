//! The tokens of a source file and the parsers of the grammar that read
//! single tokens or short runs of them: comments, command modifiers and
//! number literals. A token is its text with its span in the source.

use vstd::prelude::*;
use vstd::string::StrSliceExecFns;

use crate::amber_version::white_space;
use crate::formatter::char_to_string;
use crate::grammar::{CommandModifier, Comment, Span};

verus! {

/// `s` without the white space at its start and its end.
pub open spec fn trimmed(s: Seq<char>) -> Seq<char>
    decreases s.len(),
{
    if s.len() > 0 && white_space(s[0]) {
        trimmed(s.drop_first())
    } else if s.len() > 0 && white_space(s.last()) {
        trimmed(s.drop_last())
    } else {
        s
    }
}

/// The white space at both ends of `s[from..to]` left out, as bounds.
proof fn lemma_trimmed_range(s: Seq<char>, from: int, to: int, a: int, b: int)
    requires
        0 <= from <= a <= b <= to <= s.len(),
        forall|i: int| from <= i < a ==> white_space(#[trigger] s[i]),
        forall|i: int| b <= i < to ==> white_space(#[trigger] s[i]),
        a < b ==> !white_space(s[a]) && !white_space(s[b - 1]),
    ensures
        trimmed(s.subrange(from, to)) == s.subrange(a, b),
    decreases to - from,
{
    let t = s.subrange(from, to);
    if from < a {
        assert(t[0] == s[from]);
        assert(t.drop_first() =~= s.subrange(from + 1, to));
        lemma_trimmed_range(s, from + 1, to, a, b);
    } else if b < to {
        if t.len() > 0 && white_space(t[0]) {
            assert(t[0] == s[from]);
            assert(a == b);
            assert(t.drop_first() =~= s.subrange(from + 1, to));
            lemma_trimmed_range(s, from + 1, to, a + 1, b + 1);
            assert(s.subrange(a + 1, b + 1) =~= s.subrange(a, b));
        } else {
            assert(t.last() == s[to - 1]);
            assert(t.drop_last() =~= s.subrange(from, to - 1));
            lemma_trimmed_range(s, from, to - 1, a, b);
        }
    } else {
        if a < b {
            assert(t[0] == s[a]);
            assert(t.last() == s[b - 1]);
        }
        assert(t =~= s.subrange(a, b));
    }
}

/// The characters of `s` from `from` on, without the white space at both
/// ends.
fn trim_from(s: &str, from: usize) -> (r: String)
    requires
        from <= s@.len(),
    ensures
        r@ == trimmed(s@.subrange(from as int, s@.len() as int)),
{
    let n = s.unicode_len();
    let mut a: usize = from;
    while a < n && white_space_char(s.get_char(a))
        invariant
            from <= a <= n,
            n == s@.len(),
            forall|i: int| from <= i < a ==> white_space(#[trigger] s@[i]),
        decreases n - a,
    {
        a += 1;
    }
    let mut b: usize = n;
    while b > a && white_space_char(s.get_char(b - 1))
        invariant
            a <= b <= n,
            n == s@.len(),
            forall|i: int| b <= i < n ==> white_space(#[trigger] s@[i]),
        decreases b,
    {
        b -= 1;
    }
    proof {
        lemma_trimmed_range(s@, from as int, n as int, a as int, b as int);
    }
    String::from_str(s.substring_char(a, b))
}

/// Whether `c` has the Unicode `White_Space` property.
fn white_space_char(c: char) -> (r: bool)
    ensures
        r == white_space(c),
{
    ('\u{9}' <= c && c <= '\u{d}') || c == ' ' || c == '\u{85}' || c == '\u{a0}' || c
        == '\u{1680}' || ('\u{2000}' <= c && c <= '\u{200a}') || c == '\u{2028}' || c == '\u{2029}'
        || c == '\u{202f}' || c == '\u{205f}' || c == '\u{3000}'
}

/// Whether `prefix` begins `s`.
pub open spec fn starts(s: Seq<char>, prefix: Seq<char>) -> bool {
    prefix.len() <= s.len() && s.take(prefix.len() as int) == prefix
}

/// Whether `prefix` begins `s`.
pub(crate) fn has_prefix(s: &str, prefix: &str) -> (r: bool)
    ensures
        r == starts(s@, prefix@),
{
    let n = prefix.unicode_len();
    if n > s.unicode_len() {
        return false;
    }
    let mut i: usize = 0;
    while i < n
        invariant
            i <= n <= s@.len(),
            n == prefix@.len(),
            forall|j: int| 0 <= j < i ==> s@[j] == prefix@[j],
        decreases n - i,
    {
        if s.get_char(i) != prefix.get_char(i) {
            return false;
        }
        i += 1;
    }
    assert(s@.take(n as int) =~= prefix@);
    true
}

/// What the comment parser reads off a token: a documentation comment
/// where its text begins with `///`, a line comment where it begins with
/// `//`, each with the rest of the text without the white space at its
/// ends.
pub open spec fn comment_of(text: Seq<char>) -> Option<(bool, Seq<char>)> {
    if starts(text, "///"@) {
        Some((true, trimmed(text.subrange(3, text.len() as int))))
    } else if starts(text, "//"@) {
        Some((false, trimmed(text.subrange(2, text.len() as int))))
    } else {
        None
    }
}

/// Reads a comment off the token at `pos`, as [`comment_of`] says, with
/// the span of the token and the position after it.
pub fn comment_parser(tokens: &Vec<(String, Span)>, pos: usize) -> (r: Option<((Comment, Span), usize)>)
    ensures
        pos >= tokens@.len() ==> r is None,
        pos < tokens@.len() ==> match r {
            Some(((c, span), next)) => {
                &&& next == pos + 1
                &&& span == tokens@[pos as int].1
                &&& match c {
                    Comment::DocString(t) => comment_of(tokens@[pos as int].0@) == Some(
                        (true, t@),
                    ),
                    Comment::Comment(t) => comment_of(tokens@[pos as int].0@) == Some((false, t@)),
                }
            },
            None => comment_of(tokens@[pos as int].0@) is None,
        },
{
    if pos >= tokens.len() {
        return None;
    }
    let text = tokens[pos].0.as_str();
    let span = tokens[pos].1;
    proof {
        reveal_strlit("///");
        reveal_strlit("//");
    }
    if has_prefix(text, "///") {
        Some(((Comment::DocString(trim_from(text, 3)), span), pos + 1))
    } else if has_prefix(text, "//") {
        Some(((Comment::Comment(trim_from(text, 2)), span), pos + 1))
    } else {
        None
    }
}

/// The modifier that a token's text names, if any.
pub open spec fn modifier_of(text: Seq<char>) -> Option<CommandModifier> {
    if text == "unsafe"@ {
        Some(CommandModifier::Unsafe)
    } else if text == "silent"@ {
        Some(CommandModifier::Silent)
    } else {
        None
    }
}

/// Reads a command modifier off the token at `pos`, as [`modifier_of`]
/// says, with the span of the token and the position after it.
pub fn modifier_parser(tokens: &Vec<(String, Span)>, pos: usize) -> (r: Option<((CommandModifier, Span), usize)>)
    ensures
        pos >= tokens@.len() ==> r is None,
        pos < tokens@.len() ==> match r {
            Some(((m, span), next)) => next == pos + 1 && span == tokens@[pos as int].1
                && modifier_of(tokens@[pos as int].0@) == Some(m),
            None => modifier_of(tokens@[pos as int].0@) is None,
        },
{
    if pos >= tokens.len() {
        return None;
    }
    let text = &tokens[pos].0;
    if *text == String::from_str("unsafe") {
        Some(((CommandModifier::Unsafe, tokens[pos].1), pos + 1))
    } else if *text == String::from_str("silent") {
        Some(((CommandModifier::Silent, tokens[pos].1), pos + 1))
    } else {
        None
    }
}

/// Whether every character of a token is an ASCII digit.
pub open spec fn all_digits(s: Seq<char>) -> bool {
    forall|i: int| 0 <= i < s.len() ==> '0' <= #[trigger] s[i] && s[i] <= '9'
}

/// Whether every character of a token is an ASCII digit.
fn digits_only(s: &str) -> (r: bool)
    ensures
        r == all_digits(s@),
{
    let n = s.unicode_len();
    let mut i: usize = 0;
    while i < n
        invariant
            i <= n,
            n == s@.len(),
            forall|j: int| 0 <= j < i ==> '0' <= #[trigger] s@[j] && s@[j] <= '9',
        decreases n - i,
    {
        let c = s.get_char(i);
        if !('0' <= c && c <= '9') {
            return false;
        }
        i += 1;
    }
    true
}

/// What the number parser reads from the tokens at `pos`: digits, a dot
/// and digits as `int.frac`; a dot and digits as `0.frac`; or digits alone
/// as `int.0`; with how many tokens it took. A token of digits may be
/// empty.
pub open spec fn number_of(ts: Seq<(String, Span)>, pos: int) -> Option<(Seq<char>, int)> {
    if 0 <= pos && pos + 2 < ts.len() + 0 && all_digits(ts[pos].0@) && ts[pos + 1].0@ == "."@
        && all_digits(ts[pos + 2].0@) {
        Some((ts[pos].0@ + "."@ + ts[pos + 2].0@, 3))
    } else if 0 <= pos && pos + 1 < ts.len() && ts[pos].0@ == "."@ && all_digits(ts[pos + 1].0@) {
        Some(("0."@ + ts[pos + 1].0@, 2))
    } else if 0 <= pos && pos < ts.len() && all_digits(ts[pos].0@) {
        Some((ts[pos].0@ + ".0"@, 1))
    } else {
        None
    }
}

/// Reads a number literal from the tokens at `pos`, as [`number_of`]
/// says: the text of the number, as a decimal with a fractional part,
/// over the span from the first token it took to the last, and the
/// position after them.
pub fn number_parser(tokens: &Vec<(String, Span)>, pos: usize) -> (r: Option<((String, Span), usize)>)
    ensures
        match r {
            Some(((text, span), next)) => number_of(tokens@, pos as int) matches Some(
                (t, n),
            ) && text@ == t && next == pos + n && span == (Span {
                start: tokens@[pos as int].1.start,
                end: tokens@[next - 1].1.end,
            }),
            None => number_of(tokens@, pos as int) is None,
        },
{
    let len = tokens.len();
    proof {
        reveal_strlit(".");
        reveal_strlit("0.");
        reveal_strlit(".0");
    }
    if pos < len && len - pos > 2 && digits_only(tokens[pos].0.as_str()) && tokens[pos + 1].0
        == String::from_str(".") && digits_only(tokens[pos + 2].0.as_str()) {
        let mut text = tokens[pos].0.clone();
        text.append(".");
        text.append(tokens[pos + 2].0.as_str());
        let span = Span { start: tokens[pos].1.start, end: tokens[pos + 2].1.end };
        return Some(((text, span), pos + 3));
    }
    if pos < len && len - pos > 1 && tokens[pos].0 == String::from_str(".") && digits_only(
        tokens[pos + 1].0.as_str(),
    ) {
        let mut text = String::from_str("0.");
        text.append(tokens[pos + 1].0.as_str());
        let span = Span { start: tokens[pos].1.start, end: tokens[pos + 1].1.end };
        return Some(((text, span), pos + 2));
    }
    if pos < len && digits_only(tokens[pos].0.as_str()) {
        let mut text = tokens[pos].0.clone();
        text.append(".0");
        return Some(((text, tokens[pos].1), pos + 1));
    }
    None
}

/// `text` with each line ending written as a line feed: a carriage return
/// with the line feed after it becomes one line feed, and a carriage return
/// alone becomes one too.
pub open spec fn unix_newlines(text: Seq<char>) -> Seq<char>
    decreases text.len(),
{
    if text.len() == 0 {
        Seq::empty()
    } else if text[0] == '\r' && text.len() >= 2 && text[1] == '\n' {
        seq!['\n'] + unix_newlines(text.skip(2))
    } else if text[0] == '\r' {
        seq!['\n'] + unix_newlines(text.skip(1))
    } else {
        seq![text[0]] + unix_newlines(text.skip(1))
    }
}

/// The source text that the lexer reads: `input` with its line endings
/// written as line feeds, as [`unix_newlines`] says.
pub fn normalize_newlines(input: &str) -> (r: String)
    ensures
        r@ == unix_newlines(input@),
{
    let n = input.unicode_len();
    let mut out = String::new();
    let mut i: usize = 0;
    proof {
        assert(input@.skip(0) =~= input@);
    }
    while i < n
        invariant
            i <= n,
            n == input@.len(),
            out@ + unix_newlines(input@.skip(i as int)) == unix_newlines(input@),
        decreases n - i,
    {
        let ghost rest = input@.skip(i as int);
        let c = input.get_char(i);
        assert(rest[0] == c);
        if c == '\r' && i + 1 < n && input.get_char(i + 1) == '\n' {
            assert(rest[1] == '\n');
            assert(rest.skip(2) =~= input@.skip(i + 2));
            out.append("\n");
            proof {
                reveal_strlit("\n");
                assert(out@ + unix_newlines(input@.skip(i + 2)) =~= unix_newlines(input@));
            }
            i += 2;
        } else {
            assert(rest.skip(1) =~= input@.skip(i + 1));
            let piece = if c == '\r' {
                char_to_string('\n')
            } else {
                char_to_string(c)
            };
            out.append(piece.as_str());
            proof {
                assert(out@ + unix_newlines(input@.skip(i + 1)) =~= unix_newlines(input@));
            }
            i += 1;
        }
    }
    out
}

/// The tokens of the words that the lexer found, each with the char
/// offset at which it starts: each word but a line feed, in order, spanning
/// its chars from its start.
pub open spec fn tokens_of(words: Seq<(Seq<char>, usize)>) -> Seq<(Seq<char>, Span)>
    decreases words.len(),
{
    if words.len() == 0 {
        Seq::empty()
    } else {
        let rest = tokens_of(words.drop_last());
        let (w, start) = words.last();
        if w == seq!['\n'] {
            rest
        } else {
            rest.push((w, Span { start, end: (start + w.len()) as usize }))
        }
    }
}

/// The views of a list of words with their offsets.
pub open spec fn word_views(words: Seq<(String, usize)>) -> Seq<(Seq<char>, usize)> {
    words.map_values(|w: (String, usize)| (w.0@, w.1))
}

/// The views of a list of tokens.
pub open spec fn token_views(tokens: Seq<(String, Span)>) -> Seq<(Seq<char>, Span)> {
    tokens.map_values(|t: (String, Span)| (t.0@, t.1))
}

/// The tokens of the words that the lexer found, as [`tokens_of`] says.
pub fn tokens_of_words(words: &Vec<(String, usize)>) -> (r: Vec<(String, Span)>)
    requires
        forall|i: int| 0 <= i < words@.len() ==> #[trigger] words@[i].1 + words@[i].0@.len() <= usize::MAX,
    ensures
        token_views(r@) == tokens_of(word_views(words@)),
{
    let mut out: Vec<(String, Span)> = Vec::new();
    let mut i: usize = 0;
    while i < words.len()
        invariant
            i <= words.len(),
            forall|j: int| 0 <= j < words@.len() ==> #[trigger] words@[j].1 + words@[j].0@.len() <= usize::MAX,
            token_views(out@) == tokens_of(word_views(words@).take(i as int)),
        decreases words.len() - i,
    {
        proof {
            assert(word_views(words@).take(i + 1).drop_last() =~= word_views(words@).take(i as int));
            assert(word_views(words@).take(i + 1).last() == (words@[i as int].0@, words@[i as int].1));
        }
        let word = &words[i].0;
        let start = words[i].1;
        let len = word.as_str().unicode_len();
        let newline = len == 1 && word.as_str().get_char(0) == '\n';
        proof {
            if newline {
                assert(word@ =~= seq!['\n']);
            } else if word@ == seq!['\n'] {
                assert(word@[0] == '\n');
            }
        }
        if !newline {
            let ghost before = out@;
            out.push((word.clone(), Span { start, end: start + len }));
            proof {
                assert(token_views(out@) =~= token_views(before).push((word@, Span { start, end: (start + len) as usize })));
            }
        }
        i += 1;
    }
    proof {
        assert(word_views(words@).take(i as int) =~= word_views(words@));
    }
    out
}

} // verus!
