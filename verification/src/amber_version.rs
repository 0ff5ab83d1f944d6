//! The versions of the Amber language that the server understands, and
//! how the version is read off the output of `amber -V`.

use vstd::prelude::*;
use vstd::string::{StringExecFns, StrSliceExecFns};
use vstd::utf8::{decode_utf8, valid_utf8};

verus! {

/// The version of amber programming language that the amber source is compiliable in.
#[derive(Clone, Copy, Debug, PartialEq, Eq, Structural)]
pub enum AmberVersion {
    Alpha034,
    Alpha035,
    Alpha040,
}

/// Used for command-line parsing.
/// Allows for the user to manually override the detected amber version.
#[derive(Clone, Copy, Debug, PartialEq, Eq, Structural)]
pub enum CliAmberVersion {
    Auto,
    Alpha034,
    Alpha035,
    Alpha040,
}

/// The version that a command-line choice stands for; `Auto` stands for
/// the oldest one.
pub open spec fn cli_version(val: CliAmberVersion) -> AmberVersion {
    match val {
        CliAmberVersion::Auto => AmberVersion::Alpha034,
        CliAmberVersion::Alpha034 => AmberVersion::Alpha034,
        CliAmberVersion::Alpha035 => AmberVersion::Alpha035,
        CliAmberVersion::Alpha040 => AmberVersion::Alpha040,
    }
}

impl From<CliAmberVersion> for AmberVersion {
    fn from(val: CliAmberVersion) -> (r: Self) {
        match val {
            CliAmberVersion::Auto => AmberVersion::Alpha034,
            CliAmberVersion::Alpha034 => AmberVersion::Alpha034,
            CliAmberVersion::Alpha035 => AmberVersion::Alpha035,
            CliAmberVersion::Alpha040 => AmberVersion::Alpha040,
        }
    }
}

impl vstd::std_specs::convert::FromSpecImpl<CliAmberVersion> for AmberVersion {
    open spec fn obeys_from_spec() -> bool {
        true
    }

    open spec fn from_spec(v: CliAmberVersion) -> AmberVersion {
        cli_version(v)
    }
}

/// How each command-line choice is written.
pub open spec fn cli_version_name(val: CliAmberVersion) -> Seq<char> {
    match val {
        CliAmberVersion::Auto => "auto"@,
        CliAmberVersion::Alpha034 => "0.3.4-alpha"@,
        CliAmberVersion::Alpha035 => "0.3.5-alpha"@,
        CliAmberVersion::Alpha040 => "0.4.0-alpha"@,
    }
}

impl CliAmberVersion {
    /// Every choice, in the order they are offered.
    pub fn value_variants() -> (r: Vec<CliAmberVersion>)
        ensures
            r@ == seq![
                CliAmberVersion::Auto,
                CliAmberVersion::Alpha034,
                CliAmberVersion::Alpha035,
                CliAmberVersion::Alpha040,
            ],
    {
        vec![
            CliAmberVersion::Auto,
            CliAmberVersion::Alpha034,
            CliAmberVersion::Alpha035,
            CliAmberVersion::Alpha040,
        ]
    }

    /// How the choice is written on the command line.
    pub fn name(&self) -> (r: &'static str)
        ensures
            r@ == cli_version_name(*self),
    {
        match self {
            CliAmberVersion::Auto => "auto",
            CliAmberVersion::Alpha034 => "0.3.4-alpha",
            CliAmberVersion::Alpha035 => "0.3.5-alpha",
            CliAmberVersion::Alpha040 => "0.4.0-alpha",
        }
    }
}

/// The name under which the standard library resolves an import of
/// `path`, where `path` names a part of it: `std` itself, a path under
/// `std/`, or `builtin`. On 0.3.4-alpha, `std` itself is `std/main`. An
/// import of any other path is relative to the importing file: `None`.
pub open spec fn stdlib_import(path: Seq<char>, version: AmberVersion) -> Option<Seq<char>> {
    if crate::tokens::starts(path, "std/"@) || path == "std"@ || path == "builtin"@ {
        if version == AmberVersion::Alpha034 && path == "std"@ {
            Some("std/main"@)
        } else {
            Some(path)
        }
    } else {
        None
    }
}

/// Whether `s` is exactly `t`.
fn same_text(s: &str, t: &str) -> (r: bool)
    ensures
        r == (s@ == t@),
{
    let same = s.unicode_len() == t.unicode_len() && crate::tokens::has_prefix(s, t);
    proof {
        if s@.len() == t@.len() && crate::tokens::starts(s@, t@) {
            assert(s@ =~= s@.take(t@.len() as int));
        }
        if s@ == t@ {
            assert(s@.take(t@.len() as int) =~= t@);
        }
    }
    same
}

/// Which name of the standard library an import of `path` resolves to, as
/// [`stdlib_import`] says; `None` where the import is a path relative to
/// the importing file.
pub fn map_import_path(path: &str, version: AmberVersion) -> (r: Option<String>)
    ensures
        r matches Some(name) ==> stdlib_import(path@, version) == Some(name@),
        r is None ==> stdlib_import(path@, version) is None,
{
    let is_std = same_text(path, "std");
    if crate::tokens::has_prefix(path, "std/") || is_std || same_text(path, "builtin") {
        match version {
            AmberVersion::Alpha034 => {
                if is_std {
                    return Some(String::from_str("std/main"));
                }
            },
            _ => {},
        }
        Some(String::from_str(path))
    } else {
        None
    }
}

/// Whether `c` has the Unicode `White_Space` property.
pub open spec fn white_space(c: char) -> bool {
    ('\u{9}' <= c && c <= '\u{d}') || c == ' ' || c == '\u{85}' || c == '\u{a0}' || c
        == '\u{1680}' || ('\u{2000}' <= c && c <= '\u{200a}') || c == '\u{2028}' || c == '\u{2029}'
        || c == '\u{202f}' || c == '\u{205f}' || c == '\u{3000}'
}

/// Whether `c` has the Unicode `White_Space` property, as
/// `char::is_whitespace` answers.
fn is_whitespace(c: char) -> (r: bool)
    ensures
        r == white_space(c),
{
    ('\u{9}' <= c && c <= '\u{d}') || c == ' ' || c == '\u{85}' || c == '\u{a0}' || c == '\u{1680}'
        || ('\u{2000}' <= c && c <= '\u{200a}') || c == '\u{2028}' || c == '\u{2029}' || c == '\u{202f}'
        || c == '\u{205f}' || c == '\u{3000}'
}

/// The text that `String::from_utf8_lossy` makes of bytes.
pub uninterp spec fn lossy_text(bytes: Seq<u8>) -> Seq<char>;

/// `String::from_utf8_lossy`, made an owned string: the text of the bytes,
/// with each invalid sequence replaced; valid UTF-8 is decoded as it is.
#[verifier::external_body]
fn from_utf8_lossy(bytes: &[u8]) -> (r: String)
    ensures
        r@ == lossy_text(bytes@),
        valid_utf8(bytes@) ==> r@ == decode_utf8(bytes@),
{
    String::from_utf8_lossy(bytes).to_string()
}

/// `s` without the white space at its end.
pub open spec fn trim_end(s: Seq<char>) -> Seq<char>
    decreases s.len(),
{
    if s.len() > 0 && white_space(s.last()) {
        trim_end(s.drop_last())
    } else {
        s
    }
}

/// The characters at the end of `s` after its last white space.
pub open spec fn last_run(s: Seq<char>) -> Seq<char>
    decreases s.len(),
{
    if s.len() > 0 && !white_space(s.last()) {
        last_run(s.drop_last()).push(s.last())
    } else {
        Seq::empty()
    }
}

/// The last of the words that white space separates in `s`, if it has
/// any.
pub open spec fn last_word(s: Seq<char>) -> Option<Seq<char>> {
    if trim_end(s).len() == 0 {
        None
    } else {
        Some(last_run(trim_end(s)))
    }
}

/// The version that the output of `amber -V` names with its last word:
/// the newest one where that word names none.
pub open spec fn named_version(text: Seq<char>) -> AmberVersion {
    match last_word(text) {
        Some(w) => if w == "0.3.4-alpha"@ {
            AmberVersion::Alpha034
        } else if w == "0.3.5-alpha"@ {
            AmberVersion::Alpha035
        } else {
            AmberVersion::Alpha040
        },
        None => AmberVersion::Alpha040,
    }
}

/// How long `trim_end` keeps a prefix: the prefix up to `i` trims to the
/// prefix up to the last character before `i` that is no white space.
proof fn lemma_trim_end_take(s: Seq<char>, i: int)
    requires
        0 <= i <= s.len(),
        forall|j: int| i <= j < s.len() ==> white_space(#[trigger] s[j]),
    ensures
        trim_end(s) == trim_end(s.take(i)),
    decreases s.len() - i,
{
    if i < s.len() {
        assert(s.take(s.len() as int) =~= s);
        lemma_trim_end_take(s.drop_last(), i);
        assert(s.drop_last().take(i) =~= s.take(i));
    } else {
        assert(s.take(i) =~= s);
    }
}

/// The last run of a prefix that ends in no white space, from where the
/// white space before it ends.
proof fn lemma_last_run_skip(s: Seq<char>, b: int)
    requires
        0 <= b <= s.len(),
        forall|j: int| b <= j < s.len() ==> !white_space(#[trigger] s[j]),
        b == 0 || white_space(s[b - 1]),
    ensures
        last_run(s) == s.skip(b),
    decreases s.len() - b,
{
    if b < s.len() {
        lemma_last_run_skip(s.drop_last(), b);
        assert(s.skip(b) =~= s.drop_last().skip(b).push(s.last()));
    } else {
        assert(s.skip(b) =~= Seq::<char>::empty());
    }
}

/// The version that the output of `amber -V` names, as [`named_version`]
/// says of its text.
pub fn version_from_text(text: &str) -> (r: AmberVersion)
    ensures
        r == named_version(text@),
{
    let n = text.unicode_len();
    let mut e: usize = n;
    while e > 0 && is_whitespace(text.get_char(e - 1))
        invariant
            e <= n,
            n == text@.len(),
            forall|j: int| e <= j < n ==> white_space(#[trigger] text@[j]),
        decreases e,
    {
        e -= 1;
    }
    proof {
        lemma_trim_end_take(text@, e as int);
        assert(e == 0 || !white_space(text@.take(e as int).last()));
        assert(trim_end(text@.take(e as int)) =~= text@.take(e as int));
    }
    if e == 0 {
        return AmberVersion::Alpha040;
    }
    let mut b: usize = e;
    while b > 0 && !is_whitespace(text.get_char(b - 1))
        invariant
            b <= e <= n,
            n == text@.len(),
            forall|j: int| b <= j < e ==> !white_space(#[trigger] text@[j]),
        decreases b,
    {
        b -= 1;
    }
    proof {
        let t = text@.take(e as int);
        assert forall|j: int| b <= j < t.len() implies !white_space(#[trigger] t[j]) by {
            assert(t[j] == text@[j]);
        }
        lemma_last_run_skip(t, b as int);
        assert(t.skip(b as int) =~= text@.subrange(b as int, e as int));
    }
    let word = String::from_str(text.substring_char(b, e));
    if word == String::from_str("0.3.4-alpha") {
        AmberVersion::Alpha034
    } else if word == String::from_str("0.3.5-alpha") {
        AmberVersion::Alpha035
    } else {
        AmberVersion::Alpha040
    }
}

/// The version that the output of `amber -V` names, or the newest one
/// where the command could not be run.
pub fn version_from_output(output: Option<&[u8]>) -> (r: AmberVersion)
    ensures
        output matches Some(bytes) ==> r == named_version(lossy_text(bytes@)),
        output is None ==> r == AmberVersion::Alpha040,
{
    match output {
        Some(bytes) => {
            let text = from_utf8_lossy(bytes);
            version_from_text(text.as_str())
        },
        None => AmberVersion::Alpha040,
    }
}

} // verus!
