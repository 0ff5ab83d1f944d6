use amber_lsp::grammar::{CommandModifier, Comment, Span};
use amber_lsp::tokens::{
    comment_parser, modifier_parser, normalize_newlines, number_parser, tokens_of_words,
};

fn toks(words: &[&str]) -> Vec<(String, Span)> {
    let mut out = Vec::new();
    let mut at = 0;
    for w in words {
        out.push((w.to_string(), Span { start: at, end: at + w.len() }));
        at += w.len();
    }
    out
}

#[test]
fn comments_and_doc_strings() {
    let ts = toks(&["//  a note ", "/// docs\t", "x"]);
    let (c, next) = comment_parser(&ts, 0).unwrap();
    assert_eq!(c.0, Comment::Comment("a note".to_string()));
    assert_eq!(next, 1);
    let (d, _) = comment_parser(&ts, 1).unwrap();
    assert_eq!(d.0, Comment::DocString("docs".to_string()));
    assert!(comment_parser(&ts, 2).is_none());
    assert!(comment_parser(&ts, 3).is_none());
}

#[test]
fn modifiers() {
    let ts = toks(&["unsafe", "silent", "trust"]);
    assert_eq!(modifier_parser(&ts, 0).unwrap().0 .0, CommandModifier::Unsafe);
    assert_eq!(modifier_parser(&ts, 1).unwrap().0 .0, CommandModifier::Silent);
    assert!(modifier_parser(&ts, 2).is_none());
}

#[test]
fn numbers() {
    let ts = toks(&["12", ".", "5", "+", ".", "25", "+", "7", "x"]);
    let ((text, span), next) = number_parser(&ts, 0).unwrap();
    assert_eq!(text, "12.5");
    assert_eq!(span, Span { start: 0, end: 4 });
    assert_eq!(next, 3);
    let ((text, _), next) = number_parser(&ts, 4).unwrap();
    assert_eq!(text, "0.25");
    assert_eq!(next, 6);
    let ((text, _), next) = number_parser(&ts, 7).unwrap();
    assert_eq!(text, "7.0");
    assert_eq!(next, 8);
    assert!(number_parser(&ts, 8).is_none());
    assert!(number_parser(&ts, 3).is_none());
}

#[test]
fn line_endings_become_line_feeds() {
    assert_eq!(normalize_newlines("a\r\nb\rc\n"), "a\nb\nc\n");
    assert_eq!(normalize_newlines("\r\r\n"), "\n\n");
    assert_eq!(normalize_newlines("é\r"), "é\n");
    assert_eq!(normalize_newlines(""), "");
}

#[test]
fn words_become_tokens() {
    let words = vec![
        ("let".to_string(), 0),
        ("\n".to_string(), 3),
        ("héllo".to_string(), 4),
        ("\"\n\"".to_string(), 10),
    ];
    assert_eq!(
        tokens_of_words(&words),
        vec![
            ("let".to_string(), Span { start: 0, end: 3 }),
            ("héllo".to_string(), Span { start: 4, end: 9 }),
            ("\"\n\"".to_string(), Span { start: 10, end: 13 }),
        ]
    );
}
