//! Stream-level tests: whole XML documents through the lazy sentence
//! iterator, and the full pipeline into the tabular writer.

use conllx::graph::Sentence as ConllxSentence;
use conllx::io::{WriteSentence, Writer};
use conllx::token::{Features, TokenBuilder};
use xml2conllx::corpus::Sentence;
use xml2conllx::decoder::SentenceIter;

fn collect_sentences(input: &str) -> Vec<Sentence> {
    let mut it = SentenceIter::new(input.as_bytes().to_vec());
    let mut out = Vec::new();
    while let Some(item) = it.next() {
        out.push(item.expect("well-formed input decodes without error"));
    }
    out
}

fn forms(s: &Sentence) -> Vec<String> {
    s.tokens().iter().map(|t| t.form().clone()).collect()
}

fn to_conllx(s: &Sentence) -> ConllxSentence {
    let mut out = ConllxSentence::new();
    for t in s.tokens() {
        out.push(
            TokenBuilder::new(t.form().as_str())
                .features(Features::from(t.features().as_str()))
                .into(),
        );
    }
    out
}

fn pipeline_output(input: &str) -> String {
    let mut writer = Writer::new(Vec::new());
    let mut it = SentenceIter::new(input.as_bytes().to_vec());
    while let Some(item) = it.next() {
        let sentence = item.expect("well-formed input decodes without error");
        writer
            .write_sentence(&to_conllx(&sentence))
            .expect("writing to a memory buffer succeeds");
    }
    String::from_utf8(writer.get_ref().clone()).expect("tabular output is UTF-8")
}

#[test]
fn each_closed_sentence_yields_one_item() {
    let sentences = collect_sentences("<doc><s>a</s><s>b</s><s>c</s></doc>");
    assert_eq!(sentences.len(), 3);
    assert_eq!(forms(&sentences[0]), vec!["a"]);
    assert_eq!(forms(&sentences[1]), vec!["b"]);
    assert_eq!(forms(&sentences[2]), vec!["c"]);
}

#[test]
fn character_chunk_splits_into_token_lines() {
    let sentences = collect_sentences("<s>w1\tX\tY\nw2\n\n</s>");
    assert_eq!(sentences.len(), 1);
    assert_eq!(forms(&sentences[0]), vec!["w1", "w2"]);
    for t in sentences[0].tokens() {
        assert_eq!(t.features().as_str(), "bdc:f|bpc:f");
    }
}

#[test]
fn attributes_control_the_annotation() {
    let sentences = collect_sentences("<doc><s bdc=\"t\">w1</s><s bpc=\"t\">w2</s></doc>");
    assert_eq!(sentences.len(), 2);
    assert_eq!(sentences[0].tokens()[0].features().as_str(), "bdc:t|bpc:f");
    assert_eq!(sentences[1].tokens()[0].features().as_str(), "bdc:f|bpc:t");
}

#[test]
fn whitespace_only_chunk_yields_empty_sentence() {
    let sentences = collect_sentences("<s>\n\n   \n</s>");
    assert_eq!(sentences.len(), 1);
    assert_eq!(sentences[0].len(), 0);
}

#[test]
fn malformed_document_stops_with_an_error() {
    let mut it = SentenceIter::new(b"<doc><s>w".to_vec());
    let first = it.next().expect("an item is produced for the failure");
    assert!(first.is_err());
    // Decoding stops for good: nothing further is produced.
    assert!(it.next().is_none());
    assert!(it.next().is_none());
}

#[test]
fn round_trip_single_sentence() {
    let output = pipeline_output("<s>Hello\tX\nworld</s>");
    assert_eq!(
        output,
        "1\tHello\t_\t_\t_\tbdc:f|bpc:f\t_\t_\t_\t_\n\
         2\tworld\t_\t_\t_\tbdc:f|bpc:f\t_\t_\t_\t_\n"
    );
}

#[test]
fn round_trip_sentences_are_separated_by_a_blank_line() {
    let output = pipeline_output("<doc><s>a</s><s>b</s></doc>");
    assert_eq!(
        output,
        "1\ta\t_\t_\t_\tbdc:f|bpc:f\t_\t_\t_\t_\n\
         \n\
         1\tb\t_\t_\t_\tbdc:f|bpc:f\t_\t_\t_\t_\n"
    );
}

#[test]
fn comments_and_nested_markup_do_not_break_a_sentence() {
    // Comments are ignored; a nested non-marker element neither closes
    // the sentence nor drops the character data around and inside it.
    let sentences = collect_sentences("<doc><!-- note --><s>w\n<em>x</em>\ny</s></doc>");
    assert_eq!(sentences.len(), 1);
    assert_eq!(forms(&sentences[0]), vec!["w", "x", "y"]);
}
