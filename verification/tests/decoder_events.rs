//! Event-level tests of the sentence decoder state machine.

use xml2conllx::corpus::Sentence;
use xml2conllx::decoder::Decoder;
use xml2conllx::events::{Attr, Event};
use xml2conllx::events::find_attribute_or;

fn start(name: &str, attrs: Vec<(&str, &str)>) -> Event {
    Event::ElementStart {
        name: name.to_string(),
        attributes: attrs
            .into_iter()
            .map(|(n, v)| Attr { name: n.to_string(), value: v.to_string() })
            .collect(),
    }
}

fn end(name: &str) -> Event {
    Event::ElementEnd { name: name.to_string() }
}

fn text(data: &str) -> Event {
    Event::Text { data: data.to_string() }
}

fn forms(s: &Sentence) -> Vec<String> {
    s.tokens().iter().map(|t| t.form().clone()).collect()
}

fn annotations(s: &Sentence) -> Vec<String> {
    s.tokens().iter().map(|t| t.features().clone()).collect()
}

#[test]
fn attribute_resolver_present() {
    let attrs = vec![
        Attr { name: "bdc".to_string(), value: "t".to_string() },
        Attr { name: "bpc".to_string(), value: "x".to_string() },
    ];
    assert_eq!(find_attribute_or(&attrs, "bdc", "f"), "t");
    assert_eq!(find_attribute_or(&attrs, "bpc", "f"), "x");
}

#[test]
fn attribute_resolver_absent_gives_default() {
    let attrs = vec![Attr { name: "other".to_string(), value: "v".to_string() }];
    assert_eq!(find_attribute_or(&attrs, "bdc", "f"), "f");
    assert_eq!(find_attribute_or(&Vec::new(), "bpc", "f"), "f");
}

#[test]
fn attribute_resolver_takes_first_match() {
    let attrs = vec![
        Attr { name: "bdc".to_string(), value: "1".to_string() },
        Attr { name: "bdc".to_string(), value: "2".to_string() },
    ];
    assert_eq!(find_attribute_or(&attrs, "bdc", "f"), "1");
}

#[test]
fn default_annotation_without_attributes() {
    let mut d = Decoder::new();
    assert!(d.advance(&start("s", vec![])).is_none());
    assert!(d.advance(&text("w1")).is_none());
    let s = d.advance(&end("s")).expect("a closed sentence is emitted");
    assert_eq!(forms(&s), vec!["w1"]);
    assert_eq!(annotations(&s), vec!["bdc:f|bpc:f"]);
}

#[test]
fn bdc_only_annotation() {
    let mut d = Decoder::new();
    assert!(d.advance(&start("s", vec![("bdc", "t")])).is_none());
    assert!(d.advance(&text("w1\nw2")).is_none());
    let s = d.advance(&end("s")).expect("a closed sentence is emitted");
    assert_eq!(forms(&s), vec!["w1", "w2"]);
    assert_eq!(annotations(&s), vec!["bdc:t|bpc:f", "bdc:t|bpc:f"]);
}

#[test]
fn chunk_with_extra_fields_and_trailing_blank_lines() {
    let mut d = Decoder::new();
    assert!(d.advance(&start("s", vec![])).is_none());
    assert!(d.advance(&text("w1\tX\tY\nw2\n\n")).is_none());
    let s = d.advance(&end("s")).expect("a closed sentence is emitted");
    assert_eq!(forms(&s), vec!["w1", "w2"]);
}

#[test]
fn interior_blank_line_yields_no_token() {
    let mut d = Decoder::new();
    assert!(d.advance(&start("s", vec![])).is_none());
    assert!(d.advance(&text("w1\n\nw2")).is_none());
    let s = d.advance(&end("s")).expect("a closed sentence is emitted");
    assert_eq!(forms(&s), vec!["w1", "w2"]);
}

#[test]
fn unclosed_sentence_emits_nothing() {
    let mut d = Decoder::new();
    assert!(d.advance(&start("s", vec![])).is_none());
    assert!(d.advance(&text("w1")).is_none());
    assert!(d.advance(&Event::DocumentEnd).is_none());
}

#[test]
fn annotation_carries_forward_after_sentence_end() {
    let mut d = Decoder::new();
    assert!(d.advance(&start("s", vec![("bdc", "t"), ("bpc", "u")])).is_none());
    assert!(d.advance(&text("w1")).is_none());
    let first = d.advance(&end("s")).expect("first sentence");
    assert_eq!(annotations(&first), vec!["bdc:t|bpc:u"]);
    // No new sentence marker: the annotation stays in force.
    assert!(d.advance(&text("w2")).is_none());
    let second = d.advance(&end("s")).expect("second sentence");
    assert_eq!(forms(&second), vec!["w2"]);
    assert_eq!(annotations(&second), vec!["bdc:t|bpc:u"]);
}

#[test]
fn one_sentence_per_closing_marker() {
    let mut d = Decoder::new();
    let mut emitted: usize = 0;
    let events = vec![
        start("doc", vec![]),
        start("s", vec![]),
        text("a"),
        end("s"),
        start("s", vec![]),
        text("b"),
        end("s"),
        start("s", vec![]),
        end("s"),
        end("doc"),
        Event::DocumentEnd,
    ];
    for ev in &events {
        if d.advance(ev).is_some() {
            emitted += 1;
        }
    }
    assert_eq!(emitted, 3);
}

#[test]
fn empty_sentence_element() {
    let mut d = Decoder::new();
    assert!(d.advance(&start("s", vec![])).is_none());
    let s = d.advance(&end("s")).expect("an empty sentence is still emitted");
    assert_eq!(s.len(), 0);
}

#[test]
fn repeated_start_does_not_reset_accumulation() {
    let mut d = Decoder::new();
    assert!(d.advance(&start("s", vec![])).is_none());
    assert!(d.advance(&text("w1")).is_none());
    // A second opening marker before any close: the buffer is kept, only
    // the annotation changes for tokens that follow.
    assert!(d.advance(&start("s", vec![("bdc", "t")])).is_none());
    assert!(d.advance(&text("w2")).is_none());
    let s = d.advance(&end("s")).expect("a closed sentence is emitted");
    assert_eq!(forms(&s), vec!["w1", "w2"]);
    assert_eq!(annotations(&s), vec!["bdc:f|bpc:f", "bdc:t|bpc:f"]);
}

#[test]
fn non_marker_elements_are_ignored() {
    let mut d = Decoder::new();
    assert!(d.advance(&start("para", vec![("bdc", "t")])).is_none());
    assert!(d.advance(&start("s", vec![])).is_none());
    assert!(d.advance(&text("w")).is_none());
    assert!(d.advance(&end("para")).is_none());
    let s = d.advance(&end("s")).expect("a closed sentence is emitted");
    assert_eq!(forms(&s), vec!["w"]);
    assert_eq!(annotations(&s), vec!["bdc:f|bpc:f"]);
}

#[test]
fn tab_led_line_yields_no_token() {
    // An interior line whose first tab field is empty produces no token;
    // a leading tab on the first line is chunk whitespace and is trimmed.
    let mut d = Decoder::new();
    assert!(d.advance(&start("s", vec![])).is_none());
    assert!(d.advance(&text("w1\n\tX\nw2")).is_none());
    let s = d.advance(&end("s")).expect("a closed sentence is emitted");
    assert_eq!(forms(&s), vec!["w1", "w2"]);
}
