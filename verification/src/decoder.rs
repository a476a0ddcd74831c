//! The sentence decoder: a state machine over XML parse events that
//! accumulates tokens and emits one sentence per closing sentence marker.

use vstd::prelude::*;
use crate::corpus::{Sentence, Token, TokenV, tokens_view};
use crate::events::{AttrV, Event, EventV, find_attribute_or, spec_attr_or, str_eq,
    lemma_attr_or_absent};
use crate::text::{chunk_tokens, spec_trim, push_chunk_tokens, lemma_lines_tokens_wf};
use crate::source::{ByteReader, DecodeError, open_document, next_document_event, source_budget};

verus! {

/// The local name that marks a sentence element.
pub open spec fn sentence_marker() -> Seq<char> {
    "s"@
}

/// The annotation in force before any sentence marker has been seen.
pub open spec fn default_annotation() -> Seq<char> {
    "bdc:f|bpc:f"@
}

/// The annotation string built from the two flag values.
pub open spec fn annotation(bdc: Seq<char>, bpc: Seq<char>) -> Seq<char> {
    "bdc:"@ + bdc + "|bpc:"@ + bpc
}

/// The annotation a sentence marker's attribute list resolves to: each
/// flag's value, defaulting to "f" when the attribute is absent.
pub open spec fn start_annotation(attrs: Seq<AttrV>) -> Seq<char> {
    annotation(spec_attr_or(attrs, "bdc"@, "f"@), spec_attr_or(attrs, "bpc"@, "f"@))
}

/// Model of the decoder state: the token buffer of the sentence being
/// built, and the feature annotation currently in force.
#[verifier::ext_equal]
pub ghost struct DecoderV {
    pub tokens: Seq<TokenV>,
    pub features: Seq<char>,
}

/// The state before any event: empty buffer, default annotation.
pub open spec fn initial_state() -> DecoderV {
    DecoderV { tokens: Seq::empty(), features: default_annotation() }
}

/// Whether an event opens a sentence element.
pub open spec fn is_sentence_start(ev: EventV) -> bool {
    match ev {
        EventV::ElementStart { name, .. } => name == sentence_marker(),
        _ => false,
    }
}

/// Whether an event closes a sentence element.
pub open spec fn is_sentence_end(ev: EventV) -> bool {
    match ev {
        EventV::ElementEnd { name } => name == sentence_marker(),
        _ => false,
    }
}

/// One transition of the decoder: the successor state, and the token
/// sequence emitted as a sentence, if any.
///
/// A sentence marker opening recomputes the annotation from its
/// attributes and leaves the buffer alone; a sentence marker closing
/// emits the buffer and clears it, keeping the annotation in force;
/// character data appends its tokens under the current annotation; every
/// other event changes nothing.
pub open spec fn step(st: DecoderV, ev: EventV) -> (DecoderV, Option<Seq<TokenV>>) {
    match ev {
        EventV::ElementStart { name, attributes } => {
            if name == sentence_marker() {
                (
                    DecoderV { tokens: st.tokens, features: start_annotation(attributes) },
                    None::<Seq<TokenV>>,
                )
            } else {
                (st, None)
            }
        },
        EventV::ElementEnd { name } => {
            if name == sentence_marker() {
                (DecoderV { tokens: Seq::empty(), features: st.features }, Some(st.tokens))
            } else {
                (st, None)
            }
        },
        EventV::Text { data } => {
            (
                DecoderV {
                    tokens: st.tokens + chunk_tokens(spec_trim(data), st.features),
                    features: st.features,
                },
                None,
            )
        },
        EventV::DocumentEnd => (st, None),
        EventV::Other => (st, None),
    }
}

/// The decoder run over a whole event sequence: the final state, and
/// every emitted sentence, in document order.
pub open spec fn run(st: DecoderV, evs: Seq<EventV>) -> (DecoderV, Seq<Seq<TokenV>>)
    decreases evs.len(),
{
    if evs.len() == 0 {
        (st, Seq::empty())
    } else {
        let prev = run(st, evs.drop_last());
        let cur = step(prev.0, evs.last());
        (
            cur.0,
            match cur.1 {
                Some(toks) => prev.1.push(toks),
                None => prev.1,
            },
        )
    }
}

/// The executable decoder state.
pub struct Decoder {
    tokens: Vec<Token>,
    features: String,
}

impl View for Decoder {
    type V = DecoderV;

    closed spec fn view(&self) -> DecoderV {
        DecoderV { tokens: tokens_view(self.tokens@), features: self.features@ }
    }
}

impl Decoder {
    pub fn new() -> (d: Decoder)
        ensures
            d@ == initial_state(),
    {
        let d = Decoder { tokens: Vec::new(), features: String::from_str("bdc:f|bpc:f") };
        proof {
            assert(tokens_view(d.tokens@) =~= Seq::<TokenV>::empty());
            assert(d@ =~= initial_state());
        }
        d
    }

    /// Feeds one event to the decoder; returns the sentence it emits, if
    /// this event closes a sentence element.
    pub fn advance(&mut self, ev: &Event) -> (r: Option<Sentence>)
        ensures
            final(self)@ == step(old(self)@, ev@).0,
            (match step(old(self)@, ev@).1 {
                Some(toks) => r matches Some(s) && s@ == toks,
                None => r is None,
            }),
    {
        match ev {
            Event::ElementStart { name, attributes } => {
                if str_eq(name.as_str(), "s") {
                    let bdc = find_attribute_or(attributes, "bdc", "f");
                    let bpc = find_attribute_or(attributes, "bpc", "f");
                    let mut f = String::from_str("bdc:");
                    f.append(bdc.as_str());
                    f.append("|bpc:");
                    f.append(bpc.as_str());
                    self.features = f;
                    proof {
                        assert(self@ =~= step(old(self)@, ev@).0);
                    }
                }
                None
            },
            Event::ElementEnd { name } => {
                if str_eq(name.as_str(), "s") {
                    let mut out: Vec<Token> = Vec::new();
                    core::mem::swap(&mut out, &mut self.tokens);
                    let s = Sentence::new(out);
                    proof {
                        assert(tokens_view(self.tokens@) =~= Seq::<TokenV>::empty());
                        assert(self@ =~= step(old(self)@, ev@).0);
                    }
                    Some(s)
                } else {
                    None
                }
            },
            Event::Text { data } => {
                push_chunk_tokens(data.as_str(), &self.features, &mut self.tokens);
                proof {
                    assert(self@ =~= step(old(self)@, ev@).0);
                }
                None
            },
            Event::DocumentEnd => None,
            Event::Other => None,
        }
    }
}

/// A lazy, forward-only producer of sentences decoded from an in-memory
/// XML document: one item per closed sentence element, in document order.
pub struct SentenceIter {
    source: ByteReader,
    state: Decoder,
    finished: bool,
    events: Ghost<Seq<EventV>>,
    emitted: Ghost<Seq<Seq<TokenV>>>,
}

impl SentenceIter {
    /// The events consumed from the source so far.
    pub closed spec fn consumed(self) -> Seq<EventV> {
        self.events@
    }

    /// The sentences handed out so far.
    pub closed spec fn produced(self) -> Seq<Seq<TokenV>> {
        self.emitted@
    }

    /// Whether the stream has ended, at the end of the document or on an
    /// error.
    pub closed spec fn finished(self) -> bool {
        self.finished
    }

    /// The iterator is exactly the decoder run over the events consumed
    /// so far: its state is the run's state, and the sentences handed out
    /// are the run's emissions.
    pub closed spec fn wf(self) -> bool {
        &&& run(initial_state(), self.events@).0 == self.state@
        &&& run(initial_state(), self.events@).1 == self.emitted@
    }

    pub fn new(data: Vec<u8>) -> (it: SentenceIter)
        ensures
            it.wf(),
            it.consumed() == Seq::<EventV>::empty(),
            it.produced() == Seq::<Seq<TokenV>>::empty(),
            !it.finished(),
    {
        SentenceIter {
            source: open_document(data),
            state: Decoder::new(),
            finished: false,
            events: Ghost(Seq::empty()),
            emitted: Ghost(Seq::empty()),
        }
    }

    /// The next decoded sentence: one error at the first event-source
    /// failure, after which decoding stops for good; `None` only once the
    /// end-of-document event has actually been consumed (or on any call
    /// after the stream has ended).
    pub fn next(&mut self) -> (r: Option<Result<Sentence, DecodeError>>)
        requires
            old(self).wf(),
        ensures
            final(self).wf(),
            final(self).produced() == run(initial_state(), final(self).consumed()).1,
            old(self).consumed().is_prefix_of(final(self).consumed()),
            (match r {
                Some(res) => match res {
                    Ok(s) => final(self).produced() == old(self).produced().push(s@)
                        && !final(self).finished(),
                    Err(_) => final(self).finished() && final(self).produced() == old(
                        self,
                    ).produced(),
                },
                None => final(self).finished() && final(self).produced() == old(self).produced(),
            }),
            !old(self).finished() && r is None ==> old(self).consumed().len() < final(self).consumed().len()
                && final(self).consumed().last() == EventV::DocumentEnd,
            old(self).finished() ==> r is None && final(self).consumed() == old(self).consumed(),
    {
        if self.finished {
            return None;
        }
        loop
            invariant
                self.wf(),
                !self.finished,
                !old(self).finished(),
                self.emitted@ == old(self).emitted@,
                old(self).events@.is_prefix_of(self.events@),
            decreases source_budget(self.source),
        {
            let pulled = next_document_event(&mut self.source);
            match pulled {
                Ok(ev) => {
                    let ghost evs0: Seq<EventV> = self.events@;
                    self.events = Ghost(self.events@.push(ev@));
                    let out = self.state.advance(&ev);
                    proof {
                        assert(self.events@.drop_last() =~= evs0);
                        assert(self.events@.last() == ev@);
                    }
                    match out {
                        Some(s) => {
                            self.emitted = Ghost(self.emitted@.push(s@));
                            return Some(Ok(s));
                        },
                        None => {
                            if let Event::DocumentEnd = ev {
                                self.finished = true;
                                return None;
                            }
                        },
                    }
                },
                Err(e) => {
                    self.finished = true;
                    return Some(Err(DecodeError::from_xml(e)));
                },
            }
        }
    }
}

/// How many events of the sequence close a sentence element.
pub open spec fn count_sentence_ends(evs: Seq<EventV>) -> nat
    decreases evs.len(),
{
    if evs.len() == 0 {
        0
    } else {
        count_sentence_ends(evs.drop_last()) + (if is_sentence_end(evs.last()) {
            1nat
        } else {
            0nat
        })
    }
}

/// Every closed sentence element yields exactly one sentence: a run
/// emits as many sentences as the event sequence holds closing sentence
/// markers, whatever else the events carry, and in document order.
pub proof fn lemma_one_sentence_per_close(st: DecoderV, evs: Seq<EventV>)
    ensures
        run(st, evs).1.len() == count_sentence_ends(evs),
    decreases evs.len(),
{
    if evs.len() > 0 {
        lemma_one_sentence_per_close(st, evs.drop_last());
    }
}

/// The iterator hands out exactly one sentence per closing sentence
/// marker among the events it has consumed.
pub proof fn lemma_iter_one_sentence_per_close(it: SentenceIter)
    requires
        it.wf(),
    ensures
        it.produced().len() == count_sentence_ends(it.consumed()),
{
    lemma_one_sentence_per_close(initial_state(), it.consumed());
}

/// A sentence element opened but never closed yields nothing: a run
/// whose events hold no closing sentence marker emits no sentence at
/// all, however many tokens were accumulated.
pub proof fn lemma_unclosed_sentence_dropped(st: DecoderV, evs: Seq<EventV>)
    requires
        forall|i: int| 0 <= i < evs.len() ==> !is_sentence_end(#[trigger] evs[i]),
    ensures
        run(st, evs).1 == Seq::<Seq<TokenV>>::empty(),
    decreases evs.len(),
{
    if evs.len() > 0 {
        assert forall|i: int| 0 <= i < evs.drop_last().len() implies !is_sentence_end(
            #[trigger] evs.drop_last()[i],
        ) by {
            assert(evs.drop_last()[i] == evs[i]);
        }
        lemma_unclosed_sentence_dropped(st, evs.drop_last());
        assert(!is_sentence_end(evs[evs.len() - 1]));
    }
}

/// Runs compose: over concatenated event sequences the states chain and
/// the emitted sentences concatenate.
pub proof fn lemma_run_concat(st: DecoderV, a: Seq<EventV>, b: Seq<EventV>)
    ensures
        run(st, a + b).0 == run(run(st, a).0, b).0,
        run(st, a + b).1 == run(st, a).1 + run(run(st, a).0, b).1,
    decreases b.len(),
{
    if b.len() == 0 {
        assert(a + b =~= a);
        assert(run(st, a).1 + run(run(st, a).0, b).1 =~= run(st, a).1);
    } else {
        lemma_run_concat(st, a, b.drop_last());
        assert((a + b).drop_last() =~= a + b.drop_last());
        assert((a + b).last() == b.last());
        let mid = run(run(st, a).0, b.drop_last());
        match step(mid.0, b.last()).1 {
            Some(toks) => {
                assert((run(st, a).1 + mid.1).push(toks) =~= run(st, a).1 + mid.1.push(toks));
            },
            None => {},
        }
    }
}

/// Between sentence markers nothing changes the annotation: a run over
/// events holding no sentence marker keeps the annotation, emits no
/// sentence, and only appends tokens that carry that annotation and a
/// non-empty form.
pub proof fn lemma_run_no_marker(st: DecoderV, mid: Seq<EventV>)
    requires
        forall|i: int|
            0 <= i < mid.len() ==> !is_sentence_start(#[trigger] mid[i]) && !is_sentence_end(
                mid[i],
            ),
    ensures
        run(st, mid).0.features == st.features,
        run(st, mid).1 == Seq::<Seq<TokenV>>::empty(),
        run(st, mid).0.tokens.len() >= st.tokens.len(),
        forall|j: int|
            st.tokens.len() <= j < run(st, mid).0.tokens.len() ==> (#[trigger] run(
                st,
                mid,
            ).0.tokens[j]).features == st.features && run(st, mid).0.tokens[j].wf(),
    decreases mid.len(),
{
    if mid.len() == 0 {
        assert(run(st, mid).1 =~= Seq::<Seq<TokenV>>::empty());
    } else {
        assert forall|i: int| 0 <= i < mid.drop_last().len() implies !is_sentence_start(
            #[trigger] mid.drop_last()[i],
        ) && !is_sentence_end(mid.drop_last()[i]) by {
            assert(mid.drop_last()[i] == mid[i]);
        }
        lemma_run_no_marker(st, mid.drop_last());
        let prev = run(st, mid.drop_last()).0;
        let last = mid[mid.len() - 1];
        assert(!is_sentence_start(last) && !is_sentence_end(last));
        match last {
            EventV::Text { data } => {
                let fresh = chunk_tokens(spec_trim(data), prev.features);
                lemma_lines_tokens_wf(crate::text::split_lines(spec_trim(data)), prev.features);
                assert forall|j: int|
                    st.tokens.len() <= j < run(st, mid).0.tokens.len() implies (#[trigger] run(
                    st,
                    mid,
                ).0.tokens[j]).features == st.features && run(st, mid).0.tokens[j].wf() by {
                    if j < prev.tokens.len() {
                        assert(run(st, mid).0.tokens[j] == prev.tokens[j]);
                    } else {
                        assert(run(st, mid).0.tokens[j] == fresh[j - prev.tokens.len()]);
                    }
                }
            },
            _ => {},
        }
    }
}

/// A run over a single event is one step.
proof fn lemma_run_one(st: DecoderV, ev: EventV)
    ensures
        run(st, seq![ev]).0 == step(st, ev).0,
        run(st, seq![ev]).1 == (match step(st, ev).1 {
            Some(toks) => seq![toks],
            None => Seq::<Seq<TokenV>>::empty(),
        }),
{
    let evs = seq![ev];
    assert(evs.drop_last() =~= Seq::<EventV>::empty());
    assert(run(st, evs.drop_last()).0 == st);
    assert(run(st, evs.drop_last()).1 == Seq::<Seq<TokenV>>::empty());
    assert(evs.last() == ev);
    match step(st, ev).1 {
        Some(toks) => {
            assert(Seq::<Seq<TokenV>>::empty().push(toks) =~= seq![toks]);
        },
        None => {},
    }
}

/// All tokens of one sentence element carry the annotation resolved when
/// the element opened: starting from an empty token buffer, a sentence
/// element whose body holds no further sentence markers emits exactly
/// one sentence, and every token of it carries the annotation resolved
/// from the element's attributes, with a non-empty form.
pub proof fn lemma_sentence_annotation(st: DecoderV, attrs: Seq<AttrV>, mid: Seq<EventV>)
    requires
        st.tokens.len() == 0,
        forall|i: int|
            0 <= i < mid.len() ==> !is_sentence_start(#[trigger] mid[i]) && !is_sentence_end(
                mid[i],
            ),
    ensures
        ({
            let evs = seq![
                EventV::ElementStart { name: sentence_marker(), attributes: attrs },
            ] + mid + seq![EventV::ElementEnd { name: sentence_marker() }];
            let out = run(st, evs).1;
            out.len() == 1 && (forall|j: int|
                0 <= j < out[0].len() ==> (#[trigger] out[0][j]).features == start_annotation(
                    attrs,
                ) && out[0][j].wf())
        }),
{
    let opening = seq![EventV::ElementStart { name: sentence_marker(), attributes: attrs }];
    let closing = seq![EventV::ElementEnd { name: sentence_marker() }];
    let evs = opening + mid + closing;

    let st1 = DecoderV { tokens: st.tokens, features: start_annotation(attrs) };
    lemma_run_one(st, EventV::ElementStart { name: sentence_marker(), attributes: attrs });
    assert(run(st, opening).0 =~= st1);
    assert(run(st, opening).1 =~= Seq::<Seq<TokenV>>::empty());

    lemma_run_concat(st, opening, mid);
    lemma_run_no_marker(st1, mid);
    let st2 = run(st1, mid).0;
    assert(run(st, opening + mid).0 == st2);
    assert(run(st, opening + mid).1 =~= Seq::<Seq<TokenV>>::empty());

    lemma_run_concat(st, opening + mid, closing);
    assert(evs =~= (opening + mid) + closing);
    lemma_run_one(st2, EventV::ElementEnd { name: sentence_marker() });
    assert(run(st2, closing).1 =~= seq![st2.tokens]);
    let out = run(st, evs).1;
    assert(out =~= Seq::<Seq<TokenV>>::empty() + seq![st2.tokens]);
    assert(out[0] == st2.tokens);
}

/// With neither flag among a sentence marker's attributes, the resolved
/// annotation is exactly the default one.
pub proof fn lemma_absent_flags_default(attrs: Seq<AttrV>)
    requires
        forall|i: int|
            0 <= i < attrs.len() ==> (#[trigger] attrs[i]).name != "bdc"@ && attrs[i].name
                != "bpc"@,
    ensures
        start_annotation(attrs) == default_annotation(),
{
    lemma_attr_or_absent(attrs, "bdc"@, "f"@);
    lemma_attr_or_absent(attrs, "bpc"@, "f"@);
    reveal_strlit("bdc:");
    reveal_strlit("|bpc:");
    reveal_strlit("f");
    reveal_strlit("bdc:f|bpc:f");
    assert(annotation("f"@, "f"@) =~= "bdc:f|bpc:f"@);
}

/// A sentence marker whose attributes resolve the first flag to "t" and
/// carry no second flag resolves to the annotation "bdc:t|bpc:f".
pub proof fn lemma_bdc_only_annotation(attrs: Seq<AttrV>)
    requires
        spec_attr_or(attrs, "bdc"@, "f"@) == "t"@,
        forall|i: int| 0 <= i < attrs.len() ==> (#[trigger] attrs[i]).name != "bpc"@,
    ensures
        start_annotation(attrs) == "bdc:t|bpc:f"@,
{
    lemma_attr_or_absent(attrs, "bpc"@, "f"@);
    reveal_strlit("bdc:");
    reveal_strlit("|bpc:");
    reveal_strlit("f");
    reveal_strlit("t");
    reveal_strlit("bdc:t|bpc:f");
    assert(annotation("t"@, "f"@) =~= "bdc:t|bpc:f"@);
}

} // verus!
