//! Reading sentences from the XML files of the Europarl corpus.
//!
//! The reader is a state machine: it is handed the XML events one at a time
//! and says after each whether the sentence is complete. Each word (`w`
//! element) becomes a token whose features name the subcorpus and, where
//! they are known, the chapter, speaker and paragraph it occurs in.

use vstd::prelude::*;

use crate::features::{clone_opt, opt_view, FeatureMap};
use crate::text::{append_str, same_chars};

verus! {

#[verifier::external_type_specification]
#[verifier::external_body]
pub struct ExXmlReaderError(xml::reader::Error);

/// Errors of reading the corpus.
#[derive(Debug)]
pub enum ParseError {
    /// The XML reader failed.
    Xml(xml::reader::Error),
    /// A word element without text.
    EmptyTokenError,
}

/// An attribute of an XML element: its local name and its value.
#[derive(Debug)]
pub struct Attribute {
    pub name: String,
    pub value: String,
}

/// The XML events that the reader tells apart.
#[derive(Debug)]
pub enum CorpusEvent {
    /// The end of the document.
    EndDocument,
    /// An opening tag, with the local name of the element.
    StartElement { name: String, attributes: Vec<Attribute> },
    /// A closing tag, with the local name of the element.
    EndElement { name: String },
    /// Text.
    Characters(String),
    /// Any other event.
    Other,
}

/// The value of the first attribute named `name`, if any.
pub open spec fn attribute_value(attrs: Seq<Attribute>, name: Seq<char>) -> Option<Seq<char>>
    decreases attrs.len(),
{
    if attrs.len() == 0 {
        None
    } else if attrs[0].name@ == name {
        Some(attrs[0].value@)
    } else {
        attribute_value(attrs.drop_first(), name)
    }
}

/// The value of the first attribute in `attrs` whose name is `attr`.
pub fn get_attribute<'a>(attrs: &'a Vec<Attribute>, attr: &str) -> (res: Option<&'a str>)
    ensures
        res.is_some() == attribute_value(attrs@, attr@).is_some(),
        res matches Some(v) ==> attribute_value(attrs@, attr@) == Some(v@),
{
    let mut i: usize = 0;
    assert(attrs@.skip(0) == attrs@);
    while i < attrs.len()
        invariant
            i <= attrs.len(),
            attribute_value(attrs@, attr@) == attribute_value(attrs@.skip(i as int), attr@),
        decreases attrs.len() - i,
    {
        assert(attrs@.skip(i as int)[0] == attrs@[i as int]);
        if same_chars(attrs[i].name.as_str(), attr) {
            return Some(attrs[i].value.as_str());
        }
        assert(attrs@.skip(i as int).drop_first() == attrs@.skip(i + 1));
        i = i + 1;
    }
    None
}

/// A token read from the corpus: its form and its features.
#[derive(Debug)]
pub struct EuroParlToken {
    pub form: String,
    pub features: FeatureMap,
}

impl View for EuroParlToken {
    type V = (Seq<char>, Map<Seq<char>, Option<Seq<char>>>);

    open spec fn view(&self) -> (Seq<char>, Map<Seq<char>, Option<Seq<char>>>) {
        (self.form@, self.features@)
    }
}

/// What the reader keeps from one sentence to the next: the subcorpus and
/// the identifiers of the chapter, speaker and paragraph it is in.
#[derive(Debug)]
pub struct EuroParlReader {
    pub corpus_name: String,
    pub chap_id: Option<String>,
    pub speaker_id: Option<String>,
    pub p_id: Option<String>,
}

/// The view of the reader's position.
pub struct ReaderState {
    pub corpus: Seq<char>,
    pub chapter: Option<Seq<char>>,
    pub speaker: Option<Seq<char>>,
    pub para: Option<Seq<char>>,
}

impl View for EuroParlReader {
    type V = ReaderState;

    open spec fn view(&self) -> ReaderState {
        ReaderState {
            corpus: self.corpus_name@,
            chapter: opt_view(self.chap_id),
            speaker: opt_view(self.speaker_id),
            para: opt_view(self.p_id),
        }
    }
}

/// The sentence being read: the tokens so far, whether a word element is
/// open, and the text of the open word.
#[derive(Debug)]
pub struct PendingSentence {
    pub tokens: Vec<EuroParlToken>,
    pub in_token: bool,
    pub form: String,
}

/// The view of a sentence being read.
pub struct PendingState {
    pub tokens: Seq<(Seq<char>, Map<Seq<char>, Option<Seq<char>>>)>,
    pub in_token: bool,
    pub form: Seq<char>,
}

impl View for PendingSentence {
    type V = PendingState;

    open spec fn view(&self) -> PendingState {
        PendingState {
            tokens: self.tokens@.map_values(|t: EuroParlToken| t@),
            in_token: self.in_token,
            form: self.form@,
        }
    }
}

/// What the reader does after an event.
#[derive(Debug, Clone, Copy, PartialEq, Eq, Structural)]
pub enum SentenceStep {
    /// Read on.
    Continue,
    /// The sentence (or the document) has ended.
    SentenceEnd,
}

/// The outcome of an event, as the specification sees it.
pub enum StepKind {
    Continue,
    SentenceEnd,
    EmptyToken,
}

pub open spec fn name_p() -> Seq<char> {
    seq!['P']
}

pub open spec fn name_w() -> Seq<char> {
    seq!['w']
}

pub open spec fn name_s() -> Seq<char> {
    seq!['s']
}

pub open spec fn name_chapter() -> Seq<char> {
    seq!['C', 'H', 'A', 'P', 'T', 'E', 'R']
}

pub open spec fn name_speaker() -> Seq<char> {
    seq!['S', 'P', 'E', 'A', 'K', 'E', 'R']
}

pub open spec fn attr_id_lower() -> Seq<char> {
    seq!['i', 'd']
}

pub open spec fn attr_id_upper() -> Seq<char> {
    seq!['I', 'D']
}

pub open spec fn feature_subcorpus() -> Seq<char> {
    seq!['s', 'u', 'b', 'c', 'o', 'r', 'p', 'u', 's']
}

pub open spec fn feature_chapter() -> Seq<char> {
    seq!['c', 'h', 'a', 'p', 't', 'e', 'r']
}

pub open spec fn feature_speaker() -> Seq<char> {
    seq!['s', 'p', 'e', 'a', 'k', 'e', 'r']
}

pub open spec fn feature_para() -> Seq<char> {
    seq!['p', 'a', 'r', 'a']
}

/// The features of a token read at position `r`: the subcorpus, and the
/// chapter, speaker and paragraph where they are known.
pub open spec fn token_features(r: ReaderState) -> Map<Seq<char>, Option<Seq<char>>> {
    let m0 = Map::<Seq<char>, Option<Seq<char>>>::empty().insert(
        feature_subcorpus(),
        Some(r.corpus),
    );
    let m1 = if r.chapter is Some {
        m0.insert(feature_chapter(), r.chapter)
    } else {
        m0
    };
    let m2 = if r.speaker is Some {
        m1.insert(feature_speaker(), r.speaker)
    } else {
        m1
    };
    if r.para is Some {
        m2.insert(feature_para(), r.para)
    } else {
        m2
    }
}

/// The effect of one event on the reader and on the sentence being read.
pub open spec fn next_state(r: ReaderState, p: PendingState, e: CorpusEvent) -> (
    ReaderState,
    PendingState,
    StepKind,
) {
    match e {
        CorpusEvent::EndDocument => (r, p, StepKind::SentenceEnd),
        CorpusEvent::StartElement { name, attributes } => {
            let r2 = if name@ == name_p() {
                ReaderState { para: attribute_value(attributes@, attr_id_lower()), ..r }
            } else if name@ == name_chapter() {
                ReaderState { chapter: attribute_value(attributes@, attr_id_upper()), ..r }
            } else if name@ == name_speaker() {
                ReaderState { speaker: attribute_value(attributes@, attr_id_upper()), ..r }
            } else {
                r
            };
            let p2 = if name@ == name_w() {
                PendingState { in_token: true, ..p }
            } else {
                p
            };
            (r2, p2, StepKind::Continue)
        },
        CorpusEvent::EndElement { name } => {
            if name@ == name_chapter() {
                (ReaderState { chapter: None, ..r }, p, StepKind::Continue)
            } else if name@ == name_speaker() {
                (ReaderState { speaker: None, ..r }, p, StepKind::Continue)
            } else if name@ == name_p() {
                (ReaderState { para: None, ..r }, p, StepKind::Continue)
            } else if name@ == name_w() {
                if p.form.len() == 0 {
                    (r, p, StepKind::EmptyToken)
                } else {
                    (
                        r,
                        PendingState {
                            tokens: p.tokens.push((p.form, token_features(r))),
                            in_token: false,
                            form: Seq::empty(),
                        },
                        StepKind::Continue,
                    )
                }
            } else if name@ == name_s() {
                (r, p, StepKind::SentenceEnd)
            } else {
                (r, p, StepKind::Continue)
            }
        },
        CorpusEvent::Characters(chars) => {
            if p.in_token {
                (r, PendingState { form: p.form + chars@, ..p }, StepKind::Continue)
            } else {
                (r, p, StepKind::Continue)
            }
        },
        CorpusEvent::Other => (r, p, StepKind::Continue),
    }
}

/// The outcome of `handle_event` as a `StepKind`.
pub open spec fn step_kind(res: Result<SentenceStep, ParseError>) -> StepKind {
    match res {
        Ok(SentenceStep::Continue) => StepKind::Continue,
        Ok(SentenceStep::SentenceEnd) => StepKind::SentenceEnd,
        Err(_) => StepKind::EmptyToken,
    }
}

impl PendingSentence {
    /// An empty sentence, with no word open.
    pub fn new() -> (res: PendingSentence)
        ensures
            res@.tokens == Seq::<(Seq<char>, Map<Seq<char>, Option<Seq<char>>>)>::empty(),
            !res@.in_token,
            res@.form == Seq::<char>::empty(),
    {
        PendingSentence { tokens: Vec::new(), in_token: false, form: String::new() }
    }

    /// The tokens read, or `None` when the sentence has none.
    pub fn into_tokens(self) -> (res: Option<Vec<EuroParlToken>>)
        ensures
            res is None <==> self@.tokens.len() == 0,
            res matches Some(t) ==> t@.map_values(|t: EuroParlToken| t@) == self@.tokens,
    {
        if self.tokens.len() == 0 {
            None
        } else {
            Some(self.tokens)
        }
    }
}

/// An owned copy of an optional string.
fn owned(s: Option<&str>) -> (res: Option<String>)
    ensures
        opt_view(res) == match s {
            Some(v) => Some(v@),
            None => None::<Seq<char>>,
        },
{
    match s {
        Some(v) => Some(v.to_owned()),
        None => None,
    }
}

impl EuroParlReader {
    /// A reader of the subcorpus `corpus_name`, outside any chapter,
    /// speaker turn or paragraph.
    pub fn new(corpus_name: String) -> (res: EuroParlReader)
        ensures
            res@ == (ReaderState {
                corpus: corpus_name@,
                chapter: None,
                speaker: None,
                para: None,
            }),
    {
        EuroParlReader { corpus_name, chap_id: None, speaker_id: None, p_id: None }
    }

    /// The features of a token read at the current position.
    fn current_features(&self) -> (res: FeatureMap)
        ensures
            res@ == token_features(self@),
    {
        let mut features = FeatureMap::new();
        let subcorpus = "subcorpus".to_owned();
        proof {
            reveal_strlit("subcorpus");
            assert(subcorpus@ =~= feature_subcorpus());
        }
        features.insert(subcorpus, Some(self.corpus_name.clone()));
        if self.chap_id.is_some() {
            let chapter = "chapter".to_owned();
            proof {
                reveal_strlit("chapter");
                assert(chapter@ =~= feature_chapter());
            }
            features.insert(chapter, clone_opt(&self.chap_id));
        }
        if self.speaker_id.is_some() {
            let speaker = "speaker".to_owned();
            proof {
                reveal_strlit("speaker");
                assert(speaker@ =~= feature_speaker());
            }
            features.insert(speaker, clone_opt(&self.speaker_id));
        }
        if self.p_id.is_some() {
            let para = "para".to_owned();
            proof {
                reveal_strlit("para");
                assert(para@ =~= feature_para());
            }
            features.insert(para, clone_opt(&self.p_id));
        }
        features
    }

    /// Hands one event to the reader. The reader's position and the pending
    /// sentence change as `next_state` says; a word element that closes
    /// without text is an error, and then nothing changes.
    pub fn handle_event(&mut self, pending: &mut PendingSentence, event: &CorpusEvent) -> (res:
        Result<SentenceStep, ParseError>)
        ensures
            ({
                let (r2, p2, k) = next_state(old(self)@, old(pending)@, *event);
                &&& final(self)@ == r2
                &&& final(pending)@ == p2
                &&& step_kind(res) == k
                &&& res matches Err(e) ==> e is EmptyTokenError
            }),
    {
        proof {
            reveal_strlit("P");
            reveal_strlit("w");
            reveal_strlit("s");
            reveal_strlit("CHAPTER");
            reveal_strlit("SPEAKER");
            reveal_strlit("id");
            reveal_strlit("ID");
            assert("P"@ =~= name_p());
            assert("w"@ =~= name_w());
            assert("s"@ =~= name_s());
            assert("CHAPTER"@ =~= name_chapter());
            assert("SPEAKER"@ =~= name_speaker());
            assert("id"@ =~= attr_id_lower());
            assert("ID"@ =~= attr_id_upper());
            assert(name_p()[0] != name_w()[0] && name_p()[0] != name_s()[0] && name_w()[0]
                != name_s()[0]);
            assert(name_chapter()[0] != name_speaker()[0]);
        }
        match event {
            CorpusEvent::EndDocument => Ok(SentenceStep::SentenceEnd),
            CorpusEvent::StartElement { name, attributes } => {
                if same_chars(name.as_str(), "P") {
                    self.p_id = owned(get_attribute(attributes, "id"));
                } else if same_chars(name.as_str(), "w") {
                    pending.in_token = true;
                } else if same_chars(name.as_str(), "CHAPTER") {
                    self.chap_id = owned(get_attribute(attributes, "ID"));
                } else if same_chars(name.as_str(), "SPEAKER") {
                    self.speaker_id = owned(get_attribute(attributes, "ID"));
                }
                Ok(SentenceStep::Continue)
            },
            CorpusEvent::EndElement { name } => {
                if same_chars(name.as_str(), "CHAPTER") {
                    self.chap_id = None;
                } else if same_chars(name.as_str(), "SPEAKER") {
                    self.speaker_id = None;
                } else if same_chars(name.as_str(), "P") {
                    self.p_id = None;
                } else if same_chars(name.as_str(), "w") {
                    if pending.form.as_str().is_empty() {
                        return Err(ParseError::EmptyTokenError);
                    }
                    let features = self.current_features();
                    let mut form = String::new();
                    std::mem::swap(&mut form, &mut pending.form);
                    pending.tokens.push(EuroParlToken { form, features });
                    pending.in_token = false;
                    proof {
                        assert(pending@.tokens =~= old(pending)@.tokens.push(
                            (old(pending)@.form, token_features(self@)),
                        ));
                    }
                } else if same_chars(name.as_str(), "s") {
                    return Ok(SentenceStep::SentenceEnd);
                }
                Ok(SentenceStep::Continue)
            },
            CorpusEvent::Characters(chars) => {
                if pending.in_token {
                    append_str(&mut pending.form, chars.as_str());
                }
                Ok(SentenceStep::Continue)
            },
            CorpusEvent::Other => Ok(SentenceStep::Continue),
        }
    }
}

/// Whether every token of the pending sentence has a non-empty form and
/// names the subcorpus of the reader.
pub open spec fn tokens_well_formed(r: ReaderState, p: PendingState) -> bool {
    forall|i: int|
        0 <= i < p.tokens.len() ==> {
            &&& (#[trigger] p.tokens[i]).0.len() > 0
            &&& p.tokens[i].1.dom().contains(feature_subcorpus())
            &&& p.tokens[i].1[feature_subcorpus()] == Some(r.corpus)
        }
}

/// No event changes the subcorpus, and every event keeps the tokens of a
/// sentence well formed: each has a non-empty form and the subcorpus as a
/// feature.
pub proof fn law_events_keep_tokens_well_formed(r: ReaderState, p: PendingState, e: CorpusEvent)
    requires
        tokens_well_formed(r, p),
    ensures
        ({
            let (r2, p2, _k) = next_state(r, p, e);
            r2.corpus == r.corpus && tokens_well_formed(r2, p2)
        }),
{
    let (r2, p2, _k) = next_state(r, p, e);
    let f = token_features(r);
    assert(feature_subcorpus().len() != feature_chapter().len());
    assert(feature_subcorpus().len() != feature_speaker().len());
    assert(feature_subcorpus().len() != feature_para().len());
    assert(f.dom().contains(feature_subcorpus()) && f[feature_subcorpus()] == Some(r.corpus));
    assert forall|i: int| 0 <= i < p2.tokens.len() implies {
        &&& (#[trigger] p2.tokens[i]).0.len() > 0
        &&& p2.tokens[i].1.dom().contains(feature_subcorpus())
        &&& p2.tokens[i].1[feature_subcorpus()] == Some(r2.corpus)
    } by {
        if i < p.tokens.len() {
            assert(p2.tokens[i] == p.tokens[i]);
        }
    }
}

/// Whether `e` closes a word element.
pub open spec fn is_word_end(e: CorpusEvent) -> bool {
    match e {
        CorpusEvent::EndElement { name } => name@ == seq!['w'],
        _ => false,
    }
}

/// Whether `e` ends a sentence: a closing `s` tag or the end of the document.
pub open spec fn is_sentence_end(e: CorpusEvent) -> bool {
    match e {
        CorpusEvent::EndDocument => true,
        CorpusEvent::EndElement { name } => name@ == seq!['s'],
        _ => false,
    }
}

/// The value that the last opening or closing `tag` element of `es` leaves:
/// the `attr` attribute of an opening tag, nothing after a closing tag, and
/// `init` when `es` holds no such tag.
pub open spec fn last_tag_value(
    init: Option<Seq<char>>,
    es: Seq<CorpusEvent>,
    tag: Seq<char>,
    attr: Seq<char>,
) -> Option<Seq<char>>
    decreases es.len(),
{
    if es.len() == 0 {
        init
    } else {
        match es.last() {
            CorpusEvent::StartElement { name, attributes } => if name@ == tag {
                attribute_value(attributes@, attr)
            } else {
                last_tag_value(init, es.drop_last(), tag, attr)
            },
            CorpusEvent::EndElement { name } => if name@ == tag {
                None
            } else {
                last_tag_value(init, es.drop_last(), tag, attr)
            },
            _ => last_tag_value(init, es.drop_last(), tag, attr),
        }
    }
}

/// The position of a reader at `r` after the events `es`: the chapter,
/// speaker and paragraph are those of the last `CHAPTER`, `SPEAKER` and `P`
/// tags of `es`.
pub open spec fn context_after(r: ReaderState, es: Seq<CorpusEvent>) -> ReaderState {
    ReaderState {
        corpus: r.corpus,
        chapter: last_tag_value(r.chapter, es, seq!['C', 'H', 'A', 'P', 'T', 'E', 'R'], seq!['I', 'D']),
        speaker: last_tag_value(r.speaker, es, seq!['S', 'P', 'E', 'A', 'K', 'E', 'R'], seq!['I', 'D']),
        para: last_tag_value(r.para, es, seq!['P'], seq!['i', 'd']),
    }
}

/// The words of `es`: the texts of the word elements closed in `es`, whether
/// a word element is open at the end, and the text of that open word so far.
/// The text of a word is the character data after its opening tag.
pub open spec fn word_scan(es: Seq<CorpusEvent>) -> (Seq<Seq<char>>, bool, Seq<char>)
    decreases es.len(),
{
    if es.len() == 0 {
        (Seq::empty(), false, Seq::empty())
    } else {
        let (ws, open, text) = word_scan(es.drop_last());
        match es.last() {
            CorpusEvent::StartElement { name, attributes } => if name@ == seq!['w'] {
                (ws, true, text)
            } else {
                (ws, open, text)
            },
            CorpusEvent::EndElement { name } => if name@ == seq!['w'] {
                (ws.push(text), false, Seq::empty())
            } else {
                (ws, open, text)
            },
            CorpusEvent::Characters(chars) => if open {
                (ws, open, text + chars@)
            } else {
                (ws, open, text)
            },
            _ => (ws, open, text),
        }
    }
}

/// The positions in `es` of the events that close word elements.
pub open spec fn word_ends(es: Seq<CorpusEvent>) -> Seq<int>
    decreases es.len(),
{
    if es.len() == 0 {
        Seq::empty()
    } else if is_word_end(es.last()) {
        word_ends(es.drop_last()).push(es.len() - 1)
    } else {
        word_ends(es.drop_last())
    }
}

/// A sentence with no tokens and no open word, as each reading starts.
pub open spec fn empty_pending() -> PendingState {
    PendingState { tokens: Seq::empty(), in_token: false, form: Seq::empty() }
}

/// Handing the events `es` to the reader one after the other, as long as
/// each says to read on: the reader, the sentence and the last outcome.
pub open spec fn run_events(r: ReaderState, p: PendingState, es: Seq<CorpusEvent>) -> (
    ReaderState,
    PendingState,
    StepKind,
)
    decreases es.len(),
{
    if es.len() == 0 {
        (r, p, StepKind::Continue)
    } else {
        let (r1, p1, k1) = run_events(r, p, es.drop_last());
        if k1 is Continue {
            next_state(r1, p1, es.last())
        } else {
            (r1, p1, k1)
        }
    }
}

/// Whether every word element closed in `es` has text.
pub open spec fn words_have_text(es: Seq<CorpusEvent>) -> bool {
    forall|m: int| 0 <= m < es.len() && #[trigger] is_word_end(es[m]) ==> word_scan(es.take(m)).2.len() > 0
}

/// Whether `es` holds no end of a sentence.
pub open spec fn no_sentence_end(es: Seq<CorpusEvent>) -> bool {
    forall|m: int| 0 <= m < es.len() ==> !#[trigger] is_sentence_end(es[m])
}

/// The sentence that the events `es` make from a reader at `r`: a token for
/// each closed word, with the word's text as its form and the features of
/// the position at which the word closed.
pub open spec fn scanned_pending(r: ReaderState, es: Seq<CorpusEvent>) -> PendingState {
    let (ws, open, text) = word_scan(es);
    PendingState {
        tokens: Seq::new(
            ws.len(),
            |i: int| (ws[i], token_features(context_after(r, es.take(word_ends(es)[i])))),
        ),
        in_token: open,
        form: text,
    }
}

/// The names the reader tells apart differ.
proof fn lemma_names_differ()
    ensures
        name_p() != name_w() && name_p() != name_s() && name_w() != name_s(),
        name_chapter() != name_speaker(),
        name_chapter().len() != name_p().len() && name_chapter().len() != name_w().len()
            && name_chapter().len() != name_s().len(),
        name_speaker().len() != name_p().len() && name_speaker().len() != name_w().len()
            && name_speaker().len() != name_s().len(),
{
    assert(name_p()[0] != name_w()[0] && name_p()[0] != name_s()[0] && name_w()[0] != name_s()[0]);
    assert(name_chapter()[0] != name_speaker()[0]);
}

/// The reader's position after one more event is that of `next_state`.
proof fn lemma_context_step(r: ReaderState, p: PendingState, es: Seq<CorpusEvent>)
    requires
        es.len() > 0,
    ensures
        context_after(r, es) == next_state(context_after(r, es.drop_last()), p, es.last()).0,
{
    lemma_names_differ();
}

/// Reading events without an end of sentence, every word having text, from
/// an empty sentence: the reader is at `context_after` and the sentence is
/// `scanned_pending`.
proof fn lemma_run_prefix(r: ReaderState, es: Seq<CorpusEvent>)
    requires
        no_sentence_end(es),
        words_have_text(es),
    ensures
        run_events(r, empty_pending(), es) == (
            context_after(r, es),
            scanned_pending(r, es),
            StepKind::Continue,
        ),
        word_ends(es).len() == word_scan(es).0.len(),
        forall|i: int|
            0 <= i < word_ends(es).len() ==> 0 <= #[trigger] word_ends(es)[i] < es.len()
                && is_word_end(es[word_ends(es)[i]]),
    decreases es.len(),
{
    if es.len() == 0 {
        assert(scanned_pending(r, es).tokens =~= Seq::<(Seq<char>, Map<Seq<char>, Option<Seq<char>>>)>::empty());
        assert(context_after(r, es) == r);
    } else {
        let prev = es.drop_last();
        let e = es.last();
        let n = es.len() - 1;
        assert forall|m: int| 0 <= m < prev.len() implies prev.take(m) == es.take(m) && prev[m] == es[m] by {
            assert(prev.take(m) =~= es.take(m));
        }
        assert(no_sentence_end(prev));
        assert(words_have_text(prev)) by {
            assert forall|m: int| 0 <= m < prev.len() && #[trigger] is_word_end(prev[m]) implies word_scan(prev.take(m)).2.len() > 0 by {
                assert(prev.take(m) == es.take(m) && prev[m] == es[m]);
            }
        }
        lemma_run_prefix(r, prev);
        lemma_context_step(r, empty_pending(), es);
        lemma_names_differ();
        assert(es.take(n) =~= prev);
        assert(es[n] == e);
        assert(!is_sentence_end(e));
        let (c, pp, k) = run_events(r, empty_pending(), prev);
        assert(c == context_after(r, prev) && pp == scanned_pending(r, prev) && k is Continue);
        let (c2, pp2, k2) = next_state(c, pp, e);
        assert(c2 == context_after(r, es));
        let target = scanned_pending(r, es);
        let (ws, open, text) = word_scan(prev);
        assert forall|k: int| 0 <= k <= prev.len() implies es.take(k) == prev.take(k) by {
            assert(es.take(k) =~= prev.take(k));
        }
        if is_word_end(e) {
            assert(word_scan(es.take(n)).2.len() > 0);
            assert(word_ends(es) == word_ends(prev).push(n));
            assert(word_scan(es) == (ws.push(text), false, Seq::<char>::empty()));
            assert(pp2.tokens =~= target.tokens) by {
                assert forall|i: int| 0 <= i < target.tokens.len() implies pp2.tokens[i] == target.tokens[i] by {
                    if i < ws.len() {
                        assert(word_ends(es)[i] == word_ends(prev)[i]);
                        assert(es.take(word_ends(prev)[i]) == prev.take(word_ends(prev)[i]));
                    } else {
                        assert(word_ends(es)[i] == n);
                    }
                }
            }
            assert(pp2 == target);
        } else {
            assert(word_ends(es) == word_ends(prev));
            assert(pp2.tokens =~= target.tokens) by {
                assert forall|i: int| 0 <= i < target.tokens.len() implies pp2.tokens[i] == target.tokens[i] by {
                    assert(es.take(word_ends(prev)[i]) == prev.take(word_ends(prev)[i]));
                }
            }
            assert(pp2 == target);
        }
        assert(word_ends(es).len() == word_scan(es).0.len());
    }
}

/// Once an event has ended the reading, later events change nothing.
proof fn lemma_run_stays(r: ReaderState, p: PendingState, es: Seq<CorpusEvent>, m: int)
    requires
        0 <= m <= es.len(),
        !(run_events(r, p, es.take(m)).2 is Continue),
    ensures
        run_events(r, p, es) == run_events(r, p, es.take(m)),
    decreases es.len(),
{
    if es.len() == m {
        assert(es.take(m) =~= es);
    } else {
        let prev = es.drop_last();
        assert(prev.take(m) =~= es.take(m));
        lemma_run_stays(r, p, prev, m);
    }
}

/// Reading a sentence. Let `es` be the events from the reader's position
/// and `n` the position of the first end of a sentence (a closing `s` tag or
/// the end of the document), before which every word has text. Then the
/// reading stops after that event and no later event matters; the reader is
/// left after the sentence; and the sentence holds one token per word
/// element closed before `n`, in document order, whose form is the text of
/// the word. The sentence is empty exactly when no word closes before `n`.
pub proof fn law_sentence_segmentation(r: ReaderState, es: Seq<CorpusEvent>, n: int)
    requires
        0 <= n < es.len(),
        is_sentence_end(es[n]),
        no_sentence_end(es.take(n)),
        words_have_text(es.take(n)),
    ensures
        run_events(r, empty_pending(), es) == run_events(r, empty_pending(), es.take(n + 1)),
        run_events(r, empty_pending(), es) == (
            context_after(r, es.take(n + 1)),
            scanned_pending(r, es.take(n)),
            StepKind::SentenceEnd,
        ),
        run_events(r, empty_pending(), es).1.tokens.len() == word_scan(es.take(n)).0.len(),
        forall|i: int|
            0 <= i < word_scan(es.take(n)).0.len() ==> (#[trigger] run_events(
                r,
                empty_pending(),
                es,
            ).1.tokens[i]).0 == word_scan(es.take(n)).0[i],
        (run_events(r, empty_pending(), es).1.tokens.len() == 0) == (word_ends(es.take(n)).len()
            == 0),
{
    lemma_run_prefix(r, es.take(n));
    lemma_names_differ();
    let pre = es.take(n + 1);
    assert(pre.drop_last() =~= es.take(n));
    assert(pre.last() == es[n]);
    assert(context_after(r, pre) == context_after(r, es.take(n)));
    lemma_run_stays(r, empty_pending(), es, n + 1);
}

/// The features of a read token. In a sentence read as in
/// `law_sentence_segmentation`, token `i` closes at the event
/// `word_ends(es.take(n))[i]`, a closing `w` tag before `n`, and its features
/// are the subcorpus and the chapter, speaker and paragraph of the last
/// `CHAPTER`, `SPEAKER` and `P` tags before that event (see
/// `context_after`); a reader is at the start of a sentence where the events
/// before it left it (see `law_context_composes`).
pub proof fn law_token_features(r: ReaderState, es: Seq<CorpusEvent>, n: int)
    requires
        0 <= n < es.len(),
        is_sentence_end(es[n]),
        no_sentence_end(es.take(n)),
        words_have_text(es.take(n)),
    ensures
        forall|i: int|
            0 <= i < run_events(r, empty_pending(), es).1.tokens.len() ==> {
                let k = word_ends(es.take(n))[i];
                &&& 0 <= k < n
                &&& is_word_end(es[k])
                &&& (#[trigger] run_events(r, empty_pending(), es).1.tokens[i]).1 == token_features(
                    context_after(r, es.take(k)),
                )
            },
{
    law_sentence_segmentation(r, es, n);
    lemma_run_prefix(r, es.take(n));
    let t = run_events(r, empty_pending(), es).1.tokens;
    assert forall|i: int| 0 <= i < t.len() implies {
        let k = word_ends(es.take(n))[i];
        &&& 0 <= k < n
        &&& is_word_end(es[k])
        &&& (#[trigger] t[i]).1 == token_features(context_after(r, es.take(k)))
    } by {
        let k = word_ends(es.take(n))[i];
        assert(es.take(n)[k] == es[k]);
        assert(es.take(n).take(k) =~= es.take(k));
    }
}

/// The position after two runs of events is that after both one after the
/// other: a reader at the start of a sentence is where all earlier events
/// left it.
pub proof fn law_context_composes(r: ReaderState, a: Seq<CorpusEvent>, b: Seq<CorpusEvent>)
    ensures
        context_after(r, a + b) == context_after(context_after(r, a), b),
    decreases b.len(),
{
    if b.len() == 0 {
        assert(a + b =~= a);
    } else {
        law_context_composes(r, a, b.drop_last());
        assert((a + b).drop_last() =~= a + b.drop_last());
        assert((a + b).last() == b.last());
    }
}

/// The features of a token read at a position: `subcorpus` with the
/// subcorpus, and each of `chapter`, `speaker` and `para` exactly when the
/// position holds it, with its value, whatever the others are; no other
/// feature.
pub proof fn law_token_feature_keys(r: ReaderState)
    ensures
        ({
            let f = token_features(r);
            let subcorpus = seq!['s', 'u', 'b', 'c', 'o', 'r', 'p', 'u', 's'];
            let chapter = seq!['c', 'h', 'a', 'p', 't', 'e', 'r'];
            let speaker = seq!['s', 'p', 'e', 'a', 'k', 'e', 'r'];
            let para = seq!['p', 'a', 'r', 'a'];
            &&& f.dom().contains(subcorpus) && f[subcorpus] == Some(r.corpus)
            &&& f.dom().contains(chapter) <==> r.chapter is Some
            &&& r.chapter is Some ==> f[chapter] == r.chapter
            &&& f.dom().contains(speaker) <==> r.speaker is Some
            &&& r.speaker is Some ==> f[speaker] == r.speaker
            &&& f.dom().contains(para) <==> r.para is Some
            &&& r.para is Some ==> f[para] == r.para
            &&& forall|k: Seq<char>|
                #[trigger] f.dom().contains(k) ==> k == subcorpus || k == chapter || k == speaker
                    || k == para
        }),
{
    let subcorpus = feature_subcorpus();
    let chapter = feature_chapter();
    let speaker = feature_speaker();
    let para = feature_para();
    assert(subcorpus.len() != chapter.len() && subcorpus.len() != speaker.len() && subcorpus.len()
        != para.len() && chapter.len() != para.len() && speaker.len() != para.len());
    assert(chapter[0] != speaker[0]);
}

/// The value of an attribute is that of the first attribute with its
/// name; there is none exactly when no attribute has the name.
pub proof fn law_attribute_value(attrs: Seq<Attribute>, name: Seq<char>)
    ensures
        attribute_value(attrs, name) is None <==> forall|i: int| 0 <= i < attrs.len() ==> (
        #[trigger] attrs[i]).name@ != name,
        attribute_value(attrs, name) matches Some(v) ==> exists|i: int|
            0 <= i < attrs.len() && (#[trigger] attrs[i]).name@ == name && attrs[i].value@ == v
                && forall|j: int| 0 <= j < i ==> (#[trigger] attrs[j]).name@ != name,
    decreases attrs.len(),
{
    if attrs.len() > 0 {
        let rest = attrs.drop_first();
        law_attribute_value(rest, name);
        if attrs[0].name@ == name {
            assert(attrs[0].name@ == name);
        } else {
            assert forall|i: int| 0 <= i < rest.len() implies rest[i] == attrs[i + 1] by {}
            if attribute_value(rest, name) is None {
                assert forall|i: int| 0 <= i < attrs.len() implies (#[trigger] attrs[i]).name@ != name by {
                    if i > 0 {
                        assert(attrs[i] == rest[i - 1]);
                    }
                }
            } else {
                let v = attribute_value(rest, name)->0;
                let i = choose|i: int|
                    0 <= i < rest.len() && (#[trigger] rest[i]).name@ == name && rest[i].value@ == v
                        && forall|j: int| 0 <= j < i ==> (#[trigger] rest[j]).name@ != name;
                assert(attrs[i + 1] == rest[i]);
                assert forall|j: int| 0 <= j < i + 1 implies (#[trigger] attrs[j]).name@ != name by {
                    if j > 0 {
                        assert(attrs[j] == rest[j - 1]);
                    }
                }
                assert(attrs[i + 1].name@ == name);
            }
            if exists|i: int| 0 <= i < attrs.len() && (#[trigger] attrs[i]).name@ == name {
                let i = choose|i: int| 0 <= i < attrs.len() && (#[trigger] attrs[i]).name@ == name;
                assert(i > 0);
                assert(rest[i - 1] == attrs[i]);
            }
        }
    }
}

} // verus!
