//! The rules of the parse, as a state machine.
//!
//! The parse goes through a document in turns. In each turn the tokenizer
//! gives an event; [`action_for`] decides from the state of the parse what
//! to do with it; [`step`] says where that leaves the parse. [`parse_of`] is
//! the parse of a whole document, and [`replay`] the parse for any course
//! that a tokenizer could take.

use crate::dictionary::lib_of;
use crate::elements::{
    advance_of, anchor_of, guideline_of, header_of, identifier_recorded, image_of,
    seen_after_anchor, seen_after_guideline, unicode_of, Outcome,
};
use crate::error::{Error, Failure, Flaw, XmlError};
use crate::glyph::{AnchorView, GlifVersion, Glyph, GlyphView, GuidelineView, ImageView};
use crate::xml::{
    element_name, element_named, entries_of, event_read, events_left, failure_of, opened,
    position_of, skipped_to_end, text_read, AttributeView, ElementName, XmlEvent, XmlReader,
};
use vstd::prelude::*;

verus! {

/// An event, as far as the driver looks at it.
#[derive(Clone, Copy, Debug, PartialEq, Eq, Structural)]
pub enum Token {
    /// An opening tag.
    Start(ElementName),
    /// A self-closing tag.
    Empty(ElementName),
    /// A closing tag.
    End(ElementName),
    Comment,
    /// The XML declaration.
    Decl,
    /// The end of the document.
    Eof,
    /// Anything else: text, character data, a processing instruction, a
    /// document type.
    Other,
}

/// What the driver looks at in `event`.
pub open spec fn token_of(event: XmlEvent) -> Token {
    match event {
        XmlEvent::Start(element) => Token::Start(element_named(element.name@)),
        XmlEvent::Empty(element) => Token::Empty(element_named(element.name@)),
        XmlEvent::End(name) => Token::End(element_named(name@)),
        XmlEvent::Comment => Token::Comment,
        XmlEvent::Decl => Token::Decl,
        XmlEvent::Eof => Token::Eof,
        XmlEvent::Other => Token::Other,
    }
}

/// What the driver looks at in an event: its kind, and the element that a
/// tag names.
pub fn token(event: &XmlEvent) -> (token: Token)
    ensures
        token == token_of(*event),
{
    match event {
        XmlEvent::Start(element) => Token::Start(element_name(element.name.as_slice())),
        XmlEvent::Empty(element) => Token::Empty(element_name(element.name.as_slice())),
        XmlEvent::End(name) => Token::End(element_name(name.as_slice())),
        XmlEvent::Comment => Token::Comment,
        XmlEvent::Decl => Token::Decl,
        XmlEvent::Eof => Token::Eof,
        XmlEvent::Other => Token::Other,
    }
}

/// Where in the document the parse stands.
#[derive(Clone, Copy, Debug, PartialEq, Eq, Structural)]
pub enum Phase {
    /// Before the `glyph` element.
    Start,
    /// Inside the `glyph` element.
    InGlyph,
    /// After the `glyph` element.
    Done,
}

/// Which of the elements that may come only once have come.
#[derive(Clone, Copy, Debug, PartialEq, Eq, Structural)]
pub struct Seen {
    pub advance: bool,
    pub note: bool,
    pub lib: bool,
    pub image: bool,
}

/// What the driver does with an event.
#[derive(Clone, Copy, Debug, PartialEq, Eq, Structural)]
pub enum Action {
    /// Pass over the event.
    Skip,
    /// Start the glyph from the attributes of the tag.
    BuildHeader,
    BuildUnicode,
    BuildAnchor,
    BuildGuideline,
    BuildAdvance,
    BuildImage,
    /// Read the text up to the closing `note` tag.
    ReadNote,
    /// Read the property list up to the closing `lib` tag.
    ReadLib,
    /// The glyph is complete.
    Close,
    /// Hand out the glyph.
    Finish,
    /// The first element is not `glyph`.
    RejectFirstElement,
    /// An element that may come once has come again.
    RejectDuplicate,
    /// Something follows the `glyph` element.
    RejectTrailing,
    /// The document ends before the `glyph` element does.
    RejectEnd,
}

impl Action {
    /// The rule that the event breaks, where the action rejects it.
    pub open spec fn flaw(self) -> Option<Flaw> {
        match self {
            Action::RejectFirstElement => Some(Flaw::WrongFirstElement),
            Action::RejectDuplicate => Some(Flaw::DuplicateElement),
            Action::RejectTrailing => Some(Flaw::TrailingData),
            Action::RejectEnd => Some(Flaw::UnexpectedEof),
            _ => None,
        }
    }
}

/// What to do with `token` in the given phase of the parse.
///
/// Comments and the XML declaration are passed over everywhere. Before the
/// glyph, the first tag must be `glyph`. Inside it, the self-closing tags
/// `unicode`, `anchor`, `guideline`, `advance` and `image` and the opening
/// tags `note` and `lib` are read, the last four at most once each, and the
/// closing tag `glyph` completes the glyph; everything else is passed over.
/// After it, only the end of the document may come. The document may not end
/// earlier.
pub open spec fn action_for(phase: Phase, seen: Seen, token: Token) -> Action {
    match (phase, token) {
        (_, Token::Comment) | (_, Token::Decl) => Action::Skip,
        (Phase::Start, Token::Start(ElementName::Glyph))
        | (Phase::Start, Token::Empty(ElementName::Glyph)) => Action::BuildHeader,
        (Phase::Start, Token::Start(_)) | (Phase::Start, Token::Empty(_)) => Action::RejectFirstElement,
        (Phase::InGlyph, Token::Empty(ElementName::Unicode)) => Action::BuildUnicode,
        (Phase::InGlyph, Token::Empty(ElementName::Anchor)) => Action::BuildAnchor,
        (Phase::InGlyph, Token::Empty(ElementName::Guideline)) => Action::BuildGuideline,
        (Phase::InGlyph, Token::Empty(ElementName::Advance)) => if seen.advance {
            Action::RejectDuplicate
        } else {
            Action::BuildAdvance
        },
        (Phase::InGlyph, Token::Start(ElementName::Note)) => if seen.note {
            Action::RejectDuplicate
        } else {
            Action::ReadNote
        },
        (Phase::InGlyph, Token::Start(ElementName::Lib)) => if seen.lib {
            Action::RejectDuplicate
        } else {
            Action::ReadLib
        },
        (Phase::InGlyph, Token::Empty(ElementName::Image)) => if seen.image {
            Action::RejectDuplicate
        } else {
            Action::BuildImage
        },
        (Phase::InGlyph, Token::End(ElementName::Glyph)) => Action::Close,
        (Phase::Done, Token::Eof) => Action::Finish,
        (Phase::Done, _) => Action::RejectTrailing,
        (_, Token::Eof) => Action::RejectEnd,
        _ => Action::Skip,
    }
}

/// Decides what to do with an event.
pub fn decide(phase: Phase, seen: Seen, token: Token) -> (action: Action)
    ensures
        action == action_for(phase, seen, token),
{
    match (phase, token) {
        (_, Token::Comment) | (_, Token::Decl) => Action::Skip,
        (Phase::Start, Token::Start(ElementName::Glyph))
        | (Phase::Start, Token::Empty(ElementName::Glyph)) => Action::BuildHeader,
        (Phase::Start, Token::Start(_)) | (Phase::Start, Token::Empty(_)) => Action::RejectFirstElement,
        (Phase::InGlyph, Token::Empty(ElementName::Unicode)) => Action::BuildUnicode,
        (Phase::InGlyph, Token::Empty(ElementName::Anchor)) => Action::BuildAnchor,
        (Phase::InGlyph, Token::Empty(ElementName::Guideline)) => Action::BuildGuideline,
        (Phase::InGlyph, Token::Empty(ElementName::Advance)) => if seen.advance {
            Action::RejectDuplicate
        } else {
            Action::BuildAdvance
        },
        (Phase::InGlyph, Token::Start(ElementName::Note)) => if seen.note {
            Action::RejectDuplicate
        } else {
            Action::ReadNote
        },
        (Phase::InGlyph, Token::Start(ElementName::Lib)) => if seen.lib {
            Action::RejectDuplicate
        } else {
            Action::ReadLib
        },
        (Phase::InGlyph, Token::Empty(ElementName::Image)) => if seen.image {
            Action::RejectDuplicate
        } else {
            Action::BuildImage
        },
        (Phase::InGlyph, Token::End(ElementName::Glyph)) => Action::Close,
        (Phase::Done, Token::Eof) => Action::Finish,
        (Phase::Done, _) => Action::RejectTrailing,
        (_, Token::Eof) => Action::RejectEnd,
        _ => Action::Skip,
    }
}

/// A glyph under construction, as contracts see it.
pub struct PartialView {
    pub glyph: GlyphView,
    /// The identifiers met so far.
    pub identifiers: Set<Seq<char>>,
    /// Whether an `advance` element has come.
    pub advance_seen: bool,
}

/// The state of a parse, as contracts see it.
pub enum StateView {
    /// Before the `glyph` element.
    Start,
    /// Inside the `glyph` element.
    InGlyph(PartialView),
    /// After the `glyph` element.
    Done(GlyphView),
}

impl StateView {
    /// Where in the document the parse stands.
    pub open spec fn phase(self) -> Phase {
        match self {
            StateView::Start => Phase::Start,
            StateView::InGlyph(_) => Phase::InGlyph,
            StateView::Done(_) => Phase::Done,
        }
    }

    /// Which of the elements that may come only once have come.
    pub open spec fn seen(self) -> Seen {
        match self {
            StateView::InGlyph(partial) => Seen {
                advance: partial.advance_seen,
                note: partial.glyph.note is Some,
                lib: partial.glyph.lib is Some,
                image: partial.glyph.image is Some,
            },
            _ => Seen { advance: false, note: false, lib: false, image: false },
        }
    }
}

/// What the tokenizer gives in one turn: the event, and what is read after
/// it on account of the event. The fields that a turn does not ask for do
/// not matter.
pub struct Reading {
    /// The event, or the error of the tokenizer.
    pub event: Result<Token, XmlError>,
    /// The attributes of the tag, as far as they were read.
    pub entries: Seq<AttributeView>,
    /// The error that ended the reading of the attributes.
    pub failure: Option<XmlError>,
    /// The text up to the closing `note` tag.
    pub note: Result<Seq<char>, XmlError>,
    /// The offsets in the document just after the opening `lib` tag and just
    /// after its closing tag.
    pub span: Result<(int, int), XmlError>,
}

/// Where a turn leaves the parse.
pub enum Verdict {
    /// The parse goes on in this state.
    Continue(StateView),
    /// The document describes this glyph.
    Accept(GlyphView),
    /// The document is rejected.
    Reject(Failure),
}

/// The verdict of a builder's outcome: to go on with what `next` makes of
/// what was built, or to reject the document.
pub open spec fn follow<V>(outcome: Outcome<V>, next: spec_fn(V) -> PartialView) -> Verdict {
    match outcome {
        Outcome::Built(built) => Verdict::Continue(StateView::InGlyph(next(built))),
        _ => Verdict::Reject(outcome.failure()),
    }
}

/// What a builder's action makes of the attributes of a tag.
pub open spec fn built(
    state: StateView,
    action: Action,
    entries: Seq<AttributeView>,
    failure: Option<XmlError>,
) -> Verdict {
    match (action, state) {
        (Action::BuildHeader, _) => follow(
            header_of(entries, failure),
            |glyph: GlyphView| PartialView::started(glyph),
        ),
        (Action::BuildUnicode, StateView::InGlyph(partial)) => follow(
            unicode_of(entries, failure),
            |scalar: u32| partial.with_codepoint(scalar),
        ),
        (Action::BuildAnchor, StateView::InGlyph(partial)) => follow(
            anchor_of(entries, failure, partial.identifiers, partial.glyph.format),
            |anchor: AnchorView|
                partial.with_anchor(
                    anchor,
                    seen_after_anchor(entries, partial.identifiers, partial.glyph.format),
                ),
        ),
        (Action::BuildGuideline, StateView::InGlyph(partial)) => follow(
            guideline_of(entries, failure, partial.identifiers, partial.glyph.format),
            |guideline: GuidelineView|
                partial.with_guideline(
                    guideline,
                    seen_after_guideline(entries, partial.identifiers, partial.glyph.format),
                ),
        ),
        (Action::BuildAdvance, StateView::InGlyph(partial)) => follow(
            advance_of(entries, failure),
            |advance: (Seq<char>, Seq<char>)| partial.with_advance(advance.0, advance.1),
        ),
        (Action::BuildImage, StateView::InGlyph(partial)) => follow(
            image_of(entries, failure),
            |image: ImageView| partial.with_image(image),
        ),
        _ => Verdict::Continue(state),
    }
}

/// One turn: from the state of the parse and what the tokenizer gives, to
/// the next state or to the end of the parse.
pub open spec fn step(xml: Seq<u8>, state: StateView, reading: Reading) -> Verdict {
    match reading.event {
        Err(error) => Verdict::Reject(Failure::Xml(error)),
        Ok(token) => act(xml, state, action_for(state.phase(), state.seen(), token), reading),
    }
}

/// What an action makes of the state of the parse, given what was read
/// after the event.
pub open spec fn act(xml: Seq<u8>, state: StateView, action: Action, reading: Reading) -> Verdict {
    match action {
        Action::ReadNote => noted(state, reading.note),
        Action::ReadLib => with_lib_read(xml, state, reading.span),
        Action::BuildHeader
        | Action::BuildUnicode
        | Action::BuildAnchor
        | Action::BuildGuideline
        | Action::BuildAdvance
        | Action::BuildImage => built(state, action, reading.entries, reading.failure),
        _ => settled(state, action),
    }
}

/// What an action makes of the state of the parse that needs nothing but
/// the event: to pass over it, to reject it, to complete the glyph or to
/// hand it out.
pub open spec fn settled(state: StateView, action: Action) -> Verdict {
    match (action.flaw(), action, state) {
        (Some(flaw), _, _) => Verdict::Reject(Failure::Broken(flaw)),
        (None, Action::Close, StateView::InGlyph(partial)) => Verdict::Continue(
            StateView::Done(partial.glyph),
        ),
        (None, Action::Finish, StateView::Done(glyph)) => Verdict::Accept(glyph),
        _ => Verdict::Continue(state),
    }
}

/// The glyph takes the text of its `note` element, if the text could be read.
pub open spec fn noted(state: StateView, note: Result<Seq<char>, XmlError>) -> Verdict {
    match (note, state) {
        (Ok(note), StateView::InGlyph(partial)) => Verdict::Continue(
            StateView::InGlyph(partial.with_note(note)),
        ),
        (Err(error), _) => Verdict::Reject(Failure::Xml(error)),
        _ => Verdict::Continue(state),
    }
}

/// The glyph takes the dictionary of its `lib` element: what the bytes of
/// the element hold, if its closing tag could be found.
pub open spec fn with_lib_read(
    xml: Seq<u8>,
    state: StateView,
    span: Result<(int, int), XmlError>,
) -> Verdict {
    match (span, state) {
        (Ok((start, end)), StateView::InGlyph(partial)) => match lib_of(xml, start, end) {
            Ok(lib) => Verdict::Continue(StateView::InGlyph(partial.with_lib(lib))),
            Err(flaw) => Verdict::Reject(Failure::Broken(flaw)),
        },
        (Err(error), _) => Verdict::Reject(Failure::Xml(error)),
        _ => Verdict::Continue(state),
    }
}

/// The parse of a document whose turns gave `readings`, one after the other,
/// for as long as the parse goes on.
pub open spec fn replay(xml: Seq<u8>, readings: Seq<Reading>) -> Verdict
    decreases readings.len(),
{
    if readings.len() == 0 {
        Verdict::Continue(StateView::Start)
    } else {
        match replay(xml, readings.drop_last()) {
            Verdict::Continue(state) => step(xml, state, readings.last()),
            verdict => verdict,
        }
    }
}

/// The attributes of the tag that `event` is, as `reader` reads them.
pub open spec fn entries_read(event: Result<XmlEvent, XmlError>, reader: XmlReader<'_>) -> Seq<
    AttributeView,
> {
    match event {
        Ok(XmlEvent::Start(element)) | Ok(XmlEvent::Empty(element)) => entries_of(
            element.content@,
            element.name@.len(),
            reader,
        ),
        _ => Seq::empty(),
    }
}

/// The error that ends the attributes of the tag that `event` is.
pub open spec fn failure_read(event: Result<XmlEvent, XmlError>, reader: XmlReader<'_>) -> Option<
    XmlError,
> {
    match event {
        Ok(XmlEvent::Start(element)) | Ok(XmlEvent::Empty(element)) => failure_of(
            element.content@,
            element.name@.len(),
            reader,
        ),
        _ => None,
    }
}

/// The text that `reader` finds up to the closing `note` tag.
pub open spec fn note_read(reader: XmlReader<'_>) -> Result<Seq<char>, XmlError> {
    match text_read(reader, "note"@).0 {
        Ok(note) => Ok(note@),
        Err(error) => Err(error),
    }
}

/// The offsets in the document at `reader` and just after the closing `lib`
/// tag that `reader` finds.
pub open spec fn span_read(reader: XmlReader<'_>) -> Result<(int, int), XmlError> {
    let (skipped, last) = skipped_to_end(reader, "lib"@);
    match skipped {
        Ok(_) => Ok((position_of(reader) as int, position_of(last) as int)),
        Err(error) => Err(error),
    }
}

/// What the tokenizer gives in the turn that `reader` is about to take: the
/// next event, and what can be read after it.
pub open spec fn reading_at(reader: XmlReader<'_>) -> Reading {
    let (event, after) = event_read(reader);
    Reading {
        event: match event {
            Ok(event) => Ok(token_of(event)),
            Err(error) => Err(error),
        },
        entries: entries_read(event, after),
        failure: failure_read(event, after),
        note: note_read(after),
        span: span_read(after),
    }
}

/// The tokenizer as a turn leaves it that starts in `state`: past the
/// event, and past the element where the turn reads a note or a dictionary.
pub open spec fn reader_after(reader: XmlReader<'_>, state: StateView) -> XmlReader<'_> {
    let (event, after) = event_read(reader);
    match reading_at(reader).event {
        Ok(token) => match action_for(state.phase(), state.seen(), token) {
            Action::ReadNote => text_read(after, "note"@).1,
            Action::ReadLib => skipped_to_end(after, "lib"@).1,
            _ => after,
        },
        Err(_) => after,
    }
}

/// The parse from `state` on, with the tokenizer at `reader`, for at most
/// `turns` turns.
pub open spec fn run(xml: Seq<u8>, reader: XmlReader<'_>, state: StateView, turns: nat) -> Verdict
    decreases turns,
{
    if turns == 0 {
        Verdict::Continue(state)
    } else {
        match step(xml, state, reading_at(reader)) {
            Verdict::Continue(next) => run(
                xml,
                reader_after(reader, state),
                next,
                (turns - 1) as nat,
            ),
            verdict => verdict,
        }
    }
}

/// The parse of the document `xml`: what the rules of the format make of
/// what the tokenizer gives on it, turn by turn, to the end of the document
/// or to the first failure.
pub open spec fn parse_of(xml: Seq<u8>) -> Verdict {
    run(xml, opened(xml), StateView::Start, events_left(opened(xml)) + 1)
}

/// `result` is what the verdict says, and the verdict ends the parse.
pub open spec fn fulfils(result: Result<Glyph, Error>, verdict: Verdict) -> bool {
    match verdict {
        Verdict::Accept(glyph) => result matches Ok(parsed) && parsed@ == glyph,
        Verdict::Reject(failure) => result matches Err(error) && error@ == failure,
        Verdict::Continue(_) => false,
    }
}

impl PartialView {
    /// A glyph that was just started.
    pub open spec fn started(glyph: GlyphView) -> PartialView {
        PartialView { glyph, identifiers: Set::empty(), advance_seen: false }
    }

    /// With `identifiers` as the identifiers met so far.
    pub open spec fn with_identifiers(self, identifiers: Set<Seq<char>>) -> PartialView {
        PartialView { identifiers, ..self }
    }

    /// With one more character.
    pub open spec fn with_codepoint(self, scalar: u32) -> PartialView {
        PartialView { glyph: self.glyph.with_codepoint(scalar), ..self }
    }

    /// With one more anchor, and `identifiers` the identifiers met once it is read.
    pub open spec fn with_anchor(self, anchor: AnchorView, identifiers: Set<Seq<char>>) -> PartialView {
        PartialView { glyph: self.glyph.with_anchor(anchor), identifiers, ..self }
    }

    /// With one more guideline, and `identifiers` the identifiers met once it is read.
    pub open spec fn with_guideline(
        self,
        guideline: GuidelineView,
        identifiers: Set<Seq<char>>,
    ) -> PartialView {
        PartialView { glyph: self.glyph.with_guideline(guideline), identifiers, ..self }
    }

    /// With this height and width; the `advance` element has come.
    pub open spec fn with_advance(self, height: Seq<char>, width: Seq<char>) -> PartialView {
        PartialView { glyph: self.glyph.with_advance(height, width), advance_seen: true, ..self }
    }

    /// With this image.
    pub open spec fn with_image(self, image: ImageView) -> PartialView {
        PartialView { glyph: self.glyph.with_image(image), ..self }
    }

    /// With this note.
    pub open spec fn with_note(self, note: Seq<char>) -> PartialView {
        PartialView { glyph: self.glyph.with_note(note), ..self }
    }

    /// With this property dictionary.
    pub open spec fn with_lib(self, lib: plist::Dictionary) -> PartialView {
        PartialView { glyph: self.glyph.with_lib(lib), ..self }
    }

    /// The glyph is well formed, and all its identifiers are on record.
    pub open spec fn well_formed(self) -> bool {
        &&& self.glyph.well_formed()
        &&& self.glyph.identifiers().subset_of(self.identifiers)
    }
}

impl StateView {
    /// The glyph that the state holds, if it holds one, is well formed.
    pub open spec fn well_formed(self) -> bool {
        match self {
            StateView::Start => true,
            StateView::InGlyph(partial) => partial.well_formed(),
            StateView::Done(glyph) => glyph.well_formed(),
        }
    }
}

impl Verdict {
    /// What the verdict holds is well formed.
    pub open spec fn well_formed(self) -> bool {
        match self {
            Verdict::Continue(state) => state.well_formed(),
            Verdict::Accept(glyph) => glyph.well_formed(),
            Verdict::Reject(_) => true,
        }
    }
}

/// `after` is `glyph` with one more anchor or one more guideline, whose
/// identifier is `identifier`.
pub open spec fn grown_by(glyph: GlyphView, after: GlyphView, identifier: Option<Seq<char>>) -> bool {
    ||| {
        &&& after.anchors.len() == glyph.anchors.len() + 1
        &&& after.anchors.drop_last() == glyph.anchors
        &&& after.anchors.last().identifier == identifier
        &&& after.guidelines == glyph.guidelines
    }
    ||| {
        &&& after.guidelines.len() == glyph.guidelines.len() + 1
        &&& after.guidelines.drop_last() == glyph.guidelines
        &&& after.guidelines.last().identifier == identifier
        &&& after.anchors == glyph.anchors
    }
}

/// The identifiers of a glyph that has taken one more element are those that
/// it had and the identifier of the element, if the element has one.
pub proof fn lemma_identifiers_of_grown_glyph(
    glyph: GlyphView,
    after: GlyphView,
    identifier: Option<Seq<char>>,
)
    requires
        grown_by(glyph, after, identifier),
    ensures
        forall|text: Seq<char>|
            #[trigger] after.identifiers().contains(text) <==> glyph.identifiers().contains(text)
                || identifier == Some(text),
{
    assert forall|text: Seq<char>|
        #[trigger] after.identifiers().contains(text) <==> glyph.identifiers().contains(text)
            || identifier == Some(text) by {
        if after.identifiers().contains(text) && identifier != Some(text) {
            if exists|i: int|
                0 <= i < after.anchors.len() && (#[trigger] after.anchors[i]).identifier == Some(
                    text,
                ) {
                let i = choose|i: int|
                    0 <= i < after.anchors.len() && (#[trigger] after.anchors[i]).identifier
                        == Some(text);
                if after.anchors.len() == glyph.anchors.len() + 1 {
                    assert(after.anchors.drop_last()[i] == after.anchors[i]);
                }
                assert(glyph.anchors[i].identifier == Some(text));
            } else {
                let i = choose|i: int|
                    0 <= i < after.guidelines.len() && (#[trigger] after.guidelines[i]).identifier
                        == Some(text);
                if after.guidelines.len() == glyph.guidelines.len() + 1 {
                    assert(after.guidelines.drop_last()[i] == after.guidelines[i]);
                }
                assert(glyph.guidelines[i].identifier == Some(text));
            }
        }
        if glyph.identifiers().contains(text) {
            if exists|i: int|
                0 <= i < glyph.anchors.len() && (#[trigger] glyph.anchors[i]).identifier == Some(
                    text,
                ) {
                let i = choose|i: int|
                    0 <= i < glyph.anchors.len() && (#[trigger] glyph.anchors[i]).identifier
                        == Some(text);
                if after.anchors.len() == glyph.anchors.len() + 1 {
                    assert(after.anchors.drop_last()[i] == after.anchors[i]);
                }
                assert(after.anchors[i].identifier == Some(text));
            } else {
                let i = choose|i: int|
                    0 <= i < glyph.guidelines.len() && (#[trigger] glyph.guidelines[i]).identifier
                        == Some(text);
                if after.guidelines.len() == glyph.guidelines.len() + 1 {
                    assert(after.guidelines.drop_last()[i] == after.guidelines[i]);
                }
                assert(after.guidelines[i].identifier == Some(text));
            }
        }
        if identifier == Some(text) {
            if after.anchors.len() == glyph.anchors.len() + 1 && after.anchors.last().identifier
                == identifier {
                assert(after.anchors[after.anchors.len() - 1].identifier == Some(text));
            } else {
                assert(after.guidelines[after.guidelines.len() - 1].identifier == Some(text));
            }
        }
    }
}

/// A glyph stays well formed where it takes an anchor whose identifier, if
/// it has one, was recorded as new.
pub proof fn lemma_pushed_anchor(before: PartialView, anchor: AnchorView, identifiers: Set<Seq<char>>)
    requires
        before.well_formed(),
        identifier_recorded(anchor.identifier, before.identifiers, identifiers, before.glyph.format),
    ensures
        before.with_anchor(anchor, identifiers).well_formed(),
{
    let glyph = before.glyph;
    let after = glyph.with_anchor(anchor);
    let last = glyph.anchors.len() as int;
    assert(after.anchors.drop_last() =~= glyph.anchors);
    lemma_identifiers_of_grown_glyph(glyph, after, anchor.identifier);
    assert forall|i: int, j: int|
        0 <= i < j < after.anchors.len() && (#[trigger] after.anchors[i]).identifier
            is Some implies after.anchors[i].identifier != (#[trigger] after.anchors[j]).identifier by {
        if j == last {
            assert(glyph.identifiers().contains(glyph.anchors[i].identifier->0));
        } else {
            assert(glyph.anchors[i].identifier != glyph.anchors[j].identifier);
        }
    }
    assert forall|i: int, j: int|
        0 <= i < after.anchors.len() && 0 <= j < after.guidelines.len() && (
        #[trigger] after.anchors[i]).identifier is Some implies after.anchors[i].identifier != (
        #[trigger] after.guidelines[j]).identifier by {
        if i == last {
            if glyph.guidelines[j].identifier is Some {
                assert(glyph.identifiers().contains(glyph.guidelines[j].identifier->0));
            }
        } else {
            assert(glyph.anchors[i].identifier != glyph.guidelines[j].identifier);
        }
    }
    if glyph.format == GlifVersion::V1 {
        assert(after.identifiers() =~= Set::empty());
    }
}

/// A glyph stays well formed where it takes a guideline whose identifier, if
/// it has one, was recorded as new, and whose angle is in range.
pub proof fn lemma_pushed_guideline(
    before: PartialView,
    guideline: GuidelineView,
    identifiers: Set<Seq<char>>,
)
    requires
        before.well_formed(),
        identifier_recorded(
            guideline.identifier,
            before.identifiers,
            identifiers,
            before.glyph.format,
        ),
        guideline.line.angle_in_range(),
    ensures
        before.with_guideline(guideline, identifiers).well_formed(),
{
    let glyph = before.glyph;
    let after = glyph.with_guideline(guideline);
    let last = glyph.guidelines.len() as int;
    assert(after.guidelines.drop_last() =~= glyph.guidelines);
    lemma_identifiers_of_grown_glyph(glyph, after, guideline.identifier);
    assert forall|i: int, j: int|
        0 <= i < j < after.guidelines.len() && (#[trigger] after.guidelines[i]).identifier
            is Some implies after.guidelines[i].identifier != (
    #[trigger] after.guidelines[j]).identifier by {
        if j == last {
            assert(glyph.identifiers().contains(glyph.guidelines[i].identifier->0));
        } else {
            assert(glyph.guidelines[i].identifier != glyph.guidelines[j].identifier);
        }
    }
    assert forall|i: int, j: int|
        0 <= i < after.anchors.len() && 0 <= j < after.guidelines.len() && (
        #[trigger] after.anchors[i]).identifier is Some implies after.anchors[i].identifier != (
        #[trigger] after.guidelines[j]).identifier by {
        if j == last {
            assert(glyph.identifiers().contains(glyph.anchors[i].identifier->0));
        } else {
            assert(glyph.anchors[i].identifier != glyph.guidelines[j].identifier);
        }
    }
    assert forall|i: int| 0 <= i < after.guidelines.len() implies (
    #[trigger] after.guidelines[i]).line.angle_in_range() by {
        if i < last {
            assert(glyph.guidelines[i].line.angle_in_range());
        }
    }
    if glyph.format == GlifVersion::V1 {
        assert(after.identifiers() =~= Set::empty());
    }
}

/// A glyph with a name and nothing else is well formed.
pub proof fn lemma_named_glyph(name: Seq<char>, format: GlifVersion, format_minor: u32)
    requires
        name.len() > 0,
    ensures
        PartialView::started(GlyphView::named(name, format, format_minor)).well_formed(),
{
    let glyph = GlyphView::named(name, format, format_minor);
    assert(glyph.identifiers() =~= Set::empty());
}

/// A glyph that is handed out is well formed.
pub open spec fn hands_out_well_formed(result: Result<Glyph, Error>) -> bool {
    match result {
        Ok(glyph) => glyph@.well_formed(),
        Err(_) => true,
    }
}

} // verus!
