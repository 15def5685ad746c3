//! The parse driver: one pass over the events of a document.
//!
//! The driver pulls one event at a time from the tokenizer, asks the state
//! machine what to do with it, and has the builders of the elements do the
//! work.

use crate::dictionary::{lib_from_span, lib_of};
use crate::elements::{
    identifier_recorded, parse_advance, parse_anchor, parse_glyph, parse_guideline, parse_image,
    parse_unicode,
};
use crate::error::{Error, ErrorKind, Failure, XmlError};
use crate::glyph::{Anchor, Glyph, Guideline, Image};
use crate::identifier::IdentifierSet;
use crate::machine::{
    act, built, decide, entries_read, failure_read, fulfils, hands_out_well_formed,
    lemma_named_glyph, lemma_pushed_anchor, lemma_pushed_guideline, note_read, noted, parse_of,
    reader_after, reading_at, run, settled, span_read, step, token, with_lib_read, Action,
    PartialView, Phase, Seen, StateView, Token, Verdict,
};
use crate::number::Number;
use crate::xml::{
    events_left, next_event, open_reader, position, position_of, read_attributes, read_text,
    read_to_end, skipped_to_end, text_read, AttributeList, Element, XmlEvent, XmlReader,
};
use vstd::pervasive::unreached;
use vstd::prelude::*;

verus! {

/// A glyph under construction.
struct Partial {
    glyph: Glyph,
    identifiers: IdentifierSet,
    advance_seen: bool,
}

impl View for Partial {
    type V = PartialView;

    closed spec fn view(&self) -> PartialView {
        PartialView {
            glyph: self.glyph@,
            identifiers: self.identifiers@,
            advance_seen: self.advance_seen,
        }
    }
}

/// The state of a parse.
enum State {
    Start,
    InGlyph(Partial),
    Done(Glyph),
}

impl View for State {
    type V = StateView;

    closed spec fn view(&self) -> StateView {
        match *self {
            State::Start => StateView::Start,
            State::InGlyph(partial) => StateView::InGlyph(partial@),
            State::Done(glyph) => StateView::Done(glyph@),
        }
    }
}

impl State {
    fn phase(&self) -> (phase: Phase)
        ensures
            phase == self@.phase(),
    {
        match self {
            State::Start => Phase::Start,
            State::InGlyph(_) => Phase::InGlyph,
            State::Done(_) => Phase::Done,
        }
    }

    fn seen(&self) -> (seen: Seen)
        ensures
            seen == self@.seen(),
    {
        match self {
            State::InGlyph(partial) => Seen {
                advance: partial.advance_seen,
                note: partial.glyph.note.is_some(),
                lib: partial.glyph.lib.is_some(),
                image: partial.glyph.image.is_some(),
            },
            _ => Seen { advance: false, note: false, lib: false, image: false },
        }
    }
}

/// Where a turn of the driver leaves the parse.
enum Turn {
    Continue(State),
    Accept(Glyph),
    Reject(Error),
}

impl View for Turn {
    type V = Verdict;

    closed spec fn view(&self) -> Verdict {
        match *self {
            Turn::Continue(state) => Verdict::Continue(state@),
            Turn::Accept(glyph) => Verdict::Accept(glyph@),
            Turn::Reject(error) => Verdict::Reject(error@),
        }
    }
}

/// Reads the text of a `note` element, up to its closing tag.
fn parse_note(reader: &mut XmlReader<'_>) -> (result: Result<String, Error>)
    ensures
        events_left(*final(reader)) <= events_left(*old(reader)),
        *final(reader) == text_read(*old(reader), "note"@).1,
        match text_read(*old(reader), "note"@).0 {
            Ok(note) => result == Ok::<String, Error>(note),
            Err(failure) => result matches Err(error) && error@ == Failure::Xml(failure),
        },
{
    match read_text(reader, "note") {
        Ok(note) => Ok(note),
        Err(error) => Err(Error::Xml(error)),
    }
}

/// Reads the property dictionary of a `lib` element: skips to its closing
/// tag, and has the bytes that were skipped parsed as a property list.
fn parse_lib(reader: &mut XmlReader<'_>, xml: &[u8]) -> (result: Result<plist::Dictionary, Error>)
    ensures
        events_left(*final(reader)) <= events_left(*old(reader)),
        *final(reader) == skipped_to_end(*old(reader), "lib"@).1,
        match skipped_to_end(*old(reader), "lib"@).0 {
            Ok(_) => match lib_of(
                xml@,
                position_of(*old(reader)) as int,
                position_of(*final(reader)) as int,
            ) {
                Ok(lib) => result == Ok::<plist::Dictionary, Error>(lib),
                Err(flaw) => result matches Err(error) && error@ == Failure::Broken(flaw),
            },
            Err(failure) => result matches Err(error) && error@ == Failure::Xml(failure),
        },
{
    let start = position(reader);
    match read_to_end(reader, "lib") {
        Err(error) => Err(Error::Xml(error)),
        Ok(()) => {
            let end = position(reader);
            lib_from_span(xml, start, end)
        },
    }
}

/// The tag that the event is.
fn element_of(event: XmlEvent) -> (element: Element)
    requires
        event is Start || event is Empty,
    ensures
        event == XmlEvent::Start(element) || event == XmlEvent::Empty(element),
{
    match event {
        XmlEvent::Start(element) => element,
        XmlEvent::Empty(element) => element,
        _ => unreached(),
    }
}

impl Partial {
    fn push_codepoint(self, codepoint: char) -> (next: Partial)
        requires
            self@.well_formed(),
        ensures
            next@ == self@.with_codepoint(codepoint as u32),
            next@.well_formed(),
    {
        let mut next = self;
        next.glyph.codepoints.push(codepoint);
        proof {
            assert(next.glyph@.codepoints =~= self.glyph@.codepoints.push(codepoint as u32));
            assert(next.glyph@.anchors =~= self.glyph@.anchors);
            assert(next.glyph@.guidelines =~= self.glyph@.guidelines);
            assert(next.glyph@.identifiers() =~= self.glyph@.identifiers());
        }
        next
    }

    fn push_anchor(self, anchor: Anchor, Ghost(before): Ghost<Set<Seq<char>>>) -> (next: Partial)
        requires
            self@.with_identifiers(before).well_formed(),
            identifier_recorded(anchor@.identifier, before, self@.identifiers, self@.glyph.format),
        ensures
            next@ == self@.with_anchor(anchor@, self@.identifiers),
            next@.well_formed(),
    {
        let mut next = self;
        next.glyph.anchors.push(anchor);
        proof {
            assert(next.glyph@.anchors =~= self.glyph@.anchors.push(anchor@));
            assert(next.glyph@.guidelines =~= self.glyph@.guidelines);
            assert(next.glyph@.codepoints =~= self.glyph@.codepoints);
            lemma_pushed_anchor(self@.with_identifiers(before), anchor@, self@.identifiers);
        }
        next
    }

    fn push_guideline(self, guideline: Guideline, Ghost(before): Ghost<Set<Seq<char>>>) -> (next:
        Partial)
        requires
            self@.with_identifiers(before).well_formed(),
            identifier_recorded(
                guideline@.identifier,
                before,
                self@.identifiers,
                self@.glyph.format,
            ),
            guideline@.line.angle_in_range(),
        ensures
            next@ == self@.with_guideline(guideline@, self@.identifiers),
            next@.well_formed(),
    {
        let mut next = self;
        next.glyph.guidelines.push(guideline);
        proof {
            assert(next.glyph@.guidelines =~= self.glyph@.guidelines.push(guideline@));
            assert(next.glyph@.anchors =~= self.glyph@.anchors);
            assert(next.glyph@.codepoints =~= self.glyph@.codepoints);
            lemma_pushed_guideline(self@.with_identifiers(before), guideline@, self@.identifiers);
        }
        next
    }

    fn set_advance(self, height: Number, width: Number) -> (next: Partial)
        requires
            self@.well_formed(),
        ensures
            next@ == self@.with_advance(height@, width@),
            next@.well_formed(),
    {
        let mut next = self;
        next.glyph.height = height;
        next.glyph.width = width;
        next.advance_seen = true;
        proof {
            assert(next.glyph@.identifiers() =~= self.glyph@.identifiers());
        }
        next
    }

    fn set_image(self, image: Image) -> (next: Partial)
        requires
            self@.well_formed(),
        ensures
            next@ == self@.with_image(image@),
            next@.well_formed(),
    {
        let mut next = self;
        next.glyph.image = Some(image);
        proof {
            assert(next.glyph@.identifiers() =~= self.glyph@.identifiers());
        }
        next
    }

    fn set_note(self, note: String) -> (next: Partial)
        requires
            self@.well_formed(),
        ensures
            next@ == self@.with_note(note@),
            next@.well_formed(),
    {
        let mut next = self;
        next.glyph.note = Some(note);
        proof {
            assert(next.glyph@.identifiers() =~= self.glyph@.identifiers());
        }
        next
    }

    fn set_lib(self, lib: plist::Dictionary) -> (next: Partial)
        requires
            self@.well_formed(),
        ensures
            next@ == self@.with_lib(lib),
            next@.well_formed(),
    {
        let mut next = self;
        next.glyph.lib = Some(lib);
        proof {
            assert(next.glyph@.identifiers() =~= self.glyph@.identifiers());
        }
        next
    }
}

/// Does what needs nothing but the event: passes over it, rejects it,
/// completes the glyph or hands it out.
fn settle(state: State, action: Action) -> (turn: Turn)
    requires
        state@.well_formed(),
        action == Action::Close ==> state@ is InGlyph,
        action == Action::Finish ==> state@ is Done,
    ensures
        turn@ == settled(state@, action),
        turn@.well_formed(),
{
    match action {
        Action::RejectFirstElement => Turn::Reject(Error::Parse(ErrorKind::WrongFirstElement)),
        Action::RejectDuplicate => Turn::Reject(Error::Parse(ErrorKind::DuplicateElement)),
        Action::RejectTrailing => Turn::Reject(Error::Parse(ErrorKind::TrailingData)),
        Action::RejectEnd => Turn::Reject(Error::Parse(ErrorKind::UnexpectedEof)),
        Action::Close => match state {
            State::InGlyph(partial) => Turn::Continue(State::Done(partial.glyph)),
            _ => unreached(),
        },
        Action::Finish => match state {
            State::Done(glyph) => Turn::Accept(glyph),
            _ => unreached(),
        },
        _ => Turn::Continue(state),
    }
}

/// Reads the note of the glyph and takes it into the glyph.
fn take_note(state: State, reader: &mut XmlReader<'_>) -> (turn: Turn)
    requires
        state@.well_formed(),
        state@ is InGlyph,
    ensures
        turn@ == noted(state@, note_read(*old(reader))),
        *final(reader) == text_read(*old(reader), "note"@).1,
        events_left(*final(reader)) <= events_left(*old(reader)),
        turn@.well_formed(),
{
    match state {
        State::InGlyph(partial) => match parse_note(reader) {
            Ok(note) => Turn::Continue(State::InGlyph(partial.set_note(note))),
            Err(error) => Turn::Reject(error),
        },
        _ => unreached(),
    }
}

/// Reads the dictionary of the glyph and takes it into the glyph.
fn take_lib(state: State, reader: &mut XmlReader<'_>, xml: &[u8]) -> (turn: Turn)
    requires
        state@.well_formed(),
        state@ is InGlyph,
    ensures
        turn@ == with_lib_read(xml@, state@, span_read(*old(reader))),
        *final(reader) == skipped_to_end(*old(reader), "lib"@).1,
        events_left(*final(reader)) <= events_left(*old(reader)),
        turn@.well_formed(),
{
    match state {
        State::InGlyph(partial) => match parse_lib(reader, xml) {
            Ok(lib) => Turn::Continue(State::InGlyph(partial.set_lib(lib))),
            Err(error) => Turn::Reject(error),
        },
        _ => unreached(),
    }
}

/// One turn of the driver: pulls an event, decides what to do with it, and
/// does it.
fn turn(state: State, reader: &mut XmlReader<'_>, xml: &[u8]) -> (turn: Turn)
    requires
        state@.well_formed(),
    ensures
        turn@ == step(xml@, state@, reading_at(*old(reader))),
        turn is Continue ==> *final(reader) == reader_after(*old(reader), state@),
        turn is Continue ==> events_left(*final(reader)) < events_left(*old(reader)),
        turn@.well_formed(),
{
    let ghost reading = reading_at(*old(reader));
    let event = match next_event(reader) {
        Err(error) => {
            return Turn::Reject(Error::Xml(error));
        },
        Ok(event) => event,
    };
    let ghost after = *reader;
    let token = token(&event);
    let action = decide(state.phase(), state.seen(), token);
    assert(reading.event == Ok::<Token, XmlError>(token));
    assert(step(xml@, state@, reading) == act(xml@, state@, action, reading));
    match action {
        Action::ReadNote => {
            assert(reading.note == note_read(after));
            take_note(state, reader)
        },
        Action::ReadLib => {
            assert(reading.span == span_read(after));
            take_lib(state, reader, xml)
        },
        Action::BuildHeader
        | Action::BuildUnicode
        | Action::BuildAnchor
        | Action::BuildGuideline
        | Action::BuildAdvance
        | Action::BuildImage => {
            assert(reading.entries == entries_read(Ok(event), after));
            assert(reading.failure == failure_read(Ok(event), after));
            build(state, action, read_attributes(&element_of(event), reader))
        },
        _ => settle(state, action),
    }
}

/// Builds the part of the glyph that a tag describes, from its attributes,
/// and takes it into the glyph.
fn build(state: State, action: Action, attributes: AttributeList) -> (turn: Turn)
    requires
        state@.well_formed(),
        action == Action::BuildHeader || state@ is InGlyph,
        action == Action::BuildHeader || action == Action::BuildUnicode || action
            == Action::BuildAnchor || action == Action::BuildGuideline || action
            == Action::BuildAdvance || action == Action::BuildImage,
    ensures
        turn@ == built(state@, action, attributes.entries(), attributes.failure),
        turn@.well_formed(),
{
    match (action, state) {
        (Action::BuildHeader, _) => match parse_glyph(attributes) {
            Ok(glyph) => {
                proof {
                    lemma_named_glyph(glyph@.name, glyph@.format, glyph@.format_minor);
                }
                Turn::Continue(
                    State::InGlyph(
                        Partial { glyph, identifiers: IdentifierSet::new(), advance_seen: false },
                    ),
                )
            },
            Err(error) => Turn::Reject(error),
        },
        (Action::BuildUnicode, State::InGlyph(partial)) => match parse_unicode(attributes) {
            Ok(codepoint) => Turn::Continue(State::InGlyph(partial.push_codepoint(codepoint))),
            Err(error) => Turn::Reject(error),
        },
        (Action::BuildAnchor, State::InGlyph(partial)) => {
            let mut partial = partial;
            let format = partial.glyph.format;
            let ghost before = partial.identifiers@;
            match parse_anchor(attributes, &mut partial.identifiers, &format) {
                Ok(anchor) => Turn::Continue(
                    State::InGlyph(partial.push_anchor(anchor, Ghost(before))),
                ),
                Err(error) => Turn::Reject(error),
            }
        },
        (Action::BuildGuideline, State::InGlyph(partial)) => {
            let mut partial = partial;
            let format = partial.glyph.format;
            let ghost before = partial.identifiers@;
            match parse_guideline(attributes, &mut partial.identifiers, &format) {
                Ok(guideline) => Turn::Continue(
                    State::InGlyph(partial.push_guideline(guideline, Ghost(before))),
                ),
                Err(error) => Turn::Reject(error),
            }
        },
        (Action::BuildAdvance, State::InGlyph(partial)) => match parse_advance(attributes) {
            Ok((height, width)) => Turn::Continue(
                State::InGlyph(partial.set_advance(height, width)),
            ),
            Err(error) => Turn::Reject(error),
        },
        (Action::BuildImage, State::InGlyph(partial)) => match parse_image(attributes) {
            Ok(image) => Turn::Continue(State::InGlyph(partial.set_image(image))),
            Err(error) => Turn::Reject(error),
        },
        _ => unreached(),
    }
}

/// Parses the description of one glyph.
///
/// The document is read in one pass. The result is the glyph that the
/// `glyph` element describes, or the first failure on the way: an error of
/// the tokenizer, or the first rule of the format that the document breaks.
pub fn parse_glif(xml: &[u8]) -> (result: Result<Glyph, Error>)
    ensures
        fulfils(result, parse_of(xml@)),
        hands_out_well_formed(result),
{
    let mut reader = open_reader(xml);
    let mut state = State::Start;
    let ghost mut turns: nat = events_left(reader) + 1;
    loop
        invariant
            state@.well_formed(),
            turns > events_left(reader),
            run(xml@, reader, state@, turns) == parse_of(xml@),
        decreases events_left(reader),
    {
        match turn(state, &mut reader, xml) {
            Turn::Continue(next) => {
                state = next;
                proof {
                    turns = (turns - 1) as nat;
                }
            },
            Turn::Accept(glyph) => {
                return Ok(glyph);
            },
            Turn::Reject(error) => {
                return Err(error);
            },
        }
    }
}

} // verus!
