//! What holds of every parse: the rules of the format, stated over the turns
//! of the driver and proved from the definitions.

use crate::elements::{
    anchor_of, anchor_scan, anchor_seen, anchor_step, guideline_of, guideline_scan, guideline_seen,
    guideline_step, header_of, seen_after_anchor, seen_after_guideline, unicode_of, AnchorFields,
    GuidelineFields, Outcome, Scan,
};
use crate::error::{Error, Failure, Flaw, XmlError};
use crate::glyph::{AnchorView, GlifVersion, Glyph, GlyphView, GuidelineView, LineView};
use crate::identifier::is_identifier;
use crate::machine::{
    action_for, built, fulfils, lemma_named_glyph, lemma_pushed_anchor, lemma_pushed_guideline,
    parse_of, reader_after, reading_at, replay, run, step, Action, PartialView, Phase, Reading, Seen,
    StateView, Token, Verdict,
};
use crate::number::{
    all_digits, decimal_of, digit_run, digits_value, frac_len, frac_start, has_point, in_full_turn,
    int_end, is_digit, lemma_pow10_positive, lemma_value_below_power, lemma_value_of_joined,
    mantissa, pow10, scale_at, sign_len,
};
use crate::xml::{
    attribute_named, events_left, opened, AttributeName, AttributeView, ElementName, XmlReader,
};
use vstd::prelude::*;

verus! {

/// Under version 1 of the format an `identifier` attribute breaks a rule,
/// whatever it holds and on whichever element it stands: the element is
/// rejected with `UnexpectedAttribute`.
pub proof fn law_version_1_has_no_identifiers(
    anchor: AnchorFields,
    guideline: GuidelineFields,
    attribute: AttributeView,
)
    requires
        attribute_named(attribute.key) == AttributeName::Identifier,
    ensures
        anchor_step(anchor, attribute, GlifVersion::V1) == Scan::<AnchorFields>::Stopped(
            Flaw::UnexpectedAttribute,
        ),
        guideline_step(guideline, attribute, GlifVersion::V1) == Scan::<GuidelineFields>::Stopped(
            Flaw::UnexpectedAttribute,
        ),
{
}

/// Under version 2 of the format an `identifier` attribute is taken if its
/// value can serve as an identifier and was not met before; the element then
/// has it, and it counts as met.
pub proof fn law_version_2_takes_new_identifiers(
    anchor: AnchorFields,
    guideline: GuidelineFields,
    attribute: AttributeView,
)
    requires
        attribute_named(attribute.key) == AttributeName::Identifier,
        is_identifier(attribute.value),
    ensures
        !anchor.seen.contains(attribute.value) ==> anchor_step(
            anchor,
            attribute,
            GlifVersion::V2,
        ) == Scan::Going(
            AnchorFields {
                identifier: Some(attribute.value),
                seen: anchor.seen.insert(attribute.value),
                ..anchor
            },
        ),
        !guideline.seen.contains(attribute.value) ==> guideline_step(
            guideline,
            attribute,
            GlifVersion::V2,
        ) == Scan::Going(
            GuidelineFields {
                identifier: Some(attribute.value),
                seen: guideline.seen.insert(attribute.value),
                ..guideline
            },
        ),
{
}

/// Reading the attributes of an `anchor` tag forgets no identifier, and the
/// identifier that the anchor ends up with is one that can serve as such and
/// counts as met.
pub proof fn lemma_anchor_scan_records(
    entries: Seq<AttributeView>,
    fields: AnchorFields,
    version: GlifVersion,
)
    ensures
        anchor_scan(entries, fields, version) matches Scan::Going(end) ==> {
            &&& anchor_seen(entries, fields, version) == end.seen
            &&& fields.seen.subset_of(end.seen)
            &&& end.identifier != fields.identifier ==> {
                &&& end.identifier is Some
                &&& version == GlifVersion::V2
                &&& is_identifier(end.identifier->0)
                &&& !fields.seen.contains(end.identifier->0)
                &&& end.seen.contains(end.identifier->0)
            }
        },
    decreases entries.len(),
{
    if entries.len() > 0 {
        match anchor_step(fields, entries.first(), version) {
            Scan::Going(next) => {
                lemma_anchor_scan_records(entries.drop_first(), next, version);
            },
            Scan::Stopped(_) => {},
        }
    }
}

/// Reading the attributes of a `guideline` tag forgets no identifier, and
/// the identifier that the guideline ends up with is one that can serve as
/// such and counts as met.
pub proof fn lemma_guideline_scan_records(
    entries: Seq<AttributeView>,
    fields: GuidelineFields,
    version: GlifVersion,
)
    ensures
        guideline_scan(entries, fields, version) matches Scan::Going(end) ==> {
            &&& guideline_seen(entries, fields, version) == end.seen
            &&& fields.seen.subset_of(end.seen)
            &&& end.identifier != fields.identifier ==> {
                &&& end.identifier is Some
                &&& version == GlifVersion::V2
                &&& is_identifier(end.identifier->0)
                &&& !fields.seen.contains(end.identifier->0)
                &&& end.seen.contains(end.identifier->0)
            }
        },
    decreases entries.len(),
{
    if entries.len() > 0 {
        match guideline_step(fields, entries.first(), version) {
            Scan::Going(next) => {
                lemma_guideline_scan_records(entries.drop_first(), next, version);
            },
            Scan::Stopped(_) => {},
        }
    }
}

/// Reading attributes one row after another is reading them in one row.
pub proof fn lemma_anchor_scan_joined(
    first: Seq<AttributeView>,
    second: Seq<AttributeView>,
    fields: AnchorFields,
    version: GlifVersion,
)
    ensures
        anchor_scan(first + second, fields, version) == match anchor_scan(first, fields, version) {
            Scan::Going(middle) => anchor_scan(second, middle, version),
            Scan::Stopped(flaw) => Scan::Stopped(flaw),
        },
    decreases first.len(),
{
    if first.len() == 0 {
        assert(first + second =~= second);
    } else {
        assert((first + second).first() == first.first());
        assert((first + second).drop_first() =~= first.drop_first() + second);
        match anchor_step(fields, first.first(), version) {
            Scan::Going(next) => {
                lemma_anchor_scan_joined(first.drop_first(), second, next, version);
            },
            Scan::Stopped(_) => {},
        }
    }
}

/// Reading attributes one row after another is reading them in one row.
pub proof fn lemma_guideline_scan_joined(
    first: Seq<AttributeView>,
    second: Seq<AttributeView>,
    fields: GuidelineFields,
    version: GlifVersion,
)
    ensures
        guideline_scan(first + second, fields, version) == match guideline_scan(
            first,
            fields,
            version,
        ) {
            Scan::Going(middle) => guideline_scan(second, middle, version),
            Scan::Stopped(flaw) => Scan::Stopped(flaw),
        },
    decreases first.len(),
{
    if first.len() == 0 {
        assert(first + second =~= second);
    } else {
        assert((first + second).first() == first.first());
        assert((first + second).drop_first() =~= first.drop_first() + second);
        match guideline_step(fields, first.first(), version) {
            Scan::Going(next) => {
                lemma_guideline_scan_joined(first.drop_first(), second, next, version);
            },
            Scan::Stopped(_) => {},
        }
    }
}

/// An element that is built with an identifier puts it on record: the
/// identifier counts as met from then on, together with all that were met
/// before.
pub proof fn law_identifier_of_element_is_recorded(
    entries: Seq<AttributeView>,
    failure: Option<XmlError>,
    seen: Set<Seq<char>>,
    version: GlifVersion,
)
    ensures
        anchor_of(entries, failure, seen, version) matches Outcome::Built(anchor) ==> {
            &&& seen.subset_of(seen_after_anchor(entries, seen, version))
            &&& anchor.identifier matches Some(text) ==> is_identifier(text) && seen_after_anchor(
                entries,
                seen,
                version,
            ).contains(text)
        },
        guideline_of(entries, failure, seen, version) matches Outcome::Built(guideline) ==> {
            &&& seen.subset_of(seen_after_guideline(entries, seen, version))
            &&& guideline.identifier matches Some(text) ==> is_identifier(text)
                && seen_after_guideline(entries, seen, version).contains(text)
        },
{
    lemma_anchor_scan_records(entries, AnchorFields::start(seen), version);
    lemma_guideline_scan_records(entries, GuidelineFields::start(seen), version);
}

/// An identifier that was met before is rejected where it comes again,
/// whether on an anchor or on a guideline: if the attributes before it break
/// no rule, the element fails with `DuplicateIdentifier`.
pub proof fn law_identifier_met_before_is_rejected(
    before: Seq<AttributeView>,
    attribute: AttributeView,
    after: Seq<AttributeView>,
    failure: Option<XmlError>,
    seen: Set<Seq<char>>,
)
    requires
        attribute_named(attribute.key) == AttributeName::Identifier,
        is_identifier(attribute.value),
        seen.contains(attribute.value),
    ensures
        anchor_scan(before, AnchorFields::start(seen), GlifVersion::V2) is Going ==> anchor_of(
            before + seq![attribute] + after,
            failure,
            seen,
            GlifVersion::V2,
        ) == Outcome::<crate::glyph::AnchorView>::Flawed(Flaw::DuplicateIdentifier),
        guideline_scan(before, GuidelineFields::start(seen), GlifVersion::V2) is Going
            ==> guideline_of(before + seq![attribute] + after, failure, seen, GlifVersion::V2)
            == Outcome::<crate::glyph::GuidelineView>::Flawed(Flaw::DuplicateIdentifier),
{
    let version = GlifVersion::V2;
    let rest = seq![attribute] + after;
    assert(before + seq![attribute] + after =~= before + rest);
    assert(rest.first() == attribute);
    if let Scan::Going(middle) = anchor_scan(before, AnchorFields::start(seen), version) {
        lemma_anchor_scan_records(before, AnchorFields::start(seen), version);
        lemma_anchor_scan_joined(before, rest, AnchorFields::start(seen), version);
        assert(middle.seen.contains(attribute.value));
        assert(anchor_step(middle, attribute, version) == Scan::<AnchorFields>::Stopped(
            Flaw::DuplicateIdentifier,
        ));
    }
    if let Scan::Going(middle) = guideline_scan(before, GuidelineFields::start(seen), version) {
        lemma_guideline_scan_records(before, GuidelineFields::start(seen), version);
        lemma_guideline_scan_joined(before, rest, GuidelineFields::start(seen), version);
        assert(middle.seen.contains(attribute.value));
        assert(guideline_step(middle, attribute, version) == Scan::<GuidelineFields>::Stopped(
            Flaw::DuplicateIdentifier,
        ));
    }
}

/// `token` is a tag that can carry an identifier: `anchor` or `guideline`.
pub open spec fn carries_identifier(token: Token) -> bool {
    token == Token::Empty(ElementName::Anchor) || token == Token::Empty(ElementName::Guideline)
}

/// The attributes `before` of the tag `token` break no rule, in a document
/// of the given version in which the identifiers `seen` were met before.
pub open spec fn break_no_rule(
    token: Token,
    before: Seq<AttributeView>,
    seen: Set<Seq<char>>,
    version: GlifVersion,
) -> bool {
    if token == Token::Empty(ElementName::Anchor) {
        anchor_scan(before, AnchorFields::start(seen), version) is Going
    } else {
        guideline_scan(before, GuidelineFields::start(seen), version) is Going
    }
}

/// No two elements of a glyph share an identifier, whichever kinds of
/// element they are: where an anchor or a guideline names an identifier that
/// an anchor or a guideline of the glyph already has, the document is
/// rejected with `DuplicateIdentifier`, unless an attribute before the
/// identifier breaks a rule of its own.
pub proof fn law_identifiers_are_not_shared(
    xml: Seq<u8>,
    partial: PartialView,
    reading: Reading,
    before: Seq<AttributeView>,
    attribute: AttributeView,
    after: Seq<AttributeView>,
)
    requires
        partial.well_formed(),
        partial.glyph.identifiers().contains(attribute.value),
        attribute_named(attribute.key) == AttributeName::Identifier,
        reading.event matches Ok(token) && carries_identifier(token),
        reading.entries == before + seq![attribute] + after,
        break_no_rule(reading.event->Ok_0, before, partial.identifiers, partial.glyph.format),
    ensures
        step(xml, StateView::InGlyph(partial), reading) == Verdict::Reject(
            Failure::Broken(Flaw::DuplicateIdentifier),
        ),
{
    assert(partial.identifiers.contains(attribute.value));
    assert(partial.glyph.format == GlifVersion::V2);
    law_identifier_met_before_is_rejected(
        before,
        attribute,
        after,
        reading.failure,
        partial.identifiers,
    );
}

/// Inside the glyph, a turn that goes on forgets nothing: every identifier
/// that was met stays met, the version stays, and an element that may come
/// only once and has come still counts as come.
pub proof fn law_nothing_is_forgotten(xml: Seq<u8>, partial: PartialView, reading: Reading)
    ensures
        step(xml, StateView::InGlyph(partial), reading) matches Verdict::Continue(
            StateView::InGlyph(next),
        ) ==> {
            &&& partial.identifiers.subset_of(next.identifiers)
            &&& next.glyph.format == partial.glyph.format
            &&& next.glyph.name == partial.glyph.name
            &&& partial.advance_seen ==> next.advance_seen
            &&& partial.glyph.note is Some ==> next.glyph.note is Some
            &&& partial.glyph.lib is Some ==> next.glyph.lib is Some
            &&& partial.glyph.image is Some ==> next.glyph.image is Some
        },
{
    law_identifier_of_element_is_recorded(
        reading.entries,
        reading.failure,
        partial.identifiers,
        partial.glyph.format,
    );
}

/// The element named by `token`, if it is one of those that may come only
/// once in a glyph, has come according to `seen`.
pub open spec fn has_come(seen: Seen, token: Token) -> bool {
    ||| token == Token::Empty(ElementName::Advance) && seen.advance
    ||| token == Token::Start(ElementName::Note) && seen.note
    ||| token == Token::Start(ElementName::Lib) && seen.lib
    ||| token == Token::Empty(ElementName::Image) && seen.image
}

/// `token` opens one of the elements that may come only once in a glyph.
pub open spec fn comes_once(token: Token) -> bool {
    ||| token == Token::Empty(ElementName::Advance)
    ||| token == Token::Start(ElementName::Note)
    ||| token == Token::Start(ElementName::Lib)
    ||| token == Token::Empty(ElementName::Image)
}

/// `advance`, `note`, `lib` and `image` may come once. Where one of them
/// comes for the first time and the parse goes on, it counts as come; where
/// it comes again, the document is rejected with `DuplicateElement`.
pub proof fn law_single_elements_come_once(xml: Seq<u8>, partial: PartialView, reading: Reading)
    requires
        reading.event matches Ok(token) && comes_once(token),
    ensures
        has_come(StateView::InGlyph(partial).seen(), reading.event->Ok_0) ==> step(
            xml,
            StateView::InGlyph(partial),
            reading,
        ) == Verdict::Reject(Failure::Broken(Flaw::DuplicateElement)),
        step(xml, StateView::InGlyph(partial), reading) matches Verdict::Continue(next) ==> {
            &&& !has_come(StateView::InGlyph(partial).seen(), reading.event->Ok_0)
            &&& has_come(next.seen(), reading.event->Ok_0)
        },
{
}

/// The three shapes of a line, and no other: `x` alone is a vertical line,
/// `y` alone a horizontal line, `x`, `y` and `angle` together an angled
/// line. A guideline whose attributes break no rule is built exactly where
/// they have one of these shapes, and is rejected with `InvalidGuideline`
/// otherwise.
pub proof fn law_guideline_shapes(
    entries: Seq<AttributeView>,
    seen: Set<Seq<char>>,
    version: GlifVersion,
)
    requires
        guideline_scan(entries, GuidelineFields::start(seen), version) is Going,
    ensures
        ({
            let fields = guideline_scan(entries, GuidelineFields::start(seen), version)->Going_0;
            let outcome = guideline_of(entries, None, seen, version);
            match (fields.x, fields.y, fields.angle) {
                (Some(x), None, None) => outcome matches Outcome::Built(guideline)
                    && guideline.line == LineView::Vertical(x),
                (None, Some(y), None) => outcome matches Outcome::Built(guideline)
                    && guideline.line == LineView::Horizontal(y),
                (Some(x), Some(y), Some(degrees)) => outcome matches Outcome::Built(guideline)
                    && guideline.line == (LineView::Angle { x, y, degrees }),
                _ => outcome == Outcome::<crate::glyph::GuidelineView>::Flawed(
                    Flaw::InvalidGuideline,
                ),
            }
        }),
{
}

/// Nothing but comments, the XML declaration and text has come so far.
pub open spec fn at_start(xml: Seq<u8>, readings: Seq<Reading>) -> bool {
    replay(xml, readings) == Verdict::Continue(StateView::Start)
}

/// `token` is an opening or self-closing tag whose name is not `glyph`.
pub open spec fn opens_another_element(token: Token) -> bool {
    match token {
        Token::Start(name) | Token::Empty(name) => name != ElementName::Glyph,
        _ => false,
    }
}

/// The first element must be `glyph`: a document whose first tag has another
/// name is rejected with `WrongFirstElement`.
pub proof fn law_first_element_is_glyph(xml: Seq<u8>, readings: Seq<Reading>, reading: Reading)
    requires
        at_start(xml, readings),
        reading.event matches Ok(token) && opens_another_element(token),
    ensures
        replay(xml, readings.push(reading)) == Verdict::Reject(
            Failure::Broken(Flaw::WrongFirstElement),
        ),
{
    assert(readings.push(reading).drop_last() =~= readings);
}

/// After the closing `glyph` tag only comments and the XML declaration may
/// come before the document ends: anything else is rejected with
/// `TrailingData`. Where the document ends, the glyph is handed out.
pub proof fn law_nothing_follows_the_glyph(
    xml: Seq<u8>,
    readings: Seq<Reading>,
    reading: Reading,
    glyph: GlyphView,
)
    requires
        replay(xml, readings) == Verdict::Continue(StateView::Done(glyph)),
        reading.event is Ok,
    ensures
        replay(xml, readings.push(reading)) == match reading.event->Ok_0 {
            Token::Comment | Token::Decl => Verdict::Continue(StateView::Done(glyph)),
            Token::Eof => Verdict::Accept(glyph),
            _ => Verdict::Reject(Failure::Broken(Flaw::TrailingData)),
        },
{
    assert(readings.push(reading).drop_last() =~= readings);
}

/// A glyph is handed out as it stands when its element is closed: after the
/// closing `glyph` tag and the end of the document, the result is the glyph
/// that the turns before have built, with nothing added and nothing lost.
pub proof fn law_closed_glyph_is_handed_out(
    xml: Seq<u8>,
    readings: Seq<Reading>,
    close: Reading,
    end: Reading,
    partial: PartialView,
)
    requires
        replay(xml, readings) == Verdict::Continue(StateView::InGlyph(partial)),
        close.event == Ok::<Token, XmlError>(Token::End(ElementName::Glyph)),
        end.event == Ok::<Token, XmlError>(Token::Eof),
    ensures
        replay(xml, readings.push(close).push(end)) == Verdict::Accept(partial.glyph),
{
    assert(readings.push(close).drop_last() =~= readings);
    assert(readings.push(close).push(end).drop_last() =~= readings.push(close));
    assert(replay(xml, readings.push(close)) == Verdict::Continue(StateView::Done(partial.glyph)));
}

/// A document that ends before its `glyph` element is closed is rejected
/// with `UnexpectedEof`.
pub proof fn law_document_ends_after_the_glyph(
    xml: Seq<u8>,
    readings: Seq<Reading>,
    reading: Reading,
)
    requires
        replay(xml, readings) matches Verdict::Continue(state) && !(state is Done),
        reading.event == Ok::<Token, XmlError>(Token::Eof),
    ensures
        replay(xml, readings.push(reading)) == Verdict::Reject(Failure::Broken(Flaw::UnexpectedEof)),
{
    assert(readings.push(reading).drop_last() =~= readings);
}

/// Elements are taken into the glyph in the order of the document: what a
/// `unicode`, `anchor` or `guideline` tag describes comes last in its row,
/// and the rows are otherwise unchanged.
pub proof fn law_elements_keep_their_order(xml: Seq<u8>, partial: PartialView, reading: Reading)
    requires
        reading.event is Ok,
        step(xml, StateView::InGlyph(partial), reading) is Continue,
    ensures
        ({
            let glyph = partial.glyph;
            let next = step(xml, StateView::InGlyph(partial), reading)->Continue_0;
            let after = match next {
                StateView::InGlyph(next) => next.glyph,
                StateView::Done(glyph) => glyph,
                StateView::Start => glyph,
            };
            let token = reading.event->Ok_0;
            &&& !(next is Start)
            &&& after.codepoints == if token == Token::Empty(ElementName::Unicode) {
                glyph.codepoints.push(after.codepoints.last())
            } else {
                glyph.codepoints
            }
            &&& after.anchors == if token == Token::Empty(ElementName::Anchor) {
                glyph.anchors.push(after.anchors.last())
            } else {
                glyph.anchors
            }
            &&& after.guidelines == if token == Token::Empty(ElementName::Guideline) {
                glyph.guidelines.push(after.guidelines.last())
            } else {
                glyph.guidelines
            }
        }),
{
    let glyph = partial.glyph;
    let verdict = step(xml, StateView::InGlyph(partial), reading);
    let token = reading.event->Ok_0;
    let action = action_for(Phase::InGlyph, StateView::InGlyph(partial).seen(), token);
    assert(verdict == match (action, StateView::InGlyph(partial)) {
        (Action::Skip, _) => Verdict::Continue(StateView::InGlyph(partial)),
        (Action::Close, _) => Verdict::Continue(StateView::Done(glyph)),
        (Action::ReadNote, _) | (Action::ReadLib, _) => verdict,
        (action, state) => built(state, action, reading.entries, reading.failure),
    });
    if token == Token::Empty(ElementName::Unicode) {
        let after = verdict->Continue_0->InGlyph_0.glyph;
        assert(after.codepoints.last() == after.codepoints[glyph.codepoints.len() as int]);
    }
    if token == Token::Empty(ElementName::Anchor) {
        let after = verdict->Continue_0->InGlyph_0.glyph;
        assert(after.anchors.last() == after.anchors[glyph.anchors.len() as int]);
    }
    if token == Token::Empty(ElementName::Guideline) {
        let after = verdict->Continue_0->InGlyph_0.glyph;
        assert(after.guidelines.last() == after.guidelines[glyph.guidelines.len() as int]);
    }
}

/// The angle that a guideline ends up with lies between 0 and 360.
pub proof fn lemma_guideline_scan_angle(
    entries: Seq<AttributeView>,
    fields: GuidelineFields,
    version: GlifVersion,
)
    requires
        fields.angle matches Some(degrees) ==> in_full_turn(degrees),
    ensures
        guideline_scan(entries, fields, version) matches Scan::Going(end) ==> (
        end.angle matches Some(degrees) ==> in_full_turn(degrees)),
    decreases entries.len(),
{
    if entries.len() > 0 {
        match guideline_step(fields, entries.first(), version) {
            Scan::Going(next) => {
                lemma_guideline_scan_angle(entries.drop_first(), next, version);
            },
            Scan::Stopped(_) => {},
        }
    }
}

/// Every turn of the driver leaves a well-formed glyph well formed: it has
/// a name, no two of its anchors and guidelines share an identifier, under
/// version 1 of the format it has no identifiers, and the angles of its
/// guidelines lie between 0 and 360.
pub proof fn law_turns_keep_glyphs_well_formed(xml: Seq<u8>, state: StateView, reading: Reading)
    requires
        state.well_formed(),
    ensures
        step(xml, state, reading).well_formed(),
{
    let entries = reading.entries;
    let failure = reading.failure;
    if let Ok(token) = reading.event {
        let action = action_for(state.phase(), state.seen(), token);
        if action == Action::BuildHeader {
            if let Outcome::Built(glyph) = header_of(entries, failure) {
                lemma_named_glyph(glyph.name, glyph.format, glyph.format_minor);
            }
        } else if let StateView::InGlyph(partial) = state {
            let seen = partial.identifiers;
            let version = partial.glyph.format;
            let glyph = partial.glyph;
            match action {
                Action::BuildAnchor => {
                    if let Outcome::Built(anchor) = anchor_of(entries, failure, seen, version) {
                        lemma_anchor_scan_records(entries, AnchorFields::start(seen), version);
                        lemma_pushed_anchor(
                            partial,
                            anchor,
                            seen_after_anchor(entries, seen, version),
                        );
                    }
                },
                Action::BuildGuideline => {
                    if let Outcome::Built(guideline) = guideline_of(entries, failure, seen, version) {
                        lemma_guideline_scan_records(
                            entries,
                            GuidelineFields::start(seen),
                            version,
                        );
                        lemma_guideline_scan_angle(entries, GuidelineFields::start(seen), version);
                        lemma_pushed_guideline(
                            partial,
                            guideline,
                            seen_after_guideline(entries, seen, version),
                        );
                    }
                },
                _ => {
                    if let Verdict::Continue(StateView::InGlyph(next)) = step(xml, state, reading) {
                        assert(next.glyph.anchors == glyph.anchors);
                        assert(next.glyph.guidelines == glyph.guidelines);
                        assert(next.glyph.identifiers() =~= glyph.identifiers());
                    }
                },
            }
        }
    }
}

/// Whatever the tokenizer gives, a glyph that the parse holds or hands out
/// is well formed.
pub proof fn law_parsed_glyphs_are_well_formed(xml: Seq<u8>, readings: Seq<Reading>)
    ensures
        replay(xml, readings).well_formed(),
    decreases readings.len(),
{
    if readings.len() > 0 {
        law_parsed_glyphs_are_well_formed(xml, readings.drop_last());
        if let Verdict::Continue(state) = replay(xml, readings.drop_last()) {
            law_turns_keep_glyphs_well_formed(xml, state, readings.last());
        }
    }
}

/// What the tokenizer gives, turn by turn, in the parse from `state` on
/// with the tokenizer at `reader`, for at most `turns` turns.
pub open spec fn readings_from(
    xml: Seq<u8>,
    reader: XmlReader<'_>,
    state: StateView,
    turns: nat,
) -> Seq<Reading>
    decreases turns,
{
    if turns == 0 {
        Seq::empty()
    } else {
        match step(xml, state, reading_at(reader)) {
            Verdict::Continue(next) => seq![reading_at(reader)] + readings_from(
                xml,
                reader_after(reader, state),
                next,
                (turns - 1) as nat,
            ),
            _ => seq![reading_at(reader)],
        }
    }
}

/// What the tokenizer gives, turn by turn, in the parse of the document `xml`.
pub open spec fn readings_of(xml: Seq<u8>) -> Seq<Reading> {
    readings_from(xml, opened(xml), StateView::Start, events_left(opened(xml)) + 1)
}

/// The parse that stands at `verdict`, taken on through `readings`.
pub open spec fn replay_on(xml: Seq<u8>, verdict: Verdict, readings: Seq<Reading>) -> Verdict
    decreases readings.len(),
{
    if readings.len() == 0 {
        verdict
    } else {
        match verdict {
            Verdict::Continue(state) => replay_on(
                xml,
                step(xml, state, readings.first()),
                readings.drop_first(),
            ),
            _ => verdict,
        }
    }
}

/// Taking a parse on through readings and one more is taking it on through
/// the readings and then taking one turn.
pub proof fn lemma_replay_on_last(
    xml: Seq<u8>,
    verdict: Verdict,
    readings: Seq<Reading>,
    last: Reading,
)
    ensures
        replay_on(xml, verdict, readings.push(last)) == match replay_on(xml, verdict, readings) {
            Verdict::Continue(state) => step(xml, state, last),
            end => end,
        },
    decreases readings.len(),
{
    let longer = readings.push(last);
    if readings.len() == 0 {
        assert(longer.drop_first() =~= Seq::<Reading>::empty());
        if let Verdict::Continue(state) = verdict {
            assert(replay_on(xml, step(xml, state, last), longer.drop_first()) == step(
                xml,
                state,
                last,
            ));
        }
    } else {
        assert(longer.first() == readings.first());
        assert(longer.drop_first() =~= readings.drop_first().push(last));
        if let Verdict::Continue(state) = verdict {
            lemma_replay_on_last(
                xml,
                step(xml, state, readings.first()),
                readings.drop_first(),
                last,
            );
        }
    }
}

/// The replay of readings is the parse at its start, taken on through them.
pub proof fn lemma_replay_from_the_start(xml: Seq<u8>, readings: Seq<Reading>)
    ensures
        replay(xml, readings) == replay_on(xml, Verdict::Continue(StateView::Start), readings),
    decreases readings.len(),
{
    if readings.len() > 0 {
        lemma_replay_from_the_start(xml, readings.drop_last());
        lemma_replay_on_last(
            xml,
            Verdict::Continue(StateView::Start),
            readings.drop_last(),
            readings.last(),
        );
        assert(readings.drop_last().push(readings.last()) =~= readings);
    }
}

/// A parse with the tokenizer is the parse taken on through what the
/// tokenizer gives.
pub proof fn lemma_run_replays_its_readings(
    xml: Seq<u8>,
    reader: XmlReader<'_>,
    state: StateView,
    turns: nat,
)
    ensures
        run(xml, reader, state, turns) == replay_on(
            xml,
            Verdict::Continue(state),
            readings_from(xml, reader, state, turns),
        ),
    decreases turns,
{
    if turns > 0 {
        let reading = reading_at(reader);
        let readings = readings_from(xml, reader, state, turns);
        assert(readings.first() == reading);
        match step(xml, state, reading) {
            Verdict::Continue(next) => {
                let rest = readings_from(xml, reader_after(reader, state), next, (turns - 1) as nat);
                assert(readings.drop_first() =~= rest);
                lemma_run_replays_its_readings(
                    xml,
                    reader_after(reader, state),
                    next,
                    (turns - 1) as nat,
                );
            },
            end => {
                assert(readings.drop_first() =~= Seq::<Reading>::empty());
                assert(replay_on(xml, end, readings.drop_first()) == end);
            },
        }
    }
}

/// The parse of a document is the replay of what the tokenizer gives on it:
/// whatever holds of every replay holds of every parse.
pub proof fn law_parse_is_a_replay(xml: Seq<u8>)
    ensures
        parse_of(xml) == replay(xml, readings_of(xml)),
{
    lemma_run_replays_its_readings(
        xml,
        opened(xml),
        StateView::Start,
        events_left(opened(xml)) + 1,
    );
    lemma_replay_from_the_start(xml, readings_of(xml));
}

/// The glyph that the parse of a document hands out is well formed.
pub proof fn law_parse_hands_out_well_formed_glyphs(xml: Seq<u8>)
    ensures
        parse_of(xml).well_formed(),
{
    law_parse_is_a_replay(xml);
    law_parsed_glyphs_are_well_formed(xml, readings_of(xml));
}

/// Parsing is a function of the document: two parses of the same bytes end
/// alike, in the same glyph or in the same failure.
pub proof fn law_same_document_same_outcome(
    xml: Seq<u8>,
    first: Result<Glyph, Error>,
    second: Result<Glyph, Error>,
)
    requires
        fulfils(first, parse_of(xml)),
        fulfils(second, parse_of(xml)),
    ensures
        first is Ok <==> second is Ok,
        first matches Ok(glyph) ==> glyph@ == second->Ok_0@,
        first matches Err(error) ==> error@ == second->Err_0@,
{
}

/// A row of digits that ends where `text` ends or where another character
/// stands is a run of digits.
pub proof fn lemma_run_of_digits(text: Seq<char>, from: int, to: int)
    requires
        0 <= from <= to <= text.len(),
        forall|i: int| from <= i < to ==> is_digit(#[trigger] text[i]),
        to < text.len() ==> !is_digit(text[to]),
    ensures
        digit_run(text, from) == to - from,
    decreases to - from,
{
    if from < to {
        lemma_run_of_digits(text, from + 1, to);
    }
}

/// A whole number without a sign lies in the full turn exactly if it is at
/// most 360; with a minus sign, exactly if it is 0.
pub proof fn law_whole_numbers_in_full_turn(digits: Seq<char>)
    requires
        digits.len() > 0,
        all_digits(digits),
    ensures
        in_full_turn(digits) <==> digits_value(digits) <= 360,
        in_full_turn(seq!['-'] + digits) <==> digits_value(digits) == 0,
{
    let len = digits.len() as int;
    lemma_run_of_digits(digits, 0, len);
    assert(sign_len(digits, 0) == 0);
    assert(int_end(digits) == len);
    assert(!has_point(digits));
    assert(mantissa(digits) =~= digits);
    assert(scale_at(digits, len) == Some(0int));
    assert(pow10(0) == 1);
    assert(frac_start(digits) == len && frac_len(digits) == 0);
    assert(decimal_of(digits) is Some);
    assert(decimal_of(digits)->0.exponent == 0);
    assert(!decimal_of(digits)->0.negative);
    assert(digits_value(digits) * pow10(0) == digits_value(digits));
    let negative = seq!['-'] + digits;
    assert forall|i: int| 1 <= i < len + 1 implies is_digit(#[trigger] negative[i]) by {
        assert(negative[i] == digits[i - 1]);
    }
    lemma_run_of_digits(negative, 1, len + 1);
    assert(sign_len(negative, 0) == 1);
    assert(int_end(negative) == len + 1);
    assert(!has_point(negative));
    assert(mantissa(negative) =~= digits);
    assert(scale_at(negative, len + 1) == Some(0int));
}

/// A number with digits before and after a point lies in the full turn
/// exactly if the part before the point is below 360, or is 360 with
/// nothing but zeros after the point.
pub proof fn law_fractions_in_full_turn(whole: Seq<char>, fraction: Seq<char>)
    requires
        whole.len() > 0,
        all_digits(whole),
        all_digits(fraction),
    ensures
        in_full_turn(whole + seq!['.'] + fraction) <==> digits_value(whole) < 360 || (
        digits_value(whole) == 360 && digits_value(fraction) == 0),
{
    let text = whole + seq!['.'] + fraction;
    let point = whole.len() as int;
    let len = text.len() as int;
    assert forall|i: int| 0 <= i < point implies is_digit(#[trigger] text[i]) by {
        assert(text[i] == whole[i]);
    }
    assert(text[point] == '.');
    lemma_run_of_digits(text, 0, point);
    assert forall|i: int| point + 1 <= i < len implies is_digit(#[trigger] text[i]) by {
        assert(text[i] == fraction[i - point - 1]);
    }
    lemma_run_of_digits(text, point + 1, len);
    assert(sign_len(text, 0) == 0);
    assert(int_end(text) == point);
    assert(has_point(text));
    assert(frac_start(text) == point + 1);
    assert(frac_len(text) == fraction.len());
    assert(text.subrange(0, point) =~= whole);
    assert(text.subrange(point + 1, len) =~= fraction);
    assert(mantissa(text) =~= whole + fraction);
    assert(scale_at(text, len) == Some(0int));
    let decimal = decimal_of(text)->0;
    assert(decimal.exponent == -fraction.len());
    lemma_value_of_joined(whole, fraction);
    lemma_pow10_positive(fraction.len());
    let high = digits_value(whole);
    let low = digits_value(fraction);
    let unit = pow10(fraction.len());
    if fraction.len() == 0 {
        assert(low == 0);
        assert(unit == 1);
    } else {
        lemma_value_below_power(fraction);
        if high < 360 {
            assert(high * unit + low <= 360 * unit) by (nonlinear_arith)
                requires
                    high <= 359,
                    low < unit,
            ;
        } else if high > 360 {
            assert(high * unit + low > 360 * unit) by (nonlinear_arith)
                requires
                    high >= 361,
                    unit >= 1,
            ;
        }
    }
}

/// What a self-closing `unicode`, `anchor` or `guideline` tag adds to a
/// glyph.
pub enum Child {
    /// The scalar value of a character.
    Unicode(u32),
    Anchor(AnchorView),
    Guideline(GuidelineView),
}

/// What the builder of a tag makes of it, in a document of the given version
/// in which the identifiers `seen` were met before: nothing where the
/// reading is no self-closing `unicode`, `anchor` or `guideline` tag, or
/// where the tag breaks a rule.
pub open spec fn child_of(reading: Reading, seen: Set<Seq<char>>, version: GlifVersion) -> Option<
    Child,
> {
    if reading.event == Ok::<Token, XmlError>(Token::Empty(ElementName::Unicode)) {
        match unicode_of(reading.entries, reading.failure) {
            Outcome::Built(scalar) => Some(Child::Unicode(scalar)),
            _ => None,
        }
    } else if reading.event == Ok::<Token, XmlError>(Token::Empty(ElementName::Anchor)) {
        match anchor_of(reading.entries, reading.failure, seen, version) {
            Outcome::Built(anchor) => Some(Child::Anchor(anchor)),
            _ => None,
        }
    } else if reading.event == Ok::<Token, XmlError>(Token::Empty(ElementName::Guideline)) {
        match guideline_of(reading.entries, reading.failure, seen, version) {
            Outcome::Built(guideline) => Some(Child::Guideline(guideline)),
            _ => None,
        }
    } else {
        None
    }
}

/// The identifiers met once the tag is read.
pub open spec fn seen_after_child(
    reading: Reading,
    seen: Set<Seq<char>>,
    version: GlifVersion,
) -> Set<Seq<char>> {
    if reading.event == Ok::<Token, XmlError>(Token::Empty(ElementName::Anchor)) {
        seen_after_anchor(reading.entries, seen, version)
    } else if reading.event == Ok::<Token, XmlError>(Token::Empty(ElementName::Guideline)) {
        seen_after_guideline(reading.entries, seen, version)
    } else {
        seen
    }
}

/// What a row of tags adds to a glyph, tag by tag in their order, each tag
/// built with the identifiers met before it: nothing where one of them is no
/// self-closing `unicode`, `anchor` or `guideline` tag or breaks a rule.
pub open spec fn children_of(
    readings: Seq<Reading>,
    seen: Set<Seq<char>>,
    version: GlifVersion,
) -> Option<Seq<Child>>
    decreases readings.len(),
{
    if readings.len() == 0 {
        Some(Seq::empty())
    } else {
        match (
            child_of(readings.first(), seen, version),
            children_of(
                readings.drop_first(),
                seen_after_child(readings.first(), seen, version),
                version,
            ),
        ) {
            (Some(child), Some(rest)) => Some(seq![child] + rest),
            _ => None,
        }
    }
}

/// The identifiers met once a row of tags is read.
pub open spec fn seen_after_children(
    readings: Seq<Reading>,
    seen: Set<Seq<char>>,
    version: GlifVersion,
) -> Set<Seq<char>>
    decreases readings.len(),
{
    if readings.len() == 0 {
        seen
    } else {
        seen_after_children(
            readings.drop_first(),
            seen_after_child(readings.first(), seen, version),
            version,
        )
    }
}

/// The characters among the children, in their order.
pub open spec fn codepoints_among(children: Seq<Child>) -> Seq<u32>
    decreases children.len(),
{
    if children.len() == 0 {
        Seq::empty()
    } else {
        match children.first() {
            Child::Unicode(scalar) => seq![scalar] + codepoints_among(children.drop_first()),
            _ => codepoints_among(children.drop_first()),
        }
    }
}

/// The anchors among the children, in their order.
pub open spec fn anchors_among(children: Seq<Child>) -> Seq<AnchorView>
    decreases children.len(),
{
    if children.len() == 0 {
        Seq::empty()
    } else {
        match children.first() {
            Child::Anchor(anchor) => seq![anchor] + anchors_among(children.drop_first()),
            _ => anchors_among(children.drop_first()),
        }
    }
}

/// The guidelines among the children, in their order.
pub open spec fn guidelines_among(children: Seq<Child>) -> Seq<GuidelineView>
    decreases children.len(),
{
    if children.len() == 0 {
        Seq::empty()
    } else {
        match children.first() {
            Child::Guideline(guideline) => seq![guideline] + guidelines_among(
                children.drop_first(),
            ),
            _ => guidelines_among(children.drop_first()),
        }
    }
}

/// `glyph` with the children taken into it, each kind after those of its
/// kind that the glyph has.
pub open spec fn with_children(glyph: GlyphView, children: Seq<Child>) -> GlyphView {
    GlyphView {
        codepoints: glyph.codepoints + codepoints_among(children),
        anchors: glyph.anchors + anchors_among(children),
        guidelines: glyph.guidelines + guidelines_among(children),
        ..glyph
    }
}

/// Taking a parse on through one row of readings and then another is taking
/// it on through both.
pub proof fn lemma_replay_on_joined(
    xml: Seq<u8>,
    verdict: Verdict,
    first: Seq<Reading>,
    second: Seq<Reading>,
)
    ensures
        replay_on(xml, verdict, first + second) == replay_on(
            xml,
            replay_on(xml, verdict, first),
            second,
        ),
    decreases first.len(),
{
    if first.len() == 0 {
        assert(first + second =~= second);
    } else {
        assert((first + second).first() == first.first());
        assert((first + second).drop_first() =~= first.drop_first() + second);
        match verdict {
            Verdict::Continue(state) => {
                lemma_replay_on_joined(
                    xml,
                    step(xml, state, first.first()),
                    first.drop_first(),
                    second,
                );
            },
            _ => {
                lemma_replay_on_stays(xml, verdict, second);
            },
        }
    }
}

/// A parse that has ended stays as it ended.
pub proof fn lemma_replay_on_stays(xml: Seq<u8>, verdict: Verdict, readings: Seq<Reading>)
    requires
        !(verdict is Continue),
    ensures
        replay_on(xml, verdict, readings) == verdict,
{
}

/// Inside the glyph, a row of valid `unicode`, `anchor` and `guideline` tags
/// is taken into the glyph whole and in its order.
pub proof fn lemma_children_are_taken(xml: Seq<u8>, partial: PartialView, readings: Seq<Reading>)
    requires
        children_of(readings, partial.identifiers, partial.glyph.format) is Some,
    ensures
        replay_on(xml, Verdict::Continue(StateView::InGlyph(partial)), readings)
            == Verdict::Continue(
            StateView::InGlyph(
                PartialView {
                    glyph: with_children(
                        partial.glyph,
                        children_of(readings, partial.identifiers, partial.glyph.format)->0,
                    ),
                    identifiers: seen_after_children(
                        readings,
                        partial.identifiers,
                        partial.glyph.format,
                    ),
                    ..partial
                },
            ),
        ),
    decreases readings.len(),
{
    let glyph = partial.glyph;
    let seen = partial.identifiers;
    let version = glyph.format;
    let children = children_of(readings, seen, version)->0;
    if readings.len() == 0 {
        assert(with_children(glyph, children).codepoints =~= glyph.codepoints);
        assert(with_children(glyph, children).anchors =~= glyph.anchors);
        assert(with_children(glyph, children).guidelines =~= glyph.guidelines);
        assert(with_children(glyph, children) == glyph);
    } else {
        let reading = readings.first();
        let child = child_of(reading, seen, version)->0;
        let rest = children_of(readings.drop_first(), seen_after_child(reading, seen, version), version)->0;
        assert(children == seq![child] + rest);
        assert(children.first() == child);
        assert(children.drop_first() =~= rest);
        let verdict = step(xml, StateView::InGlyph(partial), reading);
        let next = match child {
            Child::Unicode(scalar) => partial.with_codepoint(scalar),
            Child::Anchor(anchor) => partial.with_anchor(
                anchor,
                seen_after_anchor(reading.entries, seen, version),
            ),
            Child::Guideline(guideline) => partial.with_guideline(
                guideline,
                seen_after_guideline(reading.entries, seen, version),
            ),
        };
        assert(verdict == Verdict::Continue(StateView::InGlyph(next)));
        lemma_children_are_taken(xml, next, readings.drop_first());
        let end = with_children(next.glyph, rest);
        let whole = with_children(glyph, children);
        assert(end.codepoints =~= whole.codepoints);
        assert(end.anchors =~= whole.anchors);
        assert(end.guidelines =~= whole.guidelines);
        assert(end == whole);
    }
}

/// A glyph whose children are valid `unicode`, `anchor` and `guideline`
/// tags is accepted with all of them, in the order of the document.
///
/// The document is an opening `glyph` tag with valid attributes, then
/// self-closing `unicode`, `anchor` and `guideline` tags, each of which its
/// builder accepts with the identifiers met before it, then the closing
/// `glyph` tag and the end of the document. The result is the glyph that the
/// opening tag describes, with one entry for each tag: the characters, the
/// anchors and the guidelines each in the order of their tags, characters
/// that come twice kept twice, and each entry what its builder makes of the
/// attributes of its tag.
pub proof fn law_glyph_of_valid_children(
    xml: Seq<u8>,
    header: Reading,
    children: Seq<Reading>,
    close: Reading,
    end: Reading,
)
    requires
        header.event == Ok::<Token, XmlError>(Token::Start(ElementName::Glyph)),
        header_of(header.entries, header.failure) is Built,
        children_of(
            children,
            Set::empty(),
            header_of(header.entries, header.failure)->Built_0.format,
        ) is Some,
        close.event == Ok::<Token, XmlError>(Token::End(ElementName::Glyph)),
        end.event == Ok::<Token, XmlError>(Token::Eof),
    ensures
        ({
            let glyph = header_of(header.entries, header.failure)->Built_0;
            let taken = children_of(children, Set::empty(), glyph.format)->0;
            let result = replay(xml, seq![header] + children + seq![close, end]);
            &&& result matches Verdict::Accept(parsed)
            &&& parsed == GlyphView {
                codepoints: codepoints_among(taken),
                anchors: anchors_among(taken),
                guidelines: guidelines_among(taken),
                ..glyph
            }
            &&& parsed.name == glyph.name && parsed.name.len() > 0
        }),
{
    let glyph = header_of(header.entries, header.failure)->Built_0;
    let taken = children_of(children, Set::empty(), glyph.format)->0;
    let start = Verdict::Continue(StateView::Start);
    let partial = PartialView::started(glyph);
    let readings = seq![header] + children + seq![close, end];
    lemma_replay_from_the_start(xml, readings);
    assert(readings =~= seq![header] + (children + seq![close, end]));
    lemma_replay_on_joined(xml, start, seq![header], children + seq![close, end]);
    lemma_replay_on_last(xml, start, Seq::empty(), header);
    assert(Seq::<Reading>::empty().push(header) =~= seq![header]);
    assert(replay_on(xml, start, seq![header]) == step(xml, StateView::Start, header));
    assert(step(xml, StateView::Start, header) == Verdict::Continue(StateView::InGlyph(partial)));
    let inside = Verdict::Continue(StateView::InGlyph(partial));
    lemma_replay_on_joined(xml, inside, children, seq![close, end]);
    lemma_children_are_taken(xml, partial, children);
    let full = PartialView {
        glyph: with_children(glyph, taken),
        identifiers: seen_after_children(children, Set::empty(), glyph.format),
        ..partial
    };
    assert(replay_on(xml, inside, children) == Verdict::Continue(StateView::InGlyph(full)));
    let tail = seq![close, end];
    let filled = Verdict::Continue(StateView::InGlyph(full));
    lemma_replay_on_last(xml, filled, Seq::empty(), close);
    assert(Seq::<Reading>::empty().push(close) =~= seq![close]);
    lemma_replay_on_last(xml, filled, seq![close], end);
    assert(seq![close].push(end) =~= tail);
    assert(step(xml, StateView::InGlyph(full), close) == Verdict::Continue(
        StateView::Done(full.glyph),
    ));
    assert(step(xml, StateView::Done(full.glyph), end) == Verdict::Accept(full.glyph));
    assert(replay_on(xml, Verdict::Continue(StateView::InGlyph(full)), tail) == Verdict::Accept(
        full.glyph,
    ));
    assert(glyph.codepoints =~= Seq::<u32>::empty());
    assert(glyph.anchors =~= Seq::<AnchorView>::empty());
    assert(glyph.guidelines =~= Seq::<GuidelineView>::empty());
    assert(full.glyph.codepoints =~= codepoints_among(taken));
    assert(full.glyph.anchors =~= anchors_among(taken));
    assert(full.glyph.guidelines =~= guidelines_among(taken));
}

/// Reading the attributes of an `anchor` tag goes the same way where more
/// identifiers were met before, as long as the tag names none of them.
pub proof fn lemma_anchor_scan_with_more_seen(
    entries: Seq<AttributeView>,
    fields: AnchorFields,
    more: Set<Seq<char>>,
    version: GlifVersion,
)
    requires
        anchor_scan(entries, fields, version) is Going,
        more.disjoint(anchor_seen(entries, fields, version)),
    ensures
        ({
            let end = anchor_scan(entries, fields, version)->Going_0;
            anchor_scan(entries, AnchorFields { seen: fields.seen + more, ..fields }, version)
                == Scan::Going(AnchorFields { seen: end.seen + more, ..end })
        }),
    decreases entries.len(),
{
    let wider = AnchorFields { seen: fields.seen + more, ..fields };
    if entries.len() > 0 {
        let attribute = entries.first();
        let next = anchor_step(fields, attribute, version)->Going_0;
        lemma_anchor_scan_records(entries.drop_first(), next, version);
        let end = anchor_scan(entries, fields, version)->Going_0;
        assert(anchor_seen(entries, fields, version) == end.seen);
        let wider_next = AnchorFields { seen: next.seen + more, ..next };
        if attribute_named(attribute.key) == AttributeName::Identifier {
            assert(next.seen.contains(attribute.value));
            assert(end.seen.contains(attribute.value));
            assert(!more.contains(attribute.value));
            assert((fields.seen + more).insert(attribute.value) =~= next.seen + more);
        }
        assert(anchor_step(wider, attribute, version) == Scan::Going(wider_next));
        lemma_anchor_scan_with_more_seen(entries.drop_first(), next, more, version);
    }
}

/// Reading the attributes of a `guideline` tag goes the same way where more
/// identifiers were met before, as long as the tag names none of them.
pub proof fn lemma_guideline_scan_with_more_seen(
    entries: Seq<AttributeView>,
    fields: GuidelineFields,
    more: Set<Seq<char>>,
    version: GlifVersion,
)
    requires
        guideline_scan(entries, fields, version) is Going,
        more.disjoint(guideline_seen(entries, fields, version)),
    ensures
        ({
            let end = guideline_scan(entries, fields, version)->Going_0;
            guideline_scan(entries, GuidelineFields { seen: fields.seen + more, ..fields }, version)
                == Scan::Going(GuidelineFields { seen: end.seen + more, ..end })
        }),
    decreases entries.len(),
{
    let wider = GuidelineFields { seen: fields.seen + more, ..fields };
    if entries.len() > 0 {
        let attribute = entries.first();
        let next = guideline_step(fields, attribute, version)->Going_0;
        lemma_guideline_scan_records(entries.drop_first(), next, version);
        let end = guideline_scan(entries, fields, version)->Going_0;
        assert(guideline_seen(entries, fields, version) == end.seen);
        let wider_next = GuidelineFields { seen: next.seen + more, ..next };
        if attribute_named(attribute.key) == AttributeName::Identifier {
            assert(next.seen.contains(attribute.value));
            assert(end.seen.contains(attribute.value));
            assert(!more.contains(attribute.value));
            assert((fields.seen + more).insert(attribute.value) =~= next.seen + more);
        }
        assert(guideline_step(wider, attribute, version) == Scan::Going(wider_next));
        lemma_guideline_scan_with_more_seen(entries.drop_first(), next, more, version);
    }
}

/// An anchor or a guideline that is valid on its own is valid in any
/// document that has not met its identifier: the builder makes the same of
/// it, and the identifiers met afterwards are those met before and its own.
pub proof fn law_valid_element_with_new_identifier_is_built(
    entries: Seq<AttributeView>,
    failure: Option<XmlError>,
    seen: Set<Seq<char>>,
    version: GlifVersion,
)
    ensures
        anchor_of(entries, failure, Set::empty(), version) is Built && seen.disjoint(
            seen_after_anchor(entries, Set::empty(), version),
        ) ==> {
            &&& anchor_of(entries, failure, seen, version) == anchor_of(
                entries,
                failure,
                Set::empty(),
                version,
            )
            &&& seen_after_anchor(entries, seen, version) == seen + seen_after_anchor(
                entries,
                Set::empty(),
                version,
            )
        },
        guideline_of(entries, failure, Set::empty(), version) is Built && seen.disjoint(
            seen_after_guideline(entries, Set::empty(), version),
        ) ==> {
            &&& guideline_of(entries, failure, seen, version) == guideline_of(
                entries,
                failure,
                Set::empty(),
                version,
            )
            &&& seen_after_guideline(entries, seen, version) == seen + seen_after_guideline(
                entries,
                Set::empty(),
                version,
            )
        },
{
    let none = Set::<Seq<char>>::empty();
    if anchor_of(entries, failure, none, version) is Built && seen.disjoint(
        seen_after_anchor(entries, none, version),
    ) {
        let start = AnchorFields::start(none);
        lemma_anchor_scan_with_more_seen(entries, start, seen, version);
        lemma_anchor_scan_records(entries, start, version);
        assert(none + seen =~= seen);
        assert(AnchorFields { seen: start.seen + seen, ..start } == AnchorFields::start(seen));
        let end = anchor_scan(entries, start, version)->Going_0;
        lemma_anchor_scan_records(entries, AnchorFields::start(seen), version);
        assert(end.seen + seen =~= seen + end.seen);
    }
    if guideline_of(entries, failure, none, version) is Built && seen.disjoint(
        seen_after_guideline(entries, none, version),
    ) {
        let start = GuidelineFields::start(none);
        lemma_guideline_scan_with_more_seen(entries, start, seen, version);
        lemma_guideline_scan_records(entries, start, version);
        assert(none + seen =~= seen);
        assert(GuidelineFields { seen: start.seen + seen, ..start } == GuidelineFields::start(seen));
        let end = guideline_scan(entries, start, version)->Going_0;
        lemma_guideline_scan_records(entries, GuidelineFields::start(seen), version);
        assert(end.seen + seen =~= seen + end.seen);
    }
}

} // verus!
