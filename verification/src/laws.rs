//! What holds of the decoding engine over whole frames and over runs of
//! events: which definition of a template takes precedence, that no frame
//! is skipped, and that nothing is dropped in silence.

use vstd::prelude::*;
use crate::bytes::u16_at;
use crate::diagnostics::{bump, note_of, Diagnostic, Diagnostics, Note};
use crate::engine::{
    after_set, set_framed, sets_from, templates_from, DecoderEventView, EngineView, Progress,
    Taken,
};
use crate::message::{RecordView, TemplateOp, TemplateUpdateView};
use crate::template::{
    apply_all, lemma_apply_all_concat, lemma_apply_all_prepend, lemma_last_update_wins, touches,
    TableView,
};
use crate::wire::{
    header_consistent, header_of, is_template_set, lemma_template_record_advances,
    template_record_at, MessageHeader, HEADER_LENGTH, SET_HEADER_LENGTH,
};

verus! {

/// The count of frames taken after `more` frames: `count` plus `more`, held
/// at the largest 64-bit value.
pub open spec fn counted(count: u64, more: nat) -> u64 {
    if count + more <= u64::MAX {
        (count + more) as u64
    } else {
        u64::MAX
    }
}

/// The walk of a frame's sets leaves the count of frames alone, and keeps
/// the records and the notes that were there before it.
pub proof fn lemma_walk_keeps_what_was_there(
    progress: Progress,
    header: MessageHeader,
    buf: Seq<u8>,
    pos: int,
)
    ensures
        sets_from(progress, header, buf, pos).diagnostics.frames_received
            == progress.diagnostics.frames_received,
        progress.records.is_prefix_of(sets_from(progress, header, buf, pos).records),
        progress.notes.is_prefix_of(sets_from(progress, header, buf, pos).notes),
    decreases buf.len() - pos,
{
    if pos < buf.len() && set_framed(buf, pos) {
        let next = after_set(
            progress,
            header,
            buf,
            u16_at(buf, pos),
            pos + SET_HEADER_LENGTH,
            pos + u16_at(buf, pos + 2),
        );
        lemma_walk_keeps_what_was_there(next, header, buf, pos + u16_at(buf, pos + 2));
    }
}

/// Every frame is accounted for: it is counted, and it is either dropped
/// whole, which is noted and changes nothing else, or walked, which makes
/// its sequence number the last one seen of its observation domain.
pub proof fn lemma_frame_is_accounted(engine: EngineView, frame: Seq<u8>)
    ensures
        engine.after_frame(frame).engine.diagnostics.frames_received == bump(
            engine.diagnostics.frames_received,
        ),
        !header_consistent(frame) ==> engine.after_frame(frame) == (Taken {
            engine: EngineView {
                table: engine.table,
                last_sequence: engine.last_sequence,
                diagnostics: engine.diagnostics.receiving().noting(Diagnostic::FrameDropped),
            },
            records: Seq::empty(),
            notes: seq![note_of(Diagnostic::FrameDropped, 0, 0, 0, frame.len() as int)],
        }),
        header_consistent(frame) ==> engine.after_frame(frame).engine.last_sequence.contains_pair(
            header_of(frame).observation_domain,
            header_of(frame).sequence_number,
        ),
{
    if header_consistent(frame) {
        lemma_walk_keeps_what_was_there(
            engine.entering(frame),
            header_of(frame),
            frame,
            HEADER_LENGTH as int,
        );
    }
}

/// No frame is skipped: every frame of a sequence is taken, as the count of
/// frames shows, whatever the frames hold.
pub proof fn lemma_every_frame_is_taken(engine: EngineView, frames: Seq<Seq<u8>>)
    ensures
        engine.after_frames(frames).engine.diagnostics.frames_received == counted(
            engine.diagnostics.frames_received,
            frames.len(),
        ),
    decreases frames.len(),
{
    if frames.len() > 0 {
        lemma_every_frame_is_taken(engine, frames.drop_last());
        lemma_frame_is_accounted(engine.after_frames(frames.drop_last()).engine, frames.last());
    }
}

/// Frames are taken in order: taking a sequence of frames and then another
/// is taking the two in one run, and the records and the notes come out in
/// that order.
pub proof fn lemma_frames_in_order(engine: EngineView, first: Seq<Seq<u8>>, second: Seq<Seq<u8>>)
    ensures
        engine.after_frames(first + second) == ({
            let head = engine.after_frames(first);
            let tail = head.engine.after_frames(second);
            Taken {
                engine: tail.engine,
                records: head.records + tail.records,
                notes: head.notes + tail.notes,
            }
        }),
    decreases second.len(),
{
    let head = engine.after_frames(first);
    if second.len() == 0 {
        assert(first + second =~= first);
        assert(head.records + Seq::<RecordView>::empty() =~= head.records);
        assert(head.notes + Seq::<Note>::empty() =~= head.notes);
    } else {
        lemma_frames_in_order(engine, first, second.drop_last());
        assert((first + second).drop_last() =~= first + second.drop_last());
        assert((first + second).last() == second.last());
        let middle = head.engine.after_frames(second.drop_last());
        let last = middle.engine.after_frame(second.last());
        assert(head.records + (middle.records + last.records) =~= (head.records + middle.records)
            + last.records);
        assert(head.notes + (middle.notes + last.notes) =~= (head.notes + middle.notes)
            + last.notes);
    }
}

/// A Data Set whose template is not in the table adds no record and does
/// not end the walk: it is noted, and the sets behind it are walked as they
/// would be without it.
pub proof fn lemma_unknown_template_is_skipped(
    progress: Progress,
    header: MessageHeader,
    buf: Seq<u8>,
    pos: int,
)
    requires
        0 <= pos < buf.len(),
        set_framed(buf, pos),
        !is_template_set(u16_at(buf, pos)),
        progress.table.lookup(header.observation_domain, u16_at(buf, pos)).is_none(),
    ensures
        ({
            let skipped = after_set(
                progress,
                header,
                buf,
                u16_at(buf, pos),
                pos + SET_HEADER_LENGTH,
                pos + u16_at(buf, pos + 2),
            );
            &&& skipped.records == progress.records
            &&& skipped.table == progress.table
            &&& skipped.diagnostics == progress.diagnostics.noting(Diagnostic::UnknownTemplate)
            &&& skipped.notes == progress.notes.push(
                note_of(
                    Diagnostic::UnknownTemplate,
                    header.observation_domain,
                    u16_at(buf, pos),
                    pos + SET_HEADER_LENGTH,
                    pos + u16_at(buf, pos + 2),
                ),
            )
            &&& sets_from(progress, header, buf, pos) == sets_from(
                skipped,
                header,
                buf,
                pos + u16_at(buf, pos + 2),
            )
        }),
{
}

/// A template record inside a frame is a definition like one that arrives
/// beside the frames: the table after the record is the table after the
/// `Define` update of the same key and fields.
pub proof fn lemma_in_band_record_is_define(
    table: TableView,
    buf: Seq<u8>,
    pos: int,
    end: int,
    domain: u32,
    set_id: u16,
)
    requires
        0 <= pos < end,
        template_record_at(buf, pos, end, set_id) is Some,
    ensures
        ({
            let record = template_record_at(buf, pos, end, set_id)->0;
            templates_from(table, buf, pos, end, domain, set_id) == templates_from(
                table.apply(
                    TemplateUpdateView {
                        template_id: record.0,
                        observation_domain: domain,
                        fields: record.1,
                        op: TemplateOp::Define,
                    },
                ),
                buf,
                record.2,
                end,
                domain,
                set_id,
            )
        }),
{
}

/// The definitions that the template records of the body `buf[pos..end]`
/// of a set of id `set_id` make, as updates in the order of the records.
pub open spec fn definitions_from(
    buf: Seq<u8>,
    pos: int,
    end: int,
    domain: u32,
    set_id: u16,
) -> Seq<TemplateUpdateView>
    decreases end - pos,
{
    if pos >= end {
        Seq::empty()
    } else {
        match template_record_at(buf, pos, end, set_id) {
            None => Seq::empty(),
            Some((id, fields, next)) => {
                proof {
                    lemma_template_record_advances(buf, pos, end, set_id);
                }
                seq![
                    TemplateUpdateView {
                        template_id: id,
                        observation_domain: domain,
                        fields,
                        op: TemplateOp::Define,
                    },
                ] + definitions_from(buf, next, end, domain, set_id)
            },
        }
    }
}

/// A Template Set changes the table as the `Define` updates of its template
/// records do, applied in the order of the records: a definition inside a
/// frame and one beside the frames take precedence alike, by the order in
/// which the engine takes them.
pub proof fn lemma_template_set_is_updates(
    table: TableView,
    buf: Seq<u8>,
    pos: int,
    end: int,
    domain: u32,
    set_id: u16,
)
    ensures
        templates_from(table, buf, pos, end, domain, set_id).0 == apply_all(
            table,
            definitions_from(buf, pos, end, domain, set_id),
        ),
    decreases end - pos,
{
    if pos < end {
        match template_record_at(buf, pos, end, set_id) {
            None => {},
            Some((id, fields, next)) => {
                lemma_template_record_advances(buf, pos, end, set_id);
                let first = TemplateUpdateView {
                    template_id: id,
                    observation_domain: domain,
                    fields,
                    op: TemplateOp::Define,
                };
                lemma_template_set_is_updates(table.apply(first), buf, next, end, domain, set_id);
                lemma_apply_all_prepend(
                    table,
                    first,
                    definitions_from(buf, next, end, domain, set_id),
                );
            },
        }
    }
}

/// After a withdrawal, a Data Set that refers to the withdrawn template is
/// not decoded: it adds no record and is noted as one of an unknown
/// template.
pub proof fn lemma_withdrawn_template_decodes_nothing(
    progress: Progress,
    header: MessageHeader,
    buf: Seq<u8>,
    id: u16,
    pos: int,
    end: int,
)
    requires
        !is_template_set(id),
    ensures
        ({
            let withdrawn = Progress {
                table: progress.table.withdraw(header.observation_domain, id),
                diagnostics: progress.diagnostics,
                records: progress.records,
                notes: progress.notes,
            };
            after_set(withdrawn, header, buf, id, pos, end) == withdrawn.noted(
                note_of(Diagnostic::UnknownTemplate, header.observation_domain, id, pos, end),
            )
        }),
{
}

/// The walk of a frame's sets counts what it notes, and nothing else.
pub proof fn lemma_walk_counts_its_notes(
    base: Diagnostics,
    progress: Progress,
    header: MessageHeader,
    buf: Seq<u8>,
    pos: int,
)
    requires
        progress.diagnostics == base.noting_all(progress.notes),
    ensures
        sets_from(progress, header, buf, pos).diagnostics == base.noting_all(
            sets_from(progress, header, buf, pos).notes,
        ),
    decreases buf.len() - pos,
{
    if pos < buf.len() {
        if set_framed(buf, pos) {
            let next = after_set(
                progress,
                header,
                buf,
                u16_at(buf, pos),
                pos + SET_HEADER_LENGTH,
                pos + u16_at(buf, pos + 2),
            );
            if next.notes != progress.notes {
                assert(next.notes.drop_last() =~= progress.notes);
            }
            lemma_walk_counts_its_notes(base, next, header, buf, pos + u16_at(buf, pos + 2));
        } else {
            let ended = sets_from(progress, header, buf, pos);
            assert(ended.notes.drop_last() =~= progress.notes);
        }
    }
}

/// Nothing is dropped in silence: the counts after a frame are the counts
/// before it with the frame counted and every note of the frame counted
/// once. What is counted has its note, and what is noted is counted.
pub proof fn lemma_counts_follow_the_notes(engine: EngineView, frame: Seq<u8>)
    ensures
        engine.after_frame(frame).engine.diagnostics == engine.diagnostics.receiving().noting_all(
            engine.after_frame(frame).notes,
        ),
{
    let base = engine.diagnostics.receiving();
    if header_consistent(frame) {
        let start = engine.entering(frame);
        if engine.regressed(header_of(frame)) {
            assert(start.notes.drop_last() =~= Seq::<Note>::empty());
        }
        assert(base.noting_all(Seq::<Note>::empty()) == base);
        lemma_walk_counts_its_notes(base, start, header_of(frame), frame, HEADER_LENGTH as int);
    } else {
        let notes = engine.after_frame(frame).notes;
        assert(notes.drop_last() =~= Seq::<Note>::empty());
        assert(base.noting_all(notes.drop_last()) == base);
    }
}

/// The definitions that the sets of `buf` from `pos` on make, as updates in
/// the order in which the walk of the sets meets them.
pub open spec fn set_definitions(buf: Seq<u8>, pos: int, domain: u32) -> Seq<TemplateUpdateView>
    decreases buf.len() - pos,
{
    if pos >= buf.len() || !set_framed(buf, pos) {
        Seq::empty()
    } else {
        (if is_template_set(u16_at(buf, pos)) {
            definitions_from(
                buf,
                pos + SET_HEADER_LENGTH,
                pos + u16_at(buf, pos + 2),
                domain,
                u16_at(buf, pos),
            )
        } else {
            Seq::empty()
        }) + set_definitions(buf, pos + u16_at(buf, pos + 2), domain)
    }
}

/// The updates that an event brings to the table: the update itself, or the
/// definitions inside the frame; a dropped frame and a closed input bring
/// none.
pub open spec fn event_updates(event: DecoderEventView) -> Seq<TemplateUpdateView> {
    match event {
        DecoderEventView::Template(update) => seq![update],
        DecoderEventView::Frame(frame) => if header_consistent(frame) {
            set_definitions(frame, HEADER_LENGTH as int, header_of(frame).observation_domain)
        } else {
            Seq::empty()
        },
        DecoderEventView::TemplatesClosed => Seq::empty(),
        DecoderEventView::FramesClosed => Seq::empty(),
    }
}

/// The updates that a run of events brings to the table, in the order in
/// which the engine takes them.
pub open spec fn history_updates(events: Seq<DecoderEventView>) -> Seq<TemplateUpdateView>
    decreases events.len(),
{
    if events.len() == 0 {
        Seq::empty()
    } else {
        history_updates(events.drop_last()) + event_updates(events.last())
    }
}

impl EngineView {
    /// The engine after the events of `events`, taken in order.
    pub open spec fn after_events(self, events: Seq<DecoderEventView>) -> EngineView
        decreases events.len(),
    {
        if events.len() == 0 {
            self
        } else {
            self.after_events(events.drop_last()).step(events.last()).engine
        }
    }
}

/// The walk of a frame's sets changes the table as the definitions inside
/// the sets do, applied in the order of the walk.
pub proof fn lemma_walk_is_updates(
    progress: Progress,
    header: MessageHeader,
    buf: Seq<u8>,
    pos: int,
)
    ensures
        sets_from(progress, header, buf, pos).table == apply_all(
            progress.table,
            set_definitions(buf, pos, header.observation_domain),
        ),
    decreases buf.len() - pos,
{
    if pos < buf.len() && set_framed(buf, pos) {
        let id = u16_at(buf, pos);
        let body = pos + SET_HEADER_LENGTH;
        let stop = pos + u16_at(buf, pos + 2);
        let next = after_set(progress, header, buf, id, body, stop);
        let here = if is_template_set(id) {
            definitions_from(buf, body, stop, header.observation_domain, id)
        } else {
            Seq::empty()
        };
        if is_template_set(id) {
            lemma_template_set_is_updates(
                progress.table,
                buf,
                body,
                stop,
                header.observation_domain,
                id,
            );
        }
        assert(next.table == apply_all(progress.table, here));
        lemma_walk_is_updates(next, header, buf, stop);
        lemma_apply_all_concat(
            progress.table,
            here,
            set_definitions(buf, stop, header.observation_domain),
        );
    }
}

/// An event changes the table as its updates do.
pub proof fn lemma_step_is_updates(engine: EngineView, event: DecoderEventView)
    ensures
        engine.step(event).engine.table == apply_all(engine.table, event_updates(event)),
{
    match event {
        DecoderEventView::Template(update) => {
            assert(seq![update].drop_last() =~= Seq::<TemplateUpdateView>::empty());
            assert(apply_all(engine.table, seq![update].drop_last()) == engine.table);
        },
        DecoderEventView::Frame(frame) => {
            if header_consistent(frame) {
                lemma_walk_is_updates(
                    engine.entering(frame),
                    header_of(frame),
                    frame,
                    HEADER_LENGTH as int,
                );
            }
        },
        DecoderEventView::TemplatesClosed => {},
        DecoderEventView::FramesClosed => {},
    }
}

/// After any run of events the table is the table before it with the
/// updates of the events applied in order, those beside the frames and
/// those inside the frames alike.
pub proof fn lemma_history_is_updates(engine: EngineView, events: Seq<DecoderEventView>)
    ensures
        engine.after_events(events).table == apply_all(engine.table, history_updates(events)),
    decreases events.len(),
{
    if events.len() > 0 {
        let before = engine.after_events(events.drop_last());
        lemma_history_is_updates(engine, events.drop_last());
        lemma_step_is_updates(before, events.last());
        lemma_apply_all_concat(
            engine.table,
            history_updates(events.drop_last()),
            event_updates(events.last()),
        );
    }
}

/// Template precedence: after any run of events, a key holds the fields of
/// the last definition among the updates about it, whether that definition
/// came beside the frames or inside one, and holds nothing where the last
/// update about it is a withdrawal. `last` is the index of the last update
/// about the key among the updates of the events.
pub proof fn lemma_table_reflects_the_last_update(
    engine: EngineView,
    events: Seq<DecoderEventView>,
    domain: u32,
    id: u16,
    last: int,
)
    requires
        0 <= last < history_updates(events).len(),
        touches(history_updates(events)[last], domain, id),
        forall|later: int|
            last < later < history_updates(events).len() ==> !touches(
                history_updates(events)[later],
                domain,
                id,
            ),
    ensures
        history_updates(events)[last].op == TemplateOp::Define ==> (engine.after_events(
            events,
        ).table.lookup(domain, id) matches Some(template) && template.fields == history_updates(
            events,
        )[last].fields),
        history_updates(events)[last].op == TemplateOp::Withdraw ==> engine.after_events(
            events,
        ).table.lookup(domain, id).is_none(),
{
    lemma_history_is_updates(engine, events);
    lemma_last_update_wins(engine.table, history_updates(events), domain, id, last);
}

/// How many of `events` are frames.
pub open spec fn frames_in(events: Seq<DecoderEventView>) -> nat
    decreases events.len(),
{
    if events.len() == 0 {
        0
    } else {
        frames_in(events.drop_last()) + if events.last() is Frame {
            1nat
        } else {
            0nat
        }
    }
}

/// Whatever a frame or a template update holds, the run loop goes on after
/// it: only a closed input ends the loop.
pub proof fn lemma_only_a_closed_input_ends_the_loop(engine: EngineView, event: DecoderEventView)
    ensures
        engine.step(event).proceed <==> (event is Frame || event is Template),
{
}

/// No frame of a run of events is skipped, whatever comes between the
/// frames: the count of frames grows by the number of frames in the run.
pub proof fn lemma_every_frame_of_a_history_is_taken(
    engine: EngineView,
    events: Seq<DecoderEventView>,
)
    ensures
        engine.after_events(events).diagnostics.frames_received == counted(
            engine.diagnostics.frames_received,
            frames_in(events),
        ),
    decreases events.len(),
{
    if events.len() > 0 {
        lemma_every_frame_of_a_history_is_taken(engine, events.drop_last());
        let before = engine.after_events(events.drop_last());
        match events.last() {
            DecoderEventView::Frame(frame) => {
                lemma_frame_is_accounted(before, frame);
            },
            _ => {},
        }
    }
}

} // verus!
