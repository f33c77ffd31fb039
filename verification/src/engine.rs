//! The decoding engine: the template table, the last sequence number seen
//! of each observation domain, and the counts of what was dropped, with the
//! step that takes one template update or one frame.

use vstd::prelude::*;
use std::collections::HashMap;
use crate::bytes::{read_u16, u16_at};
use crate::diagnostics::{note_of, Diagnostic, Diagnostics, Note};
use crate::message::{views, RecordView, StatisticsRecord, TemplateUpdate, TemplateUpdateView};
use crate::template::{TableView, TemplateTable};
use crate::wire::{
    decode_data_set, header_consistent, header_of, is_template_set, lemma_template_record_advances,
    parse_header, parse_template_record, records_from, template_record_at, MessageHeader,
    HEADER_LENGTH, OPTIONS_TEMPLATE_SET_ID, SET_HEADER_LENGTH, TEMPLATE_SET_ID,
};

verus! {

broadcast use vstd::std_specs::hash::group_hash_axioms;

/// The table after the template records of the body `buf[pos..end]` of a
/// set of id `set_id` are defined one after the other under `domain`, and
/// whether the body ends in bytes that are no whole template record.
pub open spec fn templates_from(
    table: TableView,
    buf: Seq<u8>,
    pos: int,
    end: int,
    domain: u32,
    set_id: u16,
) -> (TableView, bool)
    decreases end - pos,
{
    if pos >= end {
        (table, false)
    } else {
        match template_record_at(buf, pos, end, set_id) {
            None => (table, true),
            Some((id, fields, next)) => {
                proof {
                    lemma_template_record_advances(buf, pos, end, set_id);
                }
                templates_from(table.define(domain, id, fields), buf, next, end, domain, set_id)
            },
        }
    }
}

/// Defines the templates of the body `buf[pos..end]` of a set of id
/// `set_id` in `table`; tells whether the body ends in bytes that are no
/// whole template record.
pub fn ingest_template_set(
    table: &mut TemplateTable,
    buf: &[u8],
    pos: usize,
    end: usize,
    domain: u32,
    set_id: u16,
) -> (malformed: bool)
    requires
        pos <= end <= buf@.len(),
    ensures
        (final(table)@, malformed) == templates_from(
            old(table)@,
            buf@,
            pos as int,
            end as int,
            domain,
            set_id,
        ),
{
    let mut at: usize = pos;
    while at < end
        invariant
            pos <= at <= end <= buf@.len(),
            templates_from(old(table)@, buf@, pos as int, end as int, domain, set_id)
                == templates_from(table@, buf@, at as int, end as int, domain, set_id),
        decreases end - at,
    {
        match parse_template_record(buf, at, end, set_id) {
            None => {
                return true;
            },
            Some((id, fields, next)) => {
                table.define(domain, id, fields);
                at = next;
            },
        }
    }
    false
}

/// What walking the sets of a frame has come to: the table, the counts, and
/// the records and the notes of the frame so far.
pub struct Progress {
    pub table: TableView,
    pub diagnostics: Diagnostics,
    pub records: Seq<RecordView>,
    pub notes: Seq<Note>,
}

impl Progress {
    /// The progress with one more diagnostic: it is counted, and its note
    /// joins the notes.
    pub open spec fn noted(self, note: Note) -> Progress {
        Progress {
            table: self.table,
            diagnostics: self.diagnostics.noting(note.what),
            records: self.records,
            notes: self.notes.push(note),
        }
    }

    /// The progress with `note` where `happened` holds.
    pub open spec fn noted_if(self, happened: bool, note: Note) -> Progress {
        if happened {
            self.noted(note)
        } else {
            self
        }
    }
}

/// The progress after the set of id `id` with the body `buf[pos..end]`.
///
/// A Template Set and an Options Template Set define their templates. A
/// Data Set whose template is in the table adds its records; one whose
/// template is not there adds none and is noted.
pub open spec fn after_set(
    progress: Progress,
    header: MessageHeader,
    buf: Seq<u8>,
    id: u16,
    pos: int,
    end: int,
) -> Progress {
    if is_template_set(id) {
        let ingested = templates_from(
            progress.table,
            buf,
            pos,
            end,
            header.observation_domain,
            id,
        );
        Progress {
            table: ingested.0,
            diagnostics: progress.diagnostics,
            records: progress.records,
            notes: progress.notes,
        }.noted_if(
            ingested.1,
            note_of(Diagnostic::MalformedTemplateSet, header.observation_domain, id, pos, end),
        )
    } else {
        match progress.table.lookup(header.observation_domain, id) {
            None => progress.noted(
                note_of(Diagnostic::UnknownTemplate, header.observation_domain, id, pos, end),
            ),
            Some(template) => {
                let decoded = records_from(buf, pos, end, header, id, template);
                Progress {
                    table: progress.table,
                    diagnostics: progress.diagnostics,
                    records: progress.records + decoded.0,
                    notes: progress.notes,
                }.noted_if(
                    decoded.1,
                    note_of(Diagnostic::TruncatedRecord, header.observation_domain, id, pos, end),
                )
            },
        }
    }
}

/// Whether a whole set lies at `pos`: its header fits the frame, and its
/// length covers the header and stays inside the frame.
pub open spec fn set_framed(buf: Seq<u8>, pos: int) -> bool {
    pos + SET_HEADER_LENGTH <= buf.len() && SET_HEADER_LENGTH <= u16_at(buf, pos + 2) && pos
        + u16_at(buf, pos + 2) <= buf.len()
}

/// The id of the set at `pos`, or 0 where the frame ends before the id does.
pub open spec fn set_id_at(buf: Seq<u8>, pos: int) -> u16 {
    if pos + SET_HEADER_LENGTH <= buf.len() {
        u16_at(buf, pos)
    } else {
        0
    }
}

/// The progress after the sets of `buf` from `pos` on, taken in order. A
/// set that is not whole ends the walk and is noted; what was decoded
/// before it stays.
pub open spec fn sets_from(
    progress: Progress,
    header: MessageHeader,
    buf: Seq<u8>,
    pos: int,
) -> Progress
    decreases buf.len() - pos,
{
    if pos >= buf.len() {
        progress
    } else if !set_framed(buf, pos) {
        progress.noted(
            note_of(
                Diagnostic::MalformedSet,
                header.observation_domain,
                set_id_at(buf, pos),
                pos,
                buf.len() as int,
            ),
        )
    } else {
        sets_from(
            after_set(
                progress,
                header,
                buf,
                u16_at(buf, pos),
                pos + SET_HEADER_LENGTH,
                pos + u16_at(buf, pos + 2),
            ),
            header,
            buf,
            pos + u16_at(buf, pos + 2),
        )
    }
}

fn take_note(diagnostics: &mut Diagnostics, notes: &mut Vec<Note>, note: Note)
    ensures
        *final(diagnostics) == old(diagnostics).noting(note.what),
        final(notes)@ == old(notes)@.push(note),
{
    diagnostics.note(note.what);
    notes.push(note);
}

/// Walks the sets of the frame `buf` behind its header.
fn walk_sets(
    table: &mut TemplateTable,
    diagnostics: &mut Diagnostics,
    notes: &mut Vec<Note>,
    header: &MessageHeader,
    buf: &[u8],
) -> (records: Vec<StatisticsRecord>)
    requires
        buf@.len() >= HEADER_LENGTH,
    ensures
        sets_from(
            Progress {
                table: old(table)@,
                diagnostics: *old(diagnostics),
                records: Seq::empty(),
                notes: old(notes)@,
            },
            *header,
            buf@,
            HEADER_LENGTH as int,
        ) == (Progress {
            table: final(table)@,
            diagnostics: *final(diagnostics),
            records: views(records@),
            notes: final(notes)@,
        }),
{
    let mut records: Vec<StatisticsRecord> = Vec::new();
    let mut at: usize = HEADER_LENGTH;
    let ghost whole = sets_from(
        Progress {
            table: old(table)@,
            diagnostics: *old(diagnostics),
            records: Seq::empty(),
            notes: old(notes)@,
        },
        *header,
        buf@,
        HEADER_LENGTH as int,
    );
    assert(views(records@) =~= Seq::<RecordView>::empty());
    while at < buf.len()
        invariant
            HEADER_LENGTH <= at <= buf@.len(),
            whole == sets_from(
                Progress {
                    table: old(table)@,
                    diagnostics: *old(diagnostics),
                    records: Seq::empty(),
                    notes: old(notes)@,
                },
                *header,
                buf@,
                HEADER_LENGTH as int,
            ),
            whole == sets_from(
                Progress {
                    table: table@,
                    diagnostics: *diagnostics,
                    records: views(records@),
                    notes: notes@,
                },
                *header,
                buf@,
                at as int,
            ),
        decreases buf@.len() - at,
    {
        let domain = header.observation_domain;
        let left: usize = buf.len() - at;
        if left < SET_HEADER_LENGTH {
            take_note(
                diagnostics,
                notes,
                Note {
                    what: Diagnostic::MalformedSet,
                    observation_domain: domain,
                    set_id: 0,
                    offset: at,
                    length: left,
                },
            );
            return records;
        }
        let id = read_u16(buf, at);
        let length: usize = read_u16(buf, at + 2) as usize;
        if length < SET_HEADER_LENGTH || length > left {
            take_note(
                diagnostics,
                notes,
                Note {
                    what: Diagnostic::MalformedSet,
                    observation_domain: domain,
                    set_id: id,
                    offset: at,
                    length: left,
                },
            );
            return records;
        }
        let body: usize = at + SET_HEADER_LENGTH;
        let stop: usize = at + length;
        if id == TEMPLATE_SET_ID || id == OPTIONS_TEMPLATE_SET_ID {
            let malformed = ingest_template_set(table, buf, body, stop, domain, id);
            if malformed {
                take_note(
                    diagnostics,
                    notes,
                    Note {
                        what: Diagnostic::MalformedTemplateSet,
                        observation_domain: domain,
                        set_id: id,
                        offset: body,
                        length: stop - body,
                    },
                );
            }
        } else {
            match table.lookup(domain, id) {
                None => {
                    take_note(
                        diagnostics,
                        notes,
                        Note {
                            what: Diagnostic::UnknownTemplate,
                            observation_domain: domain,
                            set_id: id,
                            offset: body,
                            length: stop - body,
                        },
                    );
                },
                Some(template) => {
                    let (mut decoded, truncated) = decode_data_set(
                        buf,
                        body,
                        stop,
                        header,
                        id,
                        template,
                    );
                    let ghost before = views(records@);
                    let ghost added = views(decoded@);
                    records.append(&mut decoded);
                    assert(views(records@) =~= before + added);
                    if truncated {
                        take_note(
                            diagnostics,
                            notes,
                            Note {
                                what: Diagnostic::TruncatedRecord,
                                observation_domain: domain,
                                set_id: id,
                                offset: body,
                                length: stop - body,
                            },
                        );
                    }
                },
            }
        }
        at = stop;
    }
    records
}

/// The value of an engine.
pub struct EngineView {
    /// The templates.
    pub table: TableView,
    /// The sequence number of the last frame taken of each observation
    /// domain.
    pub last_sequence: Map<u32, u32>,
    /// The counts.
    pub diagnostics: Diagnostics,
}

/// What a frame, or a run of frames, comes to: the engine after it, the
/// records decoded from it, and the notes of what was dropped.
pub struct Taken {
    pub engine: EngineView,
    pub records: Seq<RecordView>,
    pub notes: Seq<Note>,
}

impl EngineView {
    /// The engine before any update or frame.
    pub open spec fn initial() -> EngineView {
        EngineView {
            table: TableView::empty(),
            last_sequence: Map::empty(),
            diagnostics: Diagnostics::zero(),
        }
    }

    /// The engine after a template update: the table has the update
    /// applied, the rest is as before.
    pub open spec fn after_update(self, update: TemplateUpdateView) -> EngineView {
        EngineView {
            table: self.table.apply(update),
            last_sequence: self.last_sequence,
            diagnostics: self.diagnostics,
        }
    }

    /// Whether a frame with this header comes with a sequence number below
    /// the last one seen of its observation domain.
    pub open spec fn regressed(self, header: MessageHeader) -> bool {
        self.last_sequence.contains_key(header.observation_domain) && header.sequence_number
            < self.last_sequence[header.observation_domain]
    }

    /// Where the walk of a frame with a consistent header starts: the frame
    /// is counted, and a sequence number that fell back is noted.
    pub open spec fn entering(self, frame: Seq<u8>) -> Progress {
        Progress {
            table: self.table,
            diagnostics: self.diagnostics.receiving(),
            records: Seq::empty(),
            notes: Seq::empty(),
        }.noted_if(
            self.regressed(header_of(frame)),
            note_of(
                Diagnostic::SequenceRegression,
                header_of(frame).observation_domain,
                0,
                0,
                frame.len() as int,
            ),
        )
    }

    /// What the frame `frame` comes to.
    ///
    /// A frame without a consistent header is dropped whole. Of any other
    /// frame the sets are walked in order, and its sequence number becomes
    /// the last one seen of its observation domain.
    pub open spec fn after_frame(self, frame: Seq<u8>) -> Taken {
        if !header_consistent(frame) {
            Taken {
                engine: EngineView {
                    table: self.table,
                    last_sequence: self.last_sequence,
                    diagnostics: self.diagnostics.receiving().noting(Diagnostic::FrameDropped),
                },
                records: Seq::empty(),
                notes: seq![note_of(Diagnostic::FrameDropped, 0, 0, 0, frame.len() as int)],
            }
        } else {
            let header = header_of(frame);
            let walked = sets_from(self.entering(frame), header, frame, HEADER_LENGTH as int);
            Taken {
                engine: EngineView {
                    table: walked.table,
                    last_sequence: self.last_sequence.insert(
                        header.observation_domain,
                        header.sequence_number,
                    ),
                    diagnostics: walked.diagnostics,
                },
                records: walked.records,
                notes: walked.notes,
            }
        }
    }

    /// What the frames of `frames` come to, each taken whole and in order:
    /// the records and the notes stand in the order of the frames.
    pub open spec fn after_frames(self, frames: Seq<Seq<u8>>) -> Taken
        decreases frames.len(),
    {
        if frames.len() == 0 {
            Taken { engine: self, records: Seq::empty(), notes: Seq::empty() }
        } else {
            let before = self.after_frames(frames.drop_last());
            let last = before.engine.after_frame(frames.last());
            Taken {
                engine: last.engine,
                records: before.records + last.records,
                notes: before.notes + last.notes,
            }
        }
    }
}

/// The records decoded from a frame, or from a run of frames, and the notes
/// of what was dropped, both in the order of the bytes.
#[derive(Debug, PartialEq, Eq)]
pub struct FrameOutcome {
    pub records: Vec<StatisticsRecord>,
    pub notes: Vec<Note>,
}

/// The IPFIX decoding engine.
pub struct IpfixEngine {
    table: TemplateTable,
    last_sequence: HashMap<u32, u32>,
    diagnostics: Diagnostics,
}

impl View for IpfixEngine {
    type V = EngineView;

    closed spec fn view(&self) -> EngineView {
        EngineView {
            table: self.table@,
            last_sequence: self.last_sequence@,
            diagnostics: self.diagnostics,
        }
    }
}

impl IpfixEngine {
    /// An engine with no template, that has seen no frame.
    pub fn new() -> (engine: IpfixEngine)
        ensures
            engine@ == EngineView::initial(),
    {
        IpfixEngine {
            table: TemplateTable::new(),
            last_sequence: HashMap::new(),
            diagnostics: Diagnostics::new(),
        }
    }

    /// Applies a template update that arrived beside the frames.
    pub fn handle_template(&mut self, update: TemplateUpdate)
        ensures
            final(self)@ == old(self)@.after_update(update@),
    {
        self.table.apply(update);
    }

    /// Takes one frame: decodes what its sets hold with the templates of the
    /// table, defines the templates that it carries, and counts and notes
    /// what it drops. Returns the decoded records and the notes in the order
    /// of the frame. No frame makes the engine fail.
    pub fn handle_frame(&mut self, frame: &[u8]) -> (outcome: FrameOutcome)
        ensures
            old(self)@.after_frame(frame@) == (Taken {
                engine: final(self)@,
                records: views(outcome.records@),
                notes: outcome.notes@,
            }),
    {
        self.diagnostics.receive();
        let mut notes: Vec<Note> = Vec::new();
        match parse_header(frame) {
            None => {
                take_note(
                    &mut self.diagnostics,
                    &mut notes,
                    Note {
                        what: Diagnostic::FrameDropped,
                        observation_domain: 0,
                        set_id: 0,
                        offset: 0,
                        length: frame.len(),
                    },
                );
                let records: Vec<StatisticsRecord> = Vec::new();
                assert(views(records@) =~= Seq::<RecordView>::empty());
                assert(notes@ =~= seq![
                    note_of(Diagnostic::FrameDropped, 0, 0, 0, frame@.len() as int),
                ]);
                FrameOutcome { records, notes }
            },
            Some(header) => {
                let regressed = match self.last_sequence.get(&header.observation_domain) {
                    Some(last) => header.sequence_number < *last,
                    None => false,
                };
                if regressed {
                    take_note(
                        &mut self.diagnostics,
                        &mut notes,
                        Note {
                            what: Diagnostic::SequenceRegression,
                            observation_domain: header.observation_domain,
                            set_id: 0,
                            offset: 0,
                            length: frame.len(),
                        },
                    );
                }
                assert(notes@ =~= old(self)@.entering(frame@).notes);
                let records = walk_sets(
                    &mut self.table,
                    &mut self.diagnostics,
                    &mut notes,
                    &header,
                    frame,
                );
                self.last_sequence.insert(header.observation_domain, header.sequence_number);
                FrameOutcome { records, notes }
            },
        }
    }

    /// Takes the frames of `frames` one after the other, none left out, and
    /// returns the records and the notes of all of them in the order of the
    /// frames.
    pub fn handle_frames(&mut self, frames: &Vec<Vec<u8>>) -> (outcome: FrameOutcome)
        ensures
            old(self)@.after_frames(frame_views(frames@)) == (Taken {
                engine: final(self)@,
                records: views(outcome.records@),
                notes: outcome.notes@,
            }),
    {
        let mut records: Vec<StatisticsRecord> = Vec::new();
        let mut notes: Vec<Note> = Vec::new();
        let mut i: usize = 0;
        assert(views(records@) =~= Seq::<RecordView>::empty());
        assert(notes@ =~= Seq::<Note>::empty());
        assert(frame_views(frames@).take(0) =~= Seq::<Seq<u8>>::empty());
        while i < frames.len()
            invariant
                i <= frames@.len(),
                old(self)@.after_frames(frame_views(frames@).take(i as int)) == (Taken {
                    engine: self@,
                    records: views(records@),
                    notes: notes@,
                }),
            decreases frames@.len() - i,
        {
            let ghost before = views(records@);
            let ghost noted = notes@;
            let mut taken = self.handle_frame(frames[i].as_slice());
            let ghost added = views(taken.records@);
            let ghost more = taken.notes@;
            records.append(&mut taken.records);
            notes.append(&mut taken.notes);
            proof {
                let through = frame_views(frames@).take(i + 1);
                assert(through.drop_last() =~= frame_views(frames@).take(i as int));
                assert(through.last() == frames@[i as int]@);
                assert(views(records@) =~= before + added);
                assert(notes@ =~= noted + more);
            }
            i += 1;
        }
        assert(frame_views(frames@).take(i as int) =~= frame_views(frames@));
        FrameOutcome { records, notes }
    }

    /// The counts of frames and diagnostics so far.
    pub fn diagnostics(&self) -> (counts: Diagnostics)
        ensures
            counts == self@.diagnostics,
    {
        self.diagnostics
    }

    /// The template table.
    pub fn table(&self) -> (table: &TemplateTable)
        ensures
            table@ == self@.table,
    {
        &self.table
    }

    /// The sequence number of the last frame taken of `domain`, if any.
    pub fn last_sequence(&self, domain: u32) -> (last: Option<u32>)
        ensures
            last == if self@.last_sequence.contains_key(domain) {
                Some(self@.last_sequence[domain])
            } else {
                None
            },
    {
        match self.last_sequence.get(&domain) {
            Some(last) => Some(*last),
            None => None,
        }
    }
}

/// The views of the frames of `frames`.
pub open spec fn frame_views(frames: Seq<Vec<u8>>) -> Seq<Seq<u8>> {
    Seq::new(frames.len(), |i: int| frames[i]@)
}

/// What the engine's run loop is handed: a message of one of its two
/// inputs, or the news that an input has closed.
#[derive(Debug, PartialEq, Eq)]
pub enum DecoderEvent {
    /// A template update of the template source.
    Template(TemplateUpdate),
    /// A frame of the frame source.
    Frame(Vec<u8>),
    /// The template source has closed its channel.
    TemplatesClosed,
    /// The frame source has closed its channel.
    FramesClosed,
}

/// The value of a `DecoderEvent`.
pub enum DecoderEventView {
    Template(TemplateUpdateView),
    Frame(Seq<u8>),
    TemplatesClosed,
    FramesClosed,
}

impl View for DecoderEvent {
    type V = DecoderEventView;

    open spec fn view(&self) -> DecoderEventView {
        match self {
            DecoderEvent::Template(update) => DecoderEventView::Template(update@),
            DecoderEvent::Frame(frame) => DecoderEventView::Frame(frame@),
            DecoderEvent::TemplatesClosed => DecoderEventView::TemplatesClosed,
            DecoderEvent::FramesClosed => DecoderEventView::FramesClosed,
        }
    }
}

/// What the run loop does after an event: it hands `records` to the
/// recipients, logs `notes`, and goes on only where `proceed` holds.
#[derive(Debug, PartialEq, Eq)]
pub struct DecoderStep {
    pub records: Vec<StatisticsRecord>,
    pub notes: Vec<Note>,
    pub proceed: bool,
}

/// The engine after an event, with what the run loop does next.
pub struct StepView {
    pub engine: EngineView,
    pub records: Seq<RecordView>,
    pub notes: Seq<Note>,
    pub proceed: bool,
}

impl EngineView {
    /// The step that `event` makes. A template update and a frame change
    /// the engine and let the loop go on; a closed input changes nothing
    /// and ends the loop. Nothing that a frame holds ends it.
    pub open spec fn step(self, event: DecoderEventView) -> StepView {
        match event {
            DecoderEventView::Template(update) => StepView {
                engine: self.after_update(update),
                records: Seq::empty(),
                notes: Seq::empty(),
                proceed: true,
            },
            DecoderEventView::Frame(frame) => StepView {
                engine: self.after_frame(frame).engine,
                records: self.after_frame(frame).records,
                notes: self.after_frame(frame).notes,
                proceed: true,
            },
            DecoderEventView::TemplatesClosed => StepView {
                engine: self,
                records: Seq::empty(),
                notes: Seq::empty(),
                proceed: false,
            },
            DecoderEventView::FramesClosed => StepView {
                engine: self,
                records: Seq::empty(),
                notes: Seq::empty(),
                proceed: false,
            },
        }
    }
}

fn idle_step(proceed: bool) -> (step: DecoderStep)
    ensures
        views(step.records@) == Seq::<RecordView>::empty(),
        step.notes@ == Seq::<Note>::empty(),
        step.proceed == proceed,
{
    let step = DecoderStep { records: Vec::new(), notes: Vec::new(), proceed };
    assert(views(step.records@) =~= Seq::<RecordView>::empty());
    assert(step.notes@ =~= Seq::<Note>::empty());
    step
}

impl IpfixEngine {
    /// Takes one event of the run loop.
    pub fn handle_event(&mut self, event: DecoderEvent) -> (step: DecoderStep)
        ensures
            old(self)@.step(event@) == (StepView {
                engine: final(self)@,
                records: views(step.records@),
                notes: step.notes@,
                proceed: step.proceed,
            }),
    {
        match event {
            DecoderEvent::Template(update) => {
                self.handle_template(update);
                idle_step(true)
            },
            DecoderEvent::Frame(frame) => {
                let outcome = self.handle_frame(frame.as_slice());
                DecoderStep { records: outcome.records, notes: outcome.notes, proceed: true }
            },
            DecoderEvent::TemplatesClosed => idle_step(false),
            DecoderEvent::FramesClosed => idle_step(false),
        }
    }
}

} // verus!
