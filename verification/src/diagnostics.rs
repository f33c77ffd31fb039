//! What the decoding engine drops: the kinds of diagnostics, their counts,
//! and the notes that tell where in a frame the dropped bytes lie.

use vstd::prelude::*;

verus! {

/// What the engine drops, and why. A diagnostic never stops the engine.
#[derive(Clone, Copy, Debug, PartialEq, Eq)]
pub enum Diagnostic {
    /// A frame whose header is missing or disagrees with the frame's size;
    /// the whole frame is dropped. Its note names the whole frame.
    FrameDropped,
    /// A set header that is cut short or whose length does not fit the
    /// frame; the rest of the frame is dropped. Its note names the bytes
    /// from the set header to the end of the frame.
    MalformedSet,
    /// A set of template records that ends in bytes that are no whole
    /// template record; these bytes are dropped. Its note names the body of
    /// the set.
    MalformedTemplateSet,
    /// A Data Set whose template is not in the table; the set is dropped.
    /// Its note names the body of the set.
    UnknownTemplate,
    /// A Data Set that ends in bytes that are no whole record; these bytes
    /// are dropped. Its note names the body of the set.
    TruncatedRecord,
    /// A frame whose sequence number is below the last one seen of its
    /// observation domain; the frame is decoded all the same. Its note
    /// names the whole frame.
    SequenceRegression,
}

/// `n` plus one, or `n` where it is the largest 64-bit value.
pub open spec fn bump(n: u64) -> u64 {
    if n < u64::MAX {
        (n + 1) as u64
    } else {
        n
    }
}

/// How many frames the engine took and how often it noted each diagnostic.
/// A count that reaches the largest 64-bit value stays there.
#[derive(Clone, Copy, Debug, PartialEq, Eq)]
pub struct Diagnostics {
    pub frames_received: u64,
    pub frames_dropped: u64,
    pub malformed_sets: u64,
    pub malformed_template_sets: u64,
    pub unknown_template_sets: u64,
    pub truncated_records: u64,
    pub sequence_regressions: u64,
}

impl Diagnostics {
    /// All counts at zero.
    pub open spec fn zero() -> Diagnostics {
        Diagnostics {
            frames_received: 0,
            frames_dropped: 0,
            malformed_sets: 0,
            malformed_template_sets: 0,
            unknown_template_sets: 0,
            truncated_records: 0,
            sequence_regressions: 0,
        }
    }

    /// The counts after one more frame was taken.
    pub open spec fn receiving(self) -> Diagnostics {
        Diagnostics { frames_received: bump(self.frames_received), ..self }
    }

    /// The counts after `what` was noted once more.
    pub open spec fn noting(self, what: Diagnostic) -> Diagnostics {
        match what {
            Diagnostic::FrameDropped => Diagnostics {
                frames_dropped: bump(self.frames_dropped),
                ..self
            },
            Diagnostic::MalformedSet => Diagnostics {
                malformed_sets: bump(self.malformed_sets),
                ..self
            },
            Diagnostic::MalformedTemplateSet => Diagnostics {
                malformed_template_sets: bump(self.malformed_template_sets),
                ..self
            },
            Diagnostic::UnknownTemplate => Diagnostics {
                unknown_template_sets: bump(self.unknown_template_sets),
                ..self
            },
            Diagnostic::TruncatedRecord => Diagnostics {
                truncated_records: bump(self.truncated_records),
                ..self
            },
            Diagnostic::SequenceRegression => Diagnostics {
                sequence_regressions: bump(self.sequence_regressions),
                ..self
            },
        }
    }

    /// All counts at zero.
    pub fn new() -> (counts: Diagnostics)
        ensures
            counts == Diagnostics::zero(),
    {
        Diagnostics {
            frames_received: 0,
            frames_dropped: 0,
            malformed_sets: 0,
            malformed_template_sets: 0,
            unknown_template_sets: 0,
            truncated_records: 0,
            sequence_regressions: 0,
        }
    }

    /// Counts one more frame.
    pub fn receive(&mut self)
        ensures
            *final(self) == old(self).receiving(),
    {
        self.frames_received = bumped(self.frames_received);
    }

    /// Notes `what` once more.
    pub fn note(&mut self, what: Diagnostic)
        ensures
            *final(self) == old(self).noting(what),
    {
        match what {
            Diagnostic::FrameDropped => {
                self.frames_dropped = bumped(self.frames_dropped);
            },
            Diagnostic::MalformedSet => {
                self.malformed_sets = bumped(self.malformed_sets);
            },
            Diagnostic::MalformedTemplateSet => {
                self.malformed_template_sets = bumped(self.malformed_template_sets);
            },
            Diagnostic::UnknownTemplate => {
                self.unknown_template_sets = bumped(self.unknown_template_sets);
            },
            Diagnostic::TruncatedRecord => {
                self.truncated_records = bumped(self.truncated_records);
            },
            Diagnostic::SequenceRegression => {
                self.sequence_regressions = bumped(self.sequence_regressions);
            },
        }
    }
}

/// One diagnostic with what it takes to find its cause: the observation
/// domain of the frame, the id of the set, and where in the frame the bytes
/// in question lie. A dropped frame has no domain and no set: both are 0.
#[derive(Clone, Copy, Debug, PartialEq, Eq)]
pub struct Note {
    pub what: Diagnostic,
    pub observation_domain: u32,
    pub set_id: u16,
    /// Offset in the frame of the first byte in question.
    pub offset: usize,
    /// Number of bytes in question.
    pub length: usize,
}

/// The note of `what` about the bytes `pos..end` of a frame, in a set of id
/// `set_id`.
pub open spec fn note_of(
    what: Diagnostic,
    observation_domain: u32,
    set_id: u16,
    pos: int,
    end: int,
) -> Note {
    Note {
        what,
        observation_domain,
        set_id,
        offset: pos as usize,
        length: (end - pos) as usize,
    }
}

impl Diagnostics {
    /// The counts after every note of `notes` was counted.
    pub open spec fn noting_all(self, notes: Seq<Note>) -> Diagnostics
        decreases notes.len(),
    {
        if notes.len() == 0 {
            self
        } else {
            self.noting_all(notes.drop_last()).noting(notes.last().what)
        }
    }
}

fn bumped(n: u64) -> (next: u64)
    ensures
        next == bump(n),
{
    if n < u64::MAX {
        n + 1
    } else {
        n
    }
}

} // verus!
