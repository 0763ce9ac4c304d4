//! The clipboard of a remote desktop session of Mutter.
use vstd::prelude::*;
use crate::words::{occurs, text_contains};

verus! {

/// The types that are offered to Mutter.
pub const CLIPBOARD_MIME_TYPES: [&'static str; 8] = [
    "text/plain;charset=utf-8",
    "text/plain",
    "UTF8_STRING",
    "STRING",
    "TEXT",
    "text/html",
    "image/png",
    "image/bmp",
];

/// The clipboard's session.
pub struct MutterClipboard {
    /// The session's object path.
    pub rd_session_path: String,
    pub enabled: bool,
    /// How often the clipboard moved to another session. Listeners that subscribed
    /// under another number listen to a session that is gone.
    pub session_generation: u64,
}

impl MutterClipboard {
    /// A clipboard of the first session, not enabled yet.
    pub fn new(rd_session_path: String) -> (clipboard: Self)
        ensures
            clipboard.rd_session_path == rd_session_path,
            !clipboard.enabled,
            clipboard.session_generation == 0,
    {
        MutterClipboard { rd_session_path, enabled: false, session_generation: 0 }
    }

    /// How often the clipboard moved to another session.
    pub fn session_generation(&self) -> (generation: u64)
        ensures
            generation == self.session_generation,
    {
        self.session_generation
    }

    /// Whether the clipboard is enabled.
    pub fn is_enabled(&self) -> (enabled: bool)
        ensures
            enabled == self.enabled,
    {
        self.enabled
    }

    /// Mutter enabled or disabled the clipboard.
    pub fn set_enabled(&mut self, enabled: bool)
        ensures
            *final(self) == (MutterClipboard { enabled, ..*old(self) }),
    {
        self.enabled = enabled;
    }

    /// Moves to a session that was established anew. Enable its clipboard next.
    pub fn begin_rebind(&mut self, new_rd_session_path: String)
        ensures
            *final(self) == (MutterClipboard {
                rd_session_path: new_rd_session_path,
                ..*old(self)
            }),
    {
        self.rd_session_path = new_rd_session_path;
    }

    /// The clipboard of the new session was enabled, or not; a failure is given with
    /// its reasons. A session that has its clipboard enabled already says so as a
    /// failure, and is fine. On success the new generation is returned, and the
    /// listeners are to be woken.
    pub fn finish_rebind(&mut self, enabled: Result<(), String>) -> (generation: Result<u64, String>)
        ensures
            final(self).rd_session_path == old(self).rd_session_path,
            ({
                let fine = match enabled {
                    Ok(_) => true,
                    Err(reason) => occurs(reason@, "Already enabled"@),
                };
                if fine {
                    &&& final(self).enabled
                    &&& final(self).session_generation == (old(self).session_generation + 1)
                        % 0x1_0000_0000_0000_0000
                    &&& generation == Ok::<u64, String>(final(self).session_generation)
                } else {
                    &&& final(self).enabled == old(self).enabled
                    &&& final(self).session_generation == old(self).session_generation
                    &&& generation == Err::<u64, String>(enabled->Err_0)
                }
            }),
    {
        if let Err(reason) = enabled {
            if !text_contains(reason.as_str(), "Already enabled") {
                return Err(reason);
            }
        }
        self.enabled = true;
        self.session_generation = self.session_generation.wrapping_add(1);
        Ok(self.session_generation)
    }
}

/// What happened on the pipe that a selection is read from.
#[derive(Debug)]
pub enum PipeEvent {
    /// Nothing came in time.
    TimedOut,
    /// Waiting failed.
    PollFailed,
    /// These bytes came.
    Data(Vec<u8>),
    /// Nothing was there after all.
    WouldBlock,
    /// Reading failed.
    ReadFailed,
    /// The other end is closed.
    EndOfFile,
}

/// How to go on with a selection.
#[derive(Clone, Copy, Debug, PartialEq, Eq)]
pub enum PipeStep {
    /// Wait for more.
    Continue,
    /// It is complete, or as complete as it gets.
    Done,
    /// It failed.
    Fail,
}

/// What was read of a selection.
pub struct SelectionReader {
    pub data: Vec<u8>,
}

impl SelectionReader {
    /// Nothing read yet.
    pub fn new() -> (reader: Self)
        ensures
            reader.data@.len() == 0,
    {
        SelectionReader { data: Vec::new() }
    }

    /// Takes in what happened. A pipe that goes silent ends the selection with what
    /// is there: the other application may never close its end.
    pub fn step(&mut self, event: PipeEvent) -> (step: PipeStep)
        ensures
            step == match event {
                PipeEvent::TimedOut => PipeStep::Done,
                PipeEvent::PollFailed => PipeStep::Fail,
                PipeEvent::Data(_) => PipeStep::Continue,
                PipeEvent::WouldBlock => PipeStep::Continue,
                PipeEvent::ReadFailed => PipeStep::Fail,
                PipeEvent::EndOfFile => PipeStep::Done,
            },
            final(self).data@ == match event {
                PipeEvent::Data(bytes) => old(self).data@ + bytes@,
                _ => old(self).data@,
            },
    {
        match event {
            PipeEvent::TimedOut => PipeStep::Done,
            PipeEvent::PollFailed => PipeStep::Fail,
            PipeEvent::Data(bytes) => {
                let mut more: Vec<u8> = bytes;
                self.data.append(&mut more);
                PipeStep::Continue
            },
            PipeEvent::WouldBlock => PipeStep::Continue,
            PipeEvent::ReadFailed => PipeStep::Fail,
            PipeEvent::EndOfFile => PipeStep::Done,
        }
    }
}

} // verus!
