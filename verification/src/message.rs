//! The control messages that travel through the queue, and the outward
//! actions that processing them produces.

use vstd::prelude::*;
use crate::options::LoggerOptions;
use crate::options::LoggerOptionsV;
use crate::options::TransportHandle;
use crate::record::LogInfo;
use crate::record::LogInfoV;

verus! {

/// One message in the bounded queue. Ordering in the queue equals
/// submission order; the worker processes messages strictly in order.
#[derive(Debug)]
pub enum LogMessage {
    Entry(LogInfo),
    Configure(LoggerOptions),
    Shutdown,
    Flush,
}

/// The mathematical shape of a [`LogMessage`].
pub enum LogMessageV {
    Entry(LogInfoV),
    Configure(LoggerOptionsV),
    Shutdown,
    Flush,
}

impl View for LogMessage {
    type V = LogMessageV;

    open spec fn view(&self) -> LogMessageV {
        match self {
            LogMessage::Entry(e) => LogMessageV::Entry(e@),
            LogMessage::Configure(o) => LogMessageV::Configure(o@),
            LogMessage::Shutdown => LogMessageV::Shutdown,
            LogMessage::Flush => LogMessageV::Flush,
        }
    }
}

/// The views of a message queue.
pub open spec fn messages_view(v: Seq<LogMessage>) -> Seq<LogMessageV> {
    Seq::new(v.len(), |i: int| v[i]@)
}

/// One line on the diagnostic stream. The pipeline never fails a caller;
/// it reports these instead.
#[derive(Clone, Copy, Debug, PartialEq, Eq, Structural)]
pub enum DiagKind {
    /// A record was buffered because no transport is attached.
    NoTransports,
    /// The incoming record was dropped on a full queue.
    DroppedCurrent,
    /// The oldest queued record was dropped to make room.
    DroppedOldest,
    /// Even after reclaiming the oldest message the record could not be
    /// queued and was dropped.
    DropRetryFailed,
    /// A record arrived after the logger was closed and was dropped.
    Disconnected,
}

/// One outward action: what the surrounding code must perform after a
/// call into the pipeline. Draining these and acting on them is the
/// caller's part of the bargain.
#[derive(Debug, PartialEq)]
pub enum Action {
    /// Apply the named format to the record and, if the format keeps it,
    /// hand it to the transport behind the handle.
    Deliver { handle: TransportHandle, format: Option<u64>, entry: LogInfo },
    /// Flush the transport behind the handle.
    FlushTransport { handle: TransportHandle },
    /// A flush barrier completed: wake every caller waiting on it.
    FlushCompleted,
    /// Write one diagnostic line.
    Diagnostic(DiagKind),
}

/// The mathematical shape of an [`Action`].
pub enum ActionV {
    Deliver { handle: TransportHandle, format: Option<u64>, entry: LogInfoV },
    FlushTransport { handle: TransportHandle },
    FlushCompleted,
    Diagnostic(DiagKind),
}

impl View for Action {
    type V = ActionV;

    open spec fn view(&self) -> ActionV {
        match self {
            Action::Deliver { handle, format, entry } => ActionV::Deliver {
                handle: *handle,
                format: *format,
                entry: entry@,
            },
            Action::FlushTransport { handle } => ActionV::FlushTransport { handle: *handle },
            Action::FlushCompleted => ActionV::FlushCompleted,
            Action::Diagnostic(k) => ActionV::Diagnostic(*k),
        }
    }
}

/// The views of an action list.
pub open spec fn actions_view(v: Seq<Action>) -> Seq<ActionV> {
    Seq::new(v.len(), |i: int| v[i]@)
}

} // verus!
