//! The per-session reader worker's decision logic.
//!
//! One worker runs beside each live session. On every iteration the host
//! performs one blocking read from the session's output handle and hands the
//! outcome to [`reader_step`], which decides what text to surface, what to
//! carry over, and whether the worker is finished. The host then delivers
//! each text piece as an output event and, once the step reports the end,
//! one exit event — both under names derived from the session identifier by
//! [`output_event_name`] and [`exit_event_name`].

use vstd::prelude::*;
use vstd::string::StringExecFns;
use crate::assembler::{
    flush_pieces, scan_pieces, scan_rest, Utf8Assembler, RESIDUAL_LIMIT,
};

verus! {

/// The outcome of one blocking read from a session's output handle: the
/// bytes read (none meaning end of stream), or a read error.
pub enum ReadEvent {
    Data(Vec<u8>),
    Failed,
}

/// True when the read outcome is small enough to combine with the largest
/// possible carry-over. Every read into a bounded buffer satisfies this.
pub open spec fn event_fits(ev: &ReadEvent) -> bool {
    match ev {
        ReadEvent::Data(d) => d@.len() <= usize::MAX - RESIDUAL_LIMIT,
        ReadEvent::Failed => true,
    }
}

/// What one worker iteration surfaces.
pub struct StepOutput {
    /// Text payloads to deliver as output events, in order. Each is
    /// well-formed UTF-8.
    pub texts: Vec<Vec<u8>>,
    /// True when the stream is finished and the worker must deliver the exit
    /// event and stop.
    pub session_ended: bool,
}

/// The text pieces a worker surfaces for one read outcome: a scan of
/// carry-over plus fresh bytes for data, the best-effort decoding of the
/// carry-over at end of stream, and nothing on a read error.
pub open spec fn step_pieces(res: Seq<u8>, ev: &ReadEvent) -> Seq<Seq<u8>> {
    match ev {
        ReadEvent::Data(d) => if d@.len() == 0 {
            flush_pieces(res)
        } else {
            scan_pieces(res + d@)
        },
        ReadEvent::Failed => seq![],
    }
}

/// Whether one read outcome ends the worker: end of stream or a read error.
pub open spec fn step_ended(ev: &ReadEvent) -> bool {
    match ev {
        ReadEvent::Data(d) => d@.len() == 0,
        ReadEvent::Failed => true,
    }
}

/// The carry-over left behind by one worker iteration.
pub open spec fn step_rest(res: Seq<u8>, ev: &ReadEvent) -> Seq<u8> {
    match ev {
        ReadEvent::Data(d) => if d@.len() == 0 {
            Seq::<u8>::empty()
        } else {
            scan_rest(res + d@)
        },
        ReadEvent::Failed => Seq::<u8>::empty(),
    }
}

/// One iteration of the reader worker: decides, for one read outcome, which
/// text pieces to surface, what to carry over, and whether to stop.
///
/// On data, the bytes join the carry-over and the scanned text is surfaced.
/// On end of stream (a read of no bytes), the carry-over is surfaced with
/// best effort and the worker ends. On a read error the carry-over is
/// discarded — the channel cannot be trusted — and the worker ends.
pub fn reader_step(acc: &mut Utf8Assembler, event: &ReadEvent) -> (r: StepOutput)
    requires
        old(acc).wf(),
        event_fits(event),
    ensures
        final(acc).wf(),
        r.session_ended == step_ended(event),
        r.texts@.len() == step_pieces(old(acc).residual_bytes(), event).len(),
        forall|j: int|
            0 <= j < r.texts@.len() ==> r.texts@[j]@ == step_pieces(
                old(acc).residual_bytes(),
                event,
            )[j],
        final(acc).residual_bytes() == step_rest(old(acc).residual_bytes(), event),
{
    match event {
        ReadEvent::Data(d) => {
            if d.len() == 0 {
                let texts = acc.flush();
                StepOutput { texts, session_ended: true }
            } else {
                let texts = acc.push_bytes(d.as_slice());
                StepOutput { texts, session_ended: false }
            }
        },
        ReadEvent::Failed => {
            acc.clear();
            StepOutput { texts: Vec::new(), session_ended: true }
        },
    }
}

/// The name under which a session's text output is delivered.
pub fn output_event_name(session_id: &str) -> (r: String)
    ensures
        r@ == "pty-output-"@ + session_id@,
{
    String::from_str("pty-output-").concat(session_id)
}

/// The name under which a session's exit notification is delivered.
pub fn exit_event_name(session_id: &str) -> (r: String)
    ensures
        r@ == "pty-exit-"@ + session_id@,
{
    String::from_str("pty-exit-").concat(session_id)
}

} // verus!
