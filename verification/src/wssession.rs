//! Web socket sessions: their numbering, what a session does with a
//! frame from the browser, and when it pushes a published document
//! again.

use vstd::prelude::*;

verus! {

/// The kind of a session.
pub enum WsSwssionType {
    Default,
    Special,
}

/// A text pushed to a session.
pub struct WsSessionMessage(pub String);

/// The number of the next session, counting from 1.
pub fn next_session_no(current: u64) -> (r: u64)
    requires
        current < u64::MAX,
    ensures
        r == current + 1,
{
    current + 1
}

/// A frame received from the browser.
pub enum WsFrame {
    Text(String),
    Binary,
    Ping(Vec<u8>),
    Pong,
    Close,
    Error,
}

/// What the session does with a frame.
pub enum WsAction {
    /// Nothing (a text is only logged).
    Ignore,
    /// Answer with a pong carrying the ping's bytes.
    Pong(Vec<u8>),
    /// Close with the peer's reason and stop.
    CloseAndStop,
    /// Stop.
    Stop,
}

pub fn frame_action(frame: WsFrame) -> (r: WsAction)
    ensures
        match frame {
            WsFrame::Ping(b) => (r matches WsAction::Pong(p) && p@ == b@),
            WsFrame::Close => r is CloseAndStop,
            WsFrame::Error => r is Stop,
            _ => r is Ignore,
        },
{
    match frame {
        WsFrame::Ping(b) => WsAction::Pong(b),
        WsFrame::Close => WsAction::CloseAndStop,
        WsFrame::Error => WsAction::Stop,
        _ => WsAction::Ignore,
    }
}

/// One check of a published document: take the current text when it
/// changed, and send when it changed or the resend interval is over.
pub fn feed_check(last: &mut String, current: &String, resend_due: bool) -> (send: bool)
    ensures
        final(last)@ == current@,
        send == (current@ != old(last)@ || resend_due),
{
    if *current != *last {
        *last = current.clone();
        true
    } else {
        resend_due
    }
}

/// One check of the pairing notice: it is sent only when it changed and
/// is not empty.
pub fn notice_check(last: &mut String, current: &String) -> (send: bool)
    ensures
        final(last)@ == current@,
        send == (current@ != old(last)@ && current@.len() > 0),
{
    if *current != *last {
        *last = current.clone();
        last.as_str().unicode_len() > 0
    } else {
        false
    }
}

/// Broadcasts go to the sessions of the default kind.
pub fn receives_broadcast(t: &WsSwssionType) -> (r: bool)
    ensures
        r == (*t is Default),
{
    match t {
        WsSwssionType::Default => true,
        WsSwssionType::Special => false,
    }
}

/// One round of the spectrum broadcast: when enabled and the spectrum
/// changed, it is taken and sent.
pub fn spec_broadcast_step(last: &mut String, current: &String, enable: bool) -> (send: bool)
    ensures
        send == (enable && current@ != old(last)@),
        final(last)@ == (if enable && current@ != old(last)@ { current@ } else { old(last)@ }),
{
    if enable && *current != *last {
        *last = current.clone();
        true
    } else {
        false
    }
}

/// One round of the combined broadcast: the spectrum is sent when it
/// changed (and spectra are enabled); the status is taken and sent when
/// the last status sent differs from the current spectrum (the
/// comparison the daemon makes).
pub fn status_broadcast_step(
    last_spec: &mut String,
    last_status: &mut String,
    spec_now: &String,
    status_now: &String,
    enable_spec: bool,
) -> (r: (bool, bool))
    ensures
        r.0 == (enable_spec && spec_now@ != old(last_spec)@),
        final(last_spec)@ == (if spec_now@ != old(last_spec)@ { spec_now@ } else { old(last_spec)@ }),
        r.1 == (old(last_status)@ != spec_now@),
        final(last_status)@ == (if old(last_status)@ != spec_now@ { status_now@ } else { old(last_status)@ }),
{
    let sdj = if *last_spec != *spec_now {
        *last_spec = spec_now.clone();
        enable_spec
    } else {
        false
    };
    let msj = if *last_status != *spec_now {
        *last_status = status_now.clone();
        true
    } else {
        false
    };
    (sdj, msj)
}

} // verus!
