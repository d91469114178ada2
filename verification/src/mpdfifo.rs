//! The spectrum task's handling of MPD's FIFO output: decoding the PCM
//! bytes, the sliding window of samples, and what to do while the FIFO
//! stalls.

use vstd::prelude::*;

verus! {

/// Samples per second.
pub const SAMPLING_RATE: usize = 44100;

/// Channels per frame.
pub const CHANNELS: usize = 2;

/// Samples in one FFT window, per channel.
pub const FFT_BUF_SIZE: usize = 4096;

/// How far the window slides, per channel.
pub const FFT_BUF_SLIDE_SIZE: usize = 2048;

/// A stall longer than this (50 ms) clears the spectrum.
pub const FIFO_STALL_RESET_NANOS: u64 = 50_000_000;

/// A stall longer than this (1 s) reopens the FIFO.
pub const FIFO_STALL_REOPEN_NANOS: u64 = 1_000_000_000;

/// The silence padded in per stall round: 10 ms of both channels.
pub const STALL_PAD_SAMPLES: usize = 882;

/// The value of a 16-bit little-endian signed sample.
pub open spec fn le_i16(lo: u8, hi: u8) -> int {
    let v = hi as int * 256 + lo as int;
    if v >= 32768 {
        v - 65536
    } else {
        v
    }
}

/// `i16::from_le_bytes([lo, hi])`.
pub fn sample_from_le(lo: u8, hi: u8) -> (r: i16)
    ensures
        r as int == le_i16(lo, hi),
{
    let v: u32 = (hi as u32) * 256 + (lo as u32);
    if v >= 32768 {
        let w: i32 = (v as i32) - 65536;
        w as i16
    } else {
        v as i16
    }
}

/// The samples of the first `n` bytes read (an odd last byte is left).
pub fn decode_samples(buf: &Vec<u8>, n: usize) -> (r: Vec<i16>)
    requires
        n <= buf@.len(),
    ensures
        r@.len() == n / 2,
        forall|i: int| 0 <= i < n / 2 ==> (#[trigger] r@[i]) as int == le_i16(buf@[2 * i], buf@[2 * i + 1]),
{
    let mut r: Vec<i16> = Vec::new();
    let mut i: usize = 0;
    while i < n / 2
        invariant
            n <= buf@.len(),
            i <= n / 2,
            r@.len() == i,
            forall|k: int| 0 <= k < i ==> (#[trigger] r@[k]) as int == le_i16(buf@[2 * k], buf@[2 * k + 1]),
        decreases n / 2 - i,
    {
        let x = sample_from_le(buf[2 * i], buf[2 * i + 1]);
        r.push(x);
        i = i + 1;
    }
    r
}

/// How many of the oldest samples are dropped so that `len` samples fit
/// a window of `keep`.
pub fn excess(len: usize, keep: usize) -> (r: usize)
    ensures
        r == (if len > keep { len - keep } else { 0 }),
{
    if len > keep {
        len - keep
    } else {
        0
    }
}

/// The samples kept ahead of the FFT window: one window of both
/// channels plus the configured delay.
pub fn window_keep(delay_samples: usize) -> (r: Option<usize>)
    ensures
        match r {
            Some(k) => k == FFT_BUF_SIZE * CHANNELS + delay_samples,
            None => FFT_BUF_SIZE * CHANNELS + delay_samples > usize::MAX,
        },
{
    delay_samples.checked_add(FFT_BUF_SIZE * CHANNELS)
}

/// How many samples the window slides by after an analysis.
pub fn slide_samples() -> (r: usize)
    ensures
        r == (FFT_BUF_SIZE - FFT_BUF_SLIDE_SIZE) * CHANNELS,
{
    (FFT_BUF_SIZE - FFT_BUF_SLIDE_SIZE) * CHANNELS
}

/// The FIFO's stall state: since when it stalls (daemon clock, ns) and
/// whether the spectrum was already cleared for this stall.
pub struct StallState {
    pub since: Option<u64>,
    pub cleared: bool,
}

/// What a round without data does.
pub enum StallAction {
    /// Note when the stall began.
    Begin,
    /// Clear the spectrum and publish it.
    ClearSpectrum,
    /// Drop the samples and reopen the FIFO.
    Reopen,
    /// Only pad silence.
    Wait,
}

pub open spec fn stalled_for(since: u64, now: u64) -> int {
    if now >= since {
        now - since
    } else {
        0
    }
}

/// A round without data: the first one notes the time; past 50 ms the
/// spectrum is cleared once; past 1 s the FIFO is reopened and the stall
/// forgotten. Every such round pads 10 ms of silence.
pub open spec fn stall_step_spec(st: StallState, now: u64) -> (StallState, StallAction) {
    match st.since {
        None => (StallState { since: Some(now), cleared: st.cleared }, StallAction::Begin),
        Some(t) => if !st.cleared && stalled_for(t, now) > FIFO_STALL_RESET_NANOS {
            (StallState { since: Some(t), cleared: true }, StallAction::ClearSpectrum)
        } else if stalled_for(t, now) > FIFO_STALL_REOPEN_NANOS {
            (StallState { since: None, cleared: false }, StallAction::Reopen)
        } else {
            (st, StallAction::Wait)
        },
    }
}

pub fn stall_step(st: &StallState, now: u64) -> (r: (StallState, StallAction))
    ensures
        r == stall_step_spec(*st, now),
{
    match st.since {
        None => (StallState { since: Some(now), cleared: st.cleared }, StallAction::Begin),
        Some(t) => {
            let d = if now >= t {
                now - t
            } else {
                0
            };
            if !st.cleared && d > FIFO_STALL_RESET_NANOS {
                (StallState { since: Some(t), cleared: true }, StallAction::ClearSpectrum)
            } else if d > FIFO_STALL_REOPEN_NANOS {
                (StallState { since: None, cleared: false }, StallAction::Reopen)
            } else {
                (StallState { since: st.since, cleared: st.cleared }, StallAction::Wait)
            }
        },
    }
}

/// Data came: the stall is over.
pub fn stall_over() -> (r: StallState)
    ensures
        r.since is None,
        !r.cleared,
{
    StallState { since: None, cleared: false }
}

} // verus!
