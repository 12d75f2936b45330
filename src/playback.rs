use vstd::prelude::*;

verus! {

/// Which way a relative seek goes.
#[derive(Clone, Copy, Debug, PartialEq, Eq, Structural)]
pub enum SeekDirection {
    Forward,
    Backwards,
}

/// How replay gain is applied to playback.
#[derive(Clone, Copy, Debug, PartialEq, Eq, Structural)]
pub enum ReplayGainMode {
    Album,
    Track,
    Off,
}

/// The audio filter to install for a replay-gain mode: the replay-gain
/// filter chain or a pass-through, and whether the chain uses album gain.
#[derive(Clone, Copy, Debug, PartialEq, Eq, Structural)]
pub struct GainFilter {
    pub use_replaygain: bool,
    pub album_mode: bool,
}

/// Where a relative seek of `offset` seconds from `position` lands in a track
/// of `duration` seconds. Backwards stops at the start; forwards stops at the
/// end, and a track of unknown (zero) duration cannot be sought forwards.
pub open spec fn seek_destination_spec(position: int, duration: int, offset: int, direction: SeekDirection) -> Option<int> {
    match direction {
        SeekDirection::Backwards => Some(if position >= offset { position - offset } else { 0 }),
        SeekDirection::Forward => if duration == 0 {
            None
        } else if position + offset <= duration {
            Some(position + offset)
        } else {
            Some(duration)
        },
    }
}

pub fn seek_destination(position: u64, duration: u64, offset: u64, direction: SeekDirection) -> (r: Option<u64>)
    ensures
        match r {
            Some(d) => seek_destination_spec(position as int, duration as int, offset as int, direction)
                == Some(d as int),
            None => seek_destination_spec(position as int, duration as int, offset as int, direction)
                is None,
        },
{
    match direction {
        SeekDirection::Backwards => if position >= offset {
            Some(position - offset)
        } else {
            Some(0)
        },
        SeekDirection::Forward => if duration == 0 {
            None
        } else if position <= duration && offset <= duration - position {
            Some(position + offset)
        } else {
            Some(duration)
        },
    }
}

pub fn gain_filter(mode: ReplayGainMode) -> (r: GainFilter)
    ensures
        r.use_replaygain == (mode != ReplayGainMode::Off),
        r.album_mode == (mode != ReplayGainMode::Track),
{
    match mode {
        ReplayGainMode::Album => GainFilter { use_replaygain: true, album_mode: true },
        ReplayGainMode::Track => GainFilter { use_replaygain: true, album_mode: false },
        ReplayGainMode::Off => GainFilter { use_replaygain: false, album_mode: true },
    }
}

/// Start and end of the current track on the wall clock, in seconds since
/// the epoch, from the time `now`, the playback position and the track
/// length; `None` when the position lies after `now` or the end does not fit
/// a signed 64-bit timestamp.
pub fn presence_timestamps(now: u64, position: u64, length: u64) -> (r: Option<(i64, i64)>)
    ensures
        r is Some <==> position <= now && now - position + length <= i64::MAX,
        r matches Some(t) ==> t.0 == now - position && t.1 == now - position + length,
{
    if position > now {
        return None;
    }
    let start = now - position;
    if start > i64::MAX as u64 || length > i64::MAX as u64 - start {
        return None;
    }
    Some((start as i64, (start + length) as i64))
}

} // verus!
