//! Playback core for timed musical note events.
//!
//! Two independent pieces make up the library: a playback clock that advances
//! a cursor over an immutable, time-ordered event sequence and hands out the
//! events crossed by each advance ([`clock`]), and a play-along engine that
//! reconciles live user key presses against the notes the sequence asks for,
//! within a bounded leeway window ([`play_along`]).

pub mod clock;
pub mod play_along;
