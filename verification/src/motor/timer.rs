//! The pace of the game loop.

use vstd::prelude::*;

verus! {

/// What the game loop is to do at one turn.
#[derive(Clone, Copy, Debug, PartialEq, Eq, Structural)]
pub enum Tick {
    /// It is too early for a frame: sleep for so many milliseconds.
    Wait { millis: u32 },
    /// Make a frame; `elapsed` milliseconds have passed since the last
    /// one. Where `fps` is given, a second of logging is over, and so many
    /// frames were made in it.
    Frame { elapsed: u32, fps: Option<u16> },
}

/// Keeps the frames of the game loop an interval apart, and counts them by
/// the second when asked to. Times are in milliseconds, on a clock that
/// starts over after the largest `u32`.
#[derive(Clone, Copy, Debug, PartialEq, Eq, Structural)]
pub struct MotorTimer {
    pub interval: u32,
    pub last_tick: u32,
    pub last_second: u32,
    pub fps: u16,
    pub log_enabled: bool,
}

/// The time from `earlier` to `now` on a clock that starts over after the
/// largest `u32`.
pub open spec fn elapsed_between(earlier: u32, now: u32) -> u32 {
    if now >= earlier {
        (now - earlier) as u32
    } else {
        (now + 0x1_0000_0000 - earlier) as u32
    }
}

impl MotorTimer {
    /// The timer and the answer after a turn at the time `now`.
    pub open spec fn ticked(self, now: u32) -> (MotorTimer, Tick) {
        let elapsed = elapsed_between(self.last_tick, now);
        if elapsed < self.interval {
            (self, Tick::Wait { millis: (self.interval - elapsed) as u32 })
        } else if !self.log_enabled {
            (MotorTimer { last_tick: now, ..self }, Tick::Frame { elapsed, fps: None })
        } else {
            let fps = if self.fps < u16::MAX {
                (self.fps + 1) as u16
            } else {
                self.fps
            };
            if elapsed_between(self.last_second, now) > 1000 {
                (
                    MotorTimer { last_tick: now, last_second: now, fps: 0, ..self },
                    Tick::Frame { elapsed, fps: Some(fps) },
                )
            } else {
                (MotorTimer { last_tick: now, fps, ..self }, Tick::Frame { elapsed, fps: None })
            }
        }
    }

    /// A timer for `target_fps` frames a second, started at the time `now`.
    /// It does not log.
    pub fn new(target_fps: u32, now: u32) -> (timer: MotorTimer)
        requires
            target_fps > 0,
        ensures
            timer == (MotorTimer {
                interval: 1000u32 / target_fps,
                last_tick: now,
                last_second: now,
                fps: 0,
                log_enabled: false,
            }),
    {
        MotorTimer {
            interval: 1000 / target_fps,
            last_tick: now,
            last_second: now,
            fps: 0,
            log_enabled: false,
        }
    }

    /// One turn of the game loop at the time `now`: wait out the rest of
    /// the interval, or make a frame.
    pub fn tick(&mut self, now: u32) -> (tick: Tick)
        ensures
            (*final(self), tick) == old(self).ticked(now),
    {
        let elapsed = now.wrapping_sub(self.last_tick);
        if elapsed < self.interval {
            return Tick::Wait { millis: self.interval - elapsed };
        }
        self.last_tick = now;
        let mut report: Option<u16> = None;
        if self.log_enabled {
            if self.fps < u16::MAX {
                self.fps += 1;
            }
            if now.wrapping_sub(self.last_second) > 1000 {
                report = Some(self.fps);
                self.last_second = now;
                self.fps = 0;
            }
        }
        Tick::Frame { elapsed, fps: report }
    }

    pub fn set_enable_fps_log(&mut self, enabled: bool)
        ensures
            *final(self) == (MotorTimer { log_enabled: enabled, ..*old(self) }),
    {
        self.log_enabled = enabled;
    }
}

} // verus!
