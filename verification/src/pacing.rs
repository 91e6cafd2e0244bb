//! When to draw, to sleep, and to look for changes. All times are nanoseconds on one clock that
//! never runs backwards.

use vstd::prelude::*;

verus! {

/// The time from `since` to `now`; none where the clock has not reached `since` yet.
pub open spec fn time_since(now: u64, since: u64) -> int {
    if now >= since {
        now - since
    } else {
        0
    }
}

/// Something that is done again when a period has passed since it was last done.
#[derive(Debug, Clone, Copy, PartialEq, Eq)]
pub struct Throttle {
    pub last: u64,
    pub period: u64,
}

impl Throttle {
    /// Whether the period has passed.
    pub open spec fn passed(self, now: u64) -> bool {
        time_since(now, self.last) >= self.period
    }

    /// The throttle after it was looked at: the period starts anew once it has passed.
    pub open spec fn looked_at(self, now: u64) -> Throttle {
        if self.passed(now) {
            Throttle { last: now, period: self.period }
        } else {
            self
        }
    }

    /// The first time comes a period after `now`.
    pub fn new(now: u64, period: u64) -> (t: Self)
        ensures
            t == (Throttle { last: now, period }),
    {
        Throttle { last: now, period }
    }

    /// Whether it is time again; if so, the period starts anew.
    pub fn due(&mut self, now: u64) -> (due: bool)
        ensures
            due == old(self).passed(now),
            *final(self) == old(self).looked_at(now),
    {
        if now.saturating_sub(self.last) >= self.period {
            self.last = now;
            true
        } else {
            false
        }
    }
}

/// The clock of a render loop: when the particles were last advanced, and how long a frame lasts.
#[derive(Debug, Clone, Copy, PartialEq, Eq)]
pub struct FrameClock {
    pub last_tick: u64,
    pub interval: u64,
}

impl FrameClock {
    /// How long to sleep until the next frame, if it is not time already.
    pub open spec fn remaining(self, now: u64) -> Option<u64> {
        if time_since(now, self.last_tick) < self.interval {
            Some((self.interval - time_since(now, self.last_tick)) as u64)
        } else {
            None
        }
    }

    /// Starts the clock.
    pub fn new(now: u64, interval: u64) -> (c: Self)
        ensures
            c == (FrameClock { last_tick: now, interval }),
    {
        FrameClock { last_tick: now, interval }
    }

    /// Changes how long a frame lasts.
    pub fn set_interval(&mut self, interval: u64)
        ensures
            *final(self) == (FrameClock { interval, ..*old(self) }),
    {
        self.interval = interval;
    }

    /// Starts a frame and returns by how much time the particles advance. With nothing to draw
    /// there is no frame, and the time that passes is not made up for later.
    pub fn begin_frame(&mut self, quiet: bool, now: u64) -> (dt: Option<u64>)
        ensures
            *final(self) == (FrameClock { last_tick: now, ..*old(self) }),
            dt is None <==> quiet,
            dt matches Some(d) ==> d == time_since(now, old(self).last_tick),
    {
        let dt: u64 = now.saturating_sub(self.last_tick);
        self.last_tick = now;
        if quiet {
            None
        } else {
            Some(dt)
        }
    }

    /// How long to sleep until the next frame; `None` if it is time already.
    pub fn pause(&self, now: u64) -> (pause: Option<u64>)
        ensures
            pause == self.remaining(now),
    {
        let elapsed: u64 = now.saturating_sub(self.last_tick);
        if elapsed < self.interval {
            Some(self.interval - elapsed)
        } else {
            None
        }
    }
}

/// Watches the configuration file by the time of its last change.
#[derive(Debug, Clone, Copy, PartialEq, Eq)]
pub struct ConfigWatch {
    /// Whether there is a file to watch.
    pub watched: bool,
    /// When the file was last changed, in nanoseconds since the epoch, if that is known.
    pub mtime: Option<i128>,
}

impl ConfigWatch {
    /// Whether the file has another time than the one remembered.
    pub open spec fn differs(self, current: Option<i128>) -> bool {
        self.watched && current != self.mtime
    }

    /// The watch after it saw the file's time, and whether the file is loaded for it.
    pub open spec fn seen(self, current: Option<i128>, load: bool) -> ConfigWatch {
        ConfigWatch {
            watched: self.watched,
            mtime: if load {
                current
            } else {
                self.mtime
            },
        }
    }

    /// Remembers the time that the file has now.
    pub fn new(watched: bool, mtime: Option<i128>) -> (w: Self)
        ensures
            w == (ConfigWatch { watched, mtime }),
    {
        ConfigWatch { watched, mtime }
    }

    /// Whether the file has to be loaded again, since its time changed; if so, the new time is
    /// remembered, whether or not loading succeeds.
    pub fn changed(&mut self, current: Option<i128>) -> (load: bool)
        ensures
            load == old(self).differs(current),
            *final(self) == old(self).seen(current, load),
    {
        let same = match (current, self.mtime) {
            (Some(a), Some(b)) => a == b,
            (None, None) => true,
            _ => false,
        };
        if !self.watched || same {
            return false;
        }
        self.mtime = current;
        true
    }

    /// Like `changed`, but the file is also loaded if that was requested. A request is used up
    /// only where the time had not changed anyway.
    pub fn changed_or_requested(&mut self, current: Option<i128>, requested: &mut bool) -> (load:
        bool)
        ensures
            load == (old(self).watched && (old(self).differs(current) || *old(requested))),
            *final(self) == old(self).seen(current, load),
            *final(requested) == (*old(requested) && (!old(self).watched || old(self).differs(
                current,
            ))),
    {
        if self.changed(current) {
            return true;
        }
        if self.watched && *requested {
            *requested = false;
            self.mtime = current;
            return true;
        }
        false
    }
}

/// A change of the file is noticed once: the same time again does not load it a second time.
pub proof fn a_change_is_loaded_once(watch: ConfigWatch, current: Option<i128>)
    ensures
        !watch.seen(current, watch.differs(current)).differs(current),
{
}

/// A throttle fires exactly if its period has passed since it fired last, and then not before
/// another period has passed. Looking at it in between changes nothing.
pub proof fn a_throttle_fires_once_per_period(throttle: Throttle, now: u64, later: u64)
    requires
        now <= later,
    ensures
        now >= throttle.last ==> (throttle.passed(now) <==> now - throttle.last
            >= throttle.period),
        throttle.passed(now) ==> throttle.looked_at(now).last == now,
        throttle.passed(now) ==> (throttle.looked_at(now).passed(later) <==> later - now
            >= throttle.period),
        !throttle.passed(now) ==> throttle.looked_at(now) == throttle,
        throttle.looked_at(now).period == throttle.period,
{
}

/// Where the clock has not reached the last time yet, no time has passed.
pub proof fn time_never_runs_backwards(throttle: Throttle, clock: FrameClock, now: u64)
    ensures
        now < throttle.last ==> (throttle.passed(now) <==> throttle.period == 0),
        now < clock.last_tick && clock.interval > 0 ==> clock.remaining(now) == Some(
            clock.interval,
        ),
        forall|since: u64| #[trigger] time_since(now, since) + since == if now >= since {
            now as int
        } else {
            since as int
        },
{
}

/// The pause after a frame ends exactly one interval after the frame began; a frame that took the
/// whole interval has none.
pub proof fn a_pause_completes_the_interval(clock: FrameClock, now: u64)
    requires
        clock.last_tick <= now,
    ensures
        clock.remaining(now) matches Some(p) ==> p > 0 && now + p == clock.last_tick
            + clock.interval,
        clock.remaining(now) is None <==> now >= clock.last_tick + clock.interval,
{
}

/// A file that is watched differs exactly if its time is another one, known or not; a file that is
/// not watched never does. Only what is loaded is remembered.
pub proof fn any_other_time_is_a_change(watch: ConfigWatch, current: Option<i128>, load: bool)
    ensures
        watch.differs(current) <==> watch.watched && current != watch.mtime,
        watch.seen(current, load).watched == watch.watched,
        watch.seen(current, true).mtime == current,
        watch.seen(current, false) == watch,
{
}

} // verus!
