//! Single, double and long presses of a push button, from its edges and two
//! timers.

use vstd::prelude::*;

verus! {

/// What a sequence of edges on the button means.
#[derive(Clone, Copy, Debug, PartialEq, Eq, Structural)]
pub enum ButtonAction {
    SinglePress,
    DoublePress,
    LongPress,
}

/// The line a button is wired to, and its timings in milliseconds.
pub struct ButtonListener {
    chip_path: String,
    line_offset: u32,
    debounce_ms: u64,
    double_press_ms: u64,
    long_press_ms: u64,
}

impl ButtonListener {
    pub closed spec fn chip_path_view(&self) -> Seq<char> {
        self.chip_path@
    }

    pub closed spec fn line_offset_view(&self) -> u32 {
        self.line_offset
    }

    /// `(debounce, double press, long press)` in milliseconds.
    pub closed spec fn timings(&self) -> (u64, u64, u64) {
        (self.debounce_ms, self.double_press_ms, self.long_press_ms)
    }

    /// A listener on `line_offset` of `chip_path` with 60 ms debounce, 300 ms
    /// double-press window and 800 ms long press.
    pub fn new(chip_path: &str, line_offset: u32) -> (r: Self)
        ensures
            r.chip_path_view() == chip_path@,
            r.line_offset_view() == line_offset,
            r.timings() == (60u64, 300u64, 800u64),
    {
        ButtonListener {
            chip_path: chip_path.to_owned(),
            line_offset,
            debounce_ms: 60,
            double_press_ms: 300,
            long_press_ms: 800,
        }
    }

    /// The same listener with other timings.
    pub fn with_timings(self, debounce_ms: u64, double_press_ms: u64, long_press_ms: u64) -> (r: Self)
        ensures
            r.chip_path_view() == self.chip_path_view(),
            r.line_offset_view() == self.line_offset_view(),
            r.timings() == (debounce_ms, double_press_ms, long_press_ms),
    {
        let mut s = self;
        s.debounce_ms = debounce_ms;
        s.double_press_ms = double_press_ms;
        s.long_press_ms = long_press_ms;
        s
    }

    pub fn chip_path(&self) -> (r: &str)
        ensures
            r@ == self.chip_path_view(),
    {
        self.chip_path.as_str()
    }

    pub fn line_offset(&self) -> (r: u32)
        ensures
            r == self.line_offset_view(),
    {
        self.line_offset
    }

    pub fn debounce_ms(&self) -> (r: u64)
        ensures
            r == self.timings().0,
    {
        self.debounce_ms
    }

    pub fn double_press_ms(&self) -> (r: u64)
        ensures
            r == self.timings().1,
    {
        self.double_press_ms
    }

    pub fn long_press_ms(&self) -> (r: u64)
        ensures
            r == self.timings().2,
    {
        self.long_press_ms
    }
}

pub open spec fn sat_add(a: u64, b: u64) -> u64 {
    if a + b > u64::MAX {
        u64::MAX
    } else {
        (a + b) as u64
    }
}

pub open spec fn sat_sub(a: u64, b: u64) -> u64 {
    if a >= b {
        (a - b) as u64
    } else {
        0
    }
}

/// The state of the press recogniser between events. Times are milliseconds
/// of a monotonic clock; a timer is its deadline, or `None` when disarmed.
#[derive(Clone, Copy, Debug, PartialEq, Eq, Structural)]
pub struct PressTracker {
    pub press_start: Option<u64>,
    pub click_count: u32,
    pub long_press_sent: bool,
    pub last_event: u64,
    pub long_press_timer: Option<u64>,
    pub double_click_timer: Option<u64>,
}

impl PressTracker {
    /// A tracker started at `now`, with nothing pressed and both timers disarmed.
    pub fn new(now: u64) -> (r: Self)
        ensures
            r == (PressTracker {
                press_start: None,
                click_count: 0,
                long_press_sent: false,
                last_event: now,
                long_press_timer: None,
                double_click_timer: None,
            }),
    {
        PressTracker {
            press_start: None,
            click_count: 0,
            long_press_sent: false,
            last_event: now,
            long_press_timer: None,
            double_click_timer: None,
        }
    }

    /// An edge at `now`: ignored within `debounce_ms` of the previous one. A
    /// press starts the long-press timer; a release disarms it and, unless a
    /// long press was reported, counts a click and restarts the double-click
    /// timer.
    pub fn on_edge(&mut self, timing: &ButtonListener, now: u64, pressed: bool)
        ensures
            ({
                let o = *old(self);
                let (debounce, double_ms, long_ms) = timing.timings();
                if sat_sub(now, o.last_event) < debounce {
                    *final(self) == o
                } else if pressed {
                    *final(self) == PressTracker {
                        press_start: Some(now),
                        long_press_sent: false,
                        last_event: now,
                        long_press_timer: Some(sat_add(now, long_ms)),
                        ..o
                    }
                } else if o.press_start is None {
                    *final(self) == PressTracker { last_event: now, long_press_timer: None, ..o }
                } else if o.long_press_sent {
                    *final(self) == PressTracker {
                        press_start: None,
                        click_count: 0,
                        last_event: now,
                        long_press_timer: None,
                        ..o
                    }
                } else {
                    *final(self) == PressTracker {
                        press_start: None,
                        click_count: if o.click_count < u32::MAX {
                            (o.click_count + 1) as u32
                        } else {
                            u32::MAX
                        },
                        last_event: now,
                        long_press_timer: None,
                        double_click_timer: Some(sat_add(now, double_ms)),
                        ..o
                    }
                }
            }),
    {
        if now.saturating_sub(self.last_event) < timing.debounce_ms {
            return ;
        }
        self.last_event = now;
        if pressed {
            self.press_start = Some(now);
            self.long_press_sent = false;
            self.long_press_timer = Some(now.saturating_add(timing.long_press_ms));
        } else {
            self.long_press_timer = None;
            if self.press_start.is_some() {
                self.press_start = None;
                if self.long_press_sent {
                    self.click_count = 0;
                } else {
                    self.click_count = self.click_count.saturating_add(1);
                    self.double_click_timer = Some(now.saturating_add(timing.double_press_ms));
                }
            }
        }
    }

    /// The long-press timer fired: a held button not yet reported is a long
    /// press, which cancels the clicks counted so far.
    pub fn on_long_press_timeout(&mut self) -> (r: Option<ButtonAction>)
        ensures
            ({
                let o = *old(self);
                if o.press_start is Some && !o.long_press_sent {
                    &&& r == Some(ButtonAction::LongPress)
                    &&& *final(self) == PressTracker {
                        long_press_sent: true,
                        click_count: 0,
                        long_press_timer: None,
                        ..o
                    }
                } else {
                    &&& r is None
                    &&& *final(self) == PressTracker { long_press_timer: None, ..o }
                }
            }),
    {
        let mut action = None;
        if self.press_start.is_some() && !self.long_press_sent {
            action = Some(ButtonAction::LongPress);
            self.long_press_sent = true;
            self.click_count = 0;
        }
        self.long_press_timer = None;
        action
    }

    /// The double-click timer fired: one click is a single press, more are a
    /// double press; the count restarts.
    pub fn on_double_click_timeout(&mut self) -> (r: Option<ButtonAction>)
        ensures
            r == if old(self).click_count == 1 {
                Some(ButtonAction::SinglePress)
            } else if old(self).click_count >= 2 {
                Some(ButtonAction::DoublePress)
            } else {
                None
            },
            *final(self) == (PressTracker { click_count: 0, double_click_timer: None, ..*old(self) }),
    {
        let action = if self.click_count == 1 {
            Some(ButtonAction::SinglePress)
        } else if self.click_count >= 2 {
            Some(ButtonAction::DoublePress)
        } else {
            None
        };
        self.click_count = 0;
        self.double_click_timer = None;
        action
    }
}

} // verus!
