//! When renders start, are cancelled and finish: the decisions the frame
//! loop takes from the time of the last input, refresh request and zoom.
//!
//! Times are milliseconds on a monotonic clock chosen by the caller; they
//! may be negative, for instants before the clock's origin.
use vstd::prelude::*;

verus! {

/// Initial redraw delay after a refresh request, in milliseconds.
pub const REFRESH_LIMIT_MS: u64 = 100;

/// Quiet time after the last zoom step before the zoom is applied.
pub const ZOOM_COOLDOWN_MS: u64 = 2000;

/// Quiet time after the last input before a full render starts.
pub const RENDER_DEBOUNCE_MS: u64 = 1200;

/// Least time between two preview renders.
pub const PREVIEW_DEBOUNCE_MS: u64 = 120;

/// Time after the last input from which the input counts as idle.
pub const INPUT_IDLE_MS: u64 = 150;

/// How far in the past the timers start.
pub const TIMERS_START_MS: i128 = 10000;

/// Timestamps the schedule can hold without its arithmetic overflowing.
pub open spec fn time_in_range(t: i128) -> bool {
    -0x4_0000_0000_0000_0000 <= t <= 0x1_0000_0000_0000_0000
}

/// A render to start: its id, and whether it is a reduced-resolution preview.
#[derive(Clone, Copy, Debug, PartialEq, Eq, Structural)]
pub struct RenderStart {
    pub id: u64,
    pub preview: bool,
}

/// What a frame has to do.
#[derive(Clone, Copy, Debug, PartialEq, Eq, Structural)]
pub struct FramePlan {
    /// The pending zoom is applied now.
    pub apply_zoom: bool,
    /// The render in flight is abandoned: workers stop once the active id
    /// is this one.
    pub cancel_with: Option<u64>,
    /// A render to start.
    pub start: Option<RenderStart>,
}

/// The render schedule of the frame loop.
pub struct RenderSchedule {
    /// Id of the latest render started.
    pub render_id: u64,
    /// A render is running and its results are awaited.
    pub compute_in_flight: bool,
    /// A full render is requested.
    pub refresh: bool,
    /// A zoom is waiting to be applied.
    pub zoom_pending: bool,
    pub last_screen_width: usize,
    pub last_screen_height: usize,
    pub last_refresh_ms: i128,
    pub last_input_ms: i128,
    pub last_zoom_input_ms: i128,
    pub last_preview_ms: i128,
    /// Least time between a refresh request and the full render.
    pub refresh_limit: u64,
    pub zoom_cooldown_ms: u64,
    pub render_debounce_ms: u64,
    pub preview_debounce_ms: u64,
    pub input_idle_ms: u64,
    /// Low-resolution previews are rendered while input is active.
    pub preview_while_interacting: bool,
}

/// Input counts as idle at `now`.
pub open spec fn input_idle(s: RenderSchedule, now: i128) -> bool {
    now - s.last_input_ms >= s.input_idle_ms
}

/// `a + 1`, wrapping round to 0.
pub open spec fn next_id(a: u64) -> u64 {
    if a == u64::MAX {
        0
    } else {
        (a + 1) as u64
    }
}

/// The schedule and the plan after deciding a frame at `now`; see
/// `RenderSchedule::plan_frame`.
pub open spec fn planned(s: RenderSchedule, now: i128) -> (RenderSchedule, FramePlan) {
    let apply_zoom = s.zoom_pending && now - s.last_zoom_input_ms >= s.zoom_cooldown_ms;
    let refresh = s.refresh || apply_zoom;
    let last_refresh = if apply_zoom {
        s.overdue_at(now)
    } else {
        s.last_refresh_ms
    };
    let idle = input_idle(s, now);
    let in_flight = s.compute_in_flight && idle;
    let preview = !idle && s.preview_while_interacting && now - s.last_preview_ms
        >= s.preview_debounce_ms && !in_flight;
    let full = refresh && idle && now - last_refresh > s.refresh_limit && now - s.last_input_ms
        >= s.render_debounce_ms && !in_flight;
    let next = RenderSchedule {
        render_id: if preview || full {
            next_id(s.render_id)
        } else {
            s.render_id
        },
        compute_in_flight: in_flight || preview || full,
        refresh: refresh && !full,
        zoom_pending: s.zoom_pending && !apply_zoom,
        last_refresh_ms: last_refresh,
        last_preview_ms: if preview {
            now
        } else {
            s.last_preview_ms
        },
        ..s
    };
    let plan = FramePlan {
        apply_zoom,
        cancel_with: if !idle && s.compute_in_flight {
            Some(next_id(s.render_id))
        } else {
            None
        },
        start: if preview {
            Some(RenderStart { id: next_id(s.render_id), preview: true })
        } else if full {
            Some(RenderStart { id: next_id(s.render_id), preview: false })
        } else {
            None
        },
    };
    (next, plan)
}

impl RenderSchedule {
    /// The timestamps are in range.
    pub open spec fn wf(&self) -> bool {
        &&& time_in_range(self.last_refresh_ms)
        &&& time_in_range(self.last_input_ms)
        &&& time_in_range(self.last_zoom_input_ms)
        &&& time_in_range(self.last_preview_ms)
    }

    /// The timestamp that makes a refresh request due at once.
    pub open spec fn overdue_at(&self, now: i128) -> i128 {
        (now - self.refresh_limit - 1) as i128
    }

    /// The schedule at program start, with a full render requested at once.
    pub fn new(now: i128, screen_width: usize, screen_height: usize) -> (s: RenderSchedule)
        requires
            0 <= now <= u64::MAX,
        ensures
            s.wf(),
            s.render_id == 0,
            !s.compute_in_flight,
            s.refresh,
            !s.zoom_pending,
            s.last_screen_width == screen_width,
            s.last_screen_height == screen_height,
            s.refresh_limit == REFRESH_LIMIT_MS,
            s.last_refresh_ms == now - REFRESH_LIMIT_MS - 1,
            s.last_input_ms == now - TIMERS_START_MS,
            s.last_zoom_input_ms == now - TIMERS_START_MS,
            s.last_preview_ms == now - TIMERS_START_MS,
            s.zoom_cooldown_ms == ZOOM_COOLDOWN_MS,
            s.render_debounce_ms == RENDER_DEBOUNCE_MS,
            s.preview_debounce_ms == PREVIEW_DEBOUNCE_MS,
            s.input_idle_ms == INPUT_IDLE_MS,
            s.preview_while_interacting,
    {
        RenderSchedule {
            render_id: 0,
            compute_in_flight: false,
            refresh: true,
            zoom_pending: false,
            last_screen_width: screen_width,
            last_screen_height: screen_height,
            last_refresh_ms: now - REFRESH_LIMIT_MS as i128 - 1,
            last_input_ms: now - TIMERS_START_MS,
            last_zoom_input_ms: now - TIMERS_START_MS,
            last_preview_ms: now - TIMERS_START_MS,
            refresh_limit: REFRESH_LIMIT_MS,
            zoom_cooldown_ms: ZOOM_COOLDOWN_MS,
            render_debounce_ms: RENDER_DEBOUNCE_MS,
            preview_debounce_ms: PREVIEW_DEBOUNCE_MS,
            input_idle_ms: INPUT_IDLE_MS,
            preview_while_interacting: true,
        }
    }

    /// Records user input at `now`.
    pub fn note_input(&mut self, now: i128)
        requires
            old(self).wf(),
            0 <= now <= u64::MAX,
        ensures
            final(self).wf(),
            *final(self) == (RenderSchedule { last_input_ms: now, ..*old(self) }),
    {
        self.last_input_ms = now;
    }

    /// Requests a full render once the view has been still long enough.
    pub fn request_refresh(&mut self, now: i128)
        requires
            old(self).wf(),
            0 <= now <= u64::MAX,
        ensures
            final(self).wf(),
            *final(self) == (RenderSchedule {
                refresh: true,
                last_refresh_ms: now,
                last_input_ms: now,
                ..*old(self)
            }),
    {
        self.refresh = true;
        self.last_refresh_ms = now;
        self.last_input_ms = now;
    }

    /// Requests a full render without the redraw delay.
    pub fn request_immediate_refresh(&mut self, now: i128)
        requires
            old(self).wf(),
            0 <= now <= u64::MAX,
        ensures
            final(self).wf(),
            *final(self) == (RenderSchedule {
                refresh: true,
                last_refresh_ms: old(self).overdue_at(now),
                last_input_ms: now,
                ..*old(self)
            }),
    {
        self.refresh = true;
        self.last_refresh_ms = now - self.refresh_limit as i128 - 1;
        self.last_input_ms = now;
    }

    /// Records a zoom step; the zoom is applied after the cooldown.
    pub fn note_zoom(&mut self, now: i128)
        requires
            old(self).wf(),
            0 <= now <= u64::MAX,
        ensures
            final(self).wf(),
            *final(self) == (RenderSchedule {
                zoom_pending: true,
                last_zoom_input_ms: now,
                last_input_ms: now,
                ..*old(self)
            }),
    {
        self.zoom_pending = true;
        self.last_zoom_input_ms = now;
        self.last_input_ms = now;
    }

    /// Notes the screen size at `now`; a change to a non-empty size
    /// abandons the render in flight and requests a full render at once.
    /// Returns whether the size changed (the caches are then stale).
    pub fn check_resize(&mut self, now: i128, width: usize, height: usize) -> (changed: bool)
        requires
            old(self).wf(),
            0 <= now <= u64::MAX,
        ensures
            final(self).wf(),
            changed == (width != 0 && height != 0 && (width != old(self).last_screen_width
                || height != old(self).last_screen_height)),
            changed ==> *final(self) == (RenderSchedule {
                last_screen_width: width,
                last_screen_height: height,
                compute_in_flight: false,
                refresh: true,
                last_refresh_ms: old(self).overdue_at(now),
                ..*old(self)
            }),
            !changed ==> *final(self) == *old(self),
    {
        if width != 0 && height != 0 && (width != self.last_screen_width || height
            != self.last_screen_height) {
            self.last_screen_width = width;
            self.last_screen_height = height;
            self.compute_in_flight = false;
            self.refresh = true;
            self.last_refresh_ms = now - self.refresh_limit as i128 - 1;
            true
        } else {
            false
        }
    }

    /// Whether results of render `id` are still wanted.
    pub fn is_current(&self, id: u64) -> (r: bool)
        ensures
            r == (id == self.render_id),
    {
        id == self.render_id
    }

    /// Render `id` reported that it finished.  Returns whether it is the
    /// latest render; only then is nothing in flight any more.
    pub fn render_done(&mut self, id: u64) -> (accepted: bool)
        ensures
            accepted == (id == old(self).render_id),
            accepted ==> *final(self) == (RenderSchedule { compute_in_flight: false, ..*old(self) }),
            !accepted ==> *final(self) == *old(self),
    {
        if id == self.render_id {
            self.compute_in_flight = false;
            true
        } else {
            false
        }
    }

    /// Decides, at `now`, whether the pending zoom is applied, whether the
    /// render in flight is abandoned, and which render starts.
    ///
    /// A pending zoom is applied once the zoom cooldown has passed since the
    /// last zoom step, and requests a full render at once.  While input is
    /// active a render in flight is abandoned, and a preview starts when
    /// previews are enabled and the preview debounce has passed.  Once input
    /// is idle, a requested full render starts when the redraw delay has
    /// passed since the request and the render debounce since the last
    /// input.  Nothing starts while a render is in flight.
    pub fn plan_frame(&mut self, now: i128) -> (plan: FramePlan)
        requires
            old(self).wf(),
            0 <= now <= u64::MAX,
        ensures
            final(self).wf(),
            (*final(self), plan) == planned(*old(self), now),
    {
        let apply_zoom = self.zoom_pending && now - self.last_zoom_input_ms
            >= self.zoom_cooldown_ms as i128;
        if apply_zoom {
            self.refresh = true;
            self.last_refresh_ms = now - self.refresh_limit as i128 - 1;
            self.zoom_pending = false;
        }
        let idle = now - self.last_input_ms >= self.input_idle_ms as i128;
        let mut cancel_with: Option<u64> = None;
        if !idle && self.compute_in_flight {
            cancel_with = Some(self.render_id.wrapping_add(1));
            self.compute_in_flight = false;
        }
        let mut start: Option<RenderStart> = None;
        if !idle && self.preview_while_interacting {
            let preview_due = now - self.last_preview_ms >= self.preview_debounce_ms as i128;
            if preview_due && !self.compute_in_flight {
                self.render_id = self.render_id.wrapping_add(1);
                self.compute_in_flight = true;
                self.last_preview_ms = now;
                start = Some(RenderStart { id: self.render_id, preview: true });
            }
        }
        if self.refresh && idle && now - self.last_refresh_ms > self.refresh_limit as i128 && now
            - self.last_input_ms >= self.render_debounce_ms as i128 {
            if !self.compute_in_flight {
                self.render_id = self.render_id.wrapping_add(1);
                self.refresh = false;
                self.compute_in_flight = true;
                start = Some(RenderStart { id: self.render_id, preview: false });
            }
        }
        FramePlan { apply_zoom, cancel_with, start }
    }
}

/// A requested full render is served: once input has been idle for the idle
/// time and the render debounce, the redraw delay has passed since the
/// request and no render is in flight, the frame starts a full render with
/// the next id and the request is cleared.
pub proof fn lemma_refresh_is_served(s: RenderSchedule, now: i128)
    requires
        s.refresh,
        !s.compute_in_flight,
        input_idle(s, now),
        now - s.last_input_ms >= s.render_debounce_ms,
        now - s.last_refresh_ms > s.refresh_limit,
    ensures
        planned(s, now).1.start == Some(RenderStart { id: next_id(s.render_id), preview: false }),
        !planned(s, now).0.refresh,
        planned(s, now).0.compute_in_flight,
        planned(s, now).0.render_id == next_id(s.render_id),
{
}

/// Renders run one at a time.
///
/// A render starts only when no render is left in flight (none was, or the
/// one in flight is abandoned in the same frame); it takes the next id and
/// is then in flight.  Previews start only while input is active, full
/// renders only while it is idle.  Abandoning a render moves the active id
/// off the abandoned render's id, so its workers stop.  Without a start the
/// id stays.
pub proof fn lemma_one_render_at_a_time(s: RenderSchedule, now: i128)
    ensures
        planned(s, now).1.start matches Some(st) ==> {
            &&& st.id == next_id(s.render_id)
            &&& planned(s, now).0.render_id == st.id
            &&& planned(s, now).0.compute_in_flight
            &&& (!s.compute_in_flight || planned(s, now).1.cancel_with is Some)
            &&& (st.preview <==> !input_idle(s, now))
        },
        planned(s, now).1.start is None ==> planned(s, now).0.render_id == s.render_id,
        planned(s, now).1.cancel_with matches Some(c) ==> c != s.render_id,
{
}

/// A full-render request stays until a full render starts.
///
/// After a frame the request is set exactly when it was set before (or the
/// frame applied the pending zoom, which requests one) and the frame did
/// not start a full-resolution render: a preview leaves the request in
/// place, so the full render still follows once input is idle.
pub proof fn lemma_refresh_cleared_only_by_full_render(s: RenderSchedule, now: i128)
    ensures
        planned(s, now).0.refresh == ((s.refresh || planned(s, now).1.apply_zoom) && !(planned(
            s,
            now,
        ).1.start matches Some(st) && !st.preview)),
        planned(s, now).1.start matches Some(st) && st.preview ==> planned(s, now).0.refresh
            == (s.refresh || planned(s, now).1.apply_zoom),
{
}

} // verus!
