use fractal_explorer::schedule::{FramePlan, RenderSchedule, RenderStart};

fn nothing() -> FramePlan {
    FramePlan { apply_zoom: false, cancel_with: None, start: None }
}

#[test]
fn first_frame_starts_a_full_render() {
    let mut s = RenderSchedule::new(0, 800, 600);
    let plan = s.plan_frame(0);
    assert_eq!(
        plan,
        FramePlan { apply_zoom: false, cancel_with: None, start: Some(RenderStart { id: 1, preview: false }) }
    );
    assert!(s.compute_in_flight);
    assert!(!s.refresh);
    // Nothing more while it runs.
    assert_eq!(s.plan_frame(5), nothing());
}

#[test]
fn input_cancels_and_previews() {
    let mut s = RenderSchedule::new(0, 800, 600);
    s.plan_frame(0);
    s.note_input(1000);
    let plan = s.plan_frame(1010);
    assert_eq!(plan.cancel_with, Some(2));
    assert_eq!(plan.start, Some(RenderStart { id: 2, preview: true }));
    // The preview debounce holds the next one back.
    s.note_input(1020);
    let plan = s.plan_frame(1030);
    assert_eq!(plan.cancel_with, Some(3));
    assert_eq!(plan.start, None);
    assert!(!s.compute_in_flight);
    let plan = s.plan_frame(1131);
    assert_eq!(plan.start, Some(RenderStart { id: 3, preview: true }));
}

#[test]
fn refresh_waits_for_debounce() {
    let mut s = RenderSchedule::new(0, 800, 600);
    s.plan_frame(0);
    assert!(s.render_done(1));
    s.preview_while_interacting = false;
    s.request_refresh(5000);
    assert_eq!(s.plan_frame(5100).start, None);
    assert_eq!(s.plan_frame(6199).start, None);
    assert_eq!(s.plan_frame(6200).start, Some(RenderStart { id: 2, preview: false }));
}

#[test]
fn immediate_refresh_skips_redraw_delay() {
    let mut s = RenderSchedule::new(0, 800, 600);
    s.plan_frame(0);
    s.render_done(1);
    s.preview_while_interacting = false;
    s.request_immediate_refresh(3000);
    assert_eq!(s.last_refresh_ms, 3000 - 101);
    assert_eq!(s.plan_frame(4200).start, Some(RenderStart { id: 2, preview: false }));
}

#[test]
fn zoom_applies_after_cooldown() {
    let mut s = RenderSchedule::new(0, 800, 600);
    s.plan_frame(0);
    s.render_done(1);
    s.note_zoom(10_000);
    assert!(!s.plan_frame(11_999).apply_zoom);
    let plan = s.plan_frame(12_000);
    assert!(plan.apply_zoom);
    assert_eq!(plan.start, Some(RenderStart { id: 2, preview: false }));
    assert!(!s.zoom_pending);
}

#[test]
fn stale_results_are_ignored() {
    let mut s = RenderSchedule::new(0, 800, 600);
    s.plan_frame(0);
    assert!(!s.is_current(0));
    assert!(s.is_current(1));
    assert!(!s.render_done(7));
    assert!(s.compute_in_flight);
}

#[test]
fn resize_requests_a_new_render() {
    let mut s = RenderSchedule::new(0, 800, 600);
    s.plan_frame(0);
    assert!(!s.check_resize(10, 800, 600));
    assert!(!s.check_resize(10, 0, 600));
    assert!(s.check_resize(10, 1024, 768));
    assert!(!s.compute_in_flight);
    assert!(s.refresh);
    assert_eq!(s.plan_frame(10).start, Some(RenderStart { id: 2, preview: false }));
}
