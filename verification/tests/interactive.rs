use automancy::gui::interactive::{EventResponse, Interactive, InteractiveEvent, InteractiveWidget};

fn press(inside: bool) -> InteractiveEvent {
    InteractiveEvent::PrimaryButton { down: true, inside }
}

fn release(inside: bool) -> InteractiveEvent {
    InteractiveEvent::PrimaryButton { down: false, inside }
}

#[test]
fn fresh_area_reports_nothing() {
    let mut w = InteractiveWidget::new();
    let r = w.update(Interactive::new());
    assert!(!r.hovering);
    assert!(!r.clicked);
}

#[test]
fn press_and_release_inside_is_one_click() {
    let mut w = InteractiveWidget::new();
    assert_eq!(w.event(&press(true)), EventResponse::Sink);
    assert_eq!(w.event(&release(true)), EventResponse::Sink);
    let first = w.update(Interactive::new());
    assert!(first.clicked);
    let second = w.update(Interactive::new());
    assert!(!second.clicked);
}

#[test]
fn release_without_press_bubbles_and_does_not_click() {
    let mut w = InteractiveWidget::new();
    assert_eq!(w.event(&release(true)), EventResponse::Bubble);
    assert!(!w.update(Interactive::new()).clicked);
}

#[test]
fn release_outside_cancels_the_press() {
    let mut w = InteractiveWidget::new();
    w.event(&press(true));
    assert_eq!(w.event(&release(false)), EventResponse::Bubble);
    assert_eq!(w.event(&release(true)), EventResponse::Bubble);
    assert!(!w.update(Interactive::new()).clicked);
}

#[test]
fn press_outside_is_ignored() {
    let mut w = InteractiveWidget::new();
    assert_eq!(w.event(&press(false)), EventResponse::Bubble);
    assert_eq!(w.event(&release(true)), EventResponse::Bubble);
    assert!(!w.update(Interactive::new()).clicked);
}

#[test]
fn hovering_follows_enter_and_leave() {
    let mut w = InteractiveWidget::new();
    assert_eq!(w.event(&InteractiveEvent::MouseEnter), EventResponse::Sink);
    assert_eq!(w.event(&InteractiveEvent::Other), EventResponse::Bubble);
    assert!(w.update(Interactive::new()).hovering);
    assert_eq!(w.event(&InteractiveEvent::MouseLeave), EventResponse::Sink);
    assert!(!w.update(Interactive::new()).hovering);
}

#[test]
fn pending_click_survives_later_events() {
    let mut w = InteractiveWidget::new();
    w.event(&press(true));
    w.event(&release(true));
    w.event(&InteractiveEvent::MouseLeave);
    w.event(&press(false));
    let r = w.update(Interactive::new());
    assert!(r.clicked);
    assert!(!r.hovering);
}
