use vstd::prelude::*;

verus! {

/// The properties of a clickable area of the interface. It has none: the
/// area is whatever its children cover.
#[derive(Copy, Clone, Debug)]
pub struct Interactive {}

impl Interactive {
    pub fn new() -> (i: Interactive) {
        Interactive {}
    }
}

/// The pointer events that a clickable area reacts to.
#[derive(Copy, Clone, Debug, PartialEq, Eq, Structural)]
pub enum InteractiveEvent {
    /// The pointer moved onto the area.
    MouseEnter,
    /// The pointer left the area.
    MouseLeave,
    /// The primary button went down or up, with the pointer inside the
    /// area or not.
    PrimaryButton { down: bool, inside: bool },
    /// Any other event.
    Other,
}

/// Whether an event stops at the area or goes on to what lies beneath it.
#[derive(Copy, Clone, Debug, PartialEq, Eq, Structural)]
pub enum EventResponse {
    Sink,
    Bubble,
}

/// What a clickable area reports once per frame.
#[derive(Copy, Clone, Debug, PartialEq, Eq, Structural)]
pub struct InteractiveResponse {
    /// The pointer is over the area.
    pub hovering: bool,
    /// The area was clicked since the last report.
    pub clicked: bool,
}

/// What a clickable area remembers between events.
#[derive(Copy, Clone, Debug, PartialEq, Eq, Structural)]
pub struct InteractiveState {
    /// The pointer is over the area.
    pub hovering: bool,
    /// The primary button went down inside the area and has not come up.
    pub mouse_down: bool,
    /// A click has happened and not been reported yet.
    pub clicked: bool,
}

/// The state and answer after one event.
pub open spec fn on_event(s: InteractiveState, e: InteractiveEvent) -> (InteractiveState, EventResponse) {
    match e {
        InteractiveEvent::MouseEnter => (InteractiveState { hovering: true, ..s }, EventResponse::Sink),
        InteractiveEvent::MouseLeave => (InteractiveState { hovering: false, ..s }, EventResponse::Sink),
        InteractiveEvent::PrimaryButton { down, inside } => {
            if inside {
                if down {
                    (InteractiveState { mouse_down: true, ..s }, EventResponse::Sink)
                } else if s.mouse_down {
                    (InteractiveState { mouse_down: false, clicked: true, ..s }, EventResponse::Sink)
                } else {
                    (s, EventResponse::Bubble)
                }
            } else if !down {
                (InteractiveState { mouse_down: false, ..s }, EventResponse::Bubble)
            } else {
                (s, EventResponse::Bubble)
            }
        },
        InteractiveEvent::Other => (s, EventResponse::Bubble),
    }
}

/// The state and report after a frame's update: the pending click is
/// reported once and then cleared.
pub open spec fn on_update(s: InteractiveState) -> (InteractiveState, InteractiveResponse) {
    (
        InteractiveState { clicked: false, ..s },
        InteractiveResponse { hovering: s.hovering, clicked: s.clicked },
    )
}

/// A clickable area: it tracks hovering and turns a press and a release of
/// the primary button inside it into one click.
#[derive(Debug)]
pub struct InteractiveWidget {
    props: Interactive,
    hovering: bool,
    mouse_down: bool,
    clicked: bool,
}

impl View for InteractiveWidget {
    type V = InteractiveState;

    closed spec fn view(&self) -> InteractiveState {
        InteractiveState { hovering: self.hovering, mouse_down: self.mouse_down, clicked: self.clicked }
    }
}

impl InteractiveWidget {
    pub fn new() -> (w: InteractiveWidget)
        ensures
            w@ == (InteractiveState { hovering: false, mouse_down: false, clicked: false }),
    {
        InteractiveWidget { props: Interactive::new(), hovering: false, mouse_down: false, clicked: false }
    }

    /// Takes the frame's properties and reports hovering and a pending
    /// click, which it then clears.
    pub fn update(&mut self, props: Interactive) -> (r: InteractiveResponse)
        ensures
            (final(self)@, r) == on_update(old(self)@),
    {
        self.props = props;
        let clicked = self.clicked;
        self.clicked = false;
        InteractiveResponse { hovering: self.hovering, clicked }
    }

    /// Reacts to one pointer event.
    pub fn event(&mut self, event: &InteractiveEvent) -> (r: EventResponse)
        ensures
            (final(self)@, r) == on_event(old(self)@, *event),
    {
        match event {
            InteractiveEvent::MouseEnter => {
                self.hovering = true;
                EventResponse::Sink
            },
            InteractiveEvent::MouseLeave => {
                self.hovering = false;
                EventResponse::Sink
            },
            InteractiveEvent::PrimaryButton { down, inside } => {
                if *inside {
                    if *down {
                        self.mouse_down = true;
                        EventResponse::Sink
                    } else if self.mouse_down {
                        self.mouse_down = false;
                        self.clicked = true;
                        EventResponse::Sink
                    } else {
                        EventResponse::Bubble
                    }
                } else {
                    if !*down {
                        self.mouse_down = false;
                    }
                    EventResponse::Bubble
                }
            },
            InteractiveEvent::Other => EventResponse::Bubble,
        }
    }
}

/// A click comes only from a release of the primary button inside the area
/// while a press that began inside it is held.
pub proof fn law_click_needs_press_then_release_inside(s: InteractiveState, e: InteractiveEvent)
    requires
        !s.clicked,
        on_event(s, e).0.clicked,
    ensures
        s.mouse_down,
        e == (InteractiveEvent::PrimaryButton { down: false, inside: true }),
{
}

/// A press and then a release inside the area make a click, which both
/// events keep to the area and the next report gives.
pub proof fn law_press_then_release_inside_clicks(s: InteractiveState)
    ensures
        ({
            let (s1, r1) = on_event(s, InteractiveEvent::PrimaryButton { down: true, inside: true });
            let (s2, r2) = on_event(s1, InteractiveEvent::PrimaryButton { down: false, inside: true });
            &&& r1 == EventResponse::Sink
            &&& r2 == EventResponse::Sink
            &&& s2.clicked
            &&& !s2.mouse_down
            &&& on_update(s2).1.clicked
        }),
{
}

/// A release outside the area cancels a press: a release inside after it
/// makes no click.
pub proof fn law_release_outside_cancels_press(s: InteractiveState)
    requires
        !s.clicked,
    ensures
        ({
            let s1 = on_event(s, InteractiveEvent::PrimaryButton { down: true, inside: true }).0;
            let s2 = on_event(s1, InteractiveEvent::PrimaryButton { down: false, inside: false }).0;
            let (s3, r3) = on_event(s2, InteractiveEvent::PrimaryButton { down: false, inside: true });
            !s3.clicked && r3 == EventResponse::Bubble
        }),
{
}

/// A click is reported by one update only; an update changes nothing else.
pub proof fn law_click_reported_once(s: InteractiveState)
    ensures
        !on_update(on_update(s).0).1.clicked,
        on_update(s).0.hovering == s.hovering,
        on_update(s).0.mouse_down == s.mouse_down,
{
}

/// No event loses a click that has not been reported.
pub proof fn law_events_keep_pending_click(s: InteractiveState, e: InteractiveEvent)
    requires
        s.clicked,
    ensures
        on_event(s, e).0.clicked,
{
}

/// Hovering follows the pointer entering and leaving the area, and nothing
/// else changes it.
pub proof fn law_hover_follows_pointer(s: InteractiveState, e: InteractiveEvent)
    ensures
        on_event(s, InteractiveEvent::MouseEnter).0.hovering,
        !on_event(s, InteractiveEvent::MouseLeave).0.hovering,
        e != InteractiveEvent::MouseEnter && e != InteractiveEvent::MouseLeave
            ==> on_event(s, e).0.hovering == s.hovering,
{
}

} // verus!
