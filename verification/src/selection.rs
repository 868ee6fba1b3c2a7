//! The selection itself: a state that follows the pointer from press to
//! release, and the shapes that show the user what is being selected.
//!
//! The caller waits for events and paints. For each event it asks
//! `Selection::handle_event` what has become of the selection and what to
//! paint, until the run is cancelled or the button is released.

use crate::geometry::{min_max, HacksawResult, Point, Rectangle};
use crate::grab::CURSOR_GRAB_TRIES;
use crate::text::{decimal, push_decimal};
use crate::window::{
    lemma_nothing_under_point_gives_root, resolve_or_root, resolved, strip_decorations,
    strippable, topmost, ChildWindow, WindowGeometry,
};
use vstd::prelude::*;

verus! {

/// The right button: pressing it cancels the run.
pub const BUTTON_RIGHT: u8 = 3;

/// The wheel, turned up.
pub const BUTTON_SCROLL_UP: u8 = 4;

/// The wheel, turned down.
pub const BUTTON_SCROLL_DOWN: u8 = 5;

/// How long to let the window manager settle after the overlay is gone,
/// before the windows are looked at, in milliseconds.
pub const SETTLE_DELAY_MS: u64 = 40;

/// What the display server reports, as far as the selection reads it.
#[derive(Clone, Copy, Debug, PartialEq, Eq, Structural)]
pub enum Event {
    ButtonPress { detail: u8, x: i16, y: i16 },
    ButtonRelease { detail: u8 },
    KeyPress,
    MotionNotify { x: i16, y: i16 },
    /// Anything else that the display server reports.
    Other,
    /// No event came: the wait for one failed, the stream of events is over.
    StreamEnded,
}

/// Why a run ended without a result.
#[derive(Clone, Copy, Debug, PartialEq, Eq, Structural)]
pub enum Cancellation {
    /// The pointer could not be grabbed.
    CursorGrabFailed,
    /// The right button was pressed.
    RightClick,
    /// The cancel key was pressed.
    KeyPress,
}

/// What to show on the overlay after an event.
#[derive(Clone, Copy, Debug, PartialEq, Eq, Structural)]
pub enum Feedback {
    /// Leave the overlay as it is.
    Unchanged,
    /// Show nothing.
    Clear,
    /// Show a frame around this area.
    Frame(Rectangle),
    /// Show the guide lines through this point.
    Guides(Point),
}

/// What an event did to the run.
#[derive(Clone, Copy, Debug, PartialEq, Eq, Structural)]
pub enum Step {
    /// The run goes on; the overlay is to show this.
    Continue(Feedback),
    /// The user gave up.
    Cancelled(Cancellation),
    /// The button was released: the selection is made.
    Released,
    /// The stream of events broke off: the run is over without a result.
    Aborted,
}

/// The state of a run.
#[derive(Clone, Copy, Debug, PartialEq, Eq, Structural)]
pub struct Selection {
    /// Where a button was last pressed.
    pub start_point: Point,
    /// Whether a drag is under way.
    pub in_selection: bool,
    /// Whether the next release belongs to a turn of the wheel.
    pub ignore_next_release: bool,
    /// What is selected so far. Without a drag it has no size.
    pub current_selection: Rectangle,
}

/// What a run that was not cancelled ends with.
#[derive(Clone, Copy, Debug, PartialEq, Eq, Structural)]
pub enum Completion {
    /// An area was dragged out: this is the result.
    Region(HacksawResult),
    /// The button was pressed and released with nothing dragged out: the
    /// result is the window at this point.
    WindowAt(Point),
}

/// How a run over a given sequence of events ends.
#[derive(Clone, Copy, Debug, PartialEq, Eq, Structural)]
pub enum Ending {
    Completed(Completion),
    Cancelled(Cancellation),
    /// The events ran out, or their stream broke off, before the run was
    /// over.
    EventsEnded,
}

/// Whether the button is the wheel.
pub open spec fn is_scroll(detail: u8) -> bool {
    detail == BUTTON_SCROLL_UP || detail == BUTTON_SCROLL_DOWN
}

/// The smallest area that holds both points: its corner is the lesser of
/// each coordinate, its size is how far the points lie apart.
pub open spec fn spanned(a: Point, b: Point) -> Rectangle {
    Rectangle {
        x: if a.x < b.x {
            a.x
        } else {
            b.x
        },
        y: if a.y < b.y {
            a.y
        } else {
            b.y
        },
        width: (if a.x < b.x {
            b.x - a.x
        } else {
            a.x - b.x
        }) as u16,
        height: (if a.y < b.y {
            b.y - a.y
        } else {
            a.y - b.y
        }) as u16,
    }
}

/// The area between two points.
pub fn span(a: Point, b: Point) -> (r: Rectangle)
    ensures
        r == spanned(a, b),
{
    let (left, right) = min_max(a.x, b.x);
    let (top, bottom) = min_max(a.y, b.y);
    Rectangle {
        x: left,
        y: top,
        width: (right as i32 - left as i32) as u16,
        height: (bottom as i32 - top as i32) as u16,
    }
}

impl Cancellation {
    /// What `message` returns.
    pub open spec fn message_text(self) -> Seq<char> {
        match self {
            Cancellation::CursorGrabFailed => "Failed to grab cursor after "@ + decimal(
                CURSOR_GRAB_TRIES as nat,
            ) + " tries, giving up"@,
            Cancellation::RightClick => "Exiting due to right click"@,
            Cancellation::KeyPress => "Exiting due to ESC key press"@,
        }
    }

    /// The reason in words, for the user.
    pub fn message(&self) -> (text: String)
        ensures
            text@ == self.message_text(),
    {
        match self {
            Cancellation::CursorGrabFailed => {
                let mut text = String::from_str("Failed to grab cursor after ");
                push_decimal(&mut text, CURSOR_GRAB_TRIES as u32);
                text.append(" tries, giving up");
                text
            },
            Cancellation::RightClick => String::from_str("Exiting due to right click"),
            Cancellation::KeyPress => String::from_str("Exiting due to ESC key press"),
        }
    }
}

impl Selection {
    /// The state that a run begins in: nothing pressed, nothing selected.
    pub open spec fn initial() -> Selection {
        Selection {
            start_point: Point { x: 0, y: 0 },
            in_selection: false,
            ignore_next_release: false,
            current_selection: Rectangle { x: 0, y: 0, width: 0, height: 0 },
        }
    }

    /// Whether nothing has been dragged out.
    pub open spec fn is_empty(self) -> bool {
        self.current_selection.width == 0 && self.current_selection.height == 0
    }

    /// The state after an event, and what the event did to the run.
    ///
    /// A press of the right button cancels. Any other press marks the start
    /// point and clears the overlay; it begins a drag unless it comes from
    /// the wheel, whose release is then not to count. A key press cancels:
    /// the only key that reaches the run is the cancel key. A motion
    /// stretches the selection from the start point to the pointer while a
    /// drag is under way, and else only moves its corner. A release of the
    /// wheel is passed over, and so is the one release after a press of the
    /// wheel; any other release ends the run. When the stream of events
    /// breaks off, the run is aborted.
    pub open spec fn after(self, event: Event, guides: bool) -> (Selection, Step) {
        match event {
            Event::ButtonPress { detail, x, y } => {
                if detail == BUTTON_RIGHT {
                    (self, Step::Cancelled(Cancellation::RightClick))
                } else {
                    (
                        Selection {
                            start_point: Point { x, y },
                            in_selection: !is_scroll(detail),
                            ignore_next_release: is_scroll(detail),
                            current_selection: self.current_selection,
                        },
                        Step::Continue(Feedback::Clear),
                    )
                }
            },
            Event::KeyPress => (self, Step::Cancelled(Cancellation::KeyPress)),
            Event::MotionNotify { x, y } => {
                let area = spanned(Point { x, y }, self.start_point);
                if self.in_selection {
                    (
                        Selection { current_selection: area, ..self },
                        Step::Continue(Feedback::Frame(area)),
                    )
                } else {
                    (
                        Selection {
                            current_selection: Rectangle {
                                x: area.x,
                                y: area.y,
                                width: 0,
                                height: 0,
                            },
                            ..self
                        },
                        Step::Continue(
                            if guides {
                                Feedback::Guides(Point { x, y })
                            } else {
                                Feedback::Unchanged
                            },
                        ),
                    )
                }
            },
            Event::ButtonRelease { detail } => {
                if is_scroll(detail) {
                    (self, Step::Continue(Feedback::Unchanged))
                } else if self.ignore_next_release {
                    (
                        Selection { ignore_next_release: false, ..self },
                        Step::Continue(Feedback::Unchanged),
                    )
                } else {
                    (self, Step::Released)
                }
            },
            Event::Other => (self, Step::Continue(Feedback::Unchanged)),
            Event::StreamEnded => (self, Step::Aborted),
        }
    }

    /// What a released selection comes to: the area that was dragged out,
    /// as an area of the root window, or, where nothing was dragged out, the
    /// point at which to look for a window.
    pub open spec fn completion(self, root: u32) -> Completion {
        if self.is_empty() {
            Completion::WindowAt(self.start_point)
        } else {
            Completion::Region(HacksawResult { window: root, rect: self.current_selection })
        }
    }

    /// How a run ends that begins in this state and meets these events, one
    /// after the other.
    pub open spec fn run(self, events: Seq<Event>, root: u32) -> Ending
        decreases events.len(),
    {
        if events.len() == 0 {
            Ending::EventsEnded
        } else {
            let (next, step) = self.after(events[0], false);
            match step {
                Step::Continue(_) => next.run(events.skip(1), root),
                Step::Cancelled(reason) => Ending::Cancelled(reason),
                Step::Released => Ending::Completed(next.completion(root)),
                Step::Aborted => Ending::EventsEnded,
            }
        }
    }

    /// The state that a run begins in.
    pub fn new() -> (state: Selection)
        ensures
            state == Selection::initial(),
    {
        Selection {
            start_point: Point { x: 0, y: 0 },
            in_selection: false,
            ignore_next_release: false,
            current_selection: Rectangle { x: 0, y: 0, width: 0, height: 0 },
        }
    }

    /// Takes one event: changes the state and says how the run goes on.
    /// `guides` tells whether guide lines are shown while nothing is
    /// dragged.
    pub fn handle_event(&mut self, event: Event, guides: bool) -> (step: Step)
        ensures
            (*final(self), step) == old(self).after(event, guides),
    {
        match event {
            Event::ButtonPress { detail, x, y } => {
                if detail == BUTTON_RIGHT {
                    Step::Cancelled(Cancellation::RightClick)
                } else {
                    let scroll: bool = detail == BUTTON_SCROLL_UP || detail == BUTTON_SCROLL_DOWN;
                    self.start_point = Point { x, y };
                    self.in_selection = !scroll;
                    self.ignore_next_release = scroll;
                    Step::Continue(Feedback::Clear)
                }
            },
            Event::KeyPress => Step::Cancelled(Cancellation::KeyPress),
            Event::MotionNotify { x, y } => {
                let area = span(Point { x, y }, self.start_point);
                if self.in_selection {
                    self.current_selection = area;
                    Step::Continue(Feedback::Frame(area))
                } else {
                    self.current_selection = Rectangle { x: area.x, y: area.y, width: 0, height: 0 };
                    if guides {
                        Step::Continue(Feedback::Guides(Point { x, y }))
                    } else {
                        Step::Continue(Feedback::Unchanged)
                    }
                }
            },
            Event::ButtonRelease { detail } => {
                if detail == BUTTON_SCROLL_UP || detail == BUTTON_SCROLL_DOWN {
                    Step::Continue(Feedback::Unchanged)
                } else if self.ignore_next_release {
                    self.ignore_next_release = false;
                    Step::Continue(Feedback::Unchanged)
                } else {
                    Step::Released
                }
            },
            Event::Other => Step::Continue(Feedback::Unchanged),
            Event::StreamEnded => Step::Aborted,
        }
    }

    /// What the selection comes to once the button is released.
    pub fn complete(&self, root: u32) -> (done: Completion)
        ensures
            done == self.completion(root),
    {
        if self.current_selection.width == 0 && self.current_selection.height == 0 {
            Completion::WindowAt(self.start_point)
        } else {
            Completion::Region(HacksawResult { window: root, rect: self.current_selection })
        }
    }
}

/// Runs a selection over recorded events, from the first one on, and says
/// how it ends. Events after the end of the run are not read.
pub fn run_events(events: &[Event], root: u32) -> (ending: Ending)
    ensures
        ending == Selection::initial().run(events@, root),
{
    let mut state = Selection::new();
    let mut i: usize = 0;
    assert(events@.skip(0) == events@);
    while i < events.len()
        invariant
            0 <= i <= events@.len(),
            state.run(events@.skip(i as int), root) == Selection::initial().run(events@, root),
        decreases events@.len() - i,
    {
        let ghost rest = events@.skip(i as int);
        assert(rest[0] == events@[i as int]);
        assert(rest.skip(1) == events@.skip(i + 1));
        match state.handle_event(events[i], false) {
            Step::Continue(_) => {},
            Step::Cancelled(reason) => {
                return Ending::Cancelled(reason);
            },
            Step::Released => {
                return Ending::Completed(state.complete(root));
            },
            Step::Aborted => {
                return Ending::EventsEnded;
            },
        }
        i += 1;
    }
    Ending::EventsEnded
}

/// The result of a run that was completed, given what the display server
/// answers about the windows: an area that was dragged out is the result
/// as it is; for a click it is the topmost window under the point with its
/// frames taken off, and the root window where no window lies under the
/// point.
pub open spec fn result_of(
    done: Completion,
    children: Seq<ChildWindow>,
    remove_decorations: nat,
    frames: Seq<HacksawResult>,
    root: u32,
    root_geometry: WindowGeometry,
) -> HacksawResult {
    match done {
        Completion::Region(area) => area,
        Completion::WindowAt(pt) => resolved(
            match topmost(children, pt) {
                Some(w) => Some(strip_decorations(w, frames, remove_decorations)),
                None => None,
            },
            root,
            root_geometry,
        ),
    }
}

/// Gives the result of a run that was completed, over recorded answers of
/// the display server: the children of the root window, the first children
/// on the way down from the topmost of them, and the geometry of the root
/// window. For an area that was dragged out none of them is read.
pub fn final_result(
    done: Completion,
    children: &[ChildWindow],
    remove_decorations: u32,
    frames: &[HacksawResult],
    root: u32,
    root_geometry: &WindowGeometry,
) -> (r: HacksawResult)
    requires
        done matches Completion::WindowAt(pt) ==> {
            &&& forall|i: int|
                0 <= i < children@.len() ==> (#[trigger] children@[i]).measurable()
            &&& match topmost(children@, pt) {
                Some(w) => strippable(w, frames@, remove_decorations as nat),
                None => root_geometry.in_range(),
            }
        },
    ensures
        r == result_of(
            done,
            children@,
            remove_decorations as nat,
            frames@,
            root,
            *root_geometry,
        ),
{
    match done {
        Completion::Region(area) => area,
        Completion::WindowAt(pt) => resolve_or_root(
            children,
            pt,
            remove_decorations,
            frames,
            root,
            root_geometry,
        ),
    }
}

/// A click with no window under it gives the root window: a press and a
/// release with nothing dragged out, where no child of the root qualifies
/// for the point of the press, end the run with the root's own position and
/// size as the result, and not with an area without size at the point.
pub proof fn lemma_click_on_nothing_gives_root(
    state: Selection,
    detail: u8,
    x: i16,
    y: i16,
    released: u8,
    children: Seq<ChildWindow>,
    remove_decorations: nat,
    frames: Seq<HacksawResult>,
    root: u32,
    root_geometry: WindowGeometry,
)
    requires
        state.is_empty(),
        detail != BUTTON_RIGHT,
        !is_scroll(detail),
        !is_scroll(released),
        forall|i: int|
            0 <= i < children.len() ==> !(#[trigger] children[i]).is_candidate(Point { x, y }),
    ensures
        state.run(
            seq![Event::ButtonPress { detail, x, y }, Event::ButtonRelease { detail: released }],
            root,
        ) matches Ending::Completed(done) && result_of(
            done,
            children,
            remove_decorations,
            frames,
            root,
            root_geometry,
        ) == root_geometry.footprint(root),
{
    lemma_click_asks_for_window(state, detail, x, y, released, root);
    lemma_nothing_under_point_gives_root(children, Point { x, y }, root, root_geometry);
}

/// What the display server tells about the overlay while it is taken
/// down.
#[derive(Clone, Copy, Debug, PartialEq, Eq, Structural)]
pub enum Notice {
    /// The overlay is off the screen.
    Unmapped,
    /// The overlay is gone.
    Destroyed,
    /// Anything else.
    Other,
}

/// What has been confirmed so far of taking the overlay down. The windows
/// are looked at only when the overlay is both off the screen and gone, so
/// that it is not found among them.
#[derive(Clone, Copy, Debug, PartialEq, Eq, Structural)]
pub struct Teardown {
    pub unmapped: bool,
    pub destroyed: bool,
}

impl Teardown {
    /// Nothing confirmed yet.
    pub open spec fn pending() -> Teardown {
        Teardown { unmapped: false, destroyed: false }
    }

    /// What is confirmed after a notice.
    pub open spec fn after(self, notice: Notice) -> Teardown {
        match notice {
            Notice::Unmapped => Teardown { unmapped: true, ..self },
            Notice::Destroyed => Teardown { destroyed: true, ..self },
            Notice::Other => self,
        }
    }

    /// Whether both confirmations are in.
    pub open spec fn is_complete(self) -> bool {
        self.unmapped && self.destroyed
    }

    /// What is confirmed after all these notices, one after the other.
    pub open spec fn after_all(self, notices: Seq<Notice>) -> Teardown
        decreases notices.len(),
    {
        if notices.len() == 0 {
            self
        } else {
            self.after(notices[0]).after_all(notices.skip(1))
        }
    }

    /// The state in which the wait for the confirmations begins.
    pub fn new() -> (state: Teardown)
        ensures
            state == Teardown::pending(),
    {
        Teardown { unmapped: false, destroyed: false }
    }

    /// Takes one notice, and tells whether the wait is over.
    pub fn observe(&mut self, notice: Notice) -> (complete: bool)
        ensures
            *final(self) == old(self).after(notice),
            complete == final(self).is_complete(),
    {
        match notice {
            Notice::Unmapped => {
                self.unmapped = true;
            },
            Notice::Destroyed => {
                self.destroyed = true;
            },
            Notice::Other => {},
        }
        self.unmapped && self.destroyed
    }
}

/// The wait for the overlay is over exactly when both the notice that it is
/// off the screen and the notice that it is gone have come, in either
/// order and with whatever else in between.
pub proof fn lemma_teardown_needs_both(notices: Seq<Notice>)
    ensures
        Teardown::pending().after_all(notices).is_complete() <==> (notices.contains(
            Notice::Unmapped,
        ) && notices.contains(Notice::Destroyed)),
{
    lemma_teardown_collects(Teardown::pending(), notices);
}

/// After a run of notices, each confirmation is in if it was in before or
/// its notice is among them.
pub proof fn lemma_teardown_collects(state: Teardown, notices: Seq<Notice>)
    ensures
        state.after_all(notices).unmapped <==> (state.unmapped || notices.contains(
            Notice::Unmapped,
        )),
        state.after_all(notices).destroyed <==> (state.destroyed || notices.contains(
            Notice::Destroyed,
        )),
    decreases notices.len(),
{
    if notices.len() > 0 {
        let rest = notices.skip(1);
        lemma_teardown_collects(state.after(notices[0]), rest);
        assert forall|n: Notice| notices.contains(n) <==> (notices[0] == n || rest.contains(n)) by {
            if notices.contains(n) {
                let i = choose|i: int| 0 <= i < notices.len() && notices[i] == n;
                if i > 0 {
                    assert(rest[i - 1] == n);
                }
            }
            if rest.contains(n) {
                let j = choose|j: int| 0 <= j < rest.len() && rest[j] == n;
                assert(notices[j + 1] == n);
            }
        }
    }
}

/// What is left to do when the event loop is over.
#[derive(Clone, Copy, Debug, PartialEq, Eq, Structural)]
pub enum Closing {
    /// Let go of the pointer.
    ReleasePointer,
    /// Let go of the cancel key, under every modifier mask.
    ReleaseKey,
    /// Take the overlay off the screen.
    UnmapOverlay,
    /// Destroy the overlay.
    DestroyOverlay,
    /// Send what has been asked for so far.
    Flush,
    /// Wait until the overlay is confirmed to be off the screen and gone.
    AwaitTeardown,
    /// Wait this long for the window manager to settle.
    Settle { delay_ms: u64 },
}

/// The steps that give back what a run holds: the pointer, the key and the
/// overlay, in this order.
pub open spec fn release() -> Seq<Closing> {
    seq![
        Closing::ReleasePointer,
        Closing::ReleaseKey,
        Closing::UnmapOverlay,
        Closing::DestroyOverlay,
        Closing::Flush,
    ]
}

/// What is left to do after a step. While the run goes on, nothing. When
/// it is over, whichever way, what it holds is given back: after a
/// cancellation, and also when the stream of events broke off; after a release
/// of the button the overlay is then waited for and the window manager
/// given time, so that the windows can be looked at as they are without
/// the overlay.
pub open spec fn closing(step: Step) -> Seq<Closing> {
    match step {
        Step::Continue(_) => Seq::empty(),
        Step::Cancelled(_) => release(),
        Step::Aborted => release(),
        Step::Released => release() + seq![
            Closing::AwaitTeardown,
            Closing::Settle { delay_ms: SETTLE_DELAY_MS },
        ],
    }
}

/// Lists what is left to do after a step, in the order in which to do it.
pub fn closing_steps(step: Step) -> (steps: Vec<Closing>)
    ensures
        steps@ == closing(step),
{
    let mut steps: Vec<Closing> = Vec::new();
    match step {
        Step::Continue(_) => {},
        Step::Cancelled(_) | Step::Aborted => {
            steps.push(Closing::ReleasePointer);
            steps.push(Closing::ReleaseKey);
            steps.push(Closing::UnmapOverlay);
            steps.push(Closing::DestroyOverlay);
            steps.push(Closing::Flush);
        },
        Step::Released => {
            steps.push(Closing::ReleasePointer);
            steps.push(Closing::ReleaseKey);
            steps.push(Closing::UnmapOverlay);
            steps.push(Closing::DestroyOverlay);
            steps.push(Closing::Flush);
            steps.push(Closing::AwaitTeardown);
            steps.push(Closing::Settle { delay_ms: SETTLE_DELAY_MS });
        },
    }
    assert(steps@ =~= closing(step));
    steps
}

/// Every way in which a run ends gives back what the run holds, before
/// anything else is done: the pointer first, then the key, then the
/// overlay.
pub proof fn lemma_every_ending_releases(step: Step)
    requires
        !(step is Continue),
    ensures
        release().is_prefix_of(closing(step)),
        closing(step)[0] == Closing::ReleasePointer,
        closing(step)[1] == Closing::ReleaseKey,
        closing(step)[2] == Closing::UnmapOverlay,
        closing(step)[3] == Closing::DestroyOverlay,
{
    match step {
        Step::Cancelled(_) | Step::Aborted => {
            assert(release().is_prefix_of(release()));
        },
        _ => {
            let all = closing(step);
            assert(all.subrange(0, release().len() as int) =~= release());
        },
    }
}

/// Whether the guide lines through a point can be drawn with this
/// thickness: the thickness is a coordinate, and half of it can be taken
/// off the point.
pub open spec fn guides_in_range(pt: Point, width: u16) -> bool {
    &&& width <= i16::MAX
    &&& pt.x - width / 2 >= i16::MIN
    &&& pt.y - width / 2 >= i16::MIN
}

/// The guide lines through a point: an upright bar and a level bar of the
/// given thickness, centred on the point, as long as the screen is high and
/// wide. The upright bar runs down from the screen's top edge at the
/// pointer's `x`, the level bar runs right from the screen's left edge at
/// the pointer's `y`.
pub open spec fn guides_at(screen: Rectangle, pt: Point, width: u16) -> Seq<Rectangle> {
    seq![
        Rectangle {
            x: (pt.x - width / 2) as i16,
            y: screen.y,
            width: width,
            height: screen.height,
        },
        Rectangle {
            x: screen.x,
            y: (pt.y - width / 2) as i16,
            width: screen.width,
            height: width,
        },
    ]
}

/// Tells whether `build_guides` may be called with this point and
/// thickness.
pub fn guides_fit(pt: Point, width: u16) -> (ok: bool)
    ensures
        ok == guides_in_range(pt, width),
{
    width <= 32767 && pt.x as i32 - (width / 2) as i32 >= -32768 && pt.y as i32 - (width
        / 2) as i32 >= -32768
}

/// Builds the guide lines through a point.
pub fn build_guides(screen: Rectangle, pt: Point, width: u16) -> (guides: [Rectangle; 2])
    requires
        guides_in_range(pt, width),
    ensures
        guides@ == guides_at(screen, pt, width),
{
    let half: i16 = (width / 2) as i16;
    let guides = [
        Rectangle { x: pt.x - half, y: screen.y, width: width, height: screen.height },
        Rectangle { x: screen.x, y: pt.y - half, width: screen.width, height: width },
    ];
    assert(guides@ =~= guides_at(screen, pt, width));
    guides
}

/// Whether a frame of this thickness can be drawn around the area: the
/// thickness is a coordinate, the frame's outer corner is one, the far
/// edges of the area are, and the bars are no longer than a size can be.
pub open spec fn frame_in_range(area: Rectangle, line_width: u16) -> bool {
    &&& line_width <= i16::MAX
    &&& area.x - line_width >= i16::MIN
    &&& area.y - line_width >= i16::MIN
    &&& area.x + area.width <= i16::MAX
    &&& area.y + area.height <= i16::MAX
    &&& area.width + line_width <= u16::MAX
    &&& area.height + line_width <= u16::MAX
}

/// The frame around an area: four bars of the given thickness that lie
/// outside the area and meet at the corners. The left and the top bar begin
/// at the frame's outer corner; the right bar begins above the area and the
/// bottom bar at the area's left edge, and each bar is longer than the side
/// it lies on by the thickness, so that the corners are closed.
pub open spec fn frame_around(area: Rectangle, line_width: u16) -> Seq<Rectangle> {
    seq![
        Rectangle {
            x: (area.x - line_width) as i16,
            y: area.y,
            width: line_width,
            height: (area.height + line_width) as u16,
        },
        Rectangle {
            x: (area.x - line_width) as i16,
            y: (area.y - line_width) as i16,
            width: (area.width + line_width) as u16,
            height: line_width,
        },
        Rectangle {
            x: (area.x + area.width) as i16,
            y: (area.y - line_width) as i16,
            width: line_width,
            height: (area.height + line_width) as u16,
        },
        Rectangle {
            x: area.x,
            y: (area.y + area.height) as i16,
            width: (area.width + line_width) as u16,
            height: line_width,
        },
    ]
}

/// Tells whether `build_frame` may be called with this area and thickness.
pub fn frame_fits(area: Rectangle, line_width: u16) -> (ok: bool)
    ensures
        ok == frame_in_range(area, line_width),
{
    let thickness: i32 = line_width as i32;
    thickness <= 32767 && area.x as i32 - thickness >= -32768 && area.y as i32 - thickness
        >= -32768 && area.x as i32 + area.width as i32 <= 32767 && area.y as i32
        + area.height as i32 <= 32767 && area.width as i32 + thickness <= 65535
        && area.height as i32 + thickness <= 65535
}

/// Builds the frame around an area.
pub fn build_frame(area: Rectangle, line_width: u16) -> (frame: [Rectangle; 4])
    requires
        frame_in_range(area, line_width),
    ensures
        frame@ == frame_around(area, line_width),
{
    let thickness: i16 = line_width as i16;
    let right: i16 = (area.x as i32 + area.width as i32) as i16;
    let bottom: i16 = (area.y as i32 + area.height as i32) as i16;
    let frame = [
        Rectangle {
            x: area.x - thickness,
            y: area.y,
            width: line_width,
            height: area.height + line_width,
        },
        Rectangle {
            x: area.x - thickness,
            y: area.y - thickness,
            width: area.width + line_width,
            height: line_width,
        },
        Rectangle {
            x: right,
            y: area.y - thickness,
            width: line_width,
            height: area.height + line_width,
        },
        Rectangle { x: area.x, y: bottom, width: area.width + line_width, height: line_width },
    ];
    assert(frame@ =~= frame_around(area, line_width));
    frame
}

/// A press and a release with nothing dragged out in between ask for the
/// window at the point of the press, whatever was hovered over before:
/// the run ends, and it ends with no area of its own.
pub proof fn lemma_click_asks_for_window(
    state: Selection,
    detail: u8,
    x: i16,
    y: i16,
    released: u8,
    root: u32,
)
    requires
        state.is_empty(),
        detail != BUTTON_RIGHT,
        !is_scroll(detail),
        !is_scroll(released),
    ensures
        state.run(
            seq![Event::ButtonPress { detail, x, y }, Event::ButtonRelease { detail: released }],
            root,
        ) == Ending::Completed(Completion::WindowAt(Point { x, y })),
{
    let press = Event::ButtonPress { detail, x, y };
    let release = Event::ButtonRelease { detail: released };
    let events = seq![press, release];
    let (pressed, _) = state.after(press, false);
    assert(events[0] == press);
    assert(events.skip(1) == seq![release]);
    assert(seq![release][0] == release);
    assert(state.run(events, root) == pressed.run(seq![release], root));
}

/// While no drag is under way, motion leaves the selection without a size
/// and begins no drag.
pub proof fn lemma_hovering_selects_nothing(state: Selection, x: i16, y: i16, guides: bool)
    requires
        !state.in_selection,
    ensures
        state.after(Event::MotionNotify { x, y }, guides).0.is_empty(),
        !state.after(Event::MotionNotify { x, y }, guides).0.in_selection,
        state.after(Event::MotionNotify { x, y }, guides).1 is Continue,
{
}

/// A run that hovers and then clicks, with no drag at all, ends with the
/// request for the window at the point of the click.
pub proof fn lemma_click_after_hovering(
    state: Selection,
    hovering: Seq<Event>,
    detail: u8,
    x: i16,
    y: i16,
    released: u8,
    root: u32,
)
    requires
        state.is_empty(),
        !state.in_selection,
        forall|i: int|
            0 <= i < hovering.len() ==> (#[trigger] hovering[i] is MotionNotify || hovering[i]
                is Other),
        detail != BUTTON_RIGHT,
        !is_scroll(detail),
        !is_scroll(released),
    ensures
        state.run(
            hovering + seq![
                Event::ButtonPress { detail, x, y },
                Event::ButtonRelease { detail: released },
            ],
            root,
        ) == Ending::Completed(Completion::WindowAt(Point { x, y })),
    decreases hovering.len(),
{
    let click = seq![Event::ButtonPress { detail, x, y }, Event::ButtonRelease { detail: released }];
    if hovering.len() == 0 {
        assert(hovering + click == click);
        lemma_click_asks_for_window(state, detail, x, y, released, root);
    } else {
        let events = hovering + click;
        assert(events[0] == hovering[0]);
        assert(events.skip(1) == hovering.skip(1) + click);
        let (next, _) = state.after(hovering[0], false);
        assert forall|i: int| 0 <= i < hovering.skip(1).len() implies (
        #[trigger] hovering.skip(1)[i] is MotionNotify || hovering.skip(1)[i] is Other) by {
            assert(hovering.skip(1)[i] == hovering[i + 1]);
        }
        lemma_click_after_hovering(next, hovering.skip(1), detail, x, y, released, root);
    }
}

/// A drag from one point to another that differ gives the area between
/// them, as an area of the root window.
pub proof fn lemma_drag_selects_region(
    state: Selection,
    detail: u8,
    from: Point,
    to: Point,
    released: u8,
    root: u32,
)
    requires
        detail != BUTTON_RIGHT,
        !is_scroll(detail),
        !is_scroll(released),
        from != to,
    ensures
        state.run(
            seq![
                Event::ButtonPress { detail, x: from.x, y: from.y },
                Event::MotionNotify { x: to.x, y: to.y },
                Event::ButtonRelease { detail: released },
            ],
            root,
        ) == Ending::Completed(
            Completion::Region(HacksawResult { window: root, rect: spanned(to, from) }),
        ),
{
    let press = Event::ButtonPress { detail, x: from.x, y: from.y };
    let motion = Event::MotionNotify { x: to.x, y: to.y };
    let release = Event::ButtonRelease { detail: released };
    let events = seq![press, motion, release];
    let (pressed, _) = state.after(press, false);
    let (dragged, _) = pressed.after(motion, false);
    assert(events[0] == press);
    assert(events.skip(1) == seq![motion, release]);
    assert(seq![motion, release][0] == motion);
    assert(seq![motion, release].skip(1) == seq![release]);
    assert(seq![release][0] == release);
    assert(pressed.run(seq![motion, release], root) == dragged.run(seq![release], root));
    assert(state.run(events, root) == pressed.run(seq![motion, release], root));
    assert(!dragged.is_empty());
}

/// A turn of the wheel, which comes as a press and a release, neither ends
/// the run nor begins a drag, in whatever state it arrives.
pub proof fn lemma_scroll_is_passed_over(
    state: Selection,
    pressed: u8,
    x: i16,
    y: i16,
    released: u8,
    guides: bool,
)
    requires
        is_scroll(pressed),
        is_scroll(released),
    ensures
        ({
            let (held, first) = state.after(Event::ButtonPress { detail: pressed, x, y }, guides);
            let (let_go, second) = held.after(Event::ButtonRelease { detail: released }, guides);
            &&& first is Continue
            &&& second is Continue
            &&& !held.in_selection
            &&& !let_go.in_selection
            &&& let_go.current_selection == state.current_selection
        }),
{
}

/// A run over turns of the wheel alone never ends by itself: the events
/// run out.
pub proof fn lemma_scrolling_never_ends_run(state: Selection, events: Seq<Event>, root: u32)
    requires
        forall|i: int|
            0 <= i < events.len() ==> match #[trigger] events[i] {
                Event::ButtonPress { detail, .. } => is_scroll(detail),
                Event::ButtonRelease { detail } => is_scroll(detail),
                _ => false,
            },
    ensures
        state.run(events, root) == Ending::EventsEnded,
    decreases events.len(),
{
    if events.len() > 0 {
        let (next, _) = state.after(events[0], false);
        assert forall|i: int| 0 <= i < events.skip(1).len() implies match #[trigger] events.skip(
            1,
        )[i] {
            Event::ButtonPress { detail, .. } => is_scroll(detail),
            Event::ButtonRelease { detail } => is_scroll(detail),
            _ => false,
        } by {
            assert(events.skip(1)[i] == events[i + 1]);
        }
        lemma_scrolling_never_ends_run(next, events.skip(1), root);
    }
}

} // verus!
