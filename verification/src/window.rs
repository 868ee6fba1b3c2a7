//! From a click to a window: which child of a window lies topmost under a
//! point, and how to step down through the frames that a window manager
//! wrapped around it.
//!
//! The display server is asked by the caller. What it answered comes in as
//! plain values: the attributes and geometry of each child, in stacking
//! order from bottom to top.

use crate::geometry::{HacksawResult, Point, Rectangle};
use vstd::prelude::*;

verus! {

/// Whether a window is on screen.
#[derive(Clone, Copy, Debug, PartialEq, Eq, Structural)]
pub enum MapState {
    Unmapped,
    Unviewable,
    Viewable,
}

/// What a window is for: one that shows pixels, or one that only takes input.
#[derive(Clone, Copy, Debug, PartialEq, Eq, Structural)]
pub enum WindowClass {
    CopyFromParent,
    InputOutput,
    InputOnly,
}

/// The part of a window's attributes that the resolution reads.
#[derive(Clone, Copy, Debug, PartialEq, Eq, Structural)]
pub struct WindowAttributes {
    pub map_state: MapState,
    pub class: WindowClass,
}

/// A window's geometry as the display server reports it: the position in
/// its parent, the size without the border, and the border's width.
#[derive(Clone, Copy, Debug, PartialEq, Eq, Structural)]
pub struct WindowGeometry {
    pub x: i16,
    pub y: i16,
    pub width: u16,
    pub height: u16,
    pub border_width: u16,
}

/// One child of the window that was asked for its tree.
#[derive(Clone, Copy, Debug, PartialEq, Eq, Structural)]
pub struct ChildWindow {
    pub window: u32,
    pub attributes: WindowAttributes,
    pub geometry: WindowGeometry,
}

impl WindowAttributes {
    pub open spec fn is_viewable(self) -> bool {
        self.map_state == MapState::Viewable
    }

    pub open spec fn is_input_output(self) -> bool {
        self.class == WindowClass::InputOutput
    }
}

impl WindowGeometry {
    /// Whether the size with the border on both sides still is a size.
    pub open spec fn in_range(self) -> bool {
        &&& self.width + 2 * self.border_width <= u16::MAX
        &&& self.height + 2 * self.border_width <= u16::MAX
    }

    /// What the window covers: its position, and its size with the border
    /// counted on both sides.
    pub open spec fn footprint(self, window: u32) -> HacksawResult
        recommends
            self.in_range(),
    {
        HacksawResult {
            window,
            rect: Rectangle {
                x: self.x,
                y: self.y,
                width: (self.width + 2 * self.border_width) as u16,
                height: (self.height + 2 * self.border_width) as u16,
            },
        }
    }

    /// Tells whether `get_window_geom` may be called on this geometry.
    pub fn is_in_range(&self) -> (ok: bool)
        ensures
            ok == self.in_range(),
    {
        let border: u32 = 2 * (self.border_width as u32);
        self.width as u32 + border <= 65535 && self.height as u32 + border <= 65535
    }
}

impl ChildWindow {
    pub open spec fn footprint(self) -> HacksawResult {
        self.geometry.footprint(self.window)
    }

    /// A child can be the answer for a point if it is on screen, shows
    /// pixels, and covers the point.
    pub open spec fn is_candidate(self, pt: Point) -> bool {
        &&& self.attributes.is_viewable()
        &&& self.attributes.is_input_output()
        &&& self.footprint().covers(pt)
    }

    /// The geometry is read only of children that are on screen and show
    /// pixels; of those it has to be in range.
    pub open spec fn measurable(self) -> bool {
        self.attributes.is_viewable() && self.attributes.is_input_output()
            ==> self.geometry.in_range()
    }
}

/// Whether the window is mapped and visible.
pub fn viewable(attrs: &WindowAttributes) -> (b: bool)
    ensures
        b == attrs.is_viewable(),
{
    attrs.map_state == MapState::Viewable
}

/// Whether the window is of the class that can show pixels.
pub fn input_output(attrs: &WindowAttributes) -> (b: bool)
    ensures
        b == attrs.is_input_output(),
{
    attrs.class == WindowClass::InputOutput
}

/// The area that a window covers, from its reported geometry.
pub fn get_window_geom(win: u32, geom: &WindowGeometry) -> (r: HacksawResult)
    requires
        geom.in_range(),
    ensures
        r == geom.footprint(win),
{
    HacksawResult {
        window: win,
        rect: Rectangle {
            x: geom.x,
            y: geom.y,
            width: geom.width + 2 * geom.border_width,
            height: geom.height + 2 * geom.border_width,
        },
    }
}

/// `i` is the place of the topmost candidate: a candidate with none above it.
pub open spec fn is_topmost(children: Seq<ChildWindow>, pt: Point, i: int) -> bool {
    &&& 0 <= i < children.len()
    &&& children[i].is_candidate(pt)
    &&& forall|j: int| i < j < children.len() ==> !(#[trigger] children[j]).is_candidate(pt)
}

/// What `topmost_at` answers, as a value.
pub open spec fn topmost(children: Seq<ChildWindow>, pt: Point) -> Option<HacksawResult> {
    if exists|i: int| is_topmost(children, pt, i) {
        Some(children[choose|i: int| is_topmost(children, pt, i)].footprint())
    } else {
        None
    }
}

/// The topmost child under the point. The children come in stacking order
/// from bottom to top, so of those that qualify the last one is the answer.
pub fn topmost_at(children: &[ChildWindow], pt: Point) -> (found: Option<HacksawResult>)
    requires
        forall|i: int| 0 <= i < children@.len() ==> (#[trigger] children@[i]).measurable(),
    ensures
        found == topmost(children@, pt),
        match found {
            Some(w) => exists|i: int|
                is_topmost(children@, pt, i) && w == children@[i].footprint(),
            None => forall|i: int|
                0 <= i < children@.len() ==> !(#[trigger] children@[i]).is_candidate(pt),
        },
{
    let mut found: Option<HacksawResult> = None;
    let ghost mut at: int = -1;
    let mut i: usize = 0;
    while i < children.len()
        invariant
            0 <= i <= children@.len(),
            -1 <= at < i,
            forall|k: int| 0 <= k < children@.len() ==> (#[trigger] children@[k]).measurable(),
            forall|j: int| at < j < i ==> !(#[trigger] children@[j]).is_candidate(pt),
            match found {
                Some(w) => at >= 0 && children@[at].is_candidate(pt) && w == children@[at].footprint(),
                None => at == -1,
            },
        decreases children@.len() - i,
    {
        let child = &children[i];
        if viewable(&child.attributes) && input_output(&child.attributes) {
            let area = get_window_geom(child.window, &child.geometry);
            if area.contains(pt) {
                found = Some(area);
                proof {
                    at = i as int;
                }
            }
        }
        i += 1;
    }
    proof {
        lemma_topmost_is_unique(children@, pt);
        if found is Some {
            assert(is_topmost(children@, pt, at));
        } else {
            assert forall|k: int| !is_topmost(children@, pt, k) by {
                if 0 <= k < children@.len() {
                    assert(!children@[k].is_candidate(pt));
                }
            }
        }
    }
    found
}

/// Two places that are both topmost are the same place.
pub proof fn lemma_topmost_is_unique(children: Seq<ChildWindow>, pt: Point)
    ensures
        forall|i: int, j: int|
            is_topmost(children, pt, i) && is_topmost(children, pt, j) ==> i == j,
{
    assert forall|i: int, j: int|
        is_topmost(children, pt, i) && is_topmost(children, pt, j) implies i == j by {
        if i < j {
            assert(!children[j].is_candidate(pt));
        } else if j < i {
            assert(!children[i].is_candidate(pt));
        }
    }
}

/// Of two children that both qualify for the point, the one later in the
/// stacking order is chosen, whatever else lies below them.
pub proof fn lemma_later_child_wins(children: Seq<ChildWindow>, pt: Point, lower: int, upper: int)
    requires
        0 <= lower < upper < children.len(),
        children[lower].is_candidate(pt),
        children[upper].is_candidate(pt),
        forall|j: int| upper < j < children.len() ==> !(#[trigger] children[j]).is_candidate(pt),
    ensures
        topmost(children, pt) == Some(children[upper].footprint()),
        !is_topmost(children, pt, lower),
{
    assert(is_topmost(children, pt, upper));
    lemma_topmost_is_unique(children, pt);
}

/// The state of a descent through decoration frames: the window reached so
/// far, in the coordinates of the window the descent began in, and how many
/// frames may still be taken off.
#[derive(Clone, Copy, Debug, PartialEq, Eq, Structural)]
pub struct Descent {
    pub window: HacksawResult,
    pub remaining: u32,
}

impl Descent {
    /// The window whose children have to be asked for next, if any.
    pub open spec fn next_query(self) -> Option<u32> {
        if self.remaining > 0 {
            Some(self.window.window)
        } else {
            None
        }
    }

    /// The state after the answer to a query: with no child the descent is
    /// over; with one, the first child takes the place of the window, moved
    /// by the window's position.
    pub open spec fn after(self, firstborn: Option<HacksawResult>) -> Descent
        recommends
            self.remaining > 0,
    {
        match firstborn {
            None => Descent { window: self.window, remaining: 0 },
            Some(child) => Descent {
                window: child.offset_by(self.window),
                remaining: (self.remaining - 1) as u32,
            },
        }
    }

    /// Begins a descent at `window`, to go at most `remove_decorations`
    /// frames down.
    pub fn begin(window: HacksawResult, remove_decorations: u32) -> (d: Descent)
        ensures
            d == (Descent { window, remaining: remove_decorations }),
    {
        Descent { window, remaining: remove_decorations }
    }

    /// The window whose children the caller has to ask for, or `None` when
    /// the descent is over and `window` is the answer.
    pub fn pending(&self) -> (query: Option<u32>)
        ensures
            query == self.next_query(),
    {
        if self.remaining > 0 {
            Some(self.window.window)
        } else {
            None
        }
    }

    /// Takes the answer to the pending query: the area of the first child of
    /// the window, or `None` if the window has no children.
    pub fn advance(self, firstborn: Option<HacksawResult>) -> (next: Descent)
        requires
            self.remaining > 0,
            firstborn matches Some(child) ==> child.fits_within(self.window),
        ensures
            next == self.after(firstborn),
    {
        match firstborn {
            None => Descent { window: self.window, remaining: 0 },
            Some(child) => Descent {
                window: child.relative_to(self.window),
                remaining: self.remaining - 1,
            },
        }
    }
}

/// The window that a descent ends at. `frames` holds what the display
/// server would answer on the way down: the area of the first child of the
/// window, then of that child's first child, and so on, until a window
/// without children. At most `depth` of them are taken.
pub open spec fn strip_decorations(
    window: HacksawResult,
    frames: Seq<HacksawResult>,
    depth: nat,
) -> HacksawResult
    decreases frames.len(),
{
    if depth == 0 || frames.len() == 0 {
        window
    } else {
        strip_decorations(frames[0].offset_by(window), frames.skip(1), (depth - 1) as nat)
    }
}

/// Whether every step of that descent stays in the range of coordinates.
pub open spec fn strippable(window: HacksawResult, frames: Seq<HacksawResult>, depth: nat) -> bool
    decreases frames.len(),
{
    if depth == 0 || frames.len() == 0 {
        true
    } else {
        &&& frames[0].fits_within(window)
        &&& strippable(frames[0].offset_by(window), frames.skip(1), (depth - 1) as nat)
    }
}

/// Runs a descent from `window` over the recorded answers in `frames`.
pub fn remove_decorations(window: HacksawResult, frames: &[HacksawResult], depth: u32) -> (r:
    HacksawResult)
    requires
        strippable(window, frames@, depth as nat),
    ensures
        r == strip_decorations(window, frames@, depth as nat),
{
    let mut descent = Descent::begin(window, depth);
    let mut taken: usize = 0;
    assert(frames@.skip(0) == frames@);
    while descent.remaining > 0
        invariant
            0 <= taken <= frames@.len(),
            strippable(descent.window, frames@.skip(taken as int), descent.remaining as nat),
            strip_decorations(descent.window, frames@.skip(taken as int), descent.remaining as nat)
                == strip_decorations(window, frames@, depth as nat),
        decreases descent.remaining,
    {
        let ghost rest = frames@.skip(taken as int);
        if taken < frames.len() {
            let child = frames[taken];
            assert(rest[0] == child);
            assert(rest.skip(1) == frames@.skip(taken + 1));
            descent = descent.advance(Some(child));
            taken += 1;
        } else {
            assert(rest.len() == 0);
            descent = descent.advance(None);
        }
    }
    descent.window
}

/// The window under the point, with up to `remove_decorations` frames taken
/// off: the topmost child that qualifies, then the descent from it over the
/// recorded answers in `frames`. `None` when no child qualifies.
pub fn get_window_at_point(
    children: &[ChildWindow],
    pt: Point,
    remove_decorations: u32,
    frames: &[HacksawResult],
) -> (found: Option<HacksawResult>)
    requires
        forall|i: int| 0 <= i < children@.len() ==> (#[trigger] children@[i]).measurable(),
        topmost(children@, pt) matches Some(w) ==> strippable(
            w,
            frames@,
            remove_decorations as nat,
        ),
    ensures
        found == match topmost(children@, pt) {
            Some(w) => Some(strip_decorations(w, frames@, remove_decorations as nat)),
            None => None,
        },
{
    match topmost_at(children, pt) {
        Some(w) => Some(self::remove_decorations(w, frames, remove_decorations)),
        None => None,
    }
}

/// What follows the search for the window under a point.
#[derive(Clone, Copy, Debug, PartialEq, Eq, Structural)]
pub enum Resolution {
    /// A window was found: this is the result.
    Done(HacksawResult),
    /// No window lies under the point: the result is the root window
    /// itself, whose geometry is to be asked for.
    AskRootGeometry(u32),
}

/// The result of a search for the window under a point, once the geometry
/// of the root window is at hand: the window that was found, or, where none
/// was, what the root window covers.
pub open spec fn resolved(
    found: Option<HacksawResult>,
    root: u32,
    root_geometry: WindowGeometry,
) -> HacksawResult {
    match found {
        Some(window) => window,
        None => root_geometry.footprint(root),
    }
}

/// Decides what follows the search for the window under a point: a window
/// that was found is the result; without one the root window is the
/// result, and its geometry has to be asked for.
pub fn after_resolution(found: Option<HacksawResult>, root: u32) -> (next: Resolution)
    ensures
        next == match found {
            Some(window) => Resolution::Done(window),
            None => Resolution::AskRootGeometry(root),
        },
{
    match found {
        Some(window) => Resolution::Done(window),
        None => Resolution::AskRootGeometry(root),
    }
}

/// The window under the point with its frames taken off, or the root
/// window where no child lies under the point: `get_window_at_point`, and
/// after it the root's own geometry if nothing was found.
pub fn resolve_or_root(
    children: &[ChildWindow],
    pt: Point,
    remove_decorations: u32,
    frames: &[HacksawResult],
    root: u32,
    root_geometry: &WindowGeometry,
) -> (r: HacksawResult)
    requires
        forall|i: int| 0 <= i < children@.len() ==> (#[trigger] children@[i]).measurable(),
        match topmost(children@, pt) {
            Some(w) => strippable(w, frames@, remove_decorations as nat),
            None => root_geometry.in_range(),
        },
    ensures
        r == resolved(
            match topmost(children@, pt) {
                Some(w) => Some(strip_decorations(w, frames@, remove_decorations as nat)),
                None => None,
            },
            root,
            *root_geometry,
        ),
        topmost(children@, pt) is None ==> r == root_geometry.footprint(root),
{
    match after_resolution(get_window_at_point(children, pt, remove_decorations, frames), root) {
        Resolution::Done(window) => window,
        Resolution::AskRootGeometry(window) => get_window_geom(window, root_geometry),
    }
}

/// Where no child qualifies for the point, the result is the root window
/// with its own position and size, whatever frames were asked to be taken
/// off.
pub proof fn lemma_nothing_under_point_gives_root(
    children: Seq<ChildWindow>,
    pt: Point,
    root: u32,
    root_geometry: WindowGeometry,
)
    requires
        forall|i: int| 0 <= i < children.len() ==> !(#[trigger] children[i]).is_candidate(pt),
    ensures
        topmost(children, pt) is None,
        resolved(topmost(children, pt), root, root_geometry) == root_geometry.footprint(root),
        resolved(topmost(children, pt), root, root_geometry).window == root,
{
    assert forall|k: int| !is_topmost(children, pt, k) by {
        if 0 <= k < children.len() {
            assert(!children[k].is_candidate(pt));
        }
    }
}

/// Asking for more frames than there are changes nothing: the descent ends
/// at the innermost window that it reached.
pub proof fn lemma_depth_beyond_nesting(window: HacksawResult, frames: Seq<HacksawResult>, depth: nat)
    requires
        depth >= frames.len(),
    ensures
        strip_decorations(window, frames, depth) == strip_decorations(
            window,
            frames,
            frames.len(),
        ),
        strippable(window, frames, depth) == strippable(window, frames, frames.len()),
    decreases frames.len(),
{
    if frames.len() > 0 {
        lemma_depth_beyond_nesting(
            frames[0].offset_by(window),
            frames.skip(1),
            (depth - 1) as nat,
        );
    }
}

/// The window that a descent ends at is the last frame taken, or the window
/// it began at when none was taken; its size is that window's own.
pub proof fn lemma_descent_reaches_frame(
    window: HacksawResult,
    frames: Seq<HacksawResult>,
    depth: nat,
)
    ensures
        ({
            let taken = if depth <= frames.len() {
                depth as int
            } else {
                frames.len() as int
            };
            let end = strip_decorations(window, frames, depth);
            if taken == 0 {
                end == window
            } else {
                &&& end.window == frames[taken - 1].window
                &&& end.rect.width == frames[taken - 1].rect.width
                &&& end.rect.height == frames[taken - 1].rect.height
            }
        }),
    decreases frames.len(),
{
    if depth > 0 && frames.len() > 0 {
        let rest = frames.skip(1);
        lemma_descent_reaches_frame(frames[0].offset_by(window), rest, (depth - 1) as nat);
        let taken = if depth <= frames.len() {
            depth as int
        } else {
            frames.len() as int
        };
        if taken > 1 {
            assert(rest[taken - 2] == frames[taken - 1]);
        }
    }
}

} // verus!
