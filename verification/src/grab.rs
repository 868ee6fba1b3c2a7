//! Taking hold of the pointer and of the cancel key.
//!
//! The grabs themselves are requests to the display server, made by the
//! caller. Here stand the decisions around them: how often to try for the
//! pointer and how long to wait in between, under which modifier masks to
//! grab the key, and which keycode the escape key has.

use vstd::prelude::*;

verus! {

/// How often the pointer grab is tried before the run gives up.
pub const CURSOR_GRAB_TRIES: i32 = 5;

/// How long to wait after a failed try, in milliseconds.
pub const CURSOR_GRAB_DELAY_MS: u64 = 100;

/// The keysym of the escape key.
pub const ESC_KEYSYM: u32 = 0xff1b;

/// The largest modifier mask under which the cancel key is grabbed. The
/// eight modifier bits are 1, 2, 4, ... 128, so the masks from 0 to this
/// one are all their combinations.
pub const KEY_GRAB_MASK_MAX: u16 = 255;

/// What the display server answered to a pointer grab.
#[derive(Clone, Copy, Debug, PartialEq, Eq, Structural)]
pub enum GrabStatus {
    Success,
    AlreadyGrabbed,
    InvalidTime,
    NotViewable,
    Frozen,
}

/// What to do after a try for the pointer.
#[derive(Clone, Copy, Debug, PartialEq, Eq, Structural)]
pub enum GrabStep {
    /// The pointer is held.
    Acquired,
    /// Wait `delay_ms` milliseconds, then make try number `attempt`.
    Retry { attempt: i32, delay_ms: u64 },
    /// Every try failed.
    GiveUp,
}

/// The step that follows try number `attempt` (counted from 0) with the
/// answer `status`.
pub open spec fn grab_step(attempt: i32, status: GrabStatus) -> GrabStep {
    if status == GrabStatus::Success {
        GrabStep::Acquired
    } else if attempt < CURSOR_GRAB_TRIES - 1 {
        GrabStep::Retry { attempt: (attempt + 1) as i32, delay_ms: CURSOR_GRAB_DELAY_MS }
    } else {
        GrabStep::GiveUp
    }
}

/// Decides what follows try number `attempt` (counted from 0) for the
/// pointer: done on success, another try after a pause while tries are
/// left, and no pause after the last one.
pub fn after_grab_attempt(attempt: i32, status: GrabStatus) -> (step: GrabStep)
    ensures
        step == grab_step(attempt, status),
        step matches GrabStep::Retry { attempt: next, .. } ==> next == attempt + 1 && next
            < CURSOR_GRAB_TRIES,
{
    if status == GrabStatus::Success {
        GrabStep::Acquired
    } else if attempt < CURSOR_GRAB_TRIES - 1 {
        GrabStep::Retry { attempt: attempt + 1, delay_ms: CURSOR_GRAB_DELAY_MS }
    } else {
        GrabStep::GiveUp
    }
}

/// Whether the tries for the pointer end with the pointer held, when the
/// display server gives the answers in `statuses` one after the other: one
/// of the first `CURSOR_GRAB_TRIES` answers has to be a success.
pub open spec fn grab_succeeds(statuses: Seq<GrabStatus>) -> bool {
    exists|i: int|
        0 <= i < statuses.len() && i < CURSOR_GRAB_TRIES && #[trigger] statuses[i]
            == GrabStatus::Success
}

/// Runs the tries for the pointer over recorded answers. Answers are read
/// only as far as tries are made; where the record ends before a decision,
/// the pointer was not obtained.
pub fn grab_pointer_set_cursor(statuses: &[GrabStatus]) -> (held: bool)
    ensures
        held == grab_succeeds(statuses@),
{
    let mut attempt: i32 = 0;
    let mut at: usize = 0;
    while at < statuses.len()
        invariant
            0 <= attempt < CURSOR_GRAB_TRIES,
            at == attempt,
            at <= statuses@.len(),
            forall|i: int| 0 <= i < at ==> statuses@[i] != GrabStatus::Success,
        decreases CURSOR_GRAB_TRIES - attempt,
    {
        match after_grab_attempt(attempt, statuses[at]) {
            GrabStep::Acquired => {
                assert(statuses@[at as int] == GrabStatus::Success);
                return true;
            },
            GrabStep::Retry { attempt: next, delay_ms: _ } => {
                attempt = next;
                at += 1;
            },
            GrabStep::GiveUp => {
                return false;
            },
        }
    }
    false
}

/// The modifier masks under which the cancel key is grabbed and released:
/// every one from 0 to `KEY_GRAB_MASK_MAX`, in rising order.
pub fn key_grab_masks() -> (masks: Vec<u16>)
    ensures
        masks@.len() == KEY_GRAB_MASK_MAX + 1,
        forall|i: int| 0 <= i <= KEY_GRAB_MASK_MAX ==> masks@[i] == i,
{
    let mut masks: Vec<u16> = Vec::new();
    let mut mask: u16 = 0;
    while mask < KEY_GRAB_MASK_MAX
        invariant
            mask <= KEY_GRAB_MASK_MAX,
            masks@.len() == mask,
            forall|i: int| 0 <= i < mask ==> masks@[i] == i,
        decreases KEY_GRAB_MASK_MAX - mask,
    {
        masks.push(mask);
        mask += 1;
    }
    masks.push(mask);
    masks
}

/// The masks from 0 to `KEY_GRAB_MASK_MAX` are the combinations of the
/// eight modifier bits and nothing else: each such mask is the union of the
/// bits it holds, and any union of modifier bits is such a mask.
pub proof fn lemma_masks_are_modifier_combinations(mask: u16)
    ensures
        mask <= KEY_GRAB_MASK_MAX <==> mask == (mask & 1) | (mask & 2) | (mask & 4) | (mask & 8) | (
        mask & 16) | (mask & 32) | (mask & 64) | (mask & 128),
{
    assert(mask <= 255u16 <==> mask == (mask & 1) | (mask & 2) | (mask & 4) | (mask & 8) | (mask
        & 16) | (mask & 32) | (mask & 64) | (mask & 128)) by (bit_vector);
}

/// The place of the first escape keysym in the keyboard mapping, if any.
pub open spec fn escape_index(keysyms: Seq<u32>) -> Option<int> {
    if exists|i: int| is_first_escape(keysyms, i) {
        Some(choose|i: int| is_first_escape(keysyms, i))
    } else {
        None
    }
}

/// `i` is the place of an escape keysym with none before it.
pub open spec fn is_first_escape(keysyms: Seq<u32>, i: int) -> bool {
    &&& 0 <= i < keysyms.len()
    &&& keysyms[i] == ESC_KEYSYM
    &&& forall|j: int| 0 <= j < i ==> #[trigger] keysyms[j] != ESC_KEYSYM
}

/// The keycode of the escape key. The mapping lists `keysyms_per_keycode`
/// keysyms for each keycode, beginning at `min_keycode`; the keycode is the
/// row that the first escape keysym stands in.
pub open spec fn escape_keycode(
    keysyms: Seq<u32>,
    keysyms_per_keycode: u8,
    min_keycode: u8,
) -> Option<u8> {
    match escape_index(keysyms) {
        Some(i) => if keysyms_per_keycode > 0 && i / (keysyms_per_keycode as int) + min_keycode
            <= u8::MAX {
            Some((i / (keysyms_per_keycode as int) + min_keycode) as u8)
        } else {
            None
        },
        None => None,
    }
}

/// Looks for the keycode of the escape key in a keyboard mapping. There is
/// none where the mapping holds no escape keysym, or lists no keysyms per
/// keycode, or the row lies beyond the last keycode there is.
fn lookup_escape_keycode(keysyms: &[u32], keysyms_per_keycode: u8, min_keycode: u8) -> (code:
    Option<u8>)
    ensures
        code == escape_keycode(keysyms@, keysyms_per_keycode, min_keycode),
{
    let mut i: usize = 0;
    while i < keysyms.len()
        invariant
            0 <= i <= keysyms@.len(),
            forall|j: int| 0 <= j < i ==> #[trigger] keysyms@[j] != ESC_KEYSYM,
        decreases keysyms@.len() - i,
    {
        if keysyms[i] == ESC_KEYSYM {
            proof {
                assert(is_first_escape(keysyms@, i as int));
                lemma_first_escape_is_unique(keysyms@);
            }
            if keysyms_per_keycode == 0 {
                return None;
            }
            let row: usize = i / (keysyms_per_keycode as usize);
            if row > 255 - (min_keycode as usize) {
                return None;
            }
            return Some((row + min_keycode as usize) as u8);
        }
        i += 1;
    }
    proof {
        assert forall|k: int| !is_first_escape(keysyms@, k) by {
            if 0 <= k < keysyms@.len() {
                assert(keysyms@[k] != ESC_KEYSYM);
            }
        }
    }
    None
}

/// Tells whether `find_escape_keycode` may be called on this mapping: it
/// holds an escape keysym, in a row that is a keycode.
pub fn has_escape_keycode(keysyms: &[u32], keysyms_per_keycode: u8, min_keycode: u8) -> (ok: bool)
    ensures
        ok == escape_keycode(keysyms@, keysyms_per_keycode, min_keycode) is Some,
{
    lookup_escape_keycode(keysyms, keysyms_per_keycode, min_keycode).is_some()
}

/// Finds the keycode of the escape key in a keyboard mapping: the keycode
/// of the row in which the first escape keysym stands.
pub fn find_escape_keycode(keysyms: &[u32], keysyms_per_keycode: u8, min_keycode: u8) -> (code: u8)
    requires
        escape_keycode(keysyms@, keysyms_per_keycode, min_keycode) is Some,
    ensures
        escape_keycode(keysyms@, keysyms_per_keycode, min_keycode) == Some(code),
        exists|i: int|
            is_first_escape(keysyms@, i) && keysyms_per_keycode > 0 && code == i / (
            keysyms_per_keycode as int) + min_keycode,
{
    proof {
        let i = escape_index(keysyms@)->0;
        assert(is_first_escape(keysyms@, i));
    }
    match lookup_escape_keycode(keysyms, keysyms_per_keycode, min_keycode) {
        Some(code) => code,
        None => vstd::pervasive::unreached(),
    }
}

/// Two places that are both the first escape keysym are the same place.
pub proof fn lemma_first_escape_is_unique(keysyms: Seq<u32>)
    ensures
        forall|i: int, j: int|
            is_first_escape(keysyms, i) && is_first_escape(keysyms, j) ==> i == j,
{
    assert forall|i: int, j: int|
        is_first_escape(keysyms, i) && is_first_escape(keysyms, j) implies i == j by {
        if i < j {
            assert(keysyms[i] != ESC_KEYSYM);
        } else if j < i {
            assert(keysyms[j] != ESC_KEYSYM);
        }
    }
}

} // verus!
