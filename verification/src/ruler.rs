//! The overview ruler beside the editor: which pointer events scroll the
//! editor to the pointer's place on the strip.
use vstd::prelude::*;

verus! {

/// A pointer event on the overview ruler, reduced to whether the pointer
/// is over the strip.
#[derive(Clone, Copy, Debug, PartialEq, Eq, Structural)]
pub enum RulerEvent {
    LeftPressed { inside: bool },
    CursorMoved { inside: bool },
    LeftReleased,
    Other,
}

/// What the ruler asks for: scroll the editor so that the point of the
/// strip under the pointer is centred, the event being captured. A drag
/// clamps the pointer's place to the strip; a press does not need to.
#[derive(Clone, Copy, Debug, PartialEq, Eq, Structural)]
pub enum RulerAction {
    ScrollToPointer { clamped: bool },
}

/// How the ruler answers `ev` while a drag is (`dragging`) or is not in
/// progress: the drag state afterwards and the action. A press on the
/// strip starts a drag and scrolls; moves over the strip scroll while the
/// drag lasts; a release ends it; nothing else does anything.
pub open spec fn ruler_step(dragging: bool, ev: RulerEvent) -> (bool, Option<RulerAction>) {
    match ev {
        RulerEvent::LeftPressed { inside } => if inside {
            (true, Some(RulerAction::ScrollToPointer { clamped: false }))
        } else {
            (dragging, None)
        },
        RulerEvent::CursorMoved { inside } => if dragging && inside {
            (true, Some(RulerAction::ScrollToPointer { clamped: true }))
        } else {
            (dragging, None)
        },
        RulerEvent::LeftReleased => (false, None),
        RulerEvent::Other => (dragging, None),
    }
}

/// Handles one pointer event on the ruler.
pub fn ruler_update(dragging: &mut bool, ev: RulerEvent) -> (r: Option<RulerAction>)
    ensures
        (*final(dragging), r) == ruler_step(*old(dragging), ev),
{
    match ev {
        RulerEvent::LeftPressed { inside } => {
            if inside {
                *dragging = true;
                Some(RulerAction::ScrollToPointer { clamped: false })
            } else {
                None
            }
        },
        RulerEvent::CursorMoved { inside } => {
            if *dragging && inside {
                Some(RulerAction::ScrollToPointer { clamped: true })
            } else {
                None
            }
        },
        RulerEvent::LeftReleased => {
            *dragging = false;
            None
        },
        RulerEvent::Other => None,
    }
}

/// Law: a press on the strip followed by any moves over it scrolls on each
/// of them; after a release, moves scroll no more until the next press on
/// the strip.
pub proof fn lemma_ruler_drag_until_release(dragging: bool, inside: bool)
    ensures
        ({
            let (d1, r1) = ruler_step(dragging, RulerEvent::LeftPressed { inside: true });
            let (d2, r2) = ruler_step(d1, RulerEvent::CursorMoved { inside: true });
            &&& r1 == Some(RulerAction::ScrollToPointer { clamped: false })
            &&& r2 == Some(RulerAction::ScrollToPointer { clamped: true })
            &&& d2
        }),
        ({
            let (d1, _r1) = ruler_step(dragging, RulerEvent::LeftReleased);
            let (d2, r2) = ruler_step(d1, RulerEvent::CursorMoved { inside });
            &&& r2 is None
            &&& !d2
        }),
{
}

} // verus!
