use vstd::prelude::*;

verus! {

/// Marker of the container node of the on-screen counters, which the F12 key
/// shows and hides.
#[derive(Debug, Clone, Copy)]
pub struct FpsRoot;

/// Marker of the text that shows the frame rate.
#[derive(Debug, Clone, Copy)]
pub struct FpsText;

/// Marker of the text that shows the column under the mouse.
#[derive(Debug, Clone, Copy)]
pub struct XText;

/// Marker of the text that shows the row under the mouse.
#[derive(Debug, Clone, Copy)]
pub struct YText;

/// Marker of the text that shows the simulation ticks per second.
#[derive(Debug, Clone, Copy)]
pub struct TPSText;

/// Whether a node is drawn: as its parent, hidden, or shown.
#[derive(Debug, PartialEq, Eq, Clone, Copy, Structural)]
pub enum Visibility {
    Inherited,
    Hidden,
    Visible,
}

/// The visibility of the counters after a frame: pressing F12 shows them when
/// they are hidden and hides them otherwise; without the key nothing changes.
pub open spec fn toggled(f12_just_pressed: bool, vis: Visibility) -> Visibility {
    if !f12_just_pressed {
        vis
    } else if vis == Visibility::Hidden {
        Visibility::Visible
    } else {
        Visibility::Hidden
    }
}

/// Decides the counters' visibility for this frame; see [`toggled`].
pub fn fps_counter_showhide(f12_just_pressed: bool, vis: Visibility) -> (r: Visibility)
    ensures
        r == toggled(f12_just_pressed, vis),
{
    if f12_just_pressed {
        match vis {
            Visibility::Hidden => Visibility::Visible,
            _ => Visibility::Hidden,
        }
    } else {
        vis
    }
}

/// Two presses of F12 in a row bring back a shown or hidden counter.
pub proof fn lemma_toggle_twice(vis: Visibility)
    requires
        vis != Visibility::Inherited,
    ensures
        toggled(true, toggled(true, vis)) == vis,
{
}

/// A press of F12 always changes what the counters show, and only a shown
/// counter is hidden; without a press nothing changes.
pub proof fn lemma_press_flips(vis: Visibility)
    ensures
        toggled(true, vis) != vis,
        toggled(true, vis) == Visibility::Visible <==> vis == Visibility::Hidden,
        toggled(false, vis) == vis,
{
}

} // verus!
