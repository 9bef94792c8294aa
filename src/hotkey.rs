use vstd::prelude::*;

verus! {

/// The one-shot listener: runs the pipeline once, at once, and reports how
/// it went.
pub fn create_listener<F, E>(callback: F) -> (r: Result<(), E>)
    where
        F: Fn() -> Result<(), E>,
    requires
        callback.requires(()),
    ensures
        callback.ensures((), r),
{
    callback()
}

/// Whether a hotkey message starts a pass: messages whose `wParam` is zero
/// are ignored.
pub fn is_hotkey_activation(wparam: usize) -> (r: bool)
    ensures
        r == (wparam != 0),
{
    wparam != 0
}

} // verus!
