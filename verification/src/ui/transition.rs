//! Widget transitions.

use crate::ScreenCoordinates;
use crate::storage::TextContainer;
use crate::ui::widget::WidgetContent;
use vstd::prelude::*;
use vstd::std_specs::convert::IntoSpec;

verus! {

/// Different transitions a widget can take to change its state.
/// Transitions that do not have a `duration` field complete in 1 frame.
#[derive(Debug)]
pub enum Transition<T: TextContainer> {
    /// Moves the element from its current position to a new position.
    MoveTo {
        /// New position.
        new: ScreenCoordinates,
        /// How long (in frames) the transition will take.
        duration: u8,
    },
    /// Moves the element from one position to another position.
    MoveToExt {
        /// Old position.
        old: ScreenCoordinates,
        /// New position.
        new: ScreenCoordinates,
        /// How long (in frames) the transition will take.
        duration: u8,
    },
    /// Idles for `duration` frames.
    Wait {
        /// How many frames to idle for.
        duration: u8,
    },
    /// Changes to another [`WidgetContent`].
    ChangeTo(WidgetContent<T>),
    /// Hides the widget.
    Hide,
    /// Shows the widget.
    Show,
    /// Destroys the widget.
    Delete,
}

impl<T: TextContainer> Transition<T> {
    /// Creates a [`Transition::Wait`] of `frames` frames.
    pub fn wait(frames: u8) -> (r: Self)
        ensures
            r == (Transition::<T>::Wait { duration: frames }),
    {
        Transition::Wait { duration: frames }
    }

    /// Creates a [`Transition::MoveTo`] to `to` that takes `frames` frames.
    pub fn move_to<P: Into<ScreenCoordinates>>(to: P, frames: u8) -> (r: Self)
        ensures
            P::obeys_into_spec() ==> r == (Transition::<T>::MoveTo {
                new: to.into_spec(),
                duration: frames,
            }),
            r matches Transition::MoveTo { duration, .. } && duration == frames,
    {
        Transition::MoveTo { new: to.into(), duration: frames }
    }

    /// Creates a [`Transition::MoveToExt`] from `from` to `to` that takes
    /// `frames` frames.
    pub fn move_from_to<P: Into<ScreenCoordinates>, Q: Into<ScreenCoordinates>>(
        from: P,
        to: Q,
        frames: u8,
    ) -> (r: Self)
        ensures
            P::obeys_into_spec() && Q::obeys_into_spec() ==> r == (Transition::<T>::MoveToExt {
                old: from.into_spec(),
                new: to.into_spec(),
                duration: frames,
            }),
            r matches Transition::MoveToExt { duration, .. } && duration == frames,
    {
        Transition::MoveToExt { old: from.into(), new: to.into(), duration: frames }
    }
}

} // verus!
