//! On-screen widgets.

use crate::ScreenCoordinates;
use crate::error::StorageError;
use crate::num::NonZeroUsize;
use crate::storage::{Storage, TextContainer, fits};
use crate::storage::charset::ext_ascii_bytes;
use core::ops::Range;
use vstd::prelude::*;

verus! {

/// An on-screen widget.
#[derive(Debug)]
pub struct Widget<S: Storage> {
    /// What the widget shows.
    pub(crate) content: WidgetContent<S::Text>,
    /// Where the widget is.
    pub(crate) pos: ScreenCoordinates,
    /// If the widget is hidden.
    pub(crate) hidden: bool,
    /// The transitions queued up for the widget, first one first.
    pub(crate) transitions: S::Queue,
    /// How far along the current transition is.
    pub(crate) transition_progress: Option<u8>,
}

/// A reference to a custom character, agnostic of its actual index in the
/// screen RAM.
#[derive(Clone, Copy, Debug)]
pub struct CustomCharacterRef(pub(crate) u32);

/// What a widget will display.
#[derive(Debug)]
pub enum WidgetContent<S: TextContainer> {
    /// ASCII / Extended ASCII string.
    Text(S),
    /// ASCII / Extended ASCII string that scrolls in place.
    ScrollingText {
        /// The string.
        string: S,
        /// The actual length to show on screen.
        len: NonZeroUsize,
        /// How fast the text scrolls.
        speed: ScrollSpeed,
        /// Which part of the string is on screen.
        state: ScrollingTextState,
    },
    /// A defined custom character.
    CustomCharacter(CustomCharacterRef),
}

/// The scroll speed of a [`WidgetContent::ScrollingText`].
#[derive(Debug)]
pub enum ScrollSpeed {
    /// Characters per tick.
    CPT(NonZeroUsize),
    /// Ticks per character.
    TPC(NonZeroUsize),
}

/// Describes how a [`WidgetContent::ScrollingText`] scrolls. The parameters
/// of `Reset` and `Bounce` say how many ticks to stop at the end before
/// continuing.
#[derive(Debug)]
pub enum ScrollBehaviour {
    /// Snaps back to the start after reaching the end.
    Reset(u8),
    /// Transparently puts the front in after reaching the end.
    Loop,
    /// Bounces back the other way after reaching the end.
    Bounce(u8),
}

/// Which part of a scrolling string is on screen.
#[derive(Debug)]
pub enum ScrollingTextState {
    /// Scrolls to the end, stops there for `cooldown` ticks, then starts over.
    Reset {
        /// The characters on screen.
        range: Range<usize>,
        /// How many ticks to stop at the end.
        cooldown: u8,
        /// How many ticks of the stop are left.
        cd: u8,
    },
    /// Scrolls round and round: after the end of the string comes its start.
    Loop {
        /// The characters on screen up to the end of the string.
        main: Range<usize>,
        /// Where the window wraps round to the start of the string: the
        /// characters `0..wraparound` are on screen after `main`.
        wraparound: usize,
    },
    /// Scrolls to the end, stops for `cooldown` ticks, scrolls back to the
    /// start, stops for `cooldown` ticks, and so on.
    Bounce {
        /// The characters on screen.
        range: Range<usize>,
        /// How many ticks to stop at either end.
        cooldown: u8,
        /// How many ticks of the stop are left.
        cd: u8,
        /// If the text scrolls towards its end.
        forwards: bool,
    },
}

impl<S: TextContainer> WidgetContent<S> {
    /// Creates a [`WidgetContent::Text`] from an `&str`, with each character
    /// turned into the byte the display shows for it. Fails where the
    /// characters do not all fit into the text container.
    pub fn text(c: &str) -> (r: Result<Self, StorageError>)
        ensures
            r is Ok <==> fits(S::capacity(), c@.len()),
            r matches Ok(w) ==> (w matches WidgetContent::Text(t) && t.items() == ext_ascii_bytes(
                c@,
                0x3f,
            )),
            r matches Err(e) ==> e == StorageError::NotEnoughStorage,
    {
        let t = S::from_str(c)?;
        Ok(WidgetContent::Text(t))
    }

    /// Creates a [`WidgetContent::ScrollingText`] that shows `len` characters
    /// of `c` at a time.
    ///
    /// Where `c` has no more than `len` characters, a plain
    /// [`WidgetContent::Text`] is created instead.
    pub fn scroll_text(
        c: &str,
        len: NonZeroUsize,
        speed: ScrollSpeed,
        behaviour: ScrollBehaviour,
    ) -> (r: Result<Self, StorageError>)
        ensures
            r is Ok <==> fits(S::capacity(), c@.len()),
            r matches Err(e) ==> e == StorageError::NotEnoughStorage,
            c@.len() <= len.spec_get() ==> (r matches Ok(w) ==> (w matches WidgetContent::Text(t)
                && t.items() == ext_ascii_bytes(c@, 0x3f))),
            c@.len() > len.spec_get() ==> (r matches Ok(w) ==> (w matches WidgetContent::ScrollingText {
                string,
                len: l,
                speed: sp,
                state,
            } && string.items() == ext_ascii_bytes(c@, 0x3f) && l == len && sp == speed && state
                == ScrollingTextState::initial(behaviour, len.spec_get()))),
            c@.len() > len.spec_get() ==> (behaviour matches ScrollBehaviour::Reset(stop) ==> (
            r matches Ok(w) ==> (w matches WidgetContent::ScrollingText { state, .. }
                && state matches ScrollingTextState::Reset { range, cooldown, cd } && range.start
                == 0 && range.end == len.spec_get() && cooldown == stop && cd == 0))),
            c@.len() > len.spec_get() ==> (behaviour matches ScrollBehaviour::Loop ==> (r matches Ok(
                w,
            ) ==> (w matches WidgetContent::ScrollingText { state, .. }
                && state matches ScrollingTextState::Loop { main, wraparound } && main.start == 0
                && main.end == len.spec_get() && wraparound == 0))),
            c@.len() > len.spec_get() ==> (behaviour matches ScrollBehaviour::Bounce(stop) ==> (
            r matches Ok(w) ==> (w matches WidgetContent::ScrollingText { state, .. }
                && state matches ScrollingTextState::Bounce { range, cooldown, cd, forwards }
                && range.start == 0 && range.end == len.spec_get() && cooldown == stop && cd == 0
                && forwards))),
    {
        let n = len.get();
        let string = S::from_str(c)?;
        if string.len() <= n {
            Ok(WidgetContent::Text(string))
        } else {
            let state = match behaviour {
                ScrollBehaviour::Reset(cooldown) => ScrollingTextState::Reset {
                    range: Range { start: 0, end: n },
                    cooldown,
                    cd: 0,
                },
                ScrollBehaviour::Loop => ScrollingTextState::Loop {
                    main: Range { start: 0, end: n },
                    wraparound: 0,
                },
                ScrollBehaviour::Bounce(cooldown) => ScrollingTextState::Bounce {
                    range: Range { start: 0, end: n },
                    cooldown,
                    cd: 0,
                    forwards: true,
                },
            };
            Ok(WidgetContent::ScrollingText { string, len, speed, state })
        }
    }
}

/// The range `start..end`.
pub open spec fn span(start: int, end: int) -> Range<usize> {
    Range { start: start as usize, end: end as usize }
}

impl ScrollingTextState {
    /// The state that a scrolling text of window length `len` starts in.
    pub open spec fn initial(behaviour: ScrollBehaviour, len: usize) -> Self {
        match behaviour {
            ScrollBehaviour::Reset(c) => ScrollingTextState::Reset {
                range: span(0, len as int),
                cooldown: c,
                cd: 0,
            },
            ScrollBehaviour::Loop => ScrollingTextState::Loop {
                main: span(0, len as int),
                wraparound: 0,
            },
            ScrollBehaviour::Bounce(c) => ScrollingTextState::Bounce {
                range: span(0, len as int),
                cooldown: c,
                cd: 0,
                forwards: true,
            },
        }
    }

    /// Whether one step of `spd` characters over a text of `text_len`
    /// characters can be taken from this state: no index over- or underflows
    /// and the length of the loop is not zero.
    pub open spec fn can_step(self, text_len: usize, spd: usize) -> bool {
        match self {
            ScrollingTextState::Reset { range, .. } => range.start <= range.end,
            ScrollingTextState::Loop { main, wraparound } => {
                &&& text_len > 0
                &&& main.start + spd <= usize::MAX
                &&& main.end + spd <= usize::MAX
                &&& wraparound + spd <= usize::MAX
            },
            ScrollingTextState::Bounce { range, cd, forwards, .. } => {
                &&& range.start <= range.end
                &&& cd == 0 && forwards && range.end > text_len ==> range.end - range.start
                    <= text_len
            },
        }
    }

    /// The state after one step of `spd` characters over a text of
    /// `text_len` characters.
    pub open spec fn next_state(self, text_len: int, spd: int) -> Self {
        match self {
            ScrollingTextState::Reset { range, cooldown, cd } => {
                let disp = range.end - range.start;
                if cd == 0 {
                    if range.end >= text_len {
                        // the stop at the end is over: start over
                        ScrollingTextState::Reset { range: span(0, disp), cooldown, cd: 0 }
                    } else if range.end + spd < text_len {
                        // scroll on
                        ScrollingTextState::Reset {
                            range: span(range.start + spd, range.end + spd),
                            cooldown,
                            cd: 0,
                        }
                    } else {
                        // reach the end and stop there
                        ScrollingTextState::Reset {
                            range: span(text_len - disp, text_len),
                            cooldown,
                            cd: cooldown,
                        }
                    }
                } else {
                    // the stop goes on
                    ScrollingTextState::Reset { range, cooldown, cd: (cd - 1) as u8 }
                }
            },
            ScrollingTextState::Loop { main, wraparound } => {
                let end = if wraparound != 0 && main.end == text_len {
                    wraparound as int
                } else {
                    main.end as int
                };
                let new_start = (main.start + spd) % text_len;
                let new_end = (end + spd) % text_len;
                if new_start > new_end {
                    ScrollingTextState::Loop {
                        main: span(new_start, text_len),
                        wraparound: new_end as usize,
                    }
                } else {
                    ScrollingTextState::Loop { main: span(new_start, new_end), wraparound }
                }
            },
            ScrollingTextState::Bounce { range, cooldown, cd, forwards } => {
                let disp = range.end - range.start;
                if cd == 0 {
                    if forwards {
                        if range.end + spd < text_len {
                            ScrollingTextState::Bounce {
                                range: span(range.start + spd, range.end + spd),
                                cooldown,
                                cd: 0,
                                forwards,
                            }
                        } else {
                            // reach the end: stop there, or turn at once
                            // where there is no stop
                            ScrollingTextState::Bounce {
                                range: span(text_len - disp, text_len),
                                cooldown,
                                cd: cooldown,
                                forwards: cooldown != 0,
                            }
                        }
                    } else {
                        if range.start > spd {
                            ScrollingTextState::Bounce {
                                range: span(range.start - spd, range.end - spd),
                                cooldown,
                                cd: 0,
                                forwards,
                            }
                        } else {
                            // reach the start: stop there, or turn at once
                            // where there is no stop
                            ScrollingTextState::Bounce {
                                range: span(0, disp),
                                cooldown,
                                cd: cooldown,
                                forwards: cooldown == 0,
                            }
                        }
                    }
                } else {
                    // the stop goes on; where it ends, turn
                    ScrollingTextState::Bounce {
                        range,
                        cooldown,
                        cd: (cd - 1) as u8,
                        forwards: if cd == 1 { !forwards } else { forwards },
                    }
                }
            },
        }
    }

    /// Advances the scrolling by `spd` characters over a text of `text_len`
    /// characters.
    pub fn next(&mut self, text_len: usize, spd: NonZeroUsize)
        requires
            old(self).can_step(text_len, spd.spec_get()),
        ensures
            *final(self) == old(self).next_state(text_len as int, spd.spec_get() as int),
    {
        let spd = spd.get();
        let new_state = match &*self {
            ScrollingTextState::Reset { range, cooldown, cd } => {
                let disp_len = range.end - range.start;
                if *cd == 0 {
                    if range.end >= text_len {
                        ScrollingTextState::Reset {
                            range: Range { start: 0, end: disp_len },
                            cooldown: *cooldown,
                            cd: 0,
                        }
                    } else if spd < text_len - range.end {
                        ScrollingTextState::Reset {
                            range: Range { start: range.start + spd, end: range.end + spd },
                            cooldown: *cooldown,
                            cd: 0,
                        }
                    } else {
                        ScrollingTextState::Reset {
                            range: Range { start: text_len - disp_len, end: text_len },
                            cooldown: *cooldown,
                            cd: *cooldown,
                        }
                    }
                } else {
                    ScrollingTextState::Reset {
                        range: Range { start: range.start, end: range.end },
                        cooldown: *cooldown,
                        cd: *cd - 1,
                    }
                }
            },
            ScrollingTextState::Loop { main, wraparound } => {
                let reassembled_end = if *wraparound != 0 && main.end == text_len {
                    *wraparound
                } else {
                    main.end
                };
                let new_start = (main.start + spd) % text_len;
                let new_end = (reassembled_end + spd) % text_len;
                if new_start > new_end {
                    ScrollingTextState::Loop {
                        main: Range { start: new_start, end: text_len },
                        wraparound: new_end,
                    }
                } else {
                    ScrollingTextState::Loop {
                        main: Range { start: new_start, end: new_end },
                        wraparound: *wraparound,
                    }
                }
            },
            ScrollingTextState::Bounce { range, cooldown, cd, forwards } => {
                let disp_len = range.end - range.start;
                if *cd == 0 {
                    if *forwards {
                        if range.end < text_len && spd < text_len - range.end {
                            ScrollingTextState::Bounce {
                                range: Range { start: range.start + spd, end: range.end + spd },
                                cooldown: *cooldown,
                                cd: 0,
                                forwards: true,
                            }
                        } else {
                            ScrollingTextState::Bounce {
                                range: Range { start: text_len - disp_len, end: text_len },
                                cooldown: *cooldown,
                                cd: *cooldown,
                                forwards: *cooldown != 0,
                            }
                        }
                    } else {
                        if range.start > spd {
                            ScrollingTextState::Bounce {
                                range: Range { start: range.start - spd, end: range.end - spd },
                                cooldown: *cooldown,
                                cd: 0,
                                forwards: false,
                            }
                        } else {
                            ScrollingTextState::Bounce {
                                range: Range { start: 0, end: disp_len },
                                cooldown: *cooldown,
                                cd: *cooldown,
                                forwards: *cooldown == 0,
                            }
                        }
                    }
                } else {
                    let left = *cd - 1;
                    ScrollingTextState::Bounce {
                        range: Range { start: range.start, end: range.end },
                        cooldown: *cooldown,
                        cd: left,
                        forwards: if left == 0 { !*forwards } else { *forwards },
                    }
                }
            },
        };
        *self = new_state;
    }
}

/// Adding `len` to `x` moves its remainder modulo `m` up by `len`, wrapping
/// round past `m`.
proof fn lemma_mod_shift(x: int, len: int, m: int)
    requires
        m > 0,
        x >= 0,
        0 <= len < m,
    ensures
        (x + len) % m == if x % m + len < m { x % m + len } else { x % m + len - m },
{
    let q = x / m;
    let r = x % m;
    vstd::arithmetic::div_mod::lemma_fundamental_div_mod(x, m);
    vstd::arithmetic::div_mod::lemma_mod_pos_bound(x, m);
    assert(m * q == q * m) by (nonlinear_arith);
    if r + len < m {
        vstd::arithmetic::div_mod::lemma_fundamental_div_mod_converse(x + len, m, q, r + len);
    } else {
        assert((q + 1) * m == q * m + m) by (nonlinear_arith);
        vstd::arithmetic::div_mod::lemma_fundamental_div_mod_converse(x + len, m, q + 1, r + len - m);
    }
}

impl ScrollingTextState {
    /// How many characters are on screen, for a text of `text_len`
    /// characters.
    pub open spec fn shown_len(self, text_len: int) -> int {
        match self {
            ScrollingTextState::Reset { range, .. } => range.end - range.start,
            ScrollingTextState::Bounce { range, .. } => range.end - range.start,
            ScrollingTextState::Loop { main, wraparound } => {
                if wraparound != 0 && main.end == text_len {
                    text_len - main.start + wraparound
                } else {
                    main.end - main.start
                }
            },
        }
    }

    /// Where the characters on screen start.
    pub open spec fn shown_start(self) -> int {
        match self {
            ScrollingTextState::Reset { range, .. } => range.start as int,
            ScrollingTextState::Bounce { range, .. } => range.start as int,
            ScrollingTextState::Loop { main, .. } => main.start as int,
        }
    }

    /// The characters on screen lie within a text of `text_len` characters,
    /// and fewer of them are shown than the text has where it loops.
    pub open spec fn in_text(self, text_len: int) -> bool {
        match self {
            ScrollingTextState::Reset { range, .. } => range.start <= range.end <= text_len,
            ScrollingTextState::Bounce { range, .. } => range.start <= range.end <= text_len,
            ScrollingTextState::Loop { main, wraparound } => {
                &&& main.start < text_len
                &&& main.start <= main.end <= text_len
                &&& wraparound < text_len
                &&& self.shown_len(text_len) < text_len
            },
        }
    }

    /// Whether the text stops at an end: the window does not move in this
    /// step.
    pub open spec fn stopping(self) -> bool {
        match self {
            ScrollingTextState::Reset { cd, .. } => cd > 0,
            ScrollingTextState::Bounce { cd, .. } => cd > 0,
            ScrollingTextState::Loop { .. } => false,
        }
    }

    /// A step of the scrolling keeps the characters on screen within the text
    /// and shows as many of them as before; a looping text moves on by the
    /// speed, round the end of the text; while the text stops at an end its
    /// window stays where it is.
    pub proof fn lemma_next_keeps_window(self, text_len: usize, spd: usize)
        requires
            self.can_step(text_len, spd),
            self.in_text(text_len as int),
        ensures
            self.next_state(text_len as int, spd as int).in_text(text_len as int),
            self.next_state(text_len as int, spd as int).shown_len(text_len as int)
                == self.shown_len(text_len as int),
            self is Loop ==> self.next_state(text_len as int, spd as int).shown_start() == (
            self.shown_start() + spd) % (text_len as int),
            self.stopping() ==> self.next_state(text_len as int, spd as int).shown_start()
                == self.shown_start(),
    {
        let tl = text_len as int;
        let k = spd as int;
        match self {
            ScrollingTextState::Loop { main, wraparound } => {
                let len = self.shown_len(tl);
                let end = if wraparound != 0 && main.end == tl {
                    wraparound as int
                } else {
                    main.end as int
                };
                let x = main.start + k;
                let ns = x % tl;
                vstd::arithmetic::div_mod::lemma_mod_pos_bound(x, tl);
                lemma_mod_shift(x, len, tl);
                if wraparound != 0 && main.end == tl {
                    assert(end + k == x + len - tl);
                    assert((x + len - tl) % tl == (x + len) % tl) by {
                        vstd::arithmetic::div_mod::lemma_mod_sub_multiples_vanish(x + len, tl);
                    }
                } else {
                    assert(end + k == x + len);
                }
            },
            _ => {},
        }
    }
}

impl ScrollingTextState {
    /// The state after `n` steps of `spd` characters each over a text of
    /// `text_len` characters.
    pub open spec fn after_steps(self, text_len: int, spd: int, n: nat) -> Self
        decreases n,
    {
        if n == 0 {
            self
        } else {
            self.next_state(text_len, spd).after_steps(text_len, spd, (n - 1) as nat)
        }
    }

    /// Taking `a` steps and then `b` more is taking `a + b` steps.
    proof fn lemma_after_steps_add(self, text_len: int, spd: int, a: nat, b: nat)
        ensures
            self.after_steps(text_len, spd, a).after_steps(text_len, spd, b) == self.after_steps(
                text_len,
                spd,
                a + b,
            ),
        decreases a,
    {
        if a > 0 {
            self.next_state(text_len, spd).lemma_after_steps_add(text_len, spd, (a - 1) as nat, b);
        }
    }

    /// While a resetting text stops, each step counts the stop down and leaves
    /// the window where it is.
    proof fn lemma_reset_countdown(
        range: Range<usize>,
        cooldown: u8,
        cd: u8,
        text_len: int,
        spd: int,
        j: nat,
    )
        requires
            j <= cd,
        ensures
            (ScrollingTextState::Reset { range, cooldown, cd }).after_steps(text_len, spd, j) == (
            ScrollingTextState::Reset { range, cooldown, cd: (cd - j) as u8 }),
        decreases j,
    {
        if j > 0 {
            Self::lemma_reset_countdown(range, cooldown, (cd - 1) as u8, text_len, spd, (j - 1) as nat);
        }
    }

    /// While a bouncing text stops, each step counts the stop down and leaves
    /// the window where it is; the step that ends the stop turns the text.
    proof fn lemma_bounce_countdown(
        range: Range<usize>,
        cooldown: u8,
        cd: u8,
        forwards: bool,
        text_len: int,
        spd: int,
        j: nat,
    )
        requires
            j <= cd,
        ensures
            (ScrollingTextState::Bounce { range, cooldown, cd, forwards }).after_steps(
                text_len,
                spd,
                j,
            ) == (ScrollingTextState::Bounce {
                range,
                cooldown,
                cd: (cd - j) as u8,
                forwards: if j > 0 && j == cd { !forwards } else { forwards },
            }),
        decreases j,
    {
        if j > 0 {
            let next_forwards = if cd == 1 { !forwards } else { forwards };
            Self::lemma_bounce_countdown(
                range,
                cooldown,
                (cd - 1) as u8,
                next_forwards,
                text_len,
                spd,
                (j - 1) as nat,
            );
        }
    }

    /// A resetting text whose window reaches the end of the text in this step
    /// stops there: for `cooldown` more steps the window stays at the end,
    /// and the step after that starts the text over from its front.
    pub proof fn lemma_reset_stops_then_starts_over(
        range: Range<usize>,
        cooldown: u8,
        text_len: usize,
        spd: usize,
    )
        requires
            range.start <= range.end < text_len,
            range.end + spd >= text_len,
        ensures
            forall|k: nat|
                1 <= k <= cooldown + 1 ==> #[trigger] (ScrollingTextState::Reset {
                    range,
                    cooldown,
                    cd: 0,
                }).after_steps(text_len as int, spd as int, k) == (ScrollingTextState::Reset {
                    range: span(text_len - (range.end - range.start), text_len as int),
                    cooldown,
                    cd: (cooldown + 1 - k) as u8,
                }),
            (ScrollingTextState::Reset { range, cooldown, cd: 0 }).after_steps(
                text_len as int,
                spd as int,
                (cooldown + 2) as nat,
            ) == (ScrollingTextState::Reset {
                range: span(0, range.end - range.start),
                cooldown,
                cd: 0,
            }),
    {
        let tl = text_len as int;
        let k0 = spd as int;
        let s = ScrollingTextState::Reset { range, cooldown, cd: 0 };
        let end = span(tl - (range.end - range.start), tl);
        let s1 = ScrollingTextState::Reset { range: end, cooldown, cd: cooldown };
        assert(s.next_state(tl, k0) == s1);
        assert forall|k: nat| 1 <= k <= cooldown + 1 implies #[trigger] s.after_steps(tl, k0, k) == (
        ScrollingTextState::Reset { range: end, cooldown, cd: (cooldown + 1 - k) as u8 }) by {
            Self::lemma_reset_countdown(end, cooldown, cooldown, tl, k0, (k - 1) as nat);
        }
        Self::lemma_reset_countdown(end, cooldown, cooldown, tl, k0, cooldown as nat);
        s1.lemma_after_steps_add(tl, k0, cooldown as nat, 1);
        let stopped = ScrollingTextState::Reset { range: end, cooldown, cd: 0 };
        assert(stopped.next_state(tl, k0).after_steps(tl, k0, 0) == stopped.next_state(tl, k0));
        assert(stopped.after_steps(tl, k0, 1) == stopped.next_state(tl, k0));
    }

    /// A bouncing text whose window reaches the end of the text in this step
    /// stops there: for `cooldown` more steps the window stays at the end,
    /// and then the text turns back.
    pub proof fn lemma_bounce_turns_at_the_end(
        range: Range<usize>,
        cooldown: u8,
        text_len: usize,
        spd: usize,
    )
        requires
            range.start <= range.end <= text_len,
            range.end + spd >= text_len,
        ensures
            forall|k: nat|
                1 <= k <= cooldown + 1 ==> #[trigger] (ScrollingTextState::Bounce {
                    range,
                    cooldown,
                    cd: 0,
                    forwards: true,
                }).after_steps(text_len as int, spd as int, k) == (ScrollingTextState::Bounce {
                    range: span(text_len - (range.end - range.start), text_len as int),
                    cooldown,
                    cd: (cooldown + 1 - k) as u8,
                    forwards: k <= cooldown,
                }),
    {
        let tl = text_len as int;
        let k0 = spd as int;
        let s = ScrollingTextState::Bounce { range, cooldown, cd: 0, forwards: true };
        let end = span(tl - (range.end - range.start), tl);
        let s1 = ScrollingTextState::Bounce {
            range: end,
            cooldown,
            cd: cooldown,
            forwards: cooldown != 0,
        };
        assert(s.next_state(tl, k0) == s1);
        assert forall|k: nat| 1 <= k <= cooldown + 1 implies #[trigger] s.after_steps(tl, k0, k) == (
        ScrollingTextState::Bounce {
            range: end,
            cooldown,
            cd: (cooldown + 1 - k) as u8,
            forwards: k <= cooldown,
        }) by {
            Self::lemma_bounce_countdown(end, cooldown, cooldown, cooldown != 0, tl, k0, (k - 1) as nat);
        }
    }

    /// A bouncing text whose window reaches the front of the text in this step
    /// stops there: for `cooldown` more steps the window stays at the front,
    /// and then the text turns forwards again.
    pub proof fn lemma_bounce_turns_at_the_front(
        range: Range<usize>,
        cooldown: u8,
        text_len: usize,
        spd: usize,
    )
        requires
            range.start <= range.end,
            range.start <= spd,
        ensures
            forall|k: nat|
                1 <= k <= cooldown + 1 ==> #[trigger] (ScrollingTextState::Bounce {
                    range,
                    cooldown,
                    cd: 0,
                    forwards: false,
                }).after_steps(text_len as int, spd as int, k) == (ScrollingTextState::Bounce {
                    range: span(0, range.end - range.start),
                    cooldown,
                    cd: (cooldown + 1 - k) as u8,
                    forwards: k > cooldown,
                }),
    {
        let tl = text_len as int;
        let k0 = spd as int;
        let s = ScrollingTextState::Bounce { range, cooldown, cd: 0, forwards: false };
        let front = span(0, range.end - range.start);
        let s1 = ScrollingTextState::Bounce {
            range: front,
            cooldown,
            cd: cooldown,
            forwards: cooldown == 0,
        };
        assert(s.next_state(tl, k0) == s1);
        assert forall|k: nat| 1 <= k <= cooldown + 1 implies #[trigger] s.after_steps(tl, k0, k) == (
        ScrollingTextState::Bounce {
            range: front,
            cooldown,
            cd: (cooldown + 1 - k) as u8,
            forwards: k > cooldown,
        }) by {
            Self::lemma_bounce_countdown(front, cooldown, cooldown, cooldown == 0, tl, k0, (k - 1) as nat);
        }
    }
}

impl ScrollingTextState {
    /// A looping text moves on by the speed at every step, round the end of
    /// the text: after `n` steps its window starts `n * spd` characters
    /// further on, modulo the length of the text, and still shows as many
    /// characters of the text as before.
    pub proof fn lemma_loop_goes_round(self, text_len: usize, spd: usize, n: nat)
        requires
            self is Loop,
            self.in_text(text_len as int),
            text_len + spd <= usize::MAX,
        ensures
            self.after_steps(text_len as int, spd as int, n) is Loop,
            self.after_steps(text_len as int, spd as int, n).in_text(text_len as int),
            self.after_steps(text_len as int, spd as int, n).shown_len(text_len as int)
                == self.shown_len(text_len as int),
            self.after_steps(text_len as int, spd as int, n).shown_start() == (self.shown_start()
                + n * spd) % (text_len as int),
        decreases n,
    {
        let tl = text_len as int;
        let k = spd as int;
        let s0 = self.shown_start();
        assert(0 <= s0 < tl);
        if n == 0 {
            assert(n * spd == 0) by (nonlinear_arith)
                requires
                    n == 0,
            ;
            vstd::arithmetic::div_mod::lemma_small_mod(s0 as nat, tl as nat);
        } else {
            self.lemma_next_keeps_window(text_len, spd);
            let s1 = self.next_state(tl, k);
            let m = (n - 1) as nat;
            s1.lemma_loop_goes_round(text_len, spd, m);
            assert(self.after_steps(tl, k, n) == s1.after_steps(tl, k, m));
            let a = (s0 + k) % tl;
            let b = m * k;
            assert(s1.shown_start() == a);
            assert(s1.after_steps(tl, k, m).shown_start() == (a + b) % tl);
            assert(b + k == n * k) by (nonlinear_arith)
                requires
                    b == m * k,
                    m + 1 == n,
            ;
            assert(b >= 0) by (nonlinear_arith)
                requires
                    b == m * k,
                    m >= 0,
                    k >= 0,
            ;
            vstd::arithmetic::div_mod::lemma_add_mod_noop_right(b, s0 + k, tl);
            assert(b + (s0 + k) == s0 + n * k);
        }
    }
}

impl ScrollingTextState {
    /// How many steps of `spd` characters a window that ends at `end` scrolls
    /// on before the step that takes it to the end of a text of `text_len`
    /// characters.
    pub open spec fn steps_before_end(end: int, text_len: int, spd: int) -> nat {
        ((text_len - 1 - end) / spd) as nat
    }

    /// A resetting text that is not stopped scrolls on by `spd` characters at
    /// each of `k` steps where its window stays short of the end.
    proof fn lemma_reset_scrolls(range: Range<usize>, cooldown: u8, text_len: int, spd: int, k: nat)
        requires
            range.start <= range.end,
            spd >= 0,
            range.end + k * spd < text_len,
            text_len <= usize::MAX,
        ensures
            (ScrollingTextState::Reset { range, cooldown, cd: 0 }).after_steps(text_len, spd, k) == (
            ScrollingTextState::Reset {
                range: span(range.start + k * spd, range.end + k * spd),
                cooldown,
                cd: 0,
            }),
        decreases k,
    {
        if k == 0 {
            assert(k * spd == 0) by (nonlinear_arith)
                requires
                    k == 0,
            ;
            assert(span(range.start as int, range.end as int) == range);
        } else {
            let m = (k - 1) as nat;
            assert(m * spd + spd == k * spd) by (nonlinear_arith)
                requires
                    m + 1 == k,
            ;
            assert(m * spd >= 0) by (nonlinear_arith)
                requires
                    spd >= 0,
            ;
            let next = span(range.start + spd, range.end + spd);
            assert(next.end + m * spd < text_len);
            Self::lemma_reset_scrolls(next, cooldown, text_len, spd, m);
        }
    }

    /// A resetting text scrolls to the end of its text from wherever its
    /// window starts, stops there for `cooldown` more steps, and then starts
    /// over from its front: after `q` steps of scrolling on
    /// ([`ScrollingTextState::steps_before_end`]) the next step takes the
    /// window to the end, it stays there `cooldown` more steps, and the step
    /// after that shows the front of the text again.
    pub proof fn lemma_reset_reaches_the_end_then_starts_over(
        range: Range<usize>,
        cooldown: u8,
        text_len: usize,
        spd: usize,
    )
        requires
            range.start <= range.end < text_len,
            spd > 0,
        ensures
            forall|k: nat|
                k <= Self::steps_before_end(range.end as int, text_len as int, spd as int)
                    ==> #[trigger] (ScrollingTextState::Reset { range, cooldown, cd: 0 }).after_steps(
                    text_len as int,
                    spd as int,
                    k,
                ) == (ScrollingTextState::Reset {
                    range: span(range.start + k * spd, range.end + k * spd),
                    cooldown,
                    cd: 0,
                }),
            forall|j: nat|
                1 <= j <= cooldown + 1 ==> #[trigger] (ScrollingTextState::Reset {
                    range,
                    cooldown,
                    cd: 0,
                }).after_steps(
                    text_len as int,
                    spd as int,
                    Self::steps_before_end(range.end as int, text_len as int, spd as int) + j,
                ) == (ScrollingTextState::Reset {
                    range: span(text_len - (range.end - range.start), text_len as int),
                    cooldown,
                    cd: (cooldown + 1 - j) as u8,
                }),
            (ScrollingTextState::Reset { range, cooldown, cd: 0 }).after_steps(
                text_len as int,
                spd as int,
                (Self::steps_before_end(range.end as int, text_len as int, spd as int) + cooldown
                    + 2) as nat,
            ) == (ScrollingTextState::Reset {
                range: span(0, range.end - range.start),
                cooldown,
                cd: 0,
            }),
    {
        let tl = text_len as int;
        let k0 = spd as int;
        let s = ScrollingTextState::Reset { range, cooldown, cd: 0 };
        let q = Self::steps_before_end(range.end as int, tl, k0);
        let d = tl - 1 - range.end;
        vstd::arithmetic::div_mod::lemma_fundamental_div_mod(d, k0);
        vstd::arithmetic::div_mod::lemma_mod_pos_bound(d, k0);
        vstd::arithmetic::div_mod::lemma_div_pos_is_pos(d, k0);
        assert(q * k0 == k0 * (d / k0)) by (nonlinear_arith)
            requires
                q == d / k0,
        ;
        // the window scrolls on for `q` steps and then reaches the end
        assert(range.end + q * k0 < tl);
        assert(range.end + q * k0 + k0 >= tl);
        assert forall|k: nat| k <= q implies #[trigger] s.after_steps(tl, k0, k) == (
        ScrollingTextState::Reset {
            range: span(range.start + k * k0, range.end + k * k0),
            cooldown,
            cd: 0,
        }) by {
            assert(k * k0 <= q * k0) by (nonlinear_arith)
                requires
                    k <= q,
                    k0 >= 0,
            ;
            Self::lemma_reset_scrolls(range, cooldown, tl, k0, k);
        }
        Self::lemma_reset_scrolls(range, cooldown, tl, k0, q);
        let at_q = span(range.start + q * k0, range.end + q * k0);
        let sq = ScrollingTextState::Reset { range: at_q, cooldown, cd: 0 };
        assert(s.after_steps(tl, k0, q) == sq);
        assert(q * k0 >= 0) by (nonlinear_arith)
            requires
                k0 >= 0,
        ;
        Self::lemma_reset_stops_then_starts_over(at_q, cooldown, text_len, spd);
        assert forall|j: nat| 1 <= j <= cooldown + 1 implies #[trigger] s.after_steps(
            tl,
            k0,
            q + j,
        ) == (ScrollingTextState::Reset {
            range: span(tl - (range.end - range.start), tl),
            cooldown,
            cd: (cooldown + 1 - j) as u8,
        }) by {
            s.lemma_after_steps_add(tl, k0, q, j);
            assert(sq.after_steps(tl, k0, j) == (ScrollingTextState::Reset {
                range: span(tl - (at_q.end - at_q.start), tl),
                cooldown,
                cd: (cooldown + 1 - j) as u8,
            }));
        }
        s.lemma_after_steps_add(tl, k0, q, (cooldown + 2) as nat);
    }
}

impl ScrollingTextState {
    /// A scrolling text starts with its window at the front of the text,
    /// `len` characters wide, not stopped, scrolling forwards, and with the
    /// stop that its behaviour asks for.
    pub proof fn lemma_initial_keeps_behaviour(behaviour: ScrollBehaviour, len: usize)
        ensures
            behaviour matches ScrollBehaviour::Reset(stop) ==> (ScrollingTextState::initial(
                behaviour,
                len,
            ) matches ScrollingTextState::Reset { range, cooldown, cd } && range.start == 0
                && range.end == len && cooldown == stop && cd == 0),
            behaviour matches ScrollBehaviour::Loop ==> (ScrollingTextState::initial(
                behaviour,
                len,
            ) matches ScrollingTextState::Loop { main, wraparound } && main.start == 0
                && main.end == len && wraparound == 0),
            behaviour matches ScrollBehaviour::Bounce(stop) ==> (ScrollingTextState::initial(
                behaviour,
                len,
            ) matches ScrollingTextState::Bounce { range, cooldown, cd, forwards } && range.start
                == 0 && range.end == len && cooldown == stop && cd == 0 && forwards),
    {
    }

    /// A text that is not stopped and whose window stays inside the text
    /// moves its window by exactly the speed in one step, towards the end or,
    /// for a bouncing text going back, towards the front; nothing else of its
    /// state changes.
    pub proof fn lemma_step_moves_by_the_speed(
        range: Range<usize>,
        cooldown: u8,
        text_len: usize,
        spd: usize,
    )
        requires
            range.start <= range.end,
        ensures
            range.end + spd < text_len ==> ((ScrollingTextState::Reset {
                range,
                cooldown,
                cd: 0,
            }).next_state(text_len as int, spd as int) matches ScrollingTextState::Reset {
                range: r,
                cooldown: c,
                cd,
            } && r.start == range.start + spd && r.end == range.end + spd && c == cooldown && cd
                == 0),
            range.end + spd < text_len ==> ((ScrollingTextState::Bounce {
                range,
                cooldown,
                cd: 0,
                forwards: true,
            }).next_state(text_len as int, spd as int) matches ScrollingTextState::Bounce {
                range: r,
                cooldown: c,
                cd,
                forwards,
            } && r.start == range.start + spd && r.end == range.end + spd && c == cooldown && cd
                == 0 && forwards),
            range.start > spd ==> ((ScrollingTextState::Bounce {
                range,
                cooldown,
                cd: 0,
                forwards: false,
            }).next_state(text_len as int, spd as int) matches ScrollingTextState::Bounce {
                range: r,
                cooldown: c,
                cd,
                forwards,
            } && r.start == range.start - spd && r.end == range.end - spd && c == cooldown && cd
                == 0 && !forwards),
    {
    }
}

} // verus!
