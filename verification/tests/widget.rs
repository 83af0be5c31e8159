use liquid_crystal_ui::error::StorageError;
use liquid_crystal_ui::num::NonZeroUsize;
use liquid_crystal_ui::storage::{BoundedVec, TextContainer};
use liquid_crystal_ui::ui::widget::{ScrollBehaviour, ScrollSpeed, ScrollingTextState, WidgetContent};

fn nz(n: usize) -> NonZeroUsize {
    NonZeroUsize::new(n).unwrap()
}

fn one() -> NonZeroUsize {
    nz(1)
}

fn reset(start: usize, end: usize, cooldown: u8, cd: u8) -> ScrollingTextState {
    ScrollingTextState::Reset { range: start..end, cooldown, cd }
}

fn bounce(start: usize, end: usize, cooldown: u8, cd: u8, forwards: bool) -> ScrollingTextState {
    ScrollingTextState::Bounce { range: start..end, cooldown, cd, forwards }
}

fn reset_parts(s: &ScrollingTextState) -> (usize, usize, u8) {
    match s {
        ScrollingTextState::Reset { range, cd, .. } => (range.start, range.end, *cd),
        _ => panic!("expected a reset state"),
    }
}

fn bounce_parts(s: &ScrollingTextState) -> (usize, usize, u8, bool) {
    match s {
        ScrollingTextState::Bounce { range, cd, forwards, .. } => (range.start, range.end, *cd, *forwards),
        _ => panic!("expected a bounce state"),
    }
}

fn loop_parts(s: &ScrollingTextState) -> (usize, usize, usize) {
    match s {
        ScrollingTextState::Loop { main, wraparound } => (main.start, main.end, *wraparound),
        _ => panic!("expected a loop state"),
    }
}

#[test]
fn nonzero_refuses_zero() {
    assert!(NonZeroUsize::new(0).is_none());
    assert_eq!(nz(4).get(), 4);
}

#[test]
fn text_converts_the_string() {
    match WidgetContent::<Vec<u8>>::text("Hello!").unwrap() {
        WidgetContent::Text(t) => assert_eq!(t, b"Hello!".to_vec()),
        _ => panic!("expected text"),
    }
}

#[test]
fn text_fails_where_the_string_does_not_fit() {
    let r = WidgetContent::<BoundedVec<u8, 3>>::text("Hello!");
    assert!(matches!(r, Err(StorageError::NotEnoughStorage)));
}

#[test]
fn short_scroll_text_is_plain_text() {
    let w = WidgetContent::<Vec<u8>>::scroll_text("Hi", nz(5), ScrollSpeed::CPT(one()), ScrollBehaviour::Loop)
        .unwrap();
    match w {
        WidgetContent::Text(t) => assert_eq!(t, b"Hi".to_vec()),
        _ => panic!("expected text"),
    }
    let exact = WidgetContent::<Vec<u8>>::scroll_text("Hello", nz(5), ScrollSpeed::TPC(one()), ScrollBehaviour::Reset(2))
        .unwrap();
    assert!(matches!(exact, WidgetContent::Text(_)));
}

#[test]
fn long_scroll_text_starts_at_the_front() {
    let w = WidgetContent::<Vec<u8>>::scroll_text("Hello, World!", nz(5), ScrollSpeed::CPT(nz(2)), ScrollBehaviour::Bounce(3))
        .unwrap();
    match w {
        WidgetContent::ScrollingText { string, len, speed, state } => {
            assert_eq!(string, b"Hello, World!".to_vec());
            assert_eq!(len.get(), 5);
            assert!(matches!(speed, ScrollSpeed::CPT(n) if n.get() == 2));
            assert_eq!(bounce_parts(&state), (0, 5, 0, true));
        }
        _ => panic!("expected scrolling text"),
    }
}

#[test]
fn scroll_text_length_counts_characters() {
    // three characters, nine bytes: no longer than a window of 5, so plain text
    let w = WidgetContent::<Vec<u8>>::scroll_text("アイウ", nz(5), ScrollSpeed::CPT(one()), ScrollBehaviour::Reset(0))
        .unwrap();
    match w {
        WidgetContent::Text(t) => assert_eq!(t, vec![0xB1, 0xB2, 0xB3]),
        _ => panic!("expected text"),
    }
    // three characters under a window of 2: it scrolls
    let w = WidgetContent::<Vec<u8>>::scroll_text("アイウ", nz(2), ScrollSpeed::CPT(one()), ScrollBehaviour::Loop).unwrap();
    match w {
        WidgetContent::ScrollingText { string, len, state, .. } => {
            assert_eq!(string, vec![0xB1, 0xB2, 0xB3]);
            assert_eq!(len.get(), 2);
            assert_eq!(loop_parts(&state), (0, 2, 0));
        }
        _ => panic!("expected scrolling text"),
    }
}

#[test]
fn scroll_text_fails_where_the_string_does_not_fit() {
    let r = WidgetContent::<BoundedVec<u8, 4>>::scroll_text("Hello, World!", nz(2), ScrollSpeed::CPT(one()), ScrollBehaviour::Loop);
    assert!(matches!(r, Err(StorageError::NotEnoughStorage)));
}

#[test]
fn loop_wraps_round_the_end() {
    // "Hello, World!" has 13 characters; the window shows 5 of them
    let mut s = ScrollingTextState::Loop { main: 8..13, wraparound: 0 };
    s.next(13, one());
    assert_eq!(loop_parts(&s), (9, 13, 1));
    s.next(13, one());
    assert_eq!(loop_parts(&s), (10, 13, 2));
    s.next(13, one());
    assert_eq!(loop_parts(&s), (11, 13, 3));
    s.next(13, one());
    assert_eq!(loop_parts(&s), (12, 13, 4));
    s.next(13, one());
    let (start, end, _) = loop_parts(&s);
    assert_eq!((start, end), (0, 5));
    s.next(13, one());
    let (start, end, _) = loop_parts(&s);
    assert_eq!((start, end), (1, 6));
}

#[test]
fn loop_moves_by_the_speed() {
    let mut s = ScrollingTextState::Loop { main: 0..5, wraparound: 0 };
    s.next(13, nz(4));
    assert_eq!(loop_parts(&s), (4, 9, 0));
    s.next(13, nz(4));
    assert_eq!(loop_parts(&s), (8, 13, 0));
    s.next(13, nz(4));
    assert_eq!(loop_parts(&s), (12, 13, 4));
}

#[test]
fn reset_stops_at_the_end_then_starts_over() {
    // 8 characters, window of 5, stop for 2 ticks
    let mut s = reset(0, 5, 2, 0);
    s.next(8, one());
    assert_eq!(reset_parts(&s), (1, 6, 0));
    s.next(8, one());
    assert_eq!(reset_parts(&s), (2, 7, 0));
    s.next(8, one());
    assert_eq!(reset_parts(&s), (3, 8, 2));
    s.next(8, one());
    assert_eq!(reset_parts(&s), (3, 8, 1));
    s.next(8, one());
    assert_eq!(reset_parts(&s), (3, 8, 0));
    s.next(8, one());
    assert_eq!(reset_parts(&s), (0, 5, 0));
    s.next(8, one());
    assert_eq!(reset_parts(&s), (1, 6, 0));
}

#[test]
fn reset_stop_lasts_cooldown_ticks() {
    // the window arrives at the end, stays there 4 more ticks, then starts over
    let mut s = reset(1, 6, 4, 0);
    s.next(8, nz(3));
    assert_eq!(reset_parts(&s), (3, 8, 4));
    for left in (0..4u8).rev() {
        s.next(8, nz(3));
        assert_eq!(reset_parts(&s), (3, 8, left));
    }
    s.next(8, nz(3));
    assert_eq!(reset_parts(&s), (0, 5, 0));
}

#[test]
fn reset_without_a_stop_starts_over_after_showing_the_end() {
    let mut s = reset(2, 7, 0, 0);
    s.next(8, nz(2));
    assert_eq!(reset_parts(&s), (3, 8, 0));
    s.next(8, nz(2));
    assert_eq!(reset_parts(&s), (0, 5, 0));
}

#[test]
fn reset_window_wider_than_the_text_stays() {
    // two characters under a window of three: the window cannot move
    let mut s = reset(0, 3, 1, 0);
    s.next(2, one());
    assert_eq!(reset_parts(&s), (0, 3, 0));
}

#[test]
fn reset_clamps_to_the_end_when_overshooting() {
    let mut s = reset(1, 6, 3, 0);
    s.next(8, nz(5));
    assert_eq!(reset_parts(&s), (3, 8, 3));
}

#[test]
fn bounce_turns_at_both_ends() {
    // 7 characters, window of 5, stop for 1 tick; the window lands exactly on
    // either end and stops there at once
    let mut s = bounce(0, 5, 1, 0, true);
    s.next(7, one());
    assert_eq!(bounce_parts(&s), (1, 6, 0, true));
    s.next(7, one());
    assert_eq!(bounce_parts(&s), (2, 7, 1, true));
    s.next(7, one());
    assert_eq!(bounce_parts(&s), (2, 7, 0, false));
    s.next(7, one());
    assert_eq!(bounce_parts(&s), (1, 6, 0, false));
    s.next(7, one());
    assert_eq!(bounce_parts(&s), (0, 5, 1, false));
    s.next(7, one());
    assert_eq!(bounce_parts(&s), (0, 5, 0, true));
    s.next(7, one());
    assert_eq!(bounce_parts(&s), (1, 6, 0, true));
}

#[test]
fn bounce_stop_is_as_long_after_an_exact_landing_as_after_an_overshoot() {
    // lands exactly on the end (speed 1) and overshoots it (speed 3): the
    // window rests at the end for the tick it arrives and `cooldown` more
    for spd in [1usize, 3] {
        let mut s = bounce(1, 5, 2, 0, true);
        let mut at_end = 0;
        for _ in 0..12 {
            s.next(8, nz(spd));
            let (start, end, _, _) = bounce_parts(&s);
            if (start, end) == (4, 8) {
                at_end += 1;
            } else if at_end > 0 {
                break;
            }
        }
        assert_eq!(at_end, 3);
    }
}

#[test]
fn bounce_without_a_stop_turns_at_once() {
    let mut s = bounce(2, 7, 0, 0, true);
    s.next(7, one());
    assert_eq!(bounce_parts(&s), (2, 7, 0, false));
    s.next(7, one());
    assert_eq!(bounce_parts(&s), (1, 6, 0, false));
    let mut t = bounce(0, 5, 0, 0, false);
    t.next(7, one());
    assert_eq!(bounce_parts(&t), (0, 5, 0, true));
}

#[test]
fn bounce_stop_lasts_cooldown_ticks_at_each_end() {
    // 9 characters, window of 4, speed 2, stop for 3 ticks
    let mut s = bounce(3, 7, 3, 0, true);
    s.next(9, nz(3));
    assert_eq!(bounce_parts(&s), (5, 9, 3, true));
    s.next(9, nz(3));
    assert_eq!(bounce_parts(&s), (5, 9, 2, true));
    s.next(9, nz(3));
    assert_eq!(bounce_parts(&s), (5, 9, 1, true));
    s.next(9, nz(3));
    assert_eq!(bounce_parts(&s), (5, 9, 0, false));
    s.next(9, nz(3));
    assert_eq!(bounce_parts(&s), (2, 6, 0, false));
    s.next(9, nz(3));
    assert_eq!(bounce_parts(&s), (0, 4, 3, false));
    s.next(9, nz(3));
    assert_eq!(bounce_parts(&s), (0, 4, 2, false));
    s.next(9, nz(3));
    assert_eq!(bounce_parts(&s), (0, 4, 1, false));
    s.next(9, nz(3));
    assert_eq!(bounce_parts(&s), (0, 4, 0, true));
    s.next(9, nz(3));
    assert_eq!(bounce_parts(&s), (3, 7, 0, true));
}

#[test]
fn text_container_from_str_of_bounded_text() {
    let t: BoundedVec<u8, 16> = TextContainer::from_str("Bat").unwrap();
    assert_eq!(t.chars(), b"Bat".to_vec());
}

#[test]
fn loop_comes_round_after_as_many_steps_as_the_text_is_long() {
    // 13 characters, window of 5, speed 4: after 13 steps the window is back
    let mut s = ScrollingTextState::Loop { main: 0..5, wraparound: 0 };
    for step in 1..=13usize {
        s.next(13, nz(4));
        let (start, end, wrap) = loop_parts(&s);
        assert_eq!(start, (4 * step) % 13);
        let shown = if wrap != 0 && end == 13 { 13 - start + wrap } else { end - start };
        assert_eq!(shown, 5);
    }
    let (start, end, _) = loop_parts(&s);
    assert_eq!((start, end), (0, 5));
}

#[test]
fn reset_reaches_the_end_from_any_window_then_starts_over() {
    for text_len in 2..10usize {
        for n in 1..text_len {
            for spd in 1..5usize {
                for cooldown in 0..3u8 {
                    let mut s = reset(0, n, cooldown, 0);
                    let q = (text_len - 1 - n) / spd;
                    for k in 1..=q {
                        s.next(text_len, nz(spd));
                        assert_eq!(reset_parts(&s), (k * spd, n + k * spd, 0));
                    }
                    for j in 1..=(cooldown as usize + 1) {
                        s.next(text_len, nz(spd));
                        assert_eq!(reset_parts(&s), (text_len - n, text_len, cooldown + 1 - j as u8));
                    }
                    s.next(text_len, nz(spd));
                    assert_eq!(reset_parts(&s), (0, n, 0));
                }
            }
        }
    }
}
