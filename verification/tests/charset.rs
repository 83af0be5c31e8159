use liquid_crystal_ui::storage::char_to_ext_ascii_byte;
use liquid_crystal_ui::storage::{BoundedVec, StackContainer, TextContainer};

#[test]
fn ascii_characters_stand_for_themselves() {
    assert_eq!(char_to_ext_ascii_byte('A', b'?'), b'A');
    assert_eq!(char_to_ext_ascii_byte(' ', b'?'), b' ');
    assert_eq!(char_to_ext_ascii_byte('~', b'?'), b'~');
    assert_eq!(char_to_ext_ascii_byte('\0', b'?'), 0);
}

#[test]
fn extended_characters_take_their_display_byte() {
    assert_eq!(char_to_ext_ascii_byte('→', b'?'), 0b0111_1110);
    assert_eq!(char_to_ext_ascii_byte('←', b'?'), 0b0111_1111);
    assert_eq!(char_to_ext_ascii_byte('。', b'?'), 0b1010_0001);
    assert_eq!(char_to_ext_ascii_byte('ア', b'?'), 0b1011_0001);
    assert_eq!(char_to_ext_ascii_byte('ン', b'?'), 0b1101_1101);
    assert_eq!(char_to_ext_ascii_byte('ä', b'?'), 0b1110_0001);
    assert_eq!(char_to_ext_ascii_byte('π', b'?'), 0b1111_0110);
    assert_eq!(char_to_ext_ascii_byte('円', b'?'), 0b1111_1011);
    assert_eq!(char_to_ext_ascii_byte('■', b'?'), 0b1111_1111);
}

#[test]
fn other_characters_become_the_replacement() {
    assert_eq!(char_to_ext_ascii_byte('€', b'?'), b'?');
    assert_eq!(char_to_ext_ascii_byte('€', b'#'), b'#');
    assert_eq!(char_to_ext_ascii_byte('あ', 0), 0);
}

#[test]
fn from_str_converts_each_character() {
    let t: Vec<u8> = TextContainer::from_str("Hi→ア€").unwrap();
    assert_eq!(t, vec![b'H', b'i', 0b0111_1110, 0b1011_0001, b'?']);
}

#[test]
fn from_utf8_replace_uses_the_given_byte() {
    let t: Vec<u8> = TextContainer::from_utf8_replace("a€b", b'*').unwrap();
    assert_eq!(t, vec![b'a', b'*', b'b']);
}

#[test]
fn from_str_fails_where_the_text_does_not_fit() {
    let fits: Result<BoundedVec<u8, 4>, _> = TextContainer::from_str("ab→c");
    assert_eq!(fits.unwrap().chars(), vec![b'a', b'b', 0b0111_1110, b'c']);
    let too_long: Result<BoundedVec<u8, 4>, _> = TextContainer::from_str("abcde");
    assert!(too_long.is_err());
}

#[test]
fn empty_text_is_empty() {
    let t: BoundedVec<u8, 0> = TextContainer::from_str("").unwrap();
    assert!(TextContainer::is_empty(&t));
    assert_eq!(StackContainer::len(&t), 0);
}
