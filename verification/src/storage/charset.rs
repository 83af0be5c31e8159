//! The character set of HD44780-style displays.

use vstd::prelude::*;
use vstd::string::StringSliceAdditionalSpecFns;

verus! {

/// Whether `c` is an ASCII character (code point below 128).
pub open spec fn is_ascii_char(c: char) -> bool {
    (c as u32) < 128
}

/// The byte that stands for the non-ASCII character `c` in the extended
/// character set of the HD44780U display (Japanese ROM, table 4 of its data
/// sheet), or `None` where the display has no such character.
pub open spec fn hd44780_code(c: char) -> Option<u8> {
    match c {
        '\u{2192}' => Some(0x7eu8),
        '\u{2190}' => Some(0x7fu8),
        '\u{3002}' => Some(0xa1u8),
        '\u{300c}' => Some(0xa2u8),
        '\u{300d}' => Some(0xa3u8),
        '\u{3001}' => Some(0xa4u8),
        '\u{30fb}' => Some(0xa5u8),
        '\u{30f2}' => Some(0xa6u8),
        '\u{30a1}' => Some(0xa7u8),
        '\u{30a3}' => Some(0xa8u8),
        '\u{30a5}' => Some(0xa9u8),
        '\u{30a7}' => Some(0xaau8),
        '\u{30a9}' => Some(0xabu8),
        '\u{30e3}' => Some(0xacu8),
        '\u{30e5}' => Some(0xadu8),
        '\u{30e7}' => Some(0xaeu8),
        '\u{30c3}' => Some(0xafu8),
        '\u{30fc}' => Some(0xb0u8),
        '\u{30a2}' => Some(0xb1u8),
        '\u{30a4}' => Some(0xb2u8),
        '\u{30a6}' => Some(0xb3u8),
        '\u{30a8}' => Some(0xb4u8),
        '\u{30aa}' => Some(0xb5u8),
        '\u{30ab}' => Some(0xb6u8),
        '\u{30ad}' => Some(0xb7u8),
        '\u{30af}' => Some(0xb8u8),
        '\u{30b1}' => Some(0xb9u8),
        '\u{30b3}' => Some(0xbau8),
        '\u{30b5}' => Some(0xbbu8),
        '\u{30b7}' => Some(0xbcu8),
        '\u{30b9}' => Some(0xbdu8),
        '\u{30bb}' => Some(0xbeu8),
        '\u{30bd}' => Some(0xbfu8),
        '\u{30bf}' => Some(0xc0u8),
        '\u{30c1}' => Some(0xc1u8),
        '\u{30c4}' => Some(0xc2u8),
        '\u{30c6}' => Some(0xc3u8),
        '\u{30c8}' => Some(0xc4u8),
        '\u{30ca}' => Some(0xc5u8),
        '\u{30cb}' => Some(0xc6u8),
        '\u{30cc}' => Some(0xc7u8),
        '\u{30cd}' => Some(0xc8u8),
        '\u{30ce}' => Some(0xc9u8),
        '\u{30cf}' => Some(0xcau8),
        '\u{30d2}' => Some(0xcbu8),
        '\u{30d5}' => Some(0xccu8),
        '\u{30d8}' => Some(0xcdu8),
        '\u{30db}' => Some(0xceu8),
        '\u{30de}' => Some(0xcfu8),
        '\u{30df}' => Some(0xd0u8),
        '\u{30e0}' => Some(0xd1u8),
        '\u{30e1}' => Some(0xd2u8),
        '\u{30e2}' => Some(0xd3u8),
        '\u{30e4}' => Some(0xd4u8),
        '\u{30e6}' => Some(0xd5u8),
        '\u{30e8}' => Some(0xd6u8),
        '\u{30e9}' => Some(0xd7u8),
        '\u{30ea}' => Some(0xd8u8),
        '\u{30eb}' => Some(0xd9u8),
        '\u{30ec}' => Some(0xdau8),
        '\u{30ed}' => Some(0xdbu8),
        '\u{30ef}' => Some(0xdcu8),
        '\u{30f3}' => Some(0xddu8),
        '\u{309b}' => Some(0xdeu8),
        '\u{309c}' => Some(0xdfu8),
        '\u{3b1}' => Some(0xe0u8),
        '\u{e4}' => Some(0xe1u8),
        '\u{3b2}' => Some(0xe2u8),
        '\u{3b5}' => Some(0xe3u8),
        '\u{3bc}' => Some(0xe4u8),
        '\u{3c3}' => Some(0xe5u8),
        '\u{3c1}' => Some(0xe6u8),
        '\u{221a}' => Some(0xe8u8),
        '\u{203b}' => Some(0xeau8),
        '\u{a2}' => Some(0xebu8),
        '\u{141}' => Some(0xecu8),
        '\u{f1}' => Some(0xedu8),
        '\u{f6}' => Some(0xeeu8),
        '\u{3b8}' => Some(0xf1u8),
        '\u{221e}' => Some(0xf2u8),
        '\u{3a9}' => Some(0xf3u8),
        '\u{fc}' => Some(0xf4u8),
        '\u{3a3}' => Some(0xf5u8),
        '\u{3c0}' => Some(0xf6u8),
        '\u{5343}' => Some(0xf9u8),
        '\u{4e07}' => Some(0xfau8),
        '\u{5186}' => Some(0xfbu8),
        '\u{f7}' => Some(0xfcu8),
        '\u{25a0}' => Some(0xffu8),
        _ => None,
    }
}

/// The byte that the display shows for `c`: ASCII characters stand for
/// themselves, characters of the extended set for their byte in it, and every
/// other character for `replacement`.
pub open spec fn ext_ascii_byte(c: char, replacement: u8) -> u8 {
    if is_ascii_char(c) {
        c as u8
    } else {
        match hd44780_code(c) {
            Some(b) => b,
            None => replacement,
        }
    }
}

/// The bytes that the display shows for the characters `s`, one byte each.
pub open spec fn ext_ascii_bytes(s: Seq<char>, replacement: u8) -> Seq<u8> {
    s.map_values(|c: char| ext_ascii_byte(c, replacement))
}

/// Looks `ch` up in the extended character set of the display.
fn hd44780_lookup(ch: char) -> (r: Option<u8>)
    ensures
        r == hd44780_code(ch),
{
    match ch {
        '\u{2192}' => Some(0x7e),
        '\u{2190}' => Some(0x7f),
        '\u{3002}' => Some(0xa1),
        '\u{300c}' => Some(0xa2),
        '\u{300d}' => Some(0xa3),
        '\u{3001}' => Some(0xa4),
        '\u{30fb}' => Some(0xa5),
        '\u{30f2}' => Some(0xa6),
        '\u{30a1}' => Some(0xa7),
        '\u{30a3}' => Some(0xa8),
        '\u{30a5}' => Some(0xa9),
        '\u{30a7}' => Some(0xaa),
        '\u{30a9}' => Some(0xab),
        '\u{30e3}' => Some(0xac),
        '\u{30e5}' => Some(0xad),
        '\u{30e7}' => Some(0xae),
        '\u{30c3}' => Some(0xaf),
        '\u{30fc}' => Some(0xb0),
        '\u{30a2}' => Some(0xb1),
        '\u{30a4}' => Some(0xb2),
        '\u{30a6}' => Some(0xb3),
        '\u{30a8}' => Some(0xb4),
        '\u{30aa}' => Some(0xb5),
        '\u{30ab}' => Some(0xb6),
        '\u{30ad}' => Some(0xb7),
        '\u{30af}' => Some(0xb8),
        '\u{30b1}' => Some(0xb9),
        '\u{30b3}' => Some(0xba),
        '\u{30b5}' => Some(0xbb),
        '\u{30b7}' => Some(0xbc),
        '\u{30b9}' => Some(0xbd),
        '\u{30bb}' => Some(0xbe),
        '\u{30bd}' => Some(0xbf),
        '\u{30bf}' => Some(0xc0),
        '\u{30c1}' => Some(0xc1),
        '\u{30c4}' => Some(0xc2),
        '\u{30c6}' => Some(0xc3),
        '\u{30c8}' => Some(0xc4),
        '\u{30ca}' => Some(0xc5),
        '\u{30cb}' => Some(0xc6),
        '\u{30cc}' => Some(0xc7),
        '\u{30cd}' => Some(0xc8),
        '\u{30ce}' => Some(0xc9),
        '\u{30cf}' => Some(0xca),
        '\u{30d2}' => Some(0xcb),
        '\u{30d5}' => Some(0xcc),
        '\u{30d8}' => Some(0xcd),
        '\u{30db}' => Some(0xce),
        '\u{30de}' => Some(0xcf),
        '\u{30df}' => Some(0xd0),
        '\u{30e0}' => Some(0xd1),
        '\u{30e1}' => Some(0xd2),
        '\u{30e2}' => Some(0xd3),
        '\u{30e4}' => Some(0xd4),
        '\u{30e6}' => Some(0xd5),
        '\u{30e8}' => Some(0xd6),
        '\u{30e9}' => Some(0xd7),
        '\u{30ea}' => Some(0xd8),
        '\u{30eb}' => Some(0xd9),
        '\u{30ec}' => Some(0xda),
        '\u{30ed}' => Some(0xdb),
        '\u{30ef}' => Some(0xdc),
        '\u{30f3}' => Some(0xdd),
        '\u{309b}' => Some(0xde),
        '\u{309c}' => Some(0xdf),
        '\u{3b1}' => Some(0xe0),
        '\u{e4}' => Some(0xe1),
        '\u{3b2}' => Some(0xe2),
        '\u{3b5}' => Some(0xe3),
        '\u{3bc}' => Some(0xe4),
        '\u{3c3}' => Some(0xe5),
        '\u{3c1}' => Some(0xe6),
        '\u{221a}' => Some(0xe8),
        '\u{203b}' => Some(0xea),
        '\u{a2}' => Some(0xeb),
        '\u{141}' => Some(0xec),
        '\u{f1}' => Some(0xed),
        '\u{f6}' => Some(0xee),
        '\u{3b8}' => Some(0xf1),
        '\u{221e}' => Some(0xf2),
        '\u{3a9}' => Some(0xf3),
        '\u{fc}' => Some(0xf4),
        '\u{3a3}' => Some(0xf5),
        '\u{3c0}' => Some(0xf6),
        '\u{5343}' => Some(0xf9),
        '\u{4e07}' => Some(0xfa),
        '\u{5186}' => Some(0xfb),
        '\u{f7}' => Some(0xfc),
        '\u{25a0}' => Some(0xff),
        _ => None,
    }
}

/// Converts a character to the byte the display shows for it. ASCII characters
/// are kept; other characters become their byte in the display's extended
/// character set, or `replacement` where it has none.
pub fn char_to_ext_ascii_byte(ch: char, replacement: u8) -> (r: u8)
    ensures
        r == ext_ascii_byte(ch, replacement),
        is_ascii_char(ch) ==> r as u32 == ch as u32,
        !is_ascii_char(ch) && (exists|b: u8| hd44780_glyph(b) == Some(ch)) ==> hd44780_glyph(r)
            == Some(ch),
        !is_ascii_char(ch) && (forall|b: u8| hd44780_glyph(b) != Some(ch)) ==> r == replacement,
{
    proof {
        lemma_byte_shows_the_character(ch, replacement);
    }
    if (ch as u32) < 128 {
        ch as u8
    } else {
        match hd44780_lookup(ch) {
            Some(b) => b,
            None => replacement,
        }
    }
}

/// An ASCII string is stored as its own UTF-8 bytes: converting it for the
/// display changes nothing.
pub proof fn lemma_ascii_text_kept(s: &str, replacement: u8)
    requires
        vstd::string::is_ascii(s),
    ensures
        ext_ascii_bytes(s@, replacement) == s.spec_bytes(),
{
    broadcast use vstd::string::is_ascii_spec_bytes;
    broadcast use vstd::utf8::is_ascii_chars_nat_bound;

    assert(s.spec_bytes() =~= Seq::new(s@.len(), |i| s@.index(i) as u8));
    assert forall|i: int| 0 <= i < s@.len() implies #[trigger] ext_ascii_bytes(s@, replacement)[i]
        == s.spec_bytes()[i] by {
        assert((s@[i] as nat) < 128);
    }
    assert(ext_ascii_bytes(s@, replacement) =~= s.spec_bytes());
}

/// The character that the ROM of the HD44780U display (Japanese version,
/// table 4 of its data sheet) shows at code `b`, read code by code, for the
/// codes above the ASCII letters whose character has a Unicode equivalent
/// (`None` for the others).
pub open spec fn hd44780_glyph(b: u8) -> Option<char> {
    match b {
        0x7eu8 => Some('\u{2192}'),
        0x7fu8 => Some('\u{2190}'),
        0xa1u8 => Some('\u{3002}'),
        0xa2u8 => Some('\u{300c}'),
        0xa3u8 => Some('\u{300d}'),
        0xa4u8 => Some('\u{3001}'),
        0xa5u8 => Some('\u{30fb}'),
        0xa6u8 => Some('\u{30f2}'),
        0xa7u8 => Some('\u{30a1}'),
        0xa8u8 => Some('\u{30a3}'),
        0xa9u8 => Some('\u{30a5}'),
        0xaau8 => Some('\u{30a7}'),
        0xabu8 => Some('\u{30a9}'),
        0xacu8 => Some('\u{30e3}'),
        0xadu8 => Some('\u{30e5}'),
        0xaeu8 => Some('\u{30e7}'),
        0xafu8 => Some('\u{30c3}'),
        0xb0u8 => Some('\u{30fc}'),
        0xb1u8 => Some('\u{30a2}'),
        0xb2u8 => Some('\u{30a4}'),
        0xb3u8 => Some('\u{30a6}'),
        0xb4u8 => Some('\u{30a8}'),
        0xb5u8 => Some('\u{30aa}'),
        0xb6u8 => Some('\u{30ab}'),
        0xb7u8 => Some('\u{30ad}'),
        0xb8u8 => Some('\u{30af}'),
        0xb9u8 => Some('\u{30b1}'),
        0xbau8 => Some('\u{30b3}'),
        0xbbu8 => Some('\u{30b5}'),
        0xbcu8 => Some('\u{30b7}'),
        0xbdu8 => Some('\u{30b9}'),
        0xbeu8 => Some('\u{30bb}'),
        0xbfu8 => Some('\u{30bd}'),
        0xc0u8 => Some('\u{30bf}'),
        0xc1u8 => Some('\u{30c1}'),
        0xc2u8 => Some('\u{30c4}'),
        0xc3u8 => Some('\u{30c6}'),
        0xc4u8 => Some('\u{30c8}'),
        0xc5u8 => Some('\u{30ca}'),
        0xc6u8 => Some('\u{30cb}'),
        0xc7u8 => Some('\u{30cc}'),
        0xc8u8 => Some('\u{30cd}'),
        0xc9u8 => Some('\u{30ce}'),
        0xcau8 => Some('\u{30cf}'),
        0xcbu8 => Some('\u{30d2}'),
        0xccu8 => Some('\u{30d5}'),
        0xcdu8 => Some('\u{30d8}'),
        0xceu8 => Some('\u{30db}'),
        0xcfu8 => Some('\u{30de}'),
        0xd0u8 => Some('\u{30df}'),
        0xd1u8 => Some('\u{30e0}'),
        0xd2u8 => Some('\u{30e1}'),
        0xd3u8 => Some('\u{30e2}'),
        0xd4u8 => Some('\u{30e4}'),
        0xd5u8 => Some('\u{30e6}'),
        0xd6u8 => Some('\u{30e8}'),
        0xd7u8 => Some('\u{30e9}'),
        0xd8u8 => Some('\u{30ea}'),
        0xd9u8 => Some('\u{30eb}'),
        0xdau8 => Some('\u{30ec}'),
        0xdbu8 => Some('\u{30ed}'),
        0xdcu8 => Some('\u{30ef}'),
        0xddu8 => Some('\u{30f3}'),
        0xdeu8 => Some('\u{309b}'),
        0xdfu8 => Some('\u{309c}'),
        0xe0u8 => Some('\u{3b1}'),
        0xe1u8 => Some('\u{e4}'),
        0xe2u8 => Some('\u{3b2}'),
        0xe3u8 => Some('\u{3b5}'),
        0xe4u8 => Some('\u{3bc}'),
        0xe5u8 => Some('\u{3c3}'),
        0xe6u8 => Some('\u{3c1}'),
        0xe8u8 => Some('\u{221a}'),
        0xeau8 => Some('\u{203b}'),
        0xebu8 => Some('\u{a2}'),
        0xecu8 => Some('\u{141}'),
        0xedu8 => Some('\u{f1}'),
        0xeeu8 => Some('\u{f6}'),
        0xf1u8 => Some('\u{3b8}'),
        0xf2u8 => Some('\u{221e}'),
        0xf3u8 => Some('\u{3a9}'),
        0xf4u8 => Some('\u{fc}'),
        0xf5u8 => Some('\u{3a3}'),
        0xf6u8 => Some('\u{3c0}'),
        0xf9u8 => Some('\u{5343}'),
        0xfau8 => Some('\u{4e07}'),
        0xfbu8 => Some('\u{5186}'),
        0xfcu8 => Some('\u{f7}'),
        0xffu8 => Some('\u{25a0}'),
        _ => None,
    }
}

/// The table of the display's extended characters agrees with its ROM, code
/// by code: a character is written as code `b` exactly where the ROM shows
/// that character at `b`.
pub proof fn lemma_code_is_rom_position(c: char, b: u8)
    ensures
        hd44780_code(c) == Some(b) <==> hd44780_glyph(b) == Some(c),
{
}

/// The byte written for a character shows that character: an ASCII
/// character is written as itself; any other character is written as the
/// code at which the display's ROM shows it, or, where the ROM does not show
/// it at all, as `replacement`.
pub proof fn lemma_byte_shows_the_character(c: char, replacement: u8)
    ensures
        is_ascii_char(c) ==> ext_ascii_byte(c, replacement) as u32 == c as u32,
        !is_ascii_char(c) && (exists|b: u8| hd44780_glyph(b) == Some(c)) ==> hd44780_glyph(
            ext_ascii_byte(c, replacement),
        ) == Some(c),
        !is_ascii_char(c) && (forall|b: u8| hd44780_glyph(b) != Some(c)) ==> ext_ascii_byte(
            c,
            replacement,
        ) == replacement,
{
    if !is_ascii_char(c) {
        if exists|b: u8| hd44780_glyph(b) == Some(c) {
            let b = choose|b: u8| hd44780_glyph(b) == Some(c);
            lemma_code_is_rom_position(c, b);
        } else {
            match hd44780_code(c) {
                Some(b) => {
                    lemma_code_is_rom_position(c, b);
                },
                None => {},
            }
        }
    }
}

} // verus!
