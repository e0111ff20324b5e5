//! Linux input-event codes as USB HID Keyboard/Keypad usages. The values are
//! protocol constants, never keyboard names or layouts.
use vstd::prelude::*;

verus! {

/// The usages of the codes from 1 to 83.
pub open spec fn standard() -> Seq<u16> {
    seq![
        41u16, 30, 31, 32, 33, 34, 35, 36, 37, 38, 39, 45, 46, 42, 43,
        20, 26, 8, 21, 23, 28, 24, 12, 18, 19, 47, 48, 40, 224, 4,
        22, 7, 9, 10, 11, 13, 14, 15, 51, 52, 53, 225, 49, 29, 27,
        6, 25, 5, 17, 16, 54, 55, 56, 229, 85, 226, 44, 57, 58, 59,
        60, 61, 62, 63, 64, 65, 66, 67, 83, 71, 95, 96, 97, 86, 92,
        93, 94, 87, 89, 90, 91, 98, 99,
    ]
}

/// The usage of a code, if it has one.
pub open spec fn usage_of(code: u16) -> Option<u16> {
    if 1 <= code <= 83 {
        Some(standard()[code - 1])
    } else {
        match code {
            86 => Some(100),
            87 => Some(68),
            88 => Some(69),
            89 => Some(135),
            96 => Some(88),
            97 => Some(228),
            98 => Some(84),
            99 => Some(70),
            100 => Some(230),
            102 => Some(74),
            103 => Some(82),
            104 => Some(75),
            105 => Some(80),
            106 => Some(79),
            107 => Some(77),
            108 => Some(81),
            109 => Some(78),
            110 => Some(73),
            111 => Some(76),
            119 => Some(72),
            122 => Some(144),
            123 => Some(145),
            124 => Some(137),
            125 => Some(227),
            126 => Some(231),
            127 => Some(101),
            _ => None,
        }
    }
}

/// The usage of a code, if it has one.
pub fn usage(code: u16) -> (r: Option<u16>)
    ensures
        r == usage_of(code),
{
    let table: [u16; 83] = [
        41, 30, 31, 32, 33, 34, 35, 36, 37, 38, 39, 45, 46, 42, 43,
        20, 26, 8, 21, 23, 28, 24, 12, 18, 19, 47, 48, 40, 224, 4,
        22, 7, 9, 10, 11, 13, 14, 15, 51, 52, 53, 225, 49, 29, 27,
        6, 25, 5, 17, 16, 54, 55, 56, 229, 85, 226, 44, 57, 58, 59,
        60, 61, 62, 63, 64, 65, 66, 67, 83, 71, 95, 96, 97, 86, 92,
        93, 94, 87, 89, 90, 91, 98, 99,
    ];
    if 1 <= code && code <= 83 {
        assert(table@ =~= standard());
        return Some(table[code as usize - 1]);
    }
    match code {
        86 => Some(100),
        87 => Some(68),
        88 => Some(69),
        89 => Some(135),
        96 => Some(88),
        97 => Some(228),
        98 => Some(84),
        99 => Some(70),
        100 => Some(230),
        102 => Some(74),
        103 => Some(82),
        104 => Some(75),
        105 => Some(80),
        106 => Some(79),
        107 => Some(77),
        108 => Some(81),
        109 => Some(78),
        110 => Some(73),
        111 => Some(76),
        119 => Some(72),
        122 => Some(144),
        123 => Some(145),
        124 => Some(137),
        125 => Some(227),
        126 => Some(231),
        127 => Some(101),
        _ => None,
    }
}

/// Every usage is an ordinary key or a modifier of the keyboard report.
pub proof fn law_usages_fit_the_report(code: u16)
    ensures
        usage_of(code) matches Some(usage) ==> 4 <= usage <= 164 || 224 <= usage <= 231,
{
    assert forall|i: int| 0 <= i < 83 implies 4 <= #[trigger] standard()[i] <= 164 || 224
        <= standard()[i] <= 231 by {}
}

/// The usage of a letter: the letters count up from 4.
pub open spec fn letter_usage(letter: char) -> int {
    4 + (letter as int - 'a' as int)
}

/// The letters have the codes of their places in the three rows of the keyboard, and
/// the usages of their places in the alphabet.
pub proof fn law_letters_are_laid_out_in_rows(i: int)
    ensures
        0 <= i < 10 ==> usage_of((16 + i) as u16) == Some(
            letter_usage(seq!['q', 'w', 'e', 'r', 't', 'y', 'u', 'i', 'o', 'p'][i]) as u16,
        ),
        0 <= i < 9 ==> usage_of((30 + i) as u16) == Some(
            letter_usage(seq!['a', 's', 'd', 'f', 'g', 'h', 'j', 'k', 'l'][i]) as u16,
        ),
        0 <= i < 7 ==> usage_of((44 + i) as u16) == Some(
            letter_usage(seq!['z', 'x', 'c', 'v', 'b', 'n', 'm'][i]) as u16,
        ),
{
}

/// Digits and function keys count up with their codes: the key of a digit `d`, and the
/// function key number `f`. Zero stands behind nine, and the last two function keys
/// stand apart.
pub proof fn law_digits_and_function_keys_count_up(d: int, f: int)
    ensures
        1 <= d <= 9 ==> usage_of((1 + d) as u16) == Some((29 + d) as u16),
        d == 0 ==> usage_of(11) == Some(39u16),
        1 <= f <= 10 ==> usage_of((58 + f) as u16) == Some((57 + f) as u16),
        11 <= f <= 12 ==> usage_of((76 + f) as u16) == Some((57 + f) as u16),
{
}

/// The usage of each key that is neither a letter, a digit nor a function key, by its
/// name.
pub open spec fn named_key(code: u16) -> Option<u16> {
    // Enter, Escape, Backspace, Tab and Space.
    if code == 28 {
        Some(40)
    } else if code == 1 {
        Some(41)
    } else if code == 14 {
        Some(42)
    } else if code == 15 {
        Some(43)
    } else if code == 57 {
        Some(44)
    }
    // Minus, equals, both brackets, the backslash, the semicolon, the apostrophe, the
    // grave accent, the comma, the dot and the slash.
    else if code == 12 {
        Some(45)
    } else if code == 13 {
        Some(46)
    } else if code == 26 {
        Some(47)
    } else if code == 27 {
        Some(48)
    } else if code == 43 {
        Some(49)
    } else if code == 39 {
        Some(51)
    } else if code == 40 {
        Some(52)
    } else if code == 41 {
        Some(53)
    } else if code == 51 {
        Some(54)
    } else if code == 52 {
        Some(55)
    } else if code == 53 {
        Some(56)
    }
    // The three locks, Print Screen and Pause.
    else if code == 58 {
        Some(57)
    } else if code == 99 {
        Some(70)
    } else if code == 70 {
        Some(71)
    } else if code == 119 {
        Some(72)
    } else if code == 69 {
        Some(83)
    }
    // Insert, Home, Page Up, Delete, End, Page Down, and the arrows to the right, to the
    // left, down and up.
    else if code == 110 {
        Some(73)
    } else if code == 102 {
        Some(74)
    } else if code == 104 {
        Some(75)
    } else if code == 111 {
        Some(76)
    } else if code == 107 {
        Some(77)
    } else if code == 109 {
        Some(78)
    } else if code == 106 {
        Some(79)
    } else if code == 105 {
        Some(80)
    } else if code == 108 {
        Some(81)
    } else if code == 103 {
        Some(82)
    }
    // The keypad: slash, asterisk, minus, plus, Enter, one to nine, zero and the dot.
    else if code == 98 {
        Some(84)
    } else if code == 55 {
        Some(85)
    } else if code == 74 {
        Some(86)
    } else if code == 78 {
        Some(87)
    } else if code == 96 {
        Some(88)
    } else if 79 <= code <= 81 {
        Some((89 + (code - 79)) as u16)
    } else if 75 <= code <= 77 {
        Some((92 + (code - 75)) as u16)
    } else if 71 <= code <= 73 {
        Some((95 + (code - 71)) as u16)
    } else if code == 82 {
        Some(98)
    } else if code == 83 {
        Some(99)
    }
    // The key beside the left Shift, Menu, Ro, Yen, Hangul and Hanja.
    else if code == 86 {
        Some(100)
    } else if code == 127 {
        Some(101)
    } else if code == 89 {
        Some(135)
    } else if code == 124 {
        Some(137)
    } else if code == 122 {
        Some(144)
    } else if code == 123 {
        Some(145)
    }
    // Control, Shift, Alt and Meta, on the left and then on the right.
    else if code == 29 {
        Some(224)
    } else if code == 42 {
        Some(225)
    } else if code == 56 {
        Some(226)
    } else if code == 125 {
        Some(227)
    } else if code == 97 {
        Some(228)
    } else if code == 54 {
        Some(229)
    } else if code == 100 {
        Some(230)
    } else if code == 126 {
        Some(231)
    } else {
        None
    }
}

/// Every other key has the usage that its name has, and a code without a name has none.
pub proof fn law_keys_have_the_usages_of_their_names(code: u16)
    requires
        // No digit, no letter and no function key.
        !(2 <= code <= 11),
        !(16 <= code <= 25),
        !(30 <= code <= 38),
        !(44 <= code <= 50),
        !(59 <= code <= 68),
        !(87 <= code <= 88),
    ensures
        usage_of(code) == named_key(code),
{
}

} // verus!
