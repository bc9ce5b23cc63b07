use vstd::prelude::*;

verus! {

/// The name that a soundpack uses for the key with the given macOS virtual
/// key code: the table of the keyboard layout that the packs were made for.
/// Codes that the table does not list are named `"default"`.
pub open spec fn spec_key_name(code: i64) -> Seq<char> {
    match code {
        18 => "1"@,
        19 => "2"@,
        20 => "3"@,
        21 => "4"@,
        23 => "5"@,
        22 => "6"@,
        26 => "7"@,
        28 => "8"@,
        25 => "9"@,
        29 => "0"@,
        83 => "1"@,
        84 => "2"@,
        85 => "3"@,
        86 => "4"@,
        87 => "5"@,
        88 => "6"@,
        89 => "7"@,
        91 => "8"@,
        92 => "9"@,
        82 => "0"@,
        67 => "*"@,
        75 => "/"@,
        69 => "+"@,
        78 => "-"@,
        81 => "="@,
        65 => "."@,
        71 => "clear"@,
        12 => "q"@,
        13 => "w"@,
        14 => "e"@,
        15 => "r"@,
        17 => "t"@,
        16 => "y"@,
        32 => "u"@,
        34 => "i"@,
        31 => "o"@,
        35 => "p"@,
        0 => "a"@,
        1 => "s"@,
        2 => "d"@,
        3 => "f"@,
        5 => "g"@,
        4 => "h"@,
        38 => "j"@,
        40 => "k"@,
        37 => "l"@,
        6 => "z"@,
        7 => "x"@,
        8 => "c"@,
        9 => "v"@,
        11 => "b"@,
        45 => "n"@,
        46 => "m"@,
        24 => "="@,
        27 => "-"@,
        33 => "["@,
        30 => "]"@,
        41 => ";"@,
        39 => "'"@,
        43 => ","@,
        47 => "."@,
        44 => "/"@,
        42 => "\\"@,
        50 => "`"@,
        48 => "tab"@,
        49 => "space"@,
        51 => "del"@,
        53 => "esc"@,
        57 => "capsLock"@,
        59 => "ctrlLeft"@,
        63 => "fn"@,
        36 => "enter"@,
        76 => "enter"@,
        54 => "command"@,
        55 => "command"@,
        56 => "shiftLeft"@,
        60 => "shiftRight"@,
        58 => "optionLeft"@,
        61 => "optionRight"@,
        123 => "arrLeft"@,
        124 => "arrRight"@,
        125 => "arrDown"@,
        126 => "arrUp"@,
        115 => "home"@,
        119 => "end"@,
        116 => "pgUp"@,
        121 => "pgDn"@,
        122 => "f1"@,
        120 => "f2"@,
        99 => "f3"@,
        118 => "f4"@,
        96 => "f5"@,
        97 => "f6"@,
        98 => "f7"@,
        100 => "f8"@,
        101 => "f9"@,
        109 => "f10"@,
        103 => "f11"@,
        111 => "f12"@,
        _ => "default"@,
    }
}

/// The key-name table, code by code: the names that soundpacks use for the
/// keys of the number row, the numeric keypad, letters, symbols, modifiers,
/// navigation and function keys; every other code is named `"default"`.
pub proof fn law_key_name_table()
    ensures
        spec_key_name(18) == "1"@,
        spec_key_name(19) == "2"@,
        spec_key_name(20) == "3"@,
        spec_key_name(21) == "4"@,
        spec_key_name(23) == "5"@,
        spec_key_name(22) == "6"@,
        spec_key_name(26) == "7"@,
        spec_key_name(28) == "8"@,
        spec_key_name(25) == "9"@,
        spec_key_name(29) == "0"@,
        spec_key_name(83) == "1"@,
        spec_key_name(84) == "2"@,
        spec_key_name(85) == "3"@,
        spec_key_name(86) == "4"@,
        spec_key_name(87) == "5"@,
        spec_key_name(88) == "6"@,
        spec_key_name(89) == "7"@,
        spec_key_name(91) == "8"@,
        spec_key_name(92) == "9"@,
        spec_key_name(82) == "0"@,
        spec_key_name(67) == "*"@,
        spec_key_name(75) == "/"@,
        spec_key_name(69) == "+"@,
        spec_key_name(78) == "-"@,
        spec_key_name(81) == "="@,
        spec_key_name(65) == "."@,
        spec_key_name(71) == "clear"@,
        spec_key_name(12) == "q"@,
        spec_key_name(13) == "w"@,
        spec_key_name(14) == "e"@,
        spec_key_name(15) == "r"@,
        spec_key_name(17) == "t"@,
        spec_key_name(16) == "y"@,
        spec_key_name(32) == "u"@,
        spec_key_name(34) == "i"@,
        spec_key_name(31) == "o"@,
        spec_key_name(35) == "p"@,
        spec_key_name(0) == "a"@,
        spec_key_name(1) == "s"@,
        spec_key_name(2) == "d"@,
        spec_key_name(3) == "f"@,
        spec_key_name(5) == "g"@,
        spec_key_name(4) == "h"@,
        spec_key_name(38) == "j"@,
        spec_key_name(40) == "k"@,
        spec_key_name(37) == "l"@,
        spec_key_name(6) == "z"@,
        spec_key_name(7) == "x"@,
        spec_key_name(8) == "c"@,
        spec_key_name(9) == "v"@,
        spec_key_name(11) == "b"@,
        spec_key_name(45) == "n"@,
        spec_key_name(46) == "m"@,
        spec_key_name(24) == "="@,
        spec_key_name(27) == "-"@,
        spec_key_name(33) == "["@,
        spec_key_name(30) == "]"@,
        spec_key_name(41) == ";"@,
        spec_key_name(39) == "'"@,
        spec_key_name(43) == ","@,
        spec_key_name(47) == "."@,
        spec_key_name(44) == "/"@,
        spec_key_name(42) == "\\"@,
        spec_key_name(50) == "`"@,
        spec_key_name(48) == "tab"@,
        spec_key_name(49) == "space"@,
        spec_key_name(51) == "del"@,
        spec_key_name(53) == "esc"@,
        spec_key_name(57) == "capsLock"@,
        spec_key_name(59) == "ctrlLeft"@,
        spec_key_name(63) == "fn"@,
        spec_key_name(36) == "enter"@,
        spec_key_name(76) == "enter"@,
        spec_key_name(54) == "command"@,
        spec_key_name(55) == "command"@,
        spec_key_name(56) == "shiftLeft"@,
        spec_key_name(60) == "shiftRight"@,
        spec_key_name(58) == "optionLeft"@,
        spec_key_name(61) == "optionRight"@,
        spec_key_name(123) == "arrLeft"@,
        spec_key_name(124) == "arrRight"@,
        spec_key_name(125) == "arrDown"@,
        spec_key_name(126) == "arrUp"@,
        spec_key_name(115) == "home"@,
        spec_key_name(119) == "end"@,
        spec_key_name(116) == "pgUp"@,
        spec_key_name(121) == "pgDn"@,
        spec_key_name(122) == "f1"@,
        spec_key_name(120) == "f2"@,
        spec_key_name(99) == "f3"@,
        spec_key_name(118) == "f4"@,
        spec_key_name(96) == "f5"@,
        spec_key_name(97) == "f6"@,
        spec_key_name(98) == "f7"@,
        spec_key_name(100) == "f8"@,
        spec_key_name(101) == "f9"@,
        spec_key_name(109) == "f10"@,
        spec_key_name(103) == "f11"@,
        spec_key_name(111) == "f12"@,
        forall|code: i64|
            !(code == 18 || code == 19 || code == 20 || code == 21 || code == 23 || code == 22 || code == 26 || code == 28
                || code == 25 || code == 29 || code == 83 || code == 84 || code == 85 || code == 86 || code == 87 || code == 88
                || code == 89 || code == 91 || code == 92 || code == 82 || code == 67 || code == 75 || code == 69 || code == 78
                || code == 81 || code == 65 || code == 71 || code == 12 || code == 13 || code == 14 || code == 15 || code == 17
                || code == 16 || code == 32 || code == 34 || code == 31 || code == 35 || code == 0 || code == 1 || code == 2
                || code == 3 || code == 5 || code == 4 || code == 38 || code == 40 || code == 37 || code == 6 || code == 7
                || code == 8 || code == 9 || code == 11 || code == 45 || code == 46 || code == 24 || code == 27 || code == 33
                || code == 30 || code == 41 || code == 39 || code == 43 || code == 47 || code == 44 || code == 42 || code == 50
                || code == 48 || code == 49 || code == 51 || code == 53 || code == 57 || code == 59 || code == 63 || code == 36
                || code == 76 || code == 54 || code == 55 || code == 56 || code == 60 || code == 58 || code == 61 || code == 123
                || code == 124 || code == 125 || code == 126 || code == 115 || code == 119 || code == 116 || code == 121 || code == 122
                || code == 120 || code == 99 || code == 118 || code == 96 || code == 97 || code == 98 || code == 100 || code == 101
                || code == 109 || code == 103 || code == 111
            ) ==> #[trigger] spec_key_name(code) == "default"@,
{
}

/// Returns the key name for a macOS keycode, or `"default"` when unmapped.
pub fn key_name(code: i64) -> (name: &'static str)
    ensures
        name@ == spec_key_name(code),
{
    match code {
        18 => "1",
        19 => "2",
        20 => "3",
        21 => "4",
        23 => "5",
        22 => "6",
        26 => "7",
        28 => "8",
        25 => "9",
        29 => "0",
        83 => "1",
        84 => "2",
        85 => "3",
        86 => "4",
        87 => "5",
        88 => "6",
        89 => "7",
        91 => "8",
        92 => "9",
        82 => "0",
        67 => "*",
        75 => "/",
        69 => "+",
        78 => "-",
        81 => "=",
        65 => ".",
        71 => "clear",
        12 => "q",
        13 => "w",
        14 => "e",
        15 => "r",
        17 => "t",
        16 => "y",
        32 => "u",
        34 => "i",
        31 => "o",
        35 => "p",
        0 => "a",
        1 => "s",
        2 => "d",
        3 => "f",
        5 => "g",
        4 => "h",
        38 => "j",
        40 => "k",
        37 => "l",
        6 => "z",
        7 => "x",
        8 => "c",
        9 => "v",
        11 => "b",
        45 => "n",
        46 => "m",
        24 => "=",
        27 => "-",
        33 => "[",
        30 => "]",
        41 => ";",
        39 => "'",
        43 => ",",
        47 => ".",
        44 => "/",
        42 => "\\",
        50 => "`",
        48 => "tab",
        49 => "space",
        51 => "del",
        53 => "esc",
        57 => "capsLock",
        59 => "ctrlLeft",
        63 => "fn",
        36 => "enter",
        76 => "enter",
        54 => "command",
        55 => "command",
        56 => "shiftLeft",
        60 => "shiftRight",
        58 => "optionLeft",
        61 => "optionRight",
        123 => "arrLeft",
        124 => "arrRight",
        125 => "arrDown",
        126 => "arrUp",
        115 => "home",
        119 => "end",
        116 => "pgUp",
        121 => "pgDn",
        122 => "f1",
        120 => "f2",
        99 => "f3",
        118 => "f4",
        96 => "f5",
        97 => "f6",
        98 => "f7",
        100 => "f8",
        101 => "f9",
        109 => "f10",
        103 => "f11",
        111 => "f12",
        _ => "default",
    }
}

} // verus!
