use cftesting::text::{char_is_white_space, find_char, lowercased, str_equals, trim};

#[test]
fn trimming() {
    assert_eq!(trim("  abc  "), "abc");
    assert_eq!(trim("\t\n\u{b}\u{c}\r a b \u{85}"), "a b");
    assert_eq!(trim("\u{2000}\u{200a}x\u{2028}\u{2029}\u{202f}\u{205f}\u{3000}\u{1680}"), "x");
    assert_eq!(trim("   "), "");
    assert_eq!(trim(""), "");
    assert_eq!(trim("\u{200b}x"), "\u{200b}x");
}

#[test]
fn trimming_agrees_with_std() {
    for s in ["  abc  ", "\u{a0}é\u{a0}", "\u{180e}x", " \u{feff}y ", "\u{3000}z\u{3000}"] {
        assert_eq!(trim(s), s.trim());
    }
}

#[test]
fn white_space_characters() {
    for c in [' ', '\t', '\n', '\u{85}', '\u{a0}', '\u{1680}', '\u{2007}', '\u{3000}'] {
        assert!(char_is_white_space(c));
        assert!(c.is_whitespace());
    }
    for c in ['a', '\u{200b}', '\u{180e}', '\u{feff}', '_'] {
        assert!(!char_is_white_space(c));
        assert!(!c.is_whitespace());
    }
}

#[test]
fn equality_and_search() {
    assert!(str_equals("chrome", "chrome"));
    assert!(!str_equals("chrome", "chrom"));
    assert!(!str_equals("chrome", "Chrome"));
    assert!(str_equals("", ""));
    assert_eq!(find_char("a@b@c", '@'), Some(1));
    assert_eq!(find_char("é@", '@'), Some(1));
    assert_eq!(find_char("abc", '@'), None);
}

#[test]
fn lower_casing() {
    assert_eq!(lowercased("STABLE"), "stable");
    assert_eq!(lowercased("CaNaRy-1.2"), "canary-1.2");
    assert_eq!(lowercased("ÀÉ"), "àé");
}
