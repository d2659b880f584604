use mesh_pose::bytes::trim_bytes;

const SPACES: [char; 25] = [
    '\u{9}', '\u{a}', '\u{b}', '\u{c}', '\u{d}', ' ', '\u{85}', '\u{a0}', '\u{1680}', '\u{2000}',
    '\u{2001}', '\u{2002}', '\u{2003}', '\u{2004}', '\u{2005}', '\u{2006}', '\u{2007}',
    '\u{2008}', '\u{2009}', '\u{200a}', '\u{2028}', '\u{2029}', '\u{202f}', '\u{205f}',
    '\u{3000}',
];

const OTHERS: [char; 14] = [
    '\u{0}', '\u{8}', '\u{e}', '\u{1f}', '\u{7f}', '\u{84}', '\u{86}', '\u{a1}', '\u{180e}',
    '\u{200b}', '\u{2060}', '\u{feff}', '\u{3001}', 'x',
];

#[test]
fn trim_takes_every_white_space_character() {
    for c in SPACES.iter() {
        assert!(c.is_whitespace());
        let text = format!("{}{}1.5{}{}", c, c, c, c);
        assert_eq!(trim_bytes(text.as_bytes()), b"1.5", "character {:?}", c);
    }
}

#[test]
fn trim_leaves_every_other_character() {
    for c in OTHERS.iter() {
        assert!(!c.is_whitespace());
        let text = format!("{}1.5{}", c, c);
        assert_eq!(trim_bytes(text.as_bytes()), text.as_bytes(), "character {:?}", c);
    }
}

#[test]
fn trim_agrees_with_the_string_trim() {
    let mut texts: Vec<String> = vec![
        String::new(),
        " ".to_string(),
        "  a b  ".to_string(),
        "\r\n".to_string(),
        "\t1,2,3\r\n".to_string(),
        "a".to_string(),
        " \u{3000}a\u{2003}b\u{a0} ".to_string(),
        "\u{2003}".to_string(),
        "é ".to_string(),
        " \u{200b} ".to_string(),
    ];
    for a in SPACES.iter() {
        for b in OTHERS.iter() {
            texts.push(format!("{}{}{}", a, b, a));
            texts.push(format!("{}{}{}", b, a, b));
            texts.push(format!("{}{}", a, b));
            texts.push(format!("{}{}", b, a));
        }
    }
    for text in texts.iter() {
        assert_eq!(trim_bytes(text.as_bytes()), text.trim().as_bytes(), "text {:?}", text);
    }
}

#[test]
fn trim_of_white_space_alone_is_empty() {
    assert_eq!(trim_bytes(b" \t\r\n"), b"");
    assert_eq!(trim_bytes(b""), b"");
}

#[test]
fn trim_keeps_white_space_inside() {
    assert_eq!(trim_bytes(b"  a  b  "), b"a  b");
}
