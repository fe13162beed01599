use rs_release::text::{find, split_lines, str_eq, trim, whitespace};

#[test]
fn whitespace_agrees_with_std_for_every_character() {
    let mut code: u32 = 0;
    while code <= 0x10FFFF {
        if let Some(c) = char::from_u32(code) {
            assert_eq!(c.is_whitespace(), whitespace(c), "U+{:04X}", code);
        }
        code += 1;
    }
}

#[test]
fn whitespace_of_single_characters() {
    for c in [' ', '\t', '\n', '\r', '\u{b}', '\u{c}', '\u{85}', '\u{a0}', '\u{1680}', '\u{2000}',
        '\u{200a}', '\u{2028}', '\u{2029}', '\u{202f}', '\u{205f}', '\u{3000}']
    {
        assert!(whitespace(c), "{:?}", c);
    }
    for c in ['a', '=', '#', '"', '\'', '\\', '\0', '\u{8}', '\u{e}', '\u{200b}', '\u{180e}',
        '\u{feff}']
    {
        assert!(!whitespace(c), "{:?}", c);
    }
}

#[test]
fn trim_removes_surrounding_whitespace_only() {
    assert_eq!("PRETTY_NAME   =   Fedora 24", trim("  PRETTY_NAME   =   Fedora 24  "));
    assert_eq!("a b", trim("\t a b \r\n"));
    assert_eq!("", trim(""));
    assert_eq!("", trim(" \t\r\n "));
    assert_eq!("x", trim("x"));
    assert_eq!("x", trim("\u{3000}x\u{a0}"));
    assert_eq!("\u{200b}x", trim(" \u{200b}x "));
}

#[test]
fn trim_agrees_with_std() {
    let samples = [
        "",
        " ",
        "a",
        " a",
        "a ",
        "  a  b  ",
        "\u{2003}\u{2003}été\u{2003}",
        "\n\nNAME=Fedora\n\n",
        "\u{85}\u{1680}x y\u{2028}\u{2029}",
        "\u{feff} x",
    ];
    for s in samples {
        assert_eq!(s.trim(), trim(s), "{:?}", s);
    }
}

#[test]
fn find_gives_the_first_position_in_characters() {
    assert_eq!(Some(1), find("a=b", '='));
    assert_eq!(Some(0), find("=a=b", '='));
    assert_eq!(Some(3), find("abc=", '='));
    assert_eq!(Some(1), find("a==", '='));
    assert_eq!(None, find("abc", '='));
    assert_eq!(None, find("", '='));
    assert_eq!(Some(3), find("été=1", '='));
}

#[test]
fn str_eq_compares_contents() {
    assert!(str_eq("", ""));
    assert!(str_eq("NAME", "NAME"));
    assert!(str_eq("été", "été"));
    assert!(!str_eq("NAME", "NAMES"));
    assert!(!str_eq("NAME", "name"));
    assert!(!str_eq("NAME", "NAMF"));
    assert!(!str_eq("", "a"));
    let owned = String::from("VERSION_ID");
    assert!(str_eq(&owned, "VERSION_ID"));
}

#[test]
fn split_lines_cuts_at_every_newline() {
    assert_eq!(vec![String::new()], split_lines(""));
    assert_eq!(vec!["a".to_string()], split_lines("a"));
    assert_eq!(vec!["a".to_string(), "b".to_string()], split_lines("a\nb"));
    assert_eq!(vec!["a".to_string(), String::new()], split_lines("a\n"));
    assert_eq!(vec![String::new(), String::new(), String::new()], split_lines("\n\n"));
    assert_eq!(vec!["a\r".to_string(), "b".to_string()], split_lines("a\r\nb"));
}

#[test]
fn split_lines_agrees_with_std() {
    let samples = ["", "\n", "a", "a\nb\nc", "\na\n\nb\n", "NAME=x\r\nID=y\r\n", "é\nü\n"];
    for s in samples {
        let expected: Vec<String> = s.split('\n').map(|line| line.to_string()).collect();
        assert_eq!(expected, split_lines(s), "{:?}", s);
    }
}
