use std::borrow::Cow;

use rs_release::keys::{common_key, COMMON_KEYS};
use rs_release::order::{rank, Rank};
use rs_release::{extract_variable_and_value, parse_line, trim_quotes, OsReleaseError};

#[test]
fn trim_quotes_strips_one_matching_pair() {
    assert_eq!(
        "Fedora 24 (Workstation Edition)",
        trim_quotes("'Fedora 24 (Workstation Edition)'")
    );
    assert_eq!(
        "Fedora 24 (Workstation Edition)",
        trim_quotes("\"Fedora 24 (Workstation Edition)\"")
    );
    assert_eq!("", trim_quotes("''"));
    assert_eq!("", trim_quotes("\"\""));
    assert_eq!("'a'", trim_quotes("''a''"));
    assert_eq!("a'b", trim_quotes("'a'b'"));
    assert_eq!(" a ", trim_quotes("' a '"));
    assert_eq!("é", trim_quotes("\"é\""));
}

#[test]
fn trim_quotes_leaves_other_values_untouched() {
    assert_eq!("plain", trim_quotes("plain"));
    assert_eq!("", trim_quotes(""));
    assert_eq!("'a\"", trim_quotes("'a\""));
    assert_eq!("\"a'", trim_quotes("\"a'"));
    assert_eq!("'a", trim_quotes("'a"));
    assert_eq!("a'", trim_quotes("a'"));
    assert_eq!("a'b'", trim_quotes("a'b'"));
    assert_eq!("`a`", trim_quotes("`a`"));
}

#[test]
fn trim_quotes_leaves_a_lone_quote_untouched() {
    assert_eq!("'", trim_quotes("'"));
    assert_eq!("\"", trim_quotes("\""));
}

#[test]
fn extract_splits_at_the_first_equal_sign() {
    let (key, value) = extract_variable_and_value("NAME=Fedora").unwrap();
    assert_eq!("NAME", key);
    assert_eq!("Fedora", value);

    let (key, value) = extract_variable_and_value("OPTIONS=a=b=c").unwrap();
    assert_eq!("OPTIONS", key);
    assert_eq!("a=b=c", value);

    let (key, value) = extract_variable_and_value("=value").unwrap();
    assert_eq!("", key);
    assert_eq!("value", value);

    let (key, value) = extract_variable_and_value("KEY=").unwrap();
    assert_eq!("KEY", key);
    assert_eq!("", value);

    let (key, value) = extract_variable_and_value("=").unwrap();
    assert_eq!("", key);
    assert_eq!("", value);
}

#[test]
fn extract_trims_key_and_value() {
    let (key, value) = extract_variable_and_value("PRETTY_NAME   =   Fedora 24").unwrap();
    assert_eq!("PRETTY_NAME", key);
    assert_eq!("Fedora 24", value);

    let (key, value) = extract_variable_and_value("A\t=\t' padded '").unwrap();
    assert_eq!("A", key);
    assert_eq!(" padded ", value);
}

#[test]
fn extract_unquotes_after_trimming() {
    let (_, value) = extract_variable_and_value("A =  \"x y\"  ").unwrap();
    assert_eq!("x y", value);
    let (_, value) = extract_variable_and_value("A='x=y'").unwrap();
    assert_eq!("x=y", value);
    let (_, value) = extract_variable_and_value("A='").unwrap();
    assert_eq!("'", value);
    let (_, value) = extract_variable_and_value("A=\"mismatched'").unwrap();
    assert_eq!("\"mismatched'", value);
}

#[test]
fn extract_fails_without_equal_sign() {
    assert_eq!(Err(OsReleaseError::ParseError), extract_variable_and_value("SOMETHING"));
    assert_eq!(Err(OsReleaseError::ParseError), extract_variable_and_value(""));
    assert_eq!(Err(OsReleaseError::ParseError), extract_variable_and_value("NAME Fedora"));
}

#[test]
fn extract_counts_characters_not_bytes() {
    let (key, value) = extract_variable_and_value("clé=valeur").unwrap();
    assert_eq!("clé", key);
    assert_eq!("valeur", value);

    let (key, value) = extract_variable_and_value("名前 = '値'").unwrap();
    assert_eq!("名前", key);
    assert_eq!("値", value);
}

#[test]
fn extract_does_not_unescape() {
    let (key, value) = extract_variable_and_value(r"VERSION=0.1\n-same-line").unwrap();
    assert_eq!("VERSION", key);
    assert_eq!(r"0.1\n-same-line", value);
    assert_eq!(15, value.len());
    assert!(!value.contains('\n'));

    let (_, value) = extract_variable_and_value(r#"A="tab\t and \"quote\"""#).unwrap();
    assert_eq!(r#"tab\t and \"quote\""#, value);
}

#[test]
fn extract_shares_well_known_keys() {
    let (key, _) = extract_variable_and_value("NAME=Fedora").unwrap();
    assert!(matches!(key, Cow::Borrowed("NAME")));
    let (key, _) = extract_variable_and_value("  VERSION_ID = 24").unwrap();
    assert!(matches!(key, Cow::Borrowed("VERSION_ID")));
    let (key, _) = extract_variable_and_value("VENDOR_EXTENSION=1").unwrap();
    assert!(matches!(key, Cow::Owned(_)));
    assert_eq!("VENDOR_EXTENSION", key);
    let (key, _) = extract_variable_and_value("name=lower").unwrap();
    assert!(matches!(key, Cow::Owned(_)));
}

#[test]
fn common_key_knows_the_whole_vocabulary() {
    let vocabulary = [
        "ANSI_COLOR",
        "ARCHITECTURE",
        "BUG_REPORT_URL",
        "BUILD_ID",
        "CONFEXT_LEVEL",
        "CONFEXT_SCOPE",
        "CPE_NAME",
        "DEFAULT_HOSTNAME",
        "DOCUMENTATION_URL",
        "HOME_URL",
        "ID",
        "ID_LIKE",
        "IMAGE_ID",
        "IMAGE_VERSION",
        "LOGO",
        "NAME",
        "PORTABLE_PREFIXES",
        "PRETTY_NAME",
        "PRIVACY_POLICY_URL",
        "SUPPORT_END",
        "SUPPORT_URL",
        "SYSEXT_LEVEL",
        "SYSEXT_SCOPE",
        "VARIANT",
        "VARIANT_ID",
        "VENDOR_NAME",
        "VENDOR_URL",
        "VERSION",
        "VERSION_CODENAME",
        "VERSION_ID",
    ];
    assert_eq!(30, COMMON_KEYS.len());
    for key in vocabulary {
        let owned = key.to_string();
        assert_eq!(Some(key), common_key(&owned));
        assert!(COMMON_KEYS.contains(&key));
    }
}

#[test]
fn common_key_rejects_everything_else() {
    assert_eq!(None, common_key(""));
    assert_eq!(None, common_key("name"));
    assert_eq!(None, common_key("NAME "));
    assert_eq!(None, common_key("NAM"));
    assert_eq!(None, common_key("NAMES"));
    assert_eq!(None, common_key("VERSION_"));
    assert_eq!(None, common_key("QUOTED_NAME"));
}

#[test]
fn common_key_agrees_with_a_scan_of_the_table() {
    let mut candidates: Vec<String> = vec![String::new(), "A".to_string(), "ZZZ".to_string()];
    for key in COMMON_KEYS {
        candidates.push(key.to_string());
        candidates.push(key.to_lowercase());
        candidates.push(format!("{}_", key));
        candidates.push(format!("{}A", key));
        candidates.push(format!(" {}", key));
        candidates.push(key[..key.len() - 1].to_string());
        candidates.push(key[1..].to_string());
        candidates.push(format!("{}\u{e9}", key));
    }
    for candidate in candidates {
        let expected = COMMON_KEYS.iter().copied().find(|key| *key == candidate);
        assert_eq!(expected, common_key(&candidate), "{:?}", candidate);
    }
}

#[test]
fn rank_is_the_order_of_string_slices() {
    let samples = [
        "",
        "A",
        "AB",
        "B",
        "ID",
        "ID_LIKE",
        "NAME",
        "VERSION",
        "VERSION_CODENAME",
        "VERSION_ID",
        "a",
        "name",
        "z",
        "\u{7f}",
        "\u{80}",
        "\u{e9}",
        "\u{7ff}",
        "\u{800}",
        "\u{ffff}",
        "\u{10000}",
        "\u{10ffff}",
    ];
    for a in samples {
        for b in samples {
            match rank(a, b) {
                Rank::Before => assert!(a < b, "{:?} {:?}", a, b),
                Rank::Same => assert!(a == b, "{:?} {:?}", a, b),
                Rank::After => assert!(a > b, "{:?} {:?}", a, b),
            }
        }
    }
}

#[test]
fn rank_of_chosen_pairs() {
    assert!(matches!(rank("ID", "ID_LIKE"), Rank::Before));
    assert!(matches!(rank("ID_LIKE", "ID"), Rank::After));
    assert!(matches!(rank("NAME", "NAME"), Rank::Same));
    assert!(matches!(rank("", ""), Rank::Same));
    assert!(matches!(rank("", "A"), Rank::Before));
    assert!(matches!(rank("NAME", "name"), Rank::Before));
    assert!(matches!(rank("b", "a"), Rank::After));
}

#[test]
fn common_keys_are_sorted_and_distinct() {
    for pair in COMMON_KEYS.windows(2) {
        assert!(pair[0] < pair[1], "{} {}", pair[0], pair[1]);
    }
}

#[test]
fn parse_line_skips_blank_lines_and_comments() {
    assert_eq!(Ok(None), parse_line(""));
    assert_eq!(Ok(None), parse_line("   \t "));
    assert_eq!(Ok(None), parse_line("# comment"));
    assert_eq!(Ok(None), parse_line("   # indented comment"));
    assert_eq!(Ok(None), parse_line("#NAME=Fedora"));
    assert_eq!(Ok(None), parse_line("# no equal sign here"));
    assert_eq!(Ok(None), parse_line("\r"));
}

#[test]
fn parse_line_reads_assignments() {
    assert_eq!(
        Ok(Some((Cow::Borrowed("PRETTY_NAME"), "Fedora 24".to_string()))),
        parse_line("  PRETTY_NAME   =   Fedora 24  ")
    );
    assert_eq!(
        Ok(Some((Cow::Borrowed("QUOTED_NAME"), "Fedora 24 (Workstation Edition)".to_string()))),
        parse_line("        QUOTED_NAME = 'Fedora 24 (Workstation Edition)'")
    );
    assert_eq!(Ok(Some((Cow::Borrowed("ID"), "fedora".to_string()))), parse_line("ID=fedora\r"));
    assert_eq!(Ok(Some((Cow::Borrowed("A"), "#b".to_string()))), parse_line("A=#b"));
}

#[test]
fn parse_line_rejects_content_without_equal_sign() {
    assert_eq!(Err(OsReleaseError::ParseError), parse_line("SOMETHING"));
    assert_eq!(Err(OsReleaseError::ParseError), parse_line("  NAME Fedora  "));
    assert_eq!(Err(OsReleaseError::ParseError), parse_line("'quoted'"));
}
