use rpg::{classify, parse_args, rpg, str_eq, ArgError, CharClass, Flag};

fn args(words: &[&str]) -> Vec<String> {
    words.iter().map(|w| w.to_string()).collect()
}

#[test]
fn no_arguments_give_all_classes_without_reduction() {
    let p = parse_args(args(&["rpg"]));
    assert!(p.skipped.is_empty());
    let c = p.controls.unwrap();
    assert_eq!(c.pwlen, 12);
    assert!(c.digits && c.upper && c.lower && c.special && c.more);
    assert!(!c.reduce);
    assert!(c.forbidden.is_empty());
    let pw = rpg(c).unwrap();
    assert_eq!(pw.chars().count(), 12);
    for k in [CharClass::Digits, CharClass::Upper, CharClass::Lower, CharClass::Special, CharClass::More] {
        let members = rpg::class_members(k);
        assert!(pw.chars().any(|ch| members.contains(&ch)));
    }
}

#[test]
fn empty_argument_list_is_the_no_argument_case() {
    let c = parse_args(Vec::new()).controls.unwrap();
    assert!(c.digits && c.more && !c.reduce);
}

#[test]
fn arguments_without_classes_keep_reduction_on() {
    let c = parse_args(args(&["rpg", "-n", "20"])).controls.unwrap();
    assert_eq!(c.pwlen, 20);
    assert!(!c.digits && !c.upper && !c.lower && !c.special && !c.more);
    assert!(c.reduce);
}

#[test]
fn unknown_flag_is_skipped() {
    let p = parse_args(args(&["rpg", "--bogus", "-l", "-d"]));
    assert_eq!(p.skipped, vec!["--bogus".to_string()]);
    let c = p.controls.unwrap();
    assert!(c.lower && c.digits && !c.upper);
    let pw = rpg(c).unwrap();
    assert_eq!(pw.chars().count(), 12);
    assert!(pw.chars().any(|ch| ch.is_ascii_digit()));
    assert!(pw.chars().any(|ch| ch.is_ascii_lowercase()));
}

#[test]
fn skipped_words_are_lower_cased() {
    let p = parse_args(args(&["rpg", "--BoGuS", "X"]));
    assert_eq!(p.skipped, vec!["--bogus".to_string(), "x".to_string()]);
}

#[test]
fn flags_are_case_insensitive() {
    let c = parse_args(args(&["rpg", "-D", "--UPPER", "-N", "7"])).controls.unwrap();
    assert!(c.digits && c.upper);
    assert_eq!(c.pwlen, 7);
}

#[test]
fn every_flag_in_both_forms() {
    let c = parse_args(args(&["rpg", "-d", "-l", "-u", "-s", "-m", "-r", "-f", "ab", "-n", "9"]))
        .controls
        .unwrap();
    assert!(c.digits && c.lower && c.upper && c.special && c.more && c.reduce);
    assert_eq!(c.forbidden, vec!['a', 'b']);
    assert_eq!(c.pwlen, 9);
    let c = parse_args(args(&[
        "rpg", "--digits", "--lower", "--upper", "--special", "--more", "--reduce-confusion",
        "--forbidden", "c", "--length", "10",
    ]))
    .controls
    .unwrap();
    assert!(c.digits && c.lower && c.upper && c.special && c.more && c.reduce);
    assert_eq!(c.forbidden, vec!['c']);
    assert_eq!(c.pwlen, 10);
}

#[test]
fn forbidden_values_keep_their_case_and_accumulate() {
    let c = parse_args(args(&["rpg", "-f", "AB", "-F", "c"])).controls.unwrap();
    assert_eq!(c.forbidden, vec!['A', 'B', 'c']);
}

#[test]
fn length_flag_errors() {
    assert_eq!(parse_args(args(&["rpg", "-n"])).controls.err(), Some(ArgError::MissingLength));
    assert_eq!(parse_args(args(&["rpg", "-n", "abc"])).controls.err(), Some(ArgError::InvalidLength));
    assert_eq!(parse_args(args(&["rpg", "-n", "0"])).controls.err(), Some(ArgError::InvalidLength));
    assert_eq!(parse_args(args(&["rpg", "-n", "-3"])).controls.err(), Some(ArgError::InvalidLength));
    assert_eq!(parse_args(args(&["rpg", "-n", ""])).controls.err(), Some(ArgError::InvalidLength));
    assert_eq!(parse_args(args(&["rpg", "-n", "+5"])).controls.unwrap().pwlen, 5);
}

#[test]
fn forbidden_flag_without_value() {
    let p = parse_args(args(&["rpg", "--what", "-f"]));
    assert_eq!(p.controls.err(), Some(ArgError::MissingForbidden));
    assert_eq!(p.skipped, vec!["--what".to_string()]);
}

#[test]
fn classify_words() {
    assert_eq!(classify("-n"), Flag::Length);
    assert_eq!(classify("--reduce-confusion"), Flag::Reduce);
    assert_eq!(classify("-f"), Flag::Forbidden);
    assert_eq!(classify("-D"), Flag::Unknown);
    assert_eq!(classify("x"), Flag::Unknown);
}

#[test]
fn string_equality() {
    assert!(str_eq("abc", "abc"));
    assert!(!str_eq("abc", "abd"));
    assert!(!str_eq("ab", "abc"));
    assert!(str_eq("", ""));
}

#[test]
fn bogus_then_digits_gives_reduced_digits() {
    let p = parse_args(args(&["rpg", "--bogus", "-d"]));
    assert_eq!(p.skipped, vec!["--bogus".to_string()]);
    let c = p.controls.unwrap();
    assert_eq!(c.pwlen, 12);
    assert!(c.digits && !c.upper && !c.lower && !c.special && !c.more && c.reduce);
    assert!(c.forbidden.is_empty());
    let pw = rpg(c).unwrap();
    assert_eq!(pw.chars().count(), 12);
    assert!(pw.chars().all(|ch| "23456789".contains(ch)));
}

#[test]
fn lowered_words_decide_flags_and_values_stay_as_given() {
    let p = rpg::parse_lowered(
        &args(&["rpg", "-X", "--Bogus", "-F", "AB"]),
        &args(&["rpg", "-d", "--bogus", "-f", "ab"]),
    );
    assert_eq!(p.skipped, vec!["--bogus".to_string()]);
    let c = p.controls.unwrap();
    assert!(c.digits);
    assert_eq!(c.forbidden, vec!['A', 'B']);
}
