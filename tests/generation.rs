use rpg::{
    build_pool, check, class_members, is_feasible, pick, rpg, sample, CharClass, Controls,
    GenError,
};

fn controls(pwlen: usize, classes: [bool; 5], reduce: bool, forbidden: &str) -> Controls {
    Controls {
        pwlen,
        digits: classes[0],
        upper: classes[1],
        lower: classes[2],
        special: classes[3],
        more: classes[4],
        reduce,
        forbidden: forbidden.chars().collect(),
    }
}

const ALL: [bool; 5] = [true, true, true, true, true];
const DIGITS_ONLY: [bool; 5] = [true, false, false, false, false];

fn in_class(c: char, k: CharClass) -> bool {
    class_members(k).contains(&c)
}

#[test]
fn digits_only_pool_and_passwords() {
    let c = controls(8, DIGITS_ONLY, false, "");
    let pool: String = build_pool(&c).into_iter().collect();
    assert_eq!(pool, "0123456789");
    for _ in 0..50 {
        let pw = rpg(controls(8, DIGITS_ONLY, false, "")).unwrap();
        assert_eq!(pw.chars().count(), 8);
        assert!(pw.chars().all(|ch| ch.is_ascii_digit()));
    }
}

#[test]
fn all_upper_forbidden_is_empty_pool() {
    let c = controls(4, [false, true, false, false, false], false, "ABCDEFGHIJKLMNOPQRSTUVWXYZ");
    assert!(build_pool(&c).is_empty());
    assert_eq!(rpg(c), Err(GenError::EmptyPool));
}

#[test]
fn no_class_is_empty_pool() {
    assert_eq!(rpg(controls(12, [false; 5], true, "")), Err(GenError::EmptyPool));
}

#[test]
fn length_and_classes_hold_for_all_classes() {
    for _ in 0..50 {
        let c = controls(16, ALL, true, "");
        let pool = build_pool(&c);
        let pw = rpg(controls(16, ALL, true, "")).unwrap();
        assert_eq!(pw.chars().count(), 16);
        for k in [CharClass::Digits, CharClass::Upper, CharClass::Lower, CharClass::Special, CharClass::More] {
            assert!(pw.chars().any(|ch| in_class(ch, k)));
        }
        assert!(pw.chars().all(|ch| pool.contains(&ch)));
        assert!(check(&pw, &c));
    }
}

#[test]
fn shortest_length_meeting_every_class() {
    let pw = rpg(controls(5, ALL, false, "")).unwrap();
    assert_eq!(pw.chars().count(), 5);
}

#[test]
fn length_below_class_count_is_unsatisfiable() {
    assert_eq!(rpg(controls(4, ALL, false, "")), Err(GenError::Unsatisfiable));
}

#[test]
fn class_emptied_by_forbidden_is_unsatisfiable() {
    let c = controls(10, [true, false, true, false, false], false, "0123456789");
    let pool = build_pool(&c);
    assert_eq!(pool.len(), 26);
    assert!(!is_feasible(&c, &pool));
    assert_eq!(rpg(c), Err(GenError::Unsatisfiable));
}

#[test]
fn class_emptied_by_reduction_is_unsatisfiable() {
    // `|` goes by reduction and the rest of the "more" class is forbidden
    let c = controls(10, [false, false, true, false, true], true, "`^\\/~<>'\",.(){}[];");
    assert_eq!(rpg(c), Err(GenError::Unsatisfiable));
}

#[test]
fn pool_is_the_same_when_built_twice() {
    let a = build_pool(&controls(12, ALL, true, "xyz"));
    let b = build_pool(&controls(12, ALL, true, "xyz"));
    assert_eq!(a, b);
}

#[test]
fn full_pool_without_reduction() {
    let pool: String = build_pool(&controls(12, ALL, false, "")).into_iter().collect();
    assert_eq!(
        pool,
        "0123456789ABCDEFGHIJKLMNOPQRSTUVWXYZabcdefghijklmnopqrstuvwxyz_=+!@#$%&*?-`|^\\/~<>'\",.(){}[];"
    );
    assert_eq!(pool.chars().count(), 93);
}

#[test]
fn reduction_removes_exactly_the_confusing_characters() {
    let full = build_pool(&controls(12, ALL, false, ""));
    let reduced = build_pool(&controls(12, ALL, true, ""));
    let expected: Vec<char> = full
        .iter()
        .copied()
        .filter(|c| !['l', 'O', '1', '0', '|'].contains(c))
        .collect();
    assert_eq!(reduced, expected);
    assert_eq!(reduced.len(), 88);
}

#[test]
fn forbidden_characters_never_in_pool() {
    let pool = build_pool(&controls(12, ALL, true, "l0a_("));
    for c in ['l', '0', 'a', '_', '('] {
        assert!(!pool.contains(&c));
    }
    assert_eq!(pool.len(), 88 - 3);
    let pw = rpg(controls(12, ALL, true, "l0a_(")).unwrap();
    assert!(!pw.contains(|c: char| "l0a_(".contains(c)));
}

#[test]
fn check_exact_values() {
    let c = controls(4, [true, false, true, false, false], false, "");
    assert!(check(&"ab1c".to_string(), &c));
    assert!(!check(&"abcd".to_string(), &c));
    assert!(!check(&"1234".to_string(), &c));
    assert!(!check(&"ab1".to_string(), &c));
    assert!(!check(&"ab1cd".to_string(), &c));
    // a class is met by its full literal set, even by a character removed from the pool
    let r = controls(2, [true, false, false, false, false], true, "");
    assert!(check(&"0x".to_string(), &r));
    // with no class enabled only the length counts
    let none = controls(3, [false; 5], false, "");
    assert!(check(&"   ".to_string(), &none));
    assert!(!check(&"".to_string(), &none));
}

#[test]
fn pick_lays_out_positions() {
    assert_eq!(pick(&vec!['a', 'b', 'c'], &vec![2, 0, 2]), vec!['c', 'a', 'c']);
    assert_eq!(pick(&vec!['a'], &vec![]), Vec::<char>::new());
}

#[test]
fn sample_draws_from_pool() {
    let c = controls(6, [false, false, false, true, false], false, "");
    let pool = vec!['#', '?'];
    let pw = sample(&c, &pool).unwrap();
    assert_eq!(pw.chars().count(), 6);
    assert!(pw.chars().all(|ch| ch == '#' || ch == '?'));
}

#[test]
fn feasibility_of_a_plain_setting() {
    let c = controls(3, [true, true, true, false, false], false, "");
    assert!(is_feasible(&c, &build_pool(&c)));
}

#[test]
fn drawn_positions_are_in_range() {
    let mut rng = rand::thread_rng();
    let idx = rpg::random::draw_indices(&mut rng, 3, 200);
    assert_eq!(idx.len(), 200);
    assert!(idx.iter().all(|&i| i < 3));
    assert!(idx.iter().any(|&i| i != idx[0]));
    assert!(rpg::random::draw_indices(&mut rng, 1, 0).is_empty());
}

#[test]
fn reduced_passwords_have_no_confusing_characters() {
    for _ in 0..50 {
        let pw = rpg(controls(30, ALL, true, "")).unwrap();
        assert!(!pw.contains(|c: char| "lO10|".contains(c)));
    }
}

#[test]
fn one_attempt_keeps_or_rejects_the_drawn_candidate() {
    let c = controls(2, [true, false, true, false, false], false, "");
    let pool = vec!['a', '1'];
    assert_eq!(rpg::attempt(&c, &pool, &vec![1, 0]), Some("1a".to_string()));
    assert_eq!(rpg::attempt(&c, &pool, &vec![0, 0]), None);
    assert_eq!(rpg::attempt(&c, &pool, &vec![1]), None);
}

#[test]
fn single_class_setting_always_yields_a_password() {
    for _ in 0..20 {
        assert!(rpg(controls(1, [false, false, false, false, true], true, "")).is_ok());
    }
}
