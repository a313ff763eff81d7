use vstd::prelude::*;
use vstd::string::*;
use crate::alphabet::{
    build_pool, class_members, class_seq, contains_char, enabled, keep_pred, lemma_class_shape,
    pool_spec, raw_pool, CharClass,
};
use crate::controls::{Controls, ControlsModel};
use crate::random::draw_indices;

verus! {

/// Whether some character of `pw` belongs to class `k`.
pub open spec fn has_class(pw: Seq<char>, k: CharClass) -> bool {
    exists|i: int| 0 <= i < pw.len() && #[trigger] class_seq(k).contains(pw[i])
}

/// If class `k` is switched on in `m`, then `pw` holds one of its characters.
pub open spec fn class_met(pw: Seq<char>, m: ControlsModel, k: CharClass) -> bool {
    enabled(m, k) ==> has_class(pw, k)
}

/// `pw` holds a character of every class that `m` switches on.
pub open spec fn classes_met(pw: Seq<char>, m: ControlsModel) -> bool {
    &&& class_met(pw, m, CharClass::Digits)
    &&& class_met(pw, m, CharClass::Upper)
    &&& class_met(pw, m, CharClass::Lower)
    &&& class_met(pw, m, CharClass::Special)
    &&& class_met(pw, m, CharClass::More)
}

/// `pw` is an acceptable password under `m`: of the asked length, with every
/// enabled class represented (by its full literal set, whatever was removed
/// from the pool).
pub open spec fn satisfies(pw: Seq<char>, m: ControlsModel) -> bool {
    pw.len() == m.pwlen && classes_met(pw, m)
}

/// 1 for a switch that is on, 0 otherwise.
pub open spec fn flag_count(b: bool) -> nat {
    if b {
        1
    } else {
        0
    }
}

/// How many classes `m` switches on.
pub open spec fn n_enabled(m: ControlsModel) -> nat {
    flag_count(m.digits) + flag_count(m.upper) + flag_count(m.lower) + flag_count(m.special)
        + flag_count(m.more)
}

/// The pool still holds a character of every enabled class, and the password
/// is long enough to hold one of each.
pub open spec fn feasible(m: ControlsModel) -> bool {
    classes_met(pool_spec(m), m) && n_enabled(m) <= m.pwlen
}

/// The characters of `pool` at the positions `idx`, in order.
pub open spec fn picked(pool: Seq<char>, idx: Seq<usize>) -> Seq<char> {
    idx.map_values(|i: usize| pool[i as int])
}

/// Why no password came out.
#[derive(Clone, Copy, Debug, PartialEq, Eq)]
pub enum GenError {
    /// No character is left to draw from.
    EmptyPool,
    /// Some enabled class has no character left in the pool, or the password
    /// is shorter than the number of enabled classes.
    Unsatisfiable,
    /// Every allowed attempt drew a candidate that failed the check.
    GaveUp,
}

/// Upper bound on the number of candidates drawn for one password.
pub const MAX_ATTEMPTS: u64 = 1_000_000;

fn str_has_class(s: &str, k: CharClass) -> (r: bool)
    ensures
        r == has_class(s@, k),
{
    let members = class_members(k);
    let n = s.unicode_len();
    let mut i: usize = 0;
    while i < n
        invariant
            i <= n,
            n == s@.len(),
            members@ == class_seq(k),
            forall|j: int| 0 <= j < i ==> !class_seq(k).contains(#[trigger] s@[j]),
        decreases n - i,
    {
        if contains_char(&members, s.get_char(i)) {
            return true;
        }
        i += 1;
    }
    false
}

fn vec_has_class(v: &Vec<char>, k: CharClass) -> (r: bool)
    ensures
        r == has_class(v@, k),
{
    let members = class_members(k);
    let mut i: usize = 0;
    while i < v.len()
        invariant
            i <= v.len(),
            members@ == class_seq(k),
            forall|j: int| 0 <= j < i ==> !class_seq(k).contains(#[trigger] v@[j]),
        decreases v.len() - i,
    {
        if contains_char(&members, v[i]) {
            return true;
        }
        i += 1;
    }
    false
}

/// Checks that `password` is acceptable under `controls`: it has exactly
/// `controls.pwlen` characters and holds a character of every enabled class.
pub fn check(password: &String, controls: &Controls) -> (r: bool)
    ensures
        r == satisfies(password@, controls@),
{
    let s = password.as_str();
    if s.unicode_len() != controls.pwlen {
        return false;
    }
    if controls.digits && !str_has_class(s, CharClass::Digits) {
        return false;
    }
    if controls.upper && !str_has_class(s, CharClass::Upper) {
        return false;
    }
    if controls.lower && !str_has_class(s, CharClass::Lower) {
        return false;
    }
    if controls.special && !str_has_class(s, CharClass::Special) {
        return false;
    }
    if controls.more && !str_has_class(s, CharClass::More) {
        return false;
    }
    true
}

fn count_flag(b: bool) -> (r: usize)
    ensures
        r == flag_count(b),
{
    if b {
        1
    } else {
        0
    }
}

/// Decides whether a password can be drawn from `pool` at all.
pub fn is_feasible(controls: &Controls, pool: &Vec<char>) -> (r: bool)
    requires
        pool@ == pool_spec(controls@),
    ensures
        r == feasible(controls@),
{
    let n = count_flag(controls.digits) + count_flag(controls.upper) + count_flag(controls.lower)
        + count_flag(controls.special) + count_flag(controls.more);
    n <= controls.pwlen
        && (!controls.digits || vec_has_class(pool, CharClass::Digits))
        && (!controls.upper || vec_has_class(pool, CharClass::Upper))
        && (!controls.lower || vec_has_class(pool, CharClass::Lower))
        && (!controls.special || vec_has_class(pool, CharClass::Special))
        && (!controls.more || vec_has_class(pool, CharClass::More))
}

/// Lays out the characters of `pool` found at the positions `idx`.
pub fn pick(pool: &Vec<char>, idx: &Vec<usize>) -> (r: Vec<char>)
    requires
        forall|j: int| 0 <= j < idx.len() ==> #[trigger] idx@[j] < pool.len(),
    ensures
        r@ == picked(pool@, idx@),
{
    let mut out: Vec<char> = Vec::new();
    let mut j: usize = 0;
    while j < idx.len()
        invariant
            j <= idx.len(),
            forall|t: int| 0 <= t < idx.len() ==> #[trigger] idx@[t] < pool.len(),
            out@ =~= picked(pool@, idx@.take(j as int)),
        decreases idx.len() - j,
    {
        out.push(pool[idx[j]]);
        assert(idx@.take(j + 1) =~= idx@.take(j as int).push(idx@[j as int]));
        j += 1;
    }
    assert(idx@.take(idx.len() as int) =~= idx@);
    out
}

/// Relies on std's `FromIterator<char>` for `String`: the string of exactly
/// these characters, in order.
#[verifier::external_body]
fn string_of(chars: &Vec<char>) -> (r: String)
    ensures
        r@ == chars@,
{
    chars.iter().collect()
}

/// Every string of `m.pwlen` characters taken from `pool` is acceptable, so
/// the first candidate drawn passes whatever chance does.
pub open spec fn all_candidates_pass(m: ControlsModel, pool: Seq<char>) -> bool {
    forall|pw: Seq<char>|
        pw.len() == m.pwlen && (forall|i: int|
            0 <= i < pw.len() ==> pool.contains(#[trigger] pw[i]))
            ==> #[trigger] satisfies(pw, m)
}

/// One round of rejection sampling: the candidate made of the pool
/// characters at the drawn positions `idx`, kept if it passes [`check`] and
/// rejected otherwise.
pub fn attempt(controls: &Controls, pool: &Vec<char>, idx: &Vec<usize>) -> (r: Option<String>)
    requires
        forall|j: int| 0 <= j < idx.len() ==> #[trigger] idx@[j] < pool.len(),
    ensures
        r is Some <==> satisfies(picked(pool@, idx@), controls@),
        r is Some ==> r->Some_0@ == picked(pool@, idx@),
{
    let chars = pick(pool, idx);
    let candidate = string_of(&chars);
    if check(&candidate, controls) {
        Some(candidate)
    } else {
        None
    }
}

/// Draws up to `MAX_ATTEMPTS` candidates of `controls.pwlen` characters
/// uniformly from `pool` and returns the first that passes, as [`attempt`]
/// decides each round. Where every possible candidate passes, the first
/// round succeeds.
pub fn sample(controls: &Controls, pool: &Vec<char>) -> (r: Option<String>)
    requires
        pool.len() > 0,
    ensures
        all_candidates_pass(controls@, pool@) ==> r is Some,
        r is Some ==> satisfies(r->Some_0@, controls@),
        r is Some ==> forall|i: int|
            0 <= i < r->Some_0@.len() ==> pool@.contains(#[trigger] r->Some_0@[i]),
{
    let mut rng = rand::thread_rng();
    let mut attempts: u64 = 0;
    while attempts < MAX_ATTEMPTS
        invariant
            pool.len() > 0,
            all_candidates_pass(controls@, pool@) ==> attempts == 0,
        decreases MAX_ATTEMPTS - attempts,
    {
        let idx = draw_indices(&mut rng, pool.len(), controls.pwlen);
        let ghost cand = picked(pool@, idx@);
        assert forall|i: int| 0 <= i < cand.len() implies pool@.contains(#[trigger] cand[i]) by {
            assert(idx@[i] < pool.len());
            assert(cand[i] == pool@[idx@[i] as int]);
        }
        match attempt(controls, pool, &idx) {
            Some(pw) => {
                return Some(pw);
            },
            None => {
                assert(!satisfies(cand, controls@));
            },
        }
        attempts += 1;
    }
    None
}

/// With at most one class enabled on a feasible setting, every pool
/// character belongs to that class, so every candidate passes.
pub proof fn single_class_always_passes(m: ControlsModel)
    requires
        pool_spec(m).len() > 0,
        feasible(m),
        n_enabled(m) <= 1,
    ensures
        all_candidates_pass(m, pool_spec(m)),
{
    let pool = pool_spec(m);
    assert forall|pw: Seq<char>|
        pw.len() == m.pwlen && (forall|i: int|
            0 <= i < pw.len() ==> pool.contains(#[trigger] pw[i]))
            implies #[trigger] satisfies(pw, m) by {
        if n_enabled(m) == 1 {
            assert(pool.contains(pw[0]));
            raw_pool(m).lemma_filter_contains_rev(keep_pred(m), pw[0]);
            let k = if m.digits {
                CharClass::Digits
            } else if m.upper {
                CharClass::Upper
            } else if m.lower {
                CharClass::Lower
            } else if m.special {
                CharClass::Special
            } else {
                CharClass::More
            };
            assert(raw_pool(m) =~= class_seq(k));
            assert(class_seq(k).contains(pw[0]));
            assert(has_class(pw, k));
        }
    }
}

/// Generates a password under `controls` by rejection sampling.
///
/// The pool is built once and checked for feasibility before any draw:
/// an empty pool gives `EmptyPool`, and a pool or length that cannot meet
/// the enabled classes gives `Unsatisfiable`. Otherwise candidates are drawn
/// as [`sample`] does; when every attempt fails the result is `GaveUp`.
/// A feasible setting with at most one class enabled always gives a
/// password, since every candidate passes there.
pub fn rpg(controls: Controls) -> (r: Result<String, GenError>)
    ensures
        r == Err::<String, GenError>(GenError::EmptyPool) <==> pool_spec(controls@).len() == 0,
        r == Err::<String, GenError>(GenError::Unsatisfiable) <==> (pool_spec(controls@).len() > 0
            && !feasible(controls@)),
        pool_spec(controls@).len() > 0 && feasible(controls@) && n_enabled(controls@) <= 1
            ==> r is Ok,
        r is Ok ==> satisfies(r->Ok_0@, controls@),
        r is Ok ==> forall|i: int|
            0 <= i < r->Ok_0@.len() ==> pool_spec(controls@).contains(#[trigger] r->Ok_0@[i]),
{
    let pool = build_pool(&controls);
    if pool.len() == 0 {
        return Err(GenError::EmptyPool);
    }
    if !is_feasible(&controls, &pool) {
        return Err(GenError::Unsatisfiable);
    }
    proof {
        if n_enabled(controls@) <= 1 {
            single_class_always_passes(controls@);
        }
    }
    match sample(&controls, &pool) {
        Some(pw) => Ok(pw),
        None => Err(GenError::GaveUp),
    }
}


/// One pool character of class `k` if `k` is enabled and the pool has one;
/// nothing otherwise.
pub open spec fn witness(m: ControlsModel, k: CharClass) -> Seq<char> {
    let pool = pool_spec(m);
    if enabled(m, k) && has_class(pool, k) {
        seq![pool[choose|i: int| 0 <= i < pool.len() && #[trigger] class_seq(k).contains(pool[i])]]
    } else {
        Seq::empty()
    }
}

/// A class met by either part is met by the concatenation.
proof fn lemma_has_class_concat(a: Seq<char>, b: Seq<char>, k: CharClass)
    ensures
        has_class(a, k) ==> has_class(a + b, k),
        has_class(b, k) ==> has_class(a + b, k),
{
    if has_class(a, k) {
        let i = choose|i: int| 0 <= i < a.len() && #[trigger] class_seq(k).contains(a[i]);
        assert((a + b)[i] == a[i]);
    }
    if has_class(b, k) {
        let i = choose|i: int| 0 <= i < b.len() && #[trigger] class_seq(k).contains(b[i]);
        assert((a + b)[a.len() + i] == b[i]);
    }
}

proof fn lemma_witness(m: ControlsModel, k: CharClass)
    ensures
        witness(m, k).len() <= flag_count(enabled(m, k)),
        class_met(pool_spec(m), m, k) ==> witness(m, k).len() == flag_count(enabled(m, k)),
        class_met(pool_spec(m), m, k) ==> class_met(witness(m, k), m, k),
        forall|i: int|
            0 <= i < witness(m, k).len() ==> pool_spec(m).contains(#[trigger] witness(m, k)[i]),
{
    let pool = pool_spec(m);
    if enabled(m, k) && has_class(pool, k) {
        let j = choose|i: int| 0 <= i < pool.len() && #[trigger] class_seq(k).contains(pool[i]);
        assert(witness(m, k)[0] == pool[j]);
        assert(class_seq(k).contains(witness(m, k)[0]));
    }
}

/// When the settings are feasible, some acceptable password made of pool
/// characters exists, so a `GaveUp` outcome is a matter of chance only.
pub proof fn feasible_has_password(m: ControlsModel)
    requires
        pool_spec(m).len() > 0,
        feasible(m),
    ensures
        exists|pw: Seq<char>|
            satisfies(pw, m) && forall|i: int|
                0 <= i < pw.len() ==> pool_spec(m).contains(#[trigger] pw[i]),
{
    let pool = pool_spec(m);
    let w0 = witness(m, CharClass::Digits);
    let w1 = witness(m, CharClass::Upper);
    let w2 = witness(m, CharClass::Lower);
    let w3 = witness(m, CharClass::Special);
    let w4 = witness(m, CharClass::More);
    lemma_witness(m, CharClass::Digits);
    lemma_witness(m, CharClass::Upper);
    lemma_witness(m, CharClass::Lower);
    lemma_witness(m, CharClass::Special);
    lemma_witness(m, CharClass::More);
    let heads = w0 + w1 + w2 + w3 + w4;
    assert(heads.len() == n_enabled(m));
    let fill = Seq::new((m.pwlen - heads.len()) as nat, |i: int| pool[0]);
    let pw = heads + fill;
    assert(pool.contains(pool[0]));
    assert forall|i: int| 0 <= i < pw.len() implies pool.contains(#[trigger] pw[i]) by {
        if i >= heads.len() {
            assert(pw[i] == pool[0]);
        } else if i < w0.len() {
            assert(pw[i] == w0[i]);
        } else if i < w0.len() + w1.len() {
            assert(pw[i] == w1[i - w0.len()]);
        } else if i < w0.len() + w1.len() + w2.len() {
            assert(pw[i] == w2[i - w0.len() - w1.len()]);
        } else if i < w0.len() + w1.len() + w2.len() + w3.len() {
            assert(pw[i] == w3[i - w0.len() - w1.len() - w2.len()]);
        } else {
            assert(pw[i] == w4[i - w0.len() - w1.len() - w2.len() - w3.len()]);
        }
    }
    assert forall|k: CharClass| class_met(#[trigger] witness(m, k), m, k) implies class_met(
        pw,
        m,
        k,
    ) by {
        if enabled(m, k) {
            lemma_has_class_concat(w0, w1, k);
            lemma_has_class_concat(w0 + w1, w2, k);
            lemma_has_class_concat(w0 + w1 + w2, w3, k);
            lemma_has_class_concat(w0 + w1 + w2 + w3, w4, k);
            lemma_has_class_concat(heads, fill, k);
        }
    }
    assert(satisfies(pw, m));
}

/// An enabled class that the pool lacks cannot be met by pool characters.
proof fn lemma_missing_class(m: ControlsModel, k: CharClass, pw: Seq<char>)
    requires
        enabled(m, k),
        !has_class(pool_spec(m), k),
        forall|i: int| 0 <= i < pw.len() ==> pool_spec(m).contains(#[trigger] pw[i]),
    ensures
        !satisfies(pw, m),
{
    if has_class(pw, k) {
        let i = choose|i: int| 0 <= i < pw.len() && #[trigger] class_seq(k).contains(pw[i]);
        assert(pool_spec(m).contains(pw[i]));
        let j = choose|j: int| 0 <= j < pool_spec(m).len() && pool_spec(m)[j] == pw[i];
        assert(class_seq(k).contains(pool_spec(m)[j]));
    }
    assert(!class_met(pw, m, k));
}

/// 1 if class `k` is enabled and met by `pw`, else 0.
pub open spec fn met(pw: Seq<char>, m: ControlsModel, k: CharClass) -> nat {
    flag_count(enabled(m, k) && has_class(pw, k))
}

/// How many enabled classes `pw` meets.
pub open spec fn met_count(pw: Seq<char>, m: ControlsModel) -> nat {
    met(pw, m, CharClass::Digits) + met(pw, m, CharClass::Upper) + met(pw, m, CharClass::Lower)
        + met(pw, m, CharClass::Special) + met(pw, m, CharClass::More)
}

/// A character belongs to at most one class.
proof fn lemma_one_class(c: char)
    ensures
        flag_count(class_seq(CharClass::Digits).contains(c)) + flag_count(
            class_seq(CharClass::Upper).contains(c),
        ) + flag_count(class_seq(CharClass::Lower).contains(c)) + flag_count(
            class_seq(CharClass::Special).contains(c),
        ) + flag_count(class_seq(CharClass::More).contains(c)) <= 1,
{
    if class_seq(CharClass::Digits).contains(c) {
        lemma_class_shape(CharClass::Digits, c);
    }
    if class_seq(CharClass::Upper).contains(c) {
        lemma_class_shape(CharClass::Upper, c);
    }
    if class_seq(CharClass::Lower).contains(c) {
        lemma_class_shape(CharClass::Lower, c);
    }
    if class_seq(CharClass::Special).contains(c) {
        lemma_class_shape(CharClass::Special, c);
    }
    if class_seq(CharClass::More).contains(c) {
        lemma_class_shape(CharClass::More, c);
    }
}

/// A class met after a push was met before, or by the pushed character.
proof fn lemma_has_class_push(t: Seq<char>, c: char, k: CharClass)
    ensures
        has_class(t.push(c), k) ==> has_class(t, k) || class_seq(k).contains(c),
{
    if has_class(t.push(c), k) {
        let tc = t.push(c);
        let i = choose|i: int| 0 <= i < tc.len() && #[trigger] class_seq(k).contains(tc[i]);
        if i < t.len() {
            assert(t.push(c)[i] == t[i]);
        }
    }
}

/// A password meets at most as many classes as it has characters.
proof fn lemma_met_count_bound(pw: Seq<char>, m: ControlsModel)
    ensures
        met_count(pw, m) <= pw.len(),
    decreases pw.len(),
{
    if pw.len() > 0 {
        let t = pw.drop_last();
        let c = pw.last();
        assert(t.push(c) =~= pw);
        lemma_met_count_bound(t, m);
        lemma_one_class(c);
        lemma_has_class_push(t, c, CharClass::Digits);
        lemma_has_class_push(t, c, CharClass::Upper);
        lemma_has_class_push(t, c, CharClass::Lower);
        lemma_has_class_push(t, c, CharClass::Special);
        lemma_has_class_push(t, c, CharClass::More);
    }
}

/// When the settings are not feasible, no password made of pool characters
/// is acceptable: an `Unsatisfiable` outcome is owed, not a failed search.
pub proof fn infeasible_has_no_password(m: ControlsModel, pw: Seq<char>)
    requires
        !feasible(m),
        forall|i: int| 0 <= i < pw.len() ==> pool_spec(m).contains(#[trigger] pw[i]),
    ensures
        !satisfies(pw, m),
{
    if n_enabled(m) > m.pwlen {
        lemma_met_count_bound(pw, m);
    } else {
        let k = if !class_met(pool_spec(m), m, CharClass::Digits) {
            CharClass::Digits
        } else if !class_met(pool_spec(m), m, CharClass::Upper) {
            CharClass::Upper
        } else if !class_met(pool_spec(m), m, CharClass::Lower) {
            CharClass::Lower
        } else if !class_met(pool_spec(m), m, CharClass::Special) {
            CharClass::Special
        } else {
            CharClass::More
        };
        lemma_missing_class(m, k, pw);
    }
}

} // verus!
