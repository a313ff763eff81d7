use vstd::prelude::*;
use crate::controls::{Controls, ControlsModel};

verus! {

/// One of the five character classes a password may be asked to contain.
#[derive(Clone, Copy, Debug, PartialEq, Eq)]
pub enum CharClass {
    Digits,
    Upper,
    Lower,
    Special,
    More,
}

/// The literal characters of each class, in the order they enter the pool.
pub open spec fn class_seq(k: CharClass) -> Seq<char> {
    match k {
        CharClass::Digits => seq!['0', '1', '2', '3', '4', '5', '6', '7', '8', '9'],
        CharClass::Upper => seq![
            'A', 'B', 'C', 'D', 'E', 'F', 'G', 'H', 'I', 'J', 'K', 'L', 'M',
            'N', 'O', 'P', 'Q', 'R', 'S', 'T', 'U', 'V', 'W', 'X', 'Y', 'Z',
        ],
        CharClass::Lower => seq![
            'a', 'b', 'c', 'd', 'e', 'f', 'g', 'h', 'i', 'j', 'k', 'l', 'm',
            'n', 'o', 'p', 'q', 'r', 's', 't', 'u', 'v', 'w', 'x', 'y', 'z',
        ],
        CharClass::Special => seq!['_', '=', '+', '!', '@', '#', '$', '%', '&', '*', '?', '-'],
        CharClass::More => seq![
            '`', '|', '^', '\\', '/', '~', '<', '>', '\'', '"', ',', '.', '(', ')', '{', '}',
            '[', ']', ';',
        ],
    }
}

/// The literal characters of class `k`.
pub fn class_members(k: CharClass) -> (r: Vec<char>)
    ensures
        r@ == class_seq(k),
{
    match k {
        CharClass::Digits => vec!['0', '1', '2', '3', '4', '5', '6', '7', '8', '9'],
        CharClass::Upper => vec![
            'A', 'B', 'C', 'D', 'E', 'F', 'G', 'H', 'I', 'J', 'K', 'L', 'M',
            'N', 'O', 'P', 'Q', 'R', 'S', 'T', 'U', 'V', 'W', 'X', 'Y', 'Z',
        ],
        CharClass::Lower => vec![
            'a', 'b', 'c', 'd', 'e', 'f', 'g', 'h', 'i', 'j', 'k', 'l', 'm',
            'n', 'o', 'p', 'q', 'r', 's', 't', 'u', 'v', 'w', 'x', 'y', 'z',
        ],
        CharClass::Special => vec!['_', '=', '+', '!', '@', '#', '$', '%', '&', '*', '?', '-'],
        CharClass::More => vec![
            '`', '|', '^', '\\', '/', '~', '<', '>', '\'', '"', ',', '.', '(', ')', '{', '}',
            '[', ']', ';',
        ],
    }
}


/// Whether class `k` is switched on in `m`.
pub open spec fn enabled(m: ControlsModel, k: CharClass) -> bool {
    match k {
        CharClass::Digits => m.digits,
        CharClass::Upper => m.upper,
        CharClass::Lower => m.lower,
        CharClass::Special => m.special,
        CharClass::More => m.more,
    }
}

/// The class's characters if it is switched on, nothing otherwise.
pub open spec fn part(m: ControlsModel, k: CharClass) -> Seq<char> {
    if enabled(m, k) {
        class_seq(k)
    } else {
        Seq::empty()
    }
}

/// The enabled classes laid end to end, before anything is removed.
pub open spec fn raw_pool(m: ControlsModel) -> Seq<char> {
    part(m, CharClass::Digits) + part(m, CharClass::Upper) + part(m, CharClass::Lower) + part(
        m,
        CharClass::Special,
    ) + part(m, CharClass::More)
}

/// The characters that are easily mistaken for one another.
pub open spec fn is_confusing(c: char) -> bool {
    c == 'l' || c == 'O' || c == '1' || c == '0' || c == '|'
}

/// Whether character `c` of the raw pool survives into the pool.
pub open spec fn kept(m: ControlsModel, c: char) -> bool {
    !(m.reduce && is_confusing(c)) && !m.forbidden.contains(c)
}

/// [`kept`] under `m`, as a predicate to filter by.
pub open spec fn keep_pred(m: ControlsModel) -> spec_fn(char) -> bool {
    |c: char| kept(m, c)
}

/// The pool that passwords are drawn from: the raw pool, in order, less what is removed.
pub open spec fn pool_spec(m: ControlsModel) -> Seq<char> {
    raw_pool(m).filter(keep_pred(m))
}

fn confusing(c: char) -> (r: bool)
    ensures
        r == is_confusing(c),
{
    c == 'l' || c == 'O' || c == '1' || c == '0' || c == '|'
}

/// Whether `c` occurs in `v`.
pub fn contains_char(v: &Vec<char>, c: char) -> (r: bool)
    ensures
        r == v@.contains(c),
{
    let mut i: usize = 0;
    while i < v.len()
        invariant
            i <= v.len(),
            forall|j: int| 0 <= j < i ==> v@[j] != c,
        decreases v.len() - i,
    {
        if v[i] == c {
            return true;
        }
        i += 1;
    }
    false
}

fn keeps(controls: &Controls, c: char) -> (r: bool)
    ensures
        r == kept(controls@, c),
{
    !(controls.reduce && confusing(c)) && !contains_char(&controls.forbidden, c)
}

fn push_class(raw: &mut Vec<char>, on: bool, k: CharClass)
    ensures
        final(raw)@ == old(raw)@ + (if on { class_seq(k) } else { Seq::empty() }),
{
    if on {
        let mut members = class_members(k);
        raw.append(&mut members);
    } else {
        assert(old(raw)@ + Seq::<char>::empty() =~= old(raw)@);
    }
}

/// Builds the pool of characters that passwords are drawn from.
///
/// The enabled classes are laid end to end in the fixed order digits,
/// upper case, lower case, special, more special; then the confusing
/// characters (when `reduce` is set) and every forbidden character are
/// removed wherever they occur.
pub fn build_pool(controls: &Controls) -> (r: Vec<char>)
    ensures
        r@ == pool_spec(controls@),
{
    let ghost m = controls@;
    let mut raw: Vec<char> = Vec::new();
    push_class(&mut raw, controls.digits, CharClass::Digits);
    push_class(&mut raw, controls.upper, CharClass::Upper);
    push_class(&mut raw, controls.lower, CharClass::Lower);
    push_class(&mut raw, controls.special, CharClass::Special);
    push_class(&mut raw, controls.more, CharClass::More);
    assert(raw@ =~= raw_pool(m));
    let mut pool: Vec<char> = Vec::new();
    let mut i: usize = 0;
    while i < raw.len()
        invariant
            i <= raw.len(),
            raw@ == raw_pool(m),
            m == controls@,
            pool@ == raw@.take(i as int).filter(keep_pred(m)),
        decreases raw.len() - i,
    {
        let c = raw[i];
        proof {
            assert(raw@.take(i + 1) =~= raw@.take(i as int).push(c));
            raw@.take(i as int).lemma_filter_push(c, keep_pred(m));
        }
        if keeps(controls, c) {
            pool.push(c);
        }
        i += 1;
    }
    assert(raw@.take(raw.len() as int) =~= raw@);
    pool
}


/// Filtering twice keeps what both predicates keep.
proof fn lemma_filter_filter(
    s: Seq<char>,
    f: spec_fn(char) -> bool,
    g: spec_fn(char) -> bool,
    h: spec_fn(char) -> bool,
)
    requires
        forall|c: char| #[trigger] h(c) == (f(c) && g(c)),
    ensures
        s.filter(f).filter(g) == s.filter(h),
    decreases s.len(),
{
    if s.len() == 0 {
        assert(s.filter(f) =~= Seq::<char>::empty());
        assert(s.filter(h) =~= Seq::<char>::empty());
        assert(s.filter(f).filter(g) =~= Seq::<char>::empty());
    } else {
        let t = s.drop_last();
        let x = s.last();
        lemma_filter_filter(t, f, g, h);
        assert(t.push(x) =~= s);
        t.lemma_filter_push(x, f);
        t.lemma_filter_push(x, h);
        if f(x) {
            t.filter(f).lemma_filter_push(x, g);
        }
    }
}

/// Building the pool twice from equal settings gives the same pool: it
/// depends on the settings alone.
pub proof fn pool_is_deterministic(a: &Controls, b: &Controls)
    requires
        a@ == b@,
    ensures
        pool_spec(a@) == pool_spec(b@),
{
}

/// With confusion reduction on, the pool is the pool without it less exactly
/// the characters `l`, `O`, `1`, `0` and `|`, wherever they came from; the
/// order of what remains is kept.
pub proof fn reduction_removes_exactly_confusing(m: ControlsModel)
    requires
        m.reduce,
    ensures
        pool_spec(m) == pool_spec(ControlsModel { reduce: false, ..m }).filter(
            |c: char| !is_confusing(c),
        ),
        forall|c: char|
            #[trigger] pool_spec(m).contains(c) <==> (pool_spec(
                ControlsModel { reduce: false, ..m },
            ).contains(c) && !is_confusing(c)),
{
    let off = ControlsModel { reduce: false, ..m };
    let g = |c: char| !is_confusing(c);
    assert(raw_pool(off) == raw_pool(m));
    lemma_filter_filter(raw_pool(m), keep_pred(off), g, keep_pred(m));
    assert forall|c: char| #[trigger] pool_spec(m).contains(c) <==> (pool_spec(off).contains(c)
        && !is_confusing(c)) by {
        let p = pool_spec(off);
        if p.filter(g).contains(c) {
            p.lemma_filter_contains_rev(g, c);
            let i = choose|i: int| 0 <= i < p.filter(g).len() && p.filter(g)[i] == c;
            p.lemma_filter_pred(g, i);
        }
        if p.contains(c) && !is_confusing(c) {
            let i = choose|i: int| 0 <= i < p.len() && p[i] == c;
            p.lemma_filter_contains(g, i);
        }
    }
}

/// A forbidden character never enters the pool, whether or not it is also a
/// confusing character or belongs to several classes.
pub proof fn forbidden_never_in_pool(m: ControlsModel, c: char)
    requires
        m.forbidden.contains(c),
    ensures
        !pool_spec(m).contains(c),
{
    let p = pool_spec(m);
    if p.contains(c) {
        let i = choose|i: int| 0 <= i < p.len() && p[i] == c;
        raw_pool(m).lemma_filter_pred(keep_pred(m), i);
    }
}


/// The character ranges or lists each class falls in.
pub open spec fn class_shape(k: CharClass, c: char) -> bool {
    match k {
        CharClass::Digits => '0' <= c <= '9',
        CharClass::Upper => 'A' <= c <= 'Z',
        CharClass::Lower => 'a' <= c <= 'z',
        CharClass::Special => c == '_' || c == '=' || c == '+' || c == '!' || c == '@' || c == '#'
            || c == '$' || c == '%' || c == '&' || c == '*' || c == '?' || c == '-',
        CharClass::More => c == '`' || c == '|' || c == '^' || c == '\\' || c == '/' || c == '~'
            || c == '<' || c == '>' || c == '\'' || c == '"' || c == ',' || c == '.' || c == '('
            || c == ')' || c == '{' || c == '}' || c == '[' || c == ']' || c == ';',
    }
}

/// Every character of a class has the class's shape.
pub(crate) proof fn lemma_class_shape(k: CharClass, c: char)
    requires
        class_seq(k).contains(c),
    ensures
        class_shape(k, c),
{
    let s = class_seq(k);
    let i = choose|i: int| 0 <= i < s.len() && s[i] == c;
    assert(forall|j: int| 0 <= j < s.len() ==> class_shape(k, #[trigger] s[j]));
}

} // verus!
