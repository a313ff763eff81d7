use vstd::prelude::*;
use vstd::string::*;
use crate::controls::{Controls, ControlsModel};

verus! {

/// What `str::to_lowercase` makes of a string.
pub uninterp spec fn lower_of(s: Seq<char>) -> Seq<char>;

/// Relies on str::to_lowercase: the lower-case form of `s`, which depends on
/// the characters of `s` alone.
#[verifier::external_body]
fn lowercase(s: &str) -> (r: String)
    ensures
        r@ == lower_of(s@),
{
    s.to_lowercase()
}

pub open spec fn is_digit(c: char) -> bool {
    '0' <= c <= '9'
}

/// The value of a string of decimal digits.
pub open spec fn digits_value(s: Seq<char>) -> nat
    decreases s.len(),
{
    if s.len() == 0 {
        0
    } else {
        digits_value(s.drop_last()) * 10 + (s.last() as nat - '0' as nat) as nat
    }
}

/// `s` without one leading `+`, if it has one.
pub open spec fn unsigned_part(s: Seq<char>) -> Seq<char> {
    if s.len() > 0 && s[0] == '+' {
        s.drop_first()
    } else {
        s
    }
}

/// The `usize` that `s` spells: an optional `+` followed by one or more
/// decimal digits, of a value that fits; `None` for anything else.
pub open spec fn usize_of(s: Seq<char>) -> Option<usize> {
    let d = unsigned_part(s);
    if d.len() > 0 && (forall|i: int| 0 <= i < d.len() ==> is_digit(#[trigger] d[i]))
        && digits_value(d) <= usize::MAX {
        Some(digits_value(d) as usize)
    } else {
        None
    }
}

/// Relies on `str::parse::<usize>`, that is `usize::from_str_radix(s, 10)`:
/// an optional `+` then decimal digits only, and an error on an empty string,
/// any other character, or a value above `usize::MAX`.
#[verifier::external_body]
fn parse_usize(s: &str) -> (r: Option<usize>)
    ensures
        r == usize_of(s@),
{
    s.parse::<usize>().ok()
}

/// The meaning of one command-line word, once lower-cased.
#[derive(Clone, Copy, Debug, PartialEq, Eq)]
pub enum Flag {
    Length,
    Digits,
    Lower,
    Upper,
    Special,
    More,
    Reduce,
    Forbidden,
    Unknown,
}

pub open spec fn flag_spec(s: Seq<char>) -> Flag {
    if s == "-n"@ || s == "--length"@ {
        Flag::Length
    } else if s == "-d"@ || s == "--digits"@ {
        Flag::Digits
    } else if s == "-l"@ || s == "--lower"@ {
        Flag::Lower
    } else if s == "-u"@ || s == "--upper"@ {
        Flag::Upper
    } else if s == "-s"@ || s == "--special"@ {
        Flag::Special
    } else if s == "-m"@ || s == "--more"@ {
        Flag::More
    } else if s == "-r"@ || s == "--reduce-confusion"@ {
        Flag::Reduce
    } else if s == "-f"@ || s == "--forbidden"@ {
        Flag::Forbidden
    } else {
        Flag::Unknown
    }
}

/// Whether `a` and `b` hold the same characters.
pub fn str_eq(a: &str, b: &str) -> (r: bool)
    ensures
        r == (a@ == b@),
{
    let n = a.unicode_len();
    if n != b.unicode_len() {
        return false;
    }
    let mut i: usize = 0;
    while i < n
        invariant
            i <= n,
            n == a@.len(),
            n == b@.len(),
            forall|j: int| 0 <= j < i ==> a@[j] == b@[j],
        decreases n - i,
    {
        if a.get_char(i) != b.get_char(i) {
            return false;
        }
        i += 1;
    }
    assert(a@ =~= b@);
    true
}

/// Reads one already lower-cased command-line word as a flag.
pub fn classify(word: &str) -> (r: Flag)
    ensures
        r == flag_spec(word@),
{
    if str_eq(word, "-n") || str_eq(word, "--length") {
        Flag::Length
    } else if str_eq(word, "-d") || str_eq(word, "--digits") {
        Flag::Digits
    } else if str_eq(word, "-l") || str_eq(word, "--lower") {
        Flag::Lower
    } else if str_eq(word, "-u") || str_eq(word, "--upper") {
        Flag::Upper
    } else if str_eq(word, "-s") || str_eq(word, "--special") {
        Flag::Special
    } else if str_eq(word, "-m") || str_eq(word, "--more") {
        Flag::More
    } else if str_eq(word, "-r") || str_eq(word, "--reduce-confusion") {
        Flag::Reduce
    } else if str_eq(word, "-f") || str_eq(word, "--forbidden") {
        Flag::Forbidden
    } else {
        Flag::Unknown
    }
}

/// A fatal fault in the command line.
#[derive(Clone, Copy, Debug, PartialEq, Eq)]
pub enum ArgError {
    /// The length flag is the last word.
    MissingLength,
    /// The word after the length flag is not a positive integer.
    InvalidLength,
    /// The forbidden-characters flag is the last word.
    MissingForbidden,
}

/// The outcome of reading a command line: the words that were skipped as
/// unknown (lower-cased, in order), and the settings or the fault that
/// stopped the reading.
pub struct Parsed {
    pub skipped: Vec<String>,
    pub controls: Result<Controls, ArgError>,
}

/// The settings that reading starts from when some argument is given.
pub open spec fn initial_model() -> ControlsModel {
    ControlsModel {
        pwlen: 12,
        digits: false,
        upper: false,
        lower: false,
        special: false,
        more: false,
        reduce: true,
        forbidden: Seq::empty(),
    }
}

/// The settings used when no argument is given at all: every class, no
/// confusion reduction.
pub open spec fn no_args_model() -> ControlsModel {
    ControlsModel {
        pwlen: 12,
        digits: true,
        upper: true,
        lower: true,
        special: true,
        more: true,
        reduce: false,
        forbidden: Seq::empty(),
    }
}

/// Reads `args` from position `i` on, with settings `m` and skipped words
/// `skipped` so far. `low` holds the lower-cased form of each word, which is
/// what flags are matched on; values are taken from `args` as they stand.
pub open spec fn parse_from(
    args: Seq<Seq<char>>,
    low: Seq<Seq<char>>,
    i: nat,
    m: ControlsModel,
    skipped: Seq<Seq<char>>,
) -> (Seq<Seq<char>>, Result<ControlsModel, ArgError>)
    decreases args.len() - i,
{
    if i >= args.len() {
        (skipped, Ok(m))
    } else {
        let word = low[i as int];
        match flag_spec(word) {
            Flag::Length => if i + 1 >= args.len() {
                (skipped, Err(ArgError::MissingLength))
            } else {
                match usize_of(args[i + 1 as int]) {
                    Some(n) => if n > 0 {
                        parse_from(
                            args,
                            low,
                            i + 2,
                            ControlsModel { pwlen: n as nat, ..m },
                            skipped,
                        )
                    } else {
                        (skipped, Err(ArgError::InvalidLength))
                    },
                    None => (skipped, Err(ArgError::InvalidLength)),
                }
            },
            Flag::Forbidden => if i + 1 >= args.len() {
                (skipped, Err(ArgError::MissingForbidden))
            } else {
                parse_from(
                    args, low,
                    i + 2,
                    ControlsModel { forbidden: m.forbidden + args[i + 1 as int], ..m },
                    skipped,
                )
            },
            Flag::Digits => parse_from(
                args,
                low,
                i + 1,
                ControlsModel { digits: true, ..m },
                skipped,
            ),
            Flag::Lower => parse_from(
                args,
                low,
                i + 1,
                ControlsModel { lower: true, ..m },
                skipped,
            ),
            Flag::Upper => parse_from(
                args,
                low,
                i + 1,
                ControlsModel { upper: true, ..m },
                skipped,
            ),
            Flag::Special => parse_from(
                args,
                low,
                i + 1,
                ControlsModel { special: true, ..m },
                skipped,
            ),
            Flag::More => parse_from(args, low, i + 1, ControlsModel { more: true, ..m }, skipped),
            Flag::Reduce => parse_from(
                args,
                low,
                i + 1,
                ControlsModel { reduce: true, ..m },
                skipped,
            ),
            Flag::Unknown => parse_from(args, low, i + 1, m, skipped.push(word)),
        }
    }
}

/// What a command line means. Its first word is the program's name and is
/// not read. With nothing after it the settings are [`no_args_model`];
/// otherwise reading starts from [`initial_model`], flags are matched
/// case-insensitively, `-n` and `-f` take the next word as their value, and
/// unknown words are skipped.
pub open spec fn parse_spec(args: Seq<Seq<char>>) -> (
    Seq<Seq<char>>,
    Result<ControlsModel, ArgError>,
) {
    parse_words(args, args.map_values(|w: Seq<char>| lower_of(w)))
}

/// What a command line means, given the lower-cased form `low` of each of
/// its words.
pub open spec fn parse_words(args: Seq<Seq<char>>, low: Seq<Seq<char>>) -> (
    Seq<Seq<char>>,
    Result<ControlsModel, ArgError>,
) {
    if args.len() <= 1 {
        (Seq::empty(), Ok(no_args_model()))
    } else {
        parse_from(args, low, 1, initial_model(), Seq::empty())
    }
}

pub open spec fn words(v: Seq<String>) -> Seq<Seq<char>> {
    v.map_values(|s: String| s@)
}

pub open spec fn result_view(r: Result<Controls, ArgError>) -> Result<ControlsModel, ArgError> {
    match r {
        Ok(c) => Ok(c@),
        Err(e) => Err(e),
    }
}

fn push_chars(v: &mut Vec<char>, s: &str)
    ensures
        final(v)@ == old(v)@ + s@,
{
    let n = s.unicode_len();
    let mut i: usize = 0;
    while i < n
        invariant
            i <= n,
            n == s@.len(),
            v@ == old(v)@ + s@.take(i as int),
        decreases n - i,
    {
        v.push(s.get_char(i));
        assert(s@.take(i + 1) =~= s@.take(i as int).push(s@[i as int]));
        i += 1;
    }
    assert(s@.take(n as int) =~= s@);
}

/// Reads the command line `args`, whose first word is the program's name.
pub fn parse_args(args: Vec<String>) -> (r: Parsed)
    ensures
        words(r.skipped@) == parse_spec(words(args@)).0,
        result_view(r.controls) == parse_spec(words(args@)).1,
        r.controls is Ok ==> r.controls->Ok_0@.wf(),
{
    let mut lowered: Vec<String> = Vec::new();
    let mut i: usize = 0;
    while i < args.len()
        invariant
            i <= args.len(),
            lowered.len() == i,
            forall|j: int| 0 <= j < i ==> #[trigger] lowered@[j]@ == lower_of(args@[j]@),
        decreases args.len() - i,
    {
        lowered.push(lowercase(args[i].as_str()));
        i += 1;
    }
    assert(words(lowered@) =~= words(args@).map_values(|w: Seq<char>| lower_of(w)));
    parse_lowered(&args, &lowered)
}

/// Reads the command line `args`, whose first word is the program's name,
/// matching flags on `lowered`, the lower-cased form of each word.
pub fn parse_lowered(args: &Vec<String>, lowered: &Vec<String>) -> (r: Parsed)
    requires
        lowered.len() == args.len(),
    ensures
        words(r.skipped@) == parse_words(words(args@), words(lowered@)).0,
        result_view(r.controls) == parse_words(words(args@), words(lowered@)).1,
        r.controls is Ok ==> r.controls->Ok_0@.wf(),
{
    let ghost a = words(args@);
    let ghost low = words(lowered@);
    let mut controls = Controls {
        pwlen: 12,
        digits: false,
        upper: false,
        lower: false,
        special: false,
        more: false,
        reduce: true,
        forbidden: Vec::new(),
    };
    let mut skipped: Vec<String> = Vec::new();
    if args.len() <= 1 {
        controls.digits = true;
        controls.upper = true;
        controls.lower = true;
        controls.special = true;
        controls.more = true;
        controls.reduce = false;
        assert(controls@ =~= no_args_model());
        return Parsed { skipped, controls: Ok(controls) };
    }
    assert(controls@ =~= initial_model());
    assert(words(skipped@) =~= Seq::<Seq<char>>::empty());
    let mut index: usize = 1;
    while index < args.len()
        invariant
            a == words(args@),
            1 <= index <= args.len(),
            controls.pwlen > 0,
            low == words(lowered@),
            lowered.len() == args.len(),
            parse_words(a, low) == parse_from(a, low, index as nat, controls@, words(skipped@)),
        decreases args.len() - index,
    {
        let word = lowered[index].clone();
        assert(low[index as int] == lowered@[index as int]@);
        match classify(word.as_str()) {
            Flag::Length => {
                if index + 1 >= args.len() {
                    return Parsed { skipped, controls: Err(ArgError::MissingLength) };
                }
                assert(a[index + 1] == args@[index + 1]@);
                match parse_usize(args[index + 1].as_str()) {
                    Some(n) => {
                        if n == 0 {
                            return Parsed { skipped, controls: Err(ArgError::InvalidLength) };
                        }
                        controls.pwlen = n;
                    },
                    None => {
                        return Parsed { skipped, controls: Err(ArgError::InvalidLength) };
                    },
                }
                index += 2;
            },
            Flag::Forbidden => {
                if index + 1 >= args.len() {
                    return Parsed { skipped, controls: Err(ArgError::MissingForbidden) };
                }
                assert(a[index + 1] == args@[index + 1]@);
                push_chars(&mut controls.forbidden, args[index + 1].as_str());
                index += 2;
            },
            Flag::Digits => {
                controls.digits = true;
                index += 1;
            },
            Flag::Lower => {
                controls.lower = true;
                index += 1;
            },
            Flag::Upper => {
                controls.upper = true;
                index += 1;
            },
            Flag::Special => {
                controls.special = true;
                index += 1;
            },
            Flag::More => {
                controls.more = true;
                index += 1;
            },
            Flag::Reduce => {
                controls.reduce = true;
                index += 1;
            },
            Flag::Unknown => {
                let ghost before = skipped@;
                skipped.push(word);
                assert(words(skipped@) =~= words(before).push(low[index as int]));
                index += 1;
            },
        }
    }
    Parsed { skipped, controls: Ok(controls) }
}

/// Reading from `j + 1` on is reading the line without word `i` from `j` on.
proof fn lemma_parse_shift(
    args: Seq<Seq<char>>,
    low: Seq<Seq<char>>,
    i: nat,
    j: nat,
    m: ControlsModel,
    skipped: Seq<Seq<char>>,
)
    requires
        args.len() == low.len(),
        i < args.len(),
        i <= j,
    ensures
        parse_from(args, low, j + 1, m, skipped) == parse_from(
            args.remove(i as int),
            low.remove(i as int),
            j,
            m,
            skipped,
        ),
    decreases args.len() - j,
{
    let a2 = args.remove(i as int);
    let l2 = low.remove(i as int);
    if j + 1 < args.len() {
        assert(a2[j as int] == args[j + 1 as int]);
        assert(l2[j as int] == low[j + 1 as int]);
        if j + 2 < args.len() {
            assert(a2[j + 1 as int] == args[j + 2 as int]);
        }
        let word = low[j + 1 as int];
        match flag_spec(word) {
            Flag::Length => {
                if j + 2 < args.len() {
                    if let Some(n) = usize_of(args[j + 2 as int]) {
                        let m2 = ControlsModel { pwlen: n as nat, ..m };
                        lemma_parse_shift(args, low, i, j + 2, m2, skipped);
                    }
                }
            },
            Flag::Forbidden => {
                if j + 2 < args.len() {
                    let m2 = ControlsModel { forbidden: m.forbidden + args[j + 2 as int], ..m };
                    lemma_parse_shift(args, low, i, j + 2, m2, skipped);
                }
            },
            Flag::Digits => {
                lemma_parse_shift(
                    args,
                    low,
                    i,
                    j + 1,
                    ControlsModel { digits: true, ..m },
                    skipped,
                );
            },
            Flag::Lower => {
                lemma_parse_shift(args, low, i, j + 1, ControlsModel { lower: true, ..m }, skipped);
            },
            Flag::Upper => {
                lemma_parse_shift(args, low, i, j + 1, ControlsModel { upper: true, ..m }, skipped);
            },
            Flag::Special => {
                lemma_parse_shift(
                    args,
                    low,
                    i,
                    j + 1,
                    ControlsModel { special: true, ..m },
                    skipped,
                );
            },
            Flag::More => {
                lemma_parse_shift(args, low, i, j + 1, ControlsModel { more: true, ..m }, skipped);
            },
            Flag::Reduce => {
                lemma_parse_shift(
                    args,
                    low,
                    i,
                    j + 1,
                    ControlsModel { reduce: true, ..m },
                    skipped,
                );
            },
            Flag::Unknown => {
                lemma_parse_shift(args, low, i, j + 1, m, skipped.push(word));
            },
        }
    }
}

/// An unknown word is no fault: when reading reaches it, the word is added
/// to the skipped words, no setting changes, and reading goes on with the
/// next word; the outcome is that of the same line without the word.
pub proof fn unknown_word_is_skipped(
    args: Seq<Seq<char>>,
    low: Seq<Seq<char>>,
    i: nat,
    m: ControlsModel,
    skipped: Seq<Seq<char>>,
)
    requires
        args.len() == low.len(),
        i < args.len(),
        flag_spec(low[i as int]) == Flag::Unknown,
    ensures
        parse_from(args, low, i, m, skipped) == parse_from(
            args,
            low,
            i + 1,
            m,
            skipped.push(low[i as int]),
        ),
        parse_from(args, low, i, m, skipped) == parse_from(
            args.remove(i as int),
            low.remove(i as int),
            i,
            m,
            skipped.push(low[i as int]),
        ),
{
    lemma_parse_shift(args, low, i, i, m, skipped.push(low[i as int]));
}

} // verus!
