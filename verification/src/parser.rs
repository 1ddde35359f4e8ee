//! The command parser for the interactive loop: it splits a line into
//! whitespace-delimited tokens and maps the leading token and its arguments
//! to a command of the closed command set, or to a parse error.

use vstd::prelude::*;
use crate::numfmt::digit_val;
use crate::numfmt::int_literal_value;
use crate::numfmt::is_digit;
use crate::numfmt::parse_i32;
use crate::numfmt::valid_int_literal;

verus! {

/// A separator: whitespace, and for number lists also the comma.
pub open spec fn is_sep(c: char, commas: bool) -> bool {
    c == ' ' || c == '\t' || c == '\r' || c == '\n' || (commas && c == ',')
}

/// The length of the token at the head of `s`.
pub open spec fn token_len(s: Seq<char>, commas: bool) -> int
    decreases s.len(),
{
    if s.len() == 0 || is_sep(s[0], commas) {
        0
    } else {
        1 + token_len(s.drop_first(), commas)
    }
}

pub proof fn lemma_token_len_bounds(s: Seq<char>, commas: bool)
    ensures
        0 <= token_len(s, commas) <= s.len(),
    decreases s.len(),
{
    if s.len() > 0 && !is_sep(s[0], commas) {
        lemma_token_len_bounds(s.drop_first(), commas);
    }
}

/// The non-empty tokens of `s`, in order.
pub open spec fn tokens_of(s: Seq<char>, commas: bool) -> Seq<Seq<char>>
    decreases s.len(),
    via tokens_of_decreases
{
    if s.len() == 0 {
        Seq::empty()
    } else if is_sep(s[0], commas) {
        tokens_of(s.drop_first(), commas)
    } else {
        seq![s.take(token_len(s, commas))] + tokens_of(s.skip(token_len(s, commas)), commas)
    }
}

#[via_fn]
proof fn tokens_of_decreases(s: Seq<char>, commas: bool) {
    if s.len() > 0 && !is_sep(s[0], commas) {
        lemma_token_len_bounds(s, commas);
        lemma_token_len_bounds(s.drop_first(), commas);
    }
}

/// The head token ends exactly where the first separator stands.
proof fn lemma_token_len_is(s: Seq<char>, commas: bool, m: int)
    requires
        0 <= m <= s.len(),
        forall|k: int| 0 <= k < m ==> !is_sep(#[trigger] s[k], commas),
        m == s.len() || is_sep(s[m], commas),
    ensures
        token_len(s, commas) == m,
    decreases m,
{
    if m > 0 {
        lemma_token_len_is(s.drop_first(), commas, m - 1);
    }
}

/// Splits a line into its non-empty tokens.
pub fn tokenize(s: &str, commas: bool) -> (r: Vec<String>)
    ensures
        r@.map_values(|t: String| t@) == tokens_of(s@, commas),
{
    broadcast use vstd::seq::Seq::lemma_push_map_commute;

    let n = s.unicode_len();
    let mut toks: Vec<String> = Vec::new();
    let mut i: usize = 0;
    proof {
        assert(s@.skip(0) =~= s@);
        assert(toks@.map_values(|t: String| t@) =~= Seq::<Seq<char>>::empty());
    }
    while i < n
        invariant
            n == s@.len(),
            i <= n,
            toks@.map_values(|t: String| t@) + tokens_of(s@.skip(i as int), commas) == tokens_of(
                s@,
                commas,
            ),
        decreases n - i,
    {
        broadcast use vstd::seq::Seq::lemma_push_map_commute;

        let c = s.get_char(i);
        if c == ' ' || c == '\t' || c == '\r' || c == '\n' || (commas && c == ',') {
            proof {
                assert(s@.skip(i as int).drop_first() =~= s@.skip(i as int + 1));
            }
            i += 1;
        } else {
            let mut j = i + 1;
            while j < n
                invariant
                    n == s@.len(),
                    i < j <= n,
                    !is_sep(s@[i as int], commas),
                    forall|k: int| i <= k < j ==> !is_sep(#[trigger] s@[k], commas),
                ensures
                    i < j <= n,
                    forall|k: int| i <= k < j ==> !is_sep(#[trigger] s@[k], commas),
                    j == n || is_sep(s@[j as int], commas),
                decreases n - j,
            {
                let c2 = s.get_char(j);
                if c2 == ' ' || c2 == '\t' || c2 == '\r' || c2 == '\n' || (commas && c2 == ',') {
                    break ;
                }
                j += 1;
            }
            let tok = s.substring_char(i, j).to_owned();
            proof {
                let rest = s@.skip(i as int);
                assert forall|k: int| 0 <= k < j - i implies !is_sep(#[trigger] rest[k], commas) by {
                    assert(rest[k] == s@[i + k]);
                }
                if j < n {
                    assert(rest[j - i] == s@[j as int]);
                }
                lemma_token_len_is(rest, commas, j - i);
                assert(rest.take(j - i) =~= s@.subrange(i as int, j as int));
                assert(rest.skip(j - i) =~= s@.skip(j as int));
                assert(tokens_of(rest, commas) == seq![tok@] + tokens_of(s@.skip(j as int), commas));
            }
            toks.push(tok);
            proof {
                assert(toks@.map_values(|t: String| t@) + tokens_of(s@.skip(j as int), commas)
                    =~= tokens_of(s@, commas));
            }
            i = j;
        }
    }
    proof {
        assert(s@.skip(n as int) =~= Seq::<char>::empty());
        assert(toks@.map_values(|t: String| t@) =~= tokens_of(s@, commas));
    }
    toks
}

/// Character-for-character string equality.
pub fn str_eq(a: &str, b: &str) -> (r: bool)
    ensures
        r == (a@ == b@),
{
    let n = a.unicode_len();
    if n != b.unicode_len() {
        return false;
    }
    let mut k: usize = 0;
    while k < n
        invariant
            n == a@.len() == b@.len(),
            k <= n,
            forall|m: int| 0 <= m < k ==> a@[m] == b@[m],
        decreases n - k,
    {
        if a.get_char(k) != b.get_char(k) {
            return false;
        }
        k += 1;
    }
    proof {
        assert(a@ =~= b@);
    }
    true
}

/// All commands of the interactive surface.
#[derive(Debug, PartialEq, Eq)]
pub enum Command {
    Randomize,
    Generate { count: Option<usize>, range: (i32, i32), no_repeats: bool },
    List,
    Graphs,
    /// Playback speed in hundredths: `150` stands for a 1.5x multiplier.
    Speed(u32),
    Sort(String),
    Compare(String, String),
    ReadList(String),
    QuickSort,
    MergeSort,
    TimSort,
    RadixSort,
    HeapSort,
}

/// The parse errors of the command surface.
#[derive(Debug, PartialEq, Eq)]
pub enum ParseError {
    UnknownCommand(String),
    InvalidArgument(String),
    MissingArgument(String),
    InvalidRange(i32, i32),
}

impl ParseError {
    /// A one-line description of the error.
    pub fn message(&self) -> (r: String)
        ensures
            (match self {
                ParseError::UnknownCommand(s) => r@ == "Unknown command: "@ + s@,
                ParseError::InvalidArgument(s) => r@ == "Invalid argument: "@ + s@,
                ParseError::MissingArgument(s) => r@ == "Missing argument for command: "@ + s@,
                ParseError::InvalidRange(a, b) => r@ == "Invalid range: "@ + crate::numfmt::int_string(
                    *a as int,
                ) + " must be less than "@ + crate::numfmt::int_string(*b as int),
            }),
    {
        match self {
            ParseError::UnknownCommand(s) => {
                let mut out = String::from_str("Unknown command: ");
                out.append(s.as_str());
                out
            },
            ParseError::InvalidArgument(s) => {
                let mut out = String::from_str("Invalid argument: ");
                out.append(s.as_str());
                out
            },
            ParseError::MissingArgument(s) => {
                let mut out = String::from_str("Missing argument for command: ");
                out.append(s.as_str());
                out
            },
            ParseError::InvalidRange(a, b) => {
                let mut out = crate::numfmt::int_to_string(*a);
                let mut head = String::from_str("Invalid range: ");
                head.append(out.as_str());
                head.append(" must be less than ");
                let tail = crate::numfmt::int_to_string(*b);
                head.append(tail.as_str());
                proof {
                    assert(head@ =~= "Invalid range: "@ + crate::numfmt::int_string(*a as int)
                        + " must be less than "@ + crate::numfmt::int_string(*b as int));
                }
                head
            },
        }
    }
}

/// The position of the first dot, or the length.
pub open spec fn dot_pos(s: Seq<char>) -> int
    decreases s.len(),
{
    if s.len() == 0 {
        0
    } else if s[0] == '.' {
        0
    } else {
        1 + dot_pos(s.drop_first())
    }
}

pub proof fn lemma_dot_pos_bounds(s: Seq<char>)
    ensures
        0 <= dot_pos(s) <= s.len(),
        dot_pos(s) < s.len() ==> s[dot_pos(s)] == '.',
        forall|k: int| 0 <= k < dot_pos(s) ==> s[k] != '.',
    decreases s.len(),
{
    if s.len() > 0 && s[0] != '.' {
        lemma_dot_pos_bounds(s.drop_first());
        assert forall|k: int| 0 <= k < dot_pos(s) implies s[k] != '.' by {
            if k > 0 {
                assert(s.drop_first()[k - 1] != '.');
            }
        }
    }
}

/// The first dot stands exactly at `m`.
proof fn lemma_dot_pos_is(s: Seq<char>, m: int)
    requires
        0 <= m <= s.len(),
        forall|k: int| 0 <= k < m ==> s[k] != '.',
        m == s.len() || s[m] == '.',
    ensures
        dot_pos(s) == m,
    decreases m,
{
    if m > 0 {
        lemma_dot_pos_is(s.drop_first(), m - 1);
    }
}

/// A decimal speed literal: at least one digit, then optionally a dot and
/// one or two (or more) fraction digits.
pub open spec fn valid_speed_literal(s: Seq<char>) -> bool {
    let d = dot_pos(s);
    &&& d >= 1
    &&& (forall|k: int| 0 <= k < s.len() && k != d ==> is_digit(#[trigger] s[k]))
    &&& (d == s.len() || s.len() - d >= 2)
}

/// The literal's value in hundredths, the fraction truncated past two
/// digits.
pub open spec fn speed_value(s: Seq<char>) -> int {
    speed_hundredths(s, dot_pos(s))
}

pub open spec fn speed_hundredths(s: Seq<char>, d: int) -> int {
    crate::numfmt::digits_value(s.take(d)) * 100 + (if d < s.len() {
        frac_hundredths(s.skip(d + 1))
    } else {
        0
    })
}

pub open spec fn frac_hundredths(f: Seq<char>) -> int {
    if f.len() == 0 {
        0
    } else if f.len() == 1 {
        digit_val(f[0]) * 10
    } else {
        digit_val(f[0]) * 10 + digit_val(f[1])
    }
}

/// A lower-cased ASCII letter; other characters stay as they are.
pub open spec fn lower_char(c: char) -> char {
    if 'A' <= c && c <= 'Z' {
        ((c as u8) + 32) as char
    } else {
        c
    }
}

pub open spec fn ascii_lower(s: Seq<char>) -> Seq<char> {
    Seq::new(s.len(), |i: int| lower_char(s[i]))
}

/// Folds ASCII upper-case letters to lower case, so algorithm names match
/// case-insensitively as the command surface expects.
pub fn to_ascii_lowercase(s: &str) -> (r: String)
    ensures
        r@ == ascii_lower(s@),
{
    let n = s.unicode_len();
    let mut out = String::new();
    let mut k: usize = 0;
    proof {
        assert(out@ =~= ascii_lower(s@).take(0));
    }
    while k < n
        invariant
            n == s@.len(),
            k <= n,
            out@ == ascii_lower(s@).take(k as int),
        decreases n - k,
    {
        let c = s.get_char(k);
        let folded: char = if 'A' <= c && c <= 'Z' {
            ((c as u32 + 32) as u8) as char
        } else {
            c
        };
        crate::numfmt::push_char(&mut out, folded);
        k += 1;
        proof {
            assert(folded == lower_char(s@[k - 1]));
            assert(out@ =~= ascii_lower(s@).take(k as int));
        }
    }
    proof {
        assert(ascii_lower(s@).take(n as int) =~= ascii_lower(s@));
    }
    out
}

/// A well-formed `min-max` range token: exactly one dash between two valid
/// integer literals.
pub open spec fn valid_range_literal(s: Seq<char>) -> bool {
    let parts = split_dash(s);
    parts.len() == 2 && valid_int_literal(parts[0]) && valid_int_literal(parts[1])
}

pub open spec fn range_literal_value(s: Seq<char>) -> (i32, i32) {
    let parts = split_dash(s);
    ((int_literal_value(parts[0]) as i32), (int_literal_value(parts[1]) as i32))
}

/// A non-negative count token: a valid integer literal without a sign.
pub open spec fn valid_count_literal(s: Seq<char>) -> bool {
    valid_int_literal(s) && int_literal_value(s) >= 0
}

/// One generation argument folded into the accumulated settings: the `nr`
/// flag, a range token (it holds a dash), or a count; a malformed token is
/// the error.
pub open spec fn gen_step(
    acc: (Option<usize>, (i32, i32), bool),
    t: Seq<char>,
) -> Option<(Option<usize>, (i32, i32), bool)> {
    if t == "nr"@ {
        Some((acc.0, acc.1, true))
    } else if exists|k: int| 0 <= k < t.len() && t[k] == '-' {
        if valid_range_literal(t) {
            Some((acc.0, range_literal_value(t), acc.2))
        } else {
            None
        }
    } else {
        if valid_count_literal(t) {
            Some((Some((int_literal_value(t) as usize)), acc.1, acc.2))
        } else {
            None
        }
    }
}

/// The generation arguments folded left to right over the defaults; later
/// tokens overwrite earlier ones, and the first malformed token wins.
pub open spec fn gen_fold(args: Seq<Seq<char>>, k: int) -> Option<
    (Option<usize>, (i32, i32), bool),
>
    decreases k,
{
    if k <= 1 {
        Some((None, (0i32, 10i32), false))
    } else {
        match gen_fold(args, k - 1) {
            None => None,
            Some(acc) => gen_step(acc, args[k - 1]),
        }
    }
}

pub struct CommandParser;

impl CommandParser {
    /// Parses one input line into a command, mapping the leading token over
    /// the command surface: an empty line and an unrecognised leading token
    /// are unknown-command errors, the shorthand commands map one to one,
    /// and the argument commands hand their tokens to their sub-parsers.
    pub fn parse(input: &str) -> (r: Result<Command, ParseError>)
        ensures
            ({
                let ts = tokens_of(input@, false);
                &&& (ts.len() == 0 ==> (r matches Err(e) && e
                    matches ParseError::UnknownCommand(_)))
                &&& (ts.len() > 0 ==> {
                    &&& (r == Result::<Command, ParseError>::Ok(Command::Randomize) <==> ts[0]
                        == ".randomize"@)
                    &&& (r == Result::<Command, ParseError>::Ok(Command::List) <==> ts[0]
                        == ".list"@)
                    &&& (r == Result::<Command, ParseError>::Ok(Command::Graphs) <==> ts[0]
                        == ".graphs"@)
                    &&& (r == Result::<Command, ParseError>::Ok(Command::QuickSort) <==> ts[0]
                        == ".quicksort"@)
                    &&& (r == Result::<Command, ParseError>::Ok(Command::MergeSort) <==> ts[0]
                        == ".mergesort"@)
                    &&& (r == Result::<Command, ParseError>::Ok(Command::TimSort) <==> ts[0]
                        == ".timsort"@)
                    &&& (r == Result::<Command, ParseError>::Ok(Command::RadixSort) <==> ts[0]
                        == ".radix"@)
                    &&& (r == Result::<Command, ParseError>::Ok(Command::HeapSort) <==> ts[0]
                        == ".heapsort"@)
                    &&& (ts[0] == ".sort"@ ==> {
                        &&& (ts.len() >= 2 ==> (r matches Ok(c) && c matches Command::Sort(nm)
                            && nm@ == ts[1]))
                        &&& (ts.len() < 2 ==> (r matches Err(e) && e
                            matches ParseError::MissingArgument(_)))
                    })
                    &&& (ts[0] == ".compare"@ ==> {
                        &&& (ts.len() >= 3 ==> (r matches Ok(c) && c
                            matches Command::Compare(a, b) && a@ == ts[1] && b@ == ts[2]))
                        &&& (ts.len() < 3 ==> (r matches Err(e) && e
                            matches ParseError::MissingArgument(_)))
                    })
                    &&& (ts[0] == ".readlist"@ ==> {
                        &&& (ts.len() >= 2 ==> (r matches Ok(c) && c
                            matches Command::ReadList(f) && f@ == ts[1]))
                        &&& (ts.len() < 2 ==> (r matches Err(e) && e
                            matches ParseError::MissingArgument(_)))
                    })
                    &&& (ts[0] == ".speed"@ ==> {
                        &&& (ts.len() < 2 ==> (r matches Err(e) && e
                            matches ParseError::MissingArgument(_)))
                        &&& (ts.len() >= 2 ==> {
                            &&& (r is Ok <==> valid_speed_literal(ts[1]) && 0 < speed_value(
                                ts[1],
                            ) <= u32::MAX)
                            &&& (valid_speed_literal(ts[1]) && 0 < speed_value(ts[1])
                                <= u32::MAX ==> r == Result::<Command, ParseError>::Ok(
                                Command::Speed((speed_value(ts[1]) as u32)),
                            ))
                            &&& (r is Err ==> (r matches Err(e) && e
                                matches ParseError::InvalidArgument(_)))
                        })
                    })
                    &&& (ts[0] == ".generate"@ ==> (match gen_fold(ts, ts.len() as int) {
                        None => r matches Err(e) && e matches ParseError::InvalidArgument(_),
                        Some(acc) => if acc.1.0 >= acc.1.1 {
                            r == Result::<Command, ParseError>::Err(
                                ParseError::InvalidRange(acc.1.0, acc.1.1),
                            )
                        } else {
                            r == Result::<Command, ParseError>::Ok(
                                Command::Generate {
                                    count: acc.0,
                                    range: acc.1,
                                    no_repeats: acc.2,
                                },
                            )
                        },
                    }))
                    &&& (!(ts[0] == ".randomize"@ || ts[0] == ".list"@ || ts[0] == ".graphs"@
                        || ts[0] == ".quicksort"@ || ts[0] == ".mergesort"@ || ts[0]
                        == ".timsort"@ || ts[0] == ".radix"@ || ts[0] == ".heapsort"@ || ts[0]
                        == ".speed"@ || ts[0] == ".generate"@ || ts[0] == ".sort"@ || ts[0]
                        == ".compare"@ || ts[0] == ".readlist"@) ==> (r matches Err(e) && e
                        matches ParseError::UnknownCommand(nm) && nm@ == ts[0]))
                })
            }),
    {
        proof {
            reveal_strlit(".randomize");
            reveal_strlit(".list");
            reveal_strlit(".graphs");
            reveal_strlit(".quicksort");
            reveal_strlit(".mergesort");
            reveal_strlit(".timsort");
            reveal_strlit(".radix");
            reveal_strlit(".heapsort");
            reveal_strlit(".speed");
            reveal_strlit(".generate");
            reveal_strlit(".sort");
            reveal_strlit(".compare");
            reveal_strlit(".readlist");
            assert(".randomize"@.len() == 10 && ".list"@.len() == 5 && ".graphs"@.len() == 7
                && ".quicksort"@.len() == 10 && ".mergesort"@.len() == 10 && ".timsort"@.len()
                == 8 && ".radix"@.len() == 6 && ".heapsort"@.len() == 9 && ".speed"@.len() == 6
                && ".generate"@.len() == 9 && ".sort"@.len() == 5 && ".compare"@.len() == 8
                && ".readlist"@.len() == 9);
            assert(".randomize"@[1] != ".quicksort"@[1] && ".randomize"@[1] != ".mergesort"@[1]
                && ".quicksort"@[1] != ".mergesort"@[1]);
            assert(".list"@[1] != ".sort"@[1]);
            assert(".radix"@[1] != ".speed"@[1]);
            assert(".timsort"@[1] != ".compare"@[1]);
            assert(".heapsort"@[1] != ".generate"@[1] && ".heapsort"@[1] != ".readlist"@[1]
                && ".generate"@[1] != ".readlist"@[1]);
        }
        let toks = tokenize(input, false);
        proof {
            assert forall|i: int| 0 <= i < toks@.len() implies #[trigger] tokens_of(
                input@,
                false,
            )[i] == toks@[i]@ by {
                assert(toks@.map_values(|t: String| t@)[i] == toks@[i]@);
            }
        }
        if toks.len() == 0 {
            return Err(ParseError::UnknownCommand(String::from_str("Empty command")));
        }
        let cmd = toks[0].as_str();
        if str_eq(cmd, ".randomize") {
            Ok(Command::Randomize)
        } else if str_eq(cmd, ".list") {
            Ok(Command::List)
        } else if str_eq(cmd, ".graphs") {
            Ok(Command::Graphs)
        } else if str_eq(cmd, ".quicksort") {
            Ok(Command::QuickSort)
        } else if str_eq(cmd, ".mergesort") {
            Ok(Command::MergeSort)
        } else if str_eq(cmd, ".timsort") {
            Ok(Command::TimSort)
        } else if str_eq(cmd, ".radix") {
            Ok(Command::RadixSort)
        } else if str_eq(cmd, ".heapsort") {
            Ok(Command::HeapSort)
        } else if str_eq(cmd, ".speed") {
            Self::parse_speed(&toks)
        } else if str_eq(cmd, ".generate") {
            Self::parse_generate(&toks)
        } else if str_eq(cmd, ".sort") {
            Self::parse_sort(&toks)
        } else if str_eq(cmd, ".compare") {
            Self::parse_compare(&toks)
        } else if str_eq(cmd, ".readlist") {
            Self::parse_readlist(&toks)
        } else {
            Err(ParseError::UnknownCommand(toks[0].clone()))
        }
    }

    /// Reads the speed argument: a positive decimal number, in hundredths.
    /// A missing argument is a missing-argument error; with an argument
    /// present, success comes exactly on a well-formed positive literal
    /// whose hundredths fit the counter, and every failure is an
    /// invalid-argument error.
    pub fn parse_speed(toks: &Vec<String>) -> (r: Result<Command, ParseError>)
        ensures
            toks@.len() < 2 ==> (r matches Err(e) && e matches ParseError::MissingArgument(_)),
            toks@.len() >= 2 ==> {
                let t = toks@[1]@;
                &&& (r is Ok <==> valid_speed_literal(t) && 0 < speed_value(t) <= u32::MAX)
                &&& (valid_speed_literal(t) && 0 < speed_value(t) <= u32::MAX ==> r == Result::<
                    Command,
                    ParseError,
                >::Ok(Command::Speed((speed_value(t) as u32))))
                &&& (r is Err ==> (r matches Err(e) && e
                    matches ParseError::InvalidArgument(_)))
            },
    {
        if toks.len() < 2 {
            return Err(ParseError::MissingArgument(String::from_str(".speed")));
        }
        let t = toks[1].as_str();
        let n = t.unicode_len();
        let mut acc: u64 = 0;
        let mut k: usize = 0;
        let mut dot: usize = n;
        // scan the whole-number part
        while k < n
            invariant
                toks@.len() >= 2,
                t@ == toks@[1]@,
                n == t@.len(),
                k <= n,
                dot == n,
                forall|m: int| 0 <= m < k ==> is_digit(#[trigger] t@[m]),
                0 <= acc <= 0xffff_ffffu64,
                acc == crate::numfmt::digits_value(t@.take(k as int)),
            ensures
                toks@.len() >= 2,
                t@ == toks@[1]@,
                k <= n == t@.len(),
                forall|m: int| 0 <= m < k ==> is_digit(#[trigger] t@[m]),
                0 <= acc <= 0xffff_ffffu64,
                acc == crate::numfmt::digits_value(t@.take(k as int)),
                k == n || !is_digit(t@[k as int]),
            decreases n - k,
        {
            let c = t.get_char(k);
            if c < '0' || c > '9' {
                break ;
            }
            proof {
                assert(t@.take(k as int + 1) =~= t@.take(k as int).push(t@[k as int]));
                assert(t@.take(k as int + 1).drop_last() =~= t@.take(k as int));
            }
            acc = acc * 10 + ((c as u32 - 48) as u64);
            if acc > 0xffff_ffff {
                proof {
                    lemma_speed_whole_too_big(t@, k as int + 1, acc as int);
                }
                return Err(ParseError::InvalidArgument(String::from_str(
                    "Speed must be a valid number",
                )));
            }
            k += 1;
        }
        if k == 0 {
            proof {
                if valid_speed_literal(t@) {
                    lemma_dot_pos_bounds(t@);
                    if n > 0 {
                        assert(is_digit(t@[0]));
                    }
                }
            }
            return Err(ParseError::InvalidArgument(String::from_str(
                "Speed must be a valid number",
            )));
        }
        let whole_digits = k;
        let mut frac: u64 = 0;
        if k < n {
            // a dot followed by at least one digit
            if t.get_char(k) != '.' {
                proof {
                    if valid_speed_literal(t@) {
                        lemma_dot_pos_bounds(t@);
                        if k as int != dot_pos(t@) {
                            assert(is_digit(t@[k as int]));
                        }
                    }
                }
                return Err(ParseError::InvalidArgument(String::from_str(
                    "Speed must be a valid number",
                )));
            }
            proof {
                assert forall|m: int| 0 <= m < k implies t@[m] != '.' by {
                    assert(is_digit(t@[m]));
                }
                lemma_dot_pos_is(t@, k as int);
            }
            if k + 1 >= n {
                return Err(ParseError::InvalidArgument(String::from_str(
                    "Speed must be a valid number",
                )));
            }
            dot = k;
            let mut j = k + 1;
            while j < n
                invariant
                    toks@.len() >= 2,
                    t@ == toks@[1]@,
                    n == t@.len(),
                    dot < j <= n,
                    dot == whole_digits,
                    dot_pos(t@) == dot as int,
                    forall|m: int| dot < m < j ==> is_digit(#[trigger] t@[m]),
                decreases n - j,
            {
                let c = t.get_char(j);
                if c < '0' || c > '9' {
                    return Err(ParseError::InvalidArgument(String::from_str(
                        "Speed must be a valid number",
                    )));
                }
                j += 1;
            }
            let f0 = t.get_char(dot + 1);
            frac = ((f0 as u32 - 48) as u64) * 10;
            if dot + 2 < n {
                let f1 = t.get_char(dot + 2);
                frac = frac + ((f1 as u32 - 48) as u64);
            }
            proof {
                assert(t@.skip(dot as int + 1)[0] == t@[dot as int + 1]);
                if dot + 2 < n {
                    assert(t@.skip(dot as int + 1)[1] == t@[dot as int + 2]);
                }
                assert(frac == frac_hundredths(t@.skip(dot as int + 1)));
            }
        } else {
            proof {
                assert forall|m: int| 0 <= m < n implies t@[m] != '.' by {
                    assert(is_digit(t@[m]));
                }
                lemma_dot_pos_is(t@, n as int);
            }
        }
        proof {
            let s = t@;
            let d = dot as int;
            assert(d == dot_pos(s));
            assert(s.take(d) =~= s.take(whole_digits as int));
            assert(0 <= d <= s.len());
            assert(forall|m: int| 0 <= m < s.len() && m != d ==> is_digit(#[trigger] s[m]));
            assert(valid_speed_literal(s));
        }
        let total: u64 = acc * 100 + frac;
        proof {
            assert(total as int == speed_value(t@));
        }
        if total == 0 || total > 0xffff_ffff {
            return Err(ParseError::InvalidArgument(String::from_str(
                "Speed must be a valid number",
            )));
        }
        Ok(Command::Speed(total as u32))
    }

    /// Reads the generation arguments: an optional count, an optional
    /// `min-max` range (defaulting to 0-10), and the `nr` flag, later tokens
    /// overwriting earlier ones.  The first malformed token is an
    /// invalid-argument error; a range whose start is not below its end is
    /// an invalid-range error; everything else succeeds.
    pub fn parse_generate(toks: &Vec<String>) -> (r: Result<Command, ParseError>)
        ensures
            ({
                let args = toks@.map_values(|t: String| t@);
                match gen_fold(args, toks@.len() as int) {
                    None => r matches Err(e) && e matches ParseError::InvalidArgument(_),
                    Some(acc) => if acc.1.0 >= acc.1.1 {
                        r == Result::<Command, ParseError>::Err(
                            ParseError::InvalidRange(acc.1.0, acc.1.1),
                        )
                    } else {
                        r == Result::<Command, ParseError>::Ok(
                            Command::Generate { count: acc.0, range: acc.1, no_repeats: acc.2 },
                        )
                    },
                }
            }),
    {
        let ghost args = toks@.map_values(|t: String| t@);
        let mut count: Option<usize> = None;
        let mut range: (i32, i32) = (0, 10);
        let mut no_repeats = false;
        let mut k: usize = 1;
        while k < toks.len()
            invariant
                1 <= k,
                args == toks@.map_values(|t: String| t@),
                toks@.len() == 0 ==> k == 1,
                toks@.len() >= 1 ==> k <= toks@.len(),
                gen_fold(args, k as int) == Some((count, range, no_repeats)),
            decreases toks.len() - k,
        {
            let arg = toks[k].as_str();
            proof {
                assert(args[k as int] == toks@[k as int]@);
            }
            if str_eq(arg, "nr") {
                no_repeats = true;
            } else if contains_dash(arg) {
                match Self::parse_range(arg) {
                    Ok(p) => {
                        range = p;
                    },
                    Err(e) => {
                        proof {
                            assert(gen_fold(args, k as int + 1) is None);
                            lemma_gen_fold_none(args, k as int + 1, toks@.len() as int);
                        }
                        return Err(e);
                    },
                }
            } else {
                match parse_usize(arg) {
                    Some(c) => {
                        count = Some(c);
                    },
                    None => {
                        proof {
                            assert(gen_fold(args, k as int + 1) is None);
                            lemma_gen_fold_none(args, k as int + 1, toks@.len() as int);
                        }
                        return Err(ParseError::InvalidArgument(String::from_str(
                            "Count must be a positive number",
                        )));
                    },
                }
            }
            k += 1;
        }
        if range.0 >= range.1 {
            return Err(ParseError::InvalidRange(range.0, range.1));
        }
        Ok(Command::Generate { count, range, no_repeats })
    }

    /// Reads a `min-max` range: both bounds decimal integers around a
    /// single dash.
    pub fn parse_range(arg: &str) -> (r: Result<(i32, i32), ParseError>)
        ensures
            r is Ok <==> valid_range_literal(arg@),
            (match r {
                Ok(p) => {
                    let parts = split_dash(arg@);
                    &&& parts.len() == 2
                    &&& valid_int_literal(parts[0])
                    &&& valid_int_literal(parts[1])
                    &&& p.0 as int == int_literal_value(parts[0])
                    &&& p.1 as int == int_literal_value(parts[1])
                },
                Err(e) => e matches ParseError::InvalidArgument(_),
            }),
    {
        let parts = split_on_dash(arg);
        if parts.len() != 2 {
            let mut msg = String::from_str("Invalid range format: ");
            msg.append(arg);
            return Err(ParseError::InvalidArgument(msg));
        }
        let start = match parse_i32(parts[0].as_str()) {
            Some(v) => v,
            None => {
                let mut msg = String::from_str("Invalid range start: ");
                msg.append(parts[0].as_str());
                return Err(ParseError::InvalidArgument(msg));
            },
        };
        let end = match parse_i32(parts[1].as_str()) {
            Some(v) => v,
            None => {
                let mut msg = String::from_str("Invalid range end: ");
                msg.append(parts[1].as_str());
                return Err(ParseError::InvalidArgument(msg));
            },
        };
        Ok((start, end))
    }

    /// Reads the algorithm name for `.sort`.
    pub fn parse_sort(toks: &Vec<String>) -> (r: Result<Command, ParseError>)
        ensures
            toks@.len() >= 2 ==> (r matches Ok(c) && c == Command::Sort(toks@[1])),
            toks@.len() < 2 ==> (r matches Err(e) && e matches ParseError::MissingArgument(_)),
    {
        if toks.len() < 2 {
            return Err(ParseError::MissingArgument(String::from_str(".sort")));
        }
        Ok(Command::Sort(toks[1].clone()))
    }

    /// Reads the two algorithm names for `.compare`.
    pub fn parse_compare(toks: &Vec<String>) -> (r: Result<Command, ParseError>)
        ensures
            toks@.len() >= 3 ==> (r matches Ok(c) && c == Command::Compare(toks@[1], toks@[2])),
            toks@.len() < 3 ==> (r matches Err(e) && e matches ParseError::MissingArgument(_)),
    {
        if toks.len() < 3 {
            return Err(ParseError::MissingArgument(String::from_str(
                "Compare requires two algorithms",
            )));
        }
        Ok(Command::Compare(toks[1].clone(), toks[2].clone()))
    }

    /// Reads the file name for `.readlist`.
    pub fn parse_readlist(toks: &Vec<String>) -> (r: Result<Command, ParseError>)
        ensures
            toks@.len() >= 2 ==> (r matches Ok(c) && c == Command::ReadList(toks@[1])),
            toks@.len() < 2 ==> (r matches Err(e) && e matches ParseError::MissingArgument(_)),
    {
        if toks.len() < 2 {
            return Err(ParseError::MissingArgument(String::from_str(".readlist")));
        }
        Ok(Command::ReadList(toks[1].clone()))
    }
}

/// The pieces of `s` between its dashes.
pub open spec fn split_dash(s: Seq<char>) -> Seq<Seq<char>>
    decreases s.len(),
    via split_dash_decreases
{
    if s.len() == 0 {
        seq![Seq::empty()]
    } else {
        let d = dash_pos(s);
        if d == s.len() {
            seq![s]
        } else {
            seq![s.take(d)] + split_dash(s.skip(d + 1))
        }
    }
}

/// The position of the first dash, or the length.
pub open spec fn dash_pos(s: Seq<char>) -> int
    decreases s.len(),
{
    if s.len() == 0 {
        0
    } else if s[0] == '-' {
        0
    } else {
        1 + dash_pos(s.drop_first())
    }
}

pub proof fn lemma_dash_pos_bounds(s: Seq<char>)
    ensures
        0 <= dash_pos(s) <= s.len(),
        dash_pos(s) < s.len() ==> s[dash_pos(s)] == '-',
        forall|k: int| 0 <= k < dash_pos(s) ==> s[k] != '-',
    decreases s.len(),
{
    if s.len() > 0 && s[0] != '-' {
        lemma_dash_pos_bounds(s.drop_first());
        assert forall|k: int| 0 <= k < dash_pos(s) implies s[k] != '-' by {
            if k > 0 {
                assert(s.drop_first()[k - 1] != '-');
            }
        }
    }
}

#[via_fn]
proof fn split_dash_decreases(s: Seq<char>) {
    if s.len() > 0 {
        lemma_dash_pos_bounds(s);
    }
}

/// True when the text holds a dash.
fn contains_dash(s: &str) -> (r: bool)
    ensures
        r == exists|k: int| 0 <= k < s@.len() && s@[k] == '-',
{
    let n = s.unicode_len();
    let mut k: usize = 0;
    while k < n
        invariant
            n == s@.len(),
            k <= n,
            forall|m: int| 0 <= m < k ==> s@[m] != '-',
        decreases n - k,
    {
        if s.get_char(k) == '-' {
            return true;
        }
        k += 1;
    }
    false
}

/// Splits on dashes, mirroring `split_dash`.
fn split_on_dash(s: &str) -> (r: Vec<String>)
    ensures
        r@.map_values(|t: String| t@) == split_dash(s@),
{
    broadcast use vstd::seq::Seq::lemma_push_map_commute;

    let n = s.unicode_len();
    let mut parts: Vec<String> = Vec::new();
    let mut i: usize = 0;
    proof {
        assert(s@.skip(0) =~= s@);
        assert(parts@.map_values(|t: String| t@) =~= Seq::<Seq<char>>::empty());
    }
    loop
        invariant
            n == s@.len(),
            i <= n,
            parts@.map_values(|t: String| t@) + split_dash(s@.skip(i as int)) == split_dash(s@),
        ensures
            parts@.map_values(|t: String| t@) == split_dash(s@),
        decreases n - i,
    {
        // find the next dash from i
        let mut j = i;
        while j < n
            invariant
                n == s@.len(),
                i <= j <= n,
                forall|m: int| i <= m < j ==> s@[m] != '-',
            ensures
                i <= j <= n,
                forall|m: int| i <= m < j ==> s@[m] != '-',
                j == n || s@[j as int] == '-',
            decreases n - j,
        {
            if s.get_char(j) == '-' {
                break ;
            }
            j += 1;
        }
        let piece = s.substring_char(i, j).to_owned();
        proof {
            let rest = s@.skip(i as int);
            lemma_dash_pos_bounds(rest);
            assert forall|m: int| 0 <= m < j - i implies rest[m] != '-' by {
                assert(rest[m] == s@[i + m]);
            }
            if j < n {
                assert(rest[j - i] == s@[j as int]);
            }
            lemma_dash_pos_is(rest, j - i);
            assert(rest.take(j - i) =~= s@.subrange(i as int, j as int));
            if j < n {
                assert(rest.skip(j - i + 1) =~= s@.skip(j as int + 1));
            }
        }
        parts.push(piece);
        if j == n {
            proof {
                let rest = s@.skip(i as int);
                if rest.len() == 0 {
                    assert(split_dash(rest) == seq![Seq::<char>::empty()]);
                    assert(rest =~= Seq::<char>::empty());
                    assert(parts@.map_values(|t: String| t@) =~= split_dash(s@));
                } else {
                    assert(split_dash(rest) == seq![rest]);
                    assert(rest =~= s@.subrange(i as int, j as int));
                    assert(parts@.map_values(|t: String| t@) =~= split_dash(s@));
                }
            }
            return parts;
        }
        proof {
            let rest = s@.skip(i as int);
            assert(split_dash(rest) == seq![rest.take(j - i)] + split_dash(rest.skip(j - i + 1)));
            assert(parts@.map_values(|t: String| t@) + split_dash(s@.skip(j as int + 1))
                =~= split_dash(s@));
        }
        i = j + 1;
    }
}

/// The first dash stands exactly at `m`.
proof fn lemma_dash_pos_is(s: Seq<char>, m: int)
    requires
        0 <= m <= s.len(),
        forall|k: int| 0 <= k < m ==> s[k] != '-',
        m == s.len() || s[m] == '-',
    ensures
        dash_pos(s) == m,
    decreases m,
{
    if m > 0 {
        lemma_dash_pos_is(s.drop_first(), m - 1);
    }
}

/// Reads an unsigned decimal count.
fn parse_usize(tok: &str) -> (r: Option<usize>)
    ensures
        (match r {
            Some(v) => valid_int_literal(tok@) && int_literal_value(tok@) >= 0 && v as int
                == int_literal_value(tok@),
            None => !(valid_int_literal(tok@) && int_literal_value(tok@) >= 0),
        }),
{
    match parse_i32(tok) {
        Some(v) => {
            if v >= 0 {
                Some(v as usize)
            } else {
                None
            }
        },
        None => None,
    }
}


/// A whole part already past the counter's range makes the speed value,
/// if the literal is well-formed at all, exceed the counter too.
proof fn lemma_speed_whole_too_big(s: Seq<char>, k1: int, acc: int)
    requires
        0 < k1 <= s.len(),
        forall|m: int| 0 <= m < k1 ==> is_digit(#[trigger] s[m]),
        acc == crate::numfmt::digits_value(s.take(k1)),
        acc > 0xffff_ffff,
    ensures
        !(valid_speed_literal(s) && 0 < speed_value(s) <= u32::MAX),
{
    if valid_speed_literal(s) {
        lemma_dot_pos_bounds(s);
        let d = dot_pos(s);
        assert(d >= k1) by {
            if d < k1 {
                assert(is_digit(s[d]));
                assert(s[d] == '.');
            }
        }
        assert forall|m: int| 0 <= m < s.take(d).len() implies is_digit(
            #[trigger] s.take(d)[m],
        ) by {
            assert(s.take(d)[m] == s[m]);
        }
        crate::numfmt::lemma_digits_value_grows(s.take(d), k1);
        assert(s.take(d).take(k1) =~= s.take(k1));
        assert(crate::numfmt::digits_value(s.take(d)) > 0xffff_ffff);
        if d < s.len() {
            assert(is_digit(s[d + 1]));
            if d + 2 < s.len() {
                assert(is_digit(s[d + 2]));
            }
            assert(frac_hundredths(s.skip(d + 1)) >= 0) by {
                assert(s.skip(d + 1)[0] == s[d + 1]);
                if s.skip(d + 1).len() >= 2 {
                    assert(s.skip(d + 1)[1] == s[d + 2]);
                }
            }
        }
        assert(speed_value(s) > u32::MAX);
    }
}


/// Once a generation token has failed, the whole fold stays failed.
proof fn lemma_gen_fold_none(args: Seq<Seq<char>>, i: int, j: int)
    requires
        gen_fold(args, i) is None,
        i <= j,
    ensures
        gen_fold(args, j) is None,
    decreases j - i,
{
    if j > i {
        lemma_gen_fold_none(args, i, j - 1);
    }
}

} // verus!
