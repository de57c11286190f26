use vstd::prelude::*;

use crate::action::{Action, ActionV, actions_view, action_view};
use crate::strutil::{str_views, chars_to_string, join_with, lemma_join_with_push};

verus! {

pub struct Parser;

/// An error found while reading a command line; no action runs on such a line.
#[derive(Debug, PartialEq, Eq)]
pub enum ParserError {
    UnexpectedCommand(String),
    TooFewArguments(String),
    InvalidArgument(String),
}

/// The mathematical shape of a parse error.
pub enum ParserErrorV {
    UnexpectedCommand(Seq<char>),
    TooFewArguments(Seq<char>),
    InvalidArgument(Seq<char>),
}

/// The view of a parse error.
pub open spec fn parser_error_view(e: ParserError) -> ParserErrorV {
    match e {
        ParserError::UnexpectedCommand(s) => ParserErrorV::UnexpectedCommand(s@),
        ParserError::TooFewArguments(s) => ParserErrorV::TooFewArguments(s@),
        ParserError::InvalidArgument(s) => ParserErrorV::InvalidArgument(s@),
    }
}

/// The tokens produced by scanning `s` with quote flag `raw` and an
/// accumulated partial token `cur`. A double quote toggles the flag and is
/// never emitted; a space outside a quoted literal ends the current token;
/// every other character is appended to it.
pub open spec fn chop(s: Seq<char>, raw: bool, cur: Seq<char>) -> Seq<Seq<char>>
    decreases s.len(),
{
    if s.len() == 0 {
        if cur.len() == 0 {
            Seq::empty()
        } else {
            seq![cur]
        }
    } else {
        let c = s[0];
        let rest = s.subrange(1, s.len() as int);
        if c == '"' {
            chop(rest, !raw, cur)
        } else if c == ' ' && !raw {
            if cur.len() == 0 {
                chop(rest, raw, cur)
            } else {
                seq![cur] + chop(rest, raw, Seq::empty())
            }
        } else {
            chop(rest, raw, cur.push(c))
        }
    }
}

/// The token sequence of a raw command line.
pub open spec fn tokens_of(s: Seq<char>) -> Seq<Seq<char>> {
    chop(s, false, Seq::empty())
}

/// No double-quote character occurs in `s`.
pub open spec fn no_quote(s: Seq<char>) -> bool {
    forall|i: int| 0 <= i < s.len() ==> s[i] != '"'
}

/// Every character of `s` is a space.
pub open spec fn all_spaces(s: Seq<char>) -> bool {
    forall|i: int| 0 <= i < s.len() ==> s[i] == ' '
}

/// `s` with leading and trailing spaces removed and every run of spaces
/// inside it replaced by a single space. `emitted` says whether a character
/// was already produced, `pending` whether a space separates it from the next
/// character.
pub open spec fn collapse_rec(s: Seq<char>, emitted: bool, pending: bool) -> Seq<char>
    decreases s.len(),
{
    if s.len() == 0 {
        Seq::empty()
    } else if s[0] == ' ' {
        collapse_rec(s.subrange(1, s.len() as int), emitted, emitted)
    } else {
        (if emitted && pending {
            seq![' ']
        } else {
            Seq::empty()
        }) + seq![s[0]] + collapse_rec(s.subrange(1, s.len() as int), true, false)
    }
}

/// A line with its whitespace collapsed: no leading or trailing spaces, and
/// single spaces inside.
pub open spec fn collapse_spaces(s: Seq<char>) -> Seq<char> {
    collapse_rec(s, false, false)
}

proof fn lemma_no_quote_rest(s: Seq<char>)
    requires
        no_quote(s),
        s.len() > 0,
    ensures
        no_quote(s.subrange(1, s.len() as int)),
{
    let rest = s.subrange(1, s.len() as int);
    assert forall|i: int| 0 <= i < rest.len() implies rest[i] != '"' by {
        assert(rest[i] == s[i + 1]);
    }
}

proof fn lemma_chop_nonempty_cur(s: Seq<char>, raw: bool, cur: Seq<char>)
    requires
        cur.len() > 0,
    ensures
        chop(s, raw, cur).len() >= 1,
    decreases s.len(),
{
    if s.len() > 0 {
        let c = s[0];
        let rest = s.subrange(1, s.len() as int);
        if c == '"' {
            lemma_chop_nonempty_cur(rest, !raw, cur);
        } else if c == ' ' && !raw {
        } else {
            lemma_chop_nonempty_cur(rest, raw, cur.push(c));
        }
    }
}

proof fn lemma_chop_empty(s: Seq<char>)
    requires
        no_quote(s),
    ensures
        (chop(s, false, Seq::empty()).len() == 0) <==> all_spaces(s),
    decreases s.len(),
{
    if s.len() > 0 {
        let rest = s.subrange(1, s.len() as int);
        lemma_no_quote_rest(s);
        if s[0] == ' ' {
            lemma_chop_empty(rest);
            assert(all_spaces(s) <==> all_spaces(rest)) by {
                assert forall|i: int| 0 <= i < rest.len() implies rest[i] == s[i + 1] by {}
                if all_spaces(rest) {
                    assert forall|i: int| 0 <= i < s.len() implies s[i] == ' ' by {
                        if i > 0 {
                            assert(s[i] == rest[i - 1]);
                        }
                    }
                }
            }
        } else {
            lemma_chop_nonempty_cur(rest, false, Seq::empty().push(s[0]));
            assert(!all_spaces(s));
        }
    }
}

proof fn lemma_collapse_empty(s: Seq<char>)
    ensures
        (collapse_rec(s, false, false).len() == 0) <==> all_spaces(s),
    decreases s.len(),
{
    if s.len() > 0 {
        let rest = s.subrange(1, s.len() as int);
        if s[0] == ' ' {
            lemma_collapse_empty(rest);
            if all_spaces(rest) {
                assert forall|i: int| 0 <= i < s.len() implies s[i] == ' ' by {
                    if i > 0 {
                        assert(s[i] == rest[i - 1]);
                    }
                }
            } else {
                assert(!all_spaces(s)) by {
                    let j = choose|i: int| 0 <= i < rest.len() && rest[i] != ' ';
                    assert(s[j + 1] == rest[j]);
                }
            }
        } else {
            assert(collapse_rec(s, false, false)[0] == s[0]);
            assert(!all_spaces(s));
        }
    }
}

proof fn lemma_collapse_pending(s: Seq<char>)
    ensures
        collapse_rec(s, true, true) == if collapse_rec(s, false, false).len() == 0 {
            Seq::<char>::empty()
        } else {
            seq![' '] + collapse_rec(s, false, false)
        },
    decreases s.len(),
{
    if s.len() == 0 {
    } else {
        let rest = s.subrange(1, s.len() as int);
        if s[0] == ' ' {
            lemma_collapse_pending(rest);
        } else {
            let tail = collapse_rec(rest, true, false);
            assert(collapse_rec(s, true, true) =~= seq![' '] + (Seq::empty() + seq![s[0]]
                + tail));
            assert(collapse_rec(s, false, false) =~= Seq::empty() + seq![s[0]] + tail);
            assert(collapse_rec(s, false, false).len() > 0);
        }
    }
}

proof fn lemma_join_cons(x: Seq<char>, ts: Seq<Seq<char>>, sep: Seq<char>)
    ensures
        join_with(seq![x] + ts, sep) == if ts.len() == 0 {
            x
        } else {
            x + sep + join_with(ts, sep)
        },
{
    let p = seq![x] + ts;
    assert(p[0] == x);
    assert(p.subrange(1, p.len() as int) =~= ts);
}

proof fn lemma_chop_join(s: Seq<char>, cur: Seq<char>)
    requires
        no_quote(s),
    ensures
        join_with(chop(s, false, cur), seq![' ']) == if cur.len() > 0 {
            cur + collapse_rec(s, true, false)
        } else {
            collapse_rec(s, false, false)
        },
    decreases s.len(),
{
    if s.len() == 0 {
        if cur.len() > 0 {
            assert(join_with(seq![cur], seq![' ']) == cur);
            assert(cur + Seq::<char>::empty() =~= cur);
        }
    } else {
        let c = s[0];
        let rest = s.subrange(1, s.len() as int);
        lemma_no_quote_rest(s);
        if c == ' ' {
            if cur.len() == 0 {
                lemma_chop_join(rest, cur);
            } else {
                lemma_chop_join(rest, Seq::empty());
                lemma_join_cons(cur, chop(rest, false, Seq::empty()), seq![' ']);
                lemma_collapse_pending(rest);
                lemma_chop_empty(rest);
                lemma_collapse_empty(rest);
                if chop(rest, false, Seq::empty()).len() == 0 {
                    assert(collapse_rec(rest, true, true).len() == 0);
                    assert(cur + collapse_rec(s, true, false) =~= cur);
                } else {
                    assert(join_with(chop(s, false, cur), seq![' ']) == cur + seq![' ']
                        + collapse_rec(rest, false, false));
                    assert(collapse_rec(s, true, false) == collapse_rec(rest, true, true));
                    assert(cur + (seq![' '] + collapse_rec(rest, false, false)) =~= cur + seq![' ']
                        + collapse_rec(rest, false, false));
                }
            }
        } else {
            lemma_chop_join(rest, cur.push(c));
            if cur.len() == 0 {
                assert(cur.push(c) + collapse_rec(rest, true, false) =~= Seq::empty() + seq![c]
                    + collapse_rec(rest, true, false));
            } else {
                assert(cur.push(c) + collapse_rec(rest, true, false) =~= cur + (Seq::empty()
                    + seq![c] + collapse_rec(rest, true, false)));
            }
        }
    }
}

/// Law: a line without quote characters, tokenized and joined back with
/// single spaces, gives the line itself with its whitespace collapsed.
pub proof fn lemma_tokenize_round_trip(line: Seq<char>)
    requires
        no_quote(line),
    ensures
        join_with(tokens_of(line), seq![' ']) == collapse_spaces(line),
{
    lemma_chop_join(line, Seq::empty());
}

/// Why a token was not accepted as an unsigned number.
#[derive(Debug, Clone, Copy, PartialEq, Eq)]
pub enum UintError {
    Empty,
    InvalidDigit,
    Overflow,
}

/// A decimal digit.
pub open spec fn is_digit(c: char) -> bool {
    48 <= c as u32 && c as u32 <= 57
}

/// The value of a decimal digit character.
pub open spec fn digit_val(c: char) -> nat {
    (c as u32 - 48) as nat
}

/// Scans decimal digits left to right onto the accumulator `acc`, failing on
/// the first character that is not a digit, or as soon as the value no longer
/// fits in a machine word.
pub open spec fn scan_digits(s: Seq<char>, acc: nat) -> Result<nat, UintError>
    decreases s.len(),
{
    if s.len() == 0 {
        Ok(acc)
    } else if !is_digit(s[0]) {
        Err(UintError::InvalidDigit)
    } else if acc * 10 + digit_val(s[0]) > usize::MAX as nat {
        Err(UintError::Overflow)
    } else {
        scan_digits(s.subrange(1, s.len() as int), acc * 10 + digit_val(s[0]))
    }
}

/// `s` with one leading plus sign removed, if it has one.
pub open spec fn strip_plus(s: Seq<char>) -> Seq<char> {
    if s.len() > 0 && s[0] == '+' {
        s.subrange(1, s.len() as int)
    } else {
        s
    }
}

/// What reading `s` as a non-negative machine integer gives: an optional
/// leading plus sign, then at least one decimal digit, value within bounds.
pub open spec fn parse_usize_spec(s: Seq<char>) -> Result<nat, UintError> {
    let d = strip_plus(s);
    if d.len() == 0 {
        Err(UintError::Empty)
    } else {
        scan_digits(d, 0)
    }
}

/// Reads a token as a non-negative integer, as the `move` command needs.
pub fn parse_usize(s: &str) -> (r: Result<usize, UintError>)
    ensures
        match r {
            Ok(v) => parse_usize_spec(s@) == Ok::<nat, UintError>(v as nat),
            Err(e) => parse_usize_spec(s@) == Err::<nat, UintError>(e),
        },
{
    let n = s.unicode_len();
    let mut start: usize = 0;
    if n > 0 && s.get_char(0) == '+' {
        start = 1;
    }
    proof {
        assert(strip_plus(s@) =~= s@.subrange(start as int, n as int));
    }
    if start == n {
        return Err(UintError::Empty);
    }
    let mut acc: usize = 0;
    let mut i: usize = start;
    while i < n
        invariant
            start <= i <= n,
            n == s@.len(),
            start < n,
            strip_plus(s@) =~= s@.subrange(start as int, n as int),
            scan_digits(strip_plus(s@), 0) == scan_digits(
                s@.subrange(i as int, n as int),
                acc as nat,
            ),
        decreases n - i,
    {
        let c = s.get_char(i);
        proof {
            let tail = s@.subrange(i as int, n as int);
            assert(tail[0] == s@[i as int]);
            assert(tail.subrange(1, tail.len() as int) =~= s@.subrange(i as int + 1, n as int));
        }
        let u = c as u32;
        if u < 48 || u > 57 {
            return Err(UintError::InvalidDigit);
        }
        let d = (u - 48) as usize;
        let next = match acc.checked_mul(10) {
            Some(p) => p.checked_add(d),
            None => None,
        };
        match next {
            Some(v) => {
                acc = v;
            },
            None => {
                proof {
                    assert((acc as nat) * 10 + digit_val(s@[i as int]) > usize::MAX as nat);
                }
                return Err(UintError::Overflow);
            },
        }
        i += 1;
    }
    proof {
        assert(s@.subrange(i as int, n as int).len() == 0);
    }
    Ok(acc)
}

/// The description carried by an `InvalidArgument` error for each way a
/// number can be rejected.
pub open spec fn uint_error_message_spec(e: UintError) -> Seq<char> {
    match e {
        UintError::Empty => "cannot parse integer from empty string"@,
        UintError::InvalidDigit => "invalid digit found in string"@,
        UintError::Overflow => "number too large to fit in target type"@,
    }
}

pub fn uint_error_message(e: UintError) -> (r: String)
    ensures
        r@ == uint_error_message_spec(e),
{
    match e {
        UintError::Empty => String::from_str("cannot parse integer from empty string"),
        UintError::InvalidDigit => String::from_str("invalid digit found in string"),
        UintError::Overflow => String::from_str("number too large to fit in target type"),
    }
}

/// Prepends one action to the actions of a parse result, passing an error
/// through.
pub open spec fn cons_action(a: ActionV, r: Result<Seq<ActionV>, ParserErrorV>) -> Result<
    Seq<ActionV>,
    ParserErrorV,
> {
    match r {
        Ok(v) => Ok(seq![a] + v),
        Err(e) => Err(e),
    }
}

/// Prepends already parsed actions to the result of parsing the remaining
/// tokens.
pub open spec fn prepend_actions(pre: Seq<ActionV>, r: Result<Seq<ActionV>, ParserErrorV>) -> Result<
    Seq<ActionV>,
    ParserErrorV,
> {
    match r {
        Ok(v) => Ok(pre + v),
        Err(e) => Err(e),
    }
}

/// The actions denoted by the tokens from position `i` on: each step reads
/// one keyword token and the arguments that keyword requires. `=` and `.`
/// take the whole rest of the line, joined by single spaces.
pub open spec fn parse_from(toks: Seq<Seq<char>>, i: int) -> Result<Seq<ActionV>, ParserErrorV>
    decreases toks.len() - i,
{
    if i < 0 || i >= toks.len() {
        Ok(Seq::empty())
    } else {
        let t = toks[i];
        if t == "x"@ || t == "exit"@ {
            cons_action(ActionV::Exit, parse_from(toks, i + 1))
        } else if t == "h"@ || t == "help"@ {
            cons_action(ActionV::Help, parse_from(toks, i + 1))
        } else if t == "l"@ || t == "load"@ {
            if i + 1 >= toks.len() {
                Err(ParserErrorV::TooFewArguments(t))
            } else {
                cons_action(ActionV::Load(toks[i + 1]), parse_from(toks, i + 2))
            }
        } else if t == "s"@ || t == "save"@ {
            if i + 1 < toks.len() {
                cons_action(ActionV::Save(toks[i + 1]), parse_from(toks, i + 2))
            } else {
                cons_action(ActionV::SaveCurrentFile, parse_from(toks, i + 1))
            }
        } else if t == "="@ {
            cons_action(
                ActionV::ReplaceCurrentLine(
                    join_with(toks.subrange(i + 1, toks.len() as int), seq![' ']),
                ),
                Ok(Seq::empty()),
            )
        } else if t == "@!"@ || t == "show"@ {
            cons_action(ActionV::Show, parse_from(toks, i + 1))
        } else if t == "@"@ || t == "showline"@ {
            cons_action(ActionV::ShowCurrentLine, parse_from(toks, i + 1))
        } else if t == "v="@ {
            cons_action(ActionV::InsertLineBelow, parse_from(toks, i + 1))
        } else if t == "^="@ {
            cons_action(ActionV::InsertLineAbove, parse_from(toks, i + 1))
        } else if t == "lb"@ {
            cons_action(ActionV::MoveToBeginning, parse_from(toks, i + 1))
        } else if t == "le"@ {
            cons_action(ActionV::MoveToEnd, parse_from(toks, i + 1))
        } else if t == "."@ {
            cons_action(
                ActionV::Insert(join_with(toks.subrange(i + 1, toks.len() as int), seq![' '])),
                Ok(Seq::empty()),
            )
        } else if t == "m"@ || t == "move"@ {
            if i + 2 >= toks.len() {
                Err(ParserErrorV::TooFewArguments(t))
            } else {
                match parse_usize_spec(toks[i + 1]) {
                    Err(k) => Err(ParserErrorV::InvalidArgument(uint_error_message_spec(k))),
                    Ok(line) => match parse_usize_spec(toks[i + 2]) {
                        Err(k) => Err(
                            ParserErrorV::InvalidArgument(uint_error_message_spec(k)),
                        ),
                        Ok(column) => cons_action(
                            ActionV::MoveTo { line, column },
                            parse_from(toks, i + 3),
                        ),
                    },
                }
            }
        } else if t == "u"@ {
            cons_action(ActionV::MoveLeft, parse_from(toks, i + 1))
        } else if t == "i"@ {
            cons_action(ActionV::MoveRight, parse_from(toks, i + 1))
        } else if t == "o"@ {
            cons_action(ActionV::MoveUp, parse_from(toks, i + 1))
        } else if t == "p"@ {
            cons_action(ActionV::MoveDown, parse_from(toks, i + 1))
        } else {
            Err(ParserErrorV::UnexpectedCommand(t))
        }
    }
}

/// The actions denoted by a whole command line, or the first error found.
pub open spec fn parse_spec(line: Seq<char>) -> Result<Seq<ActionV>, ParserErrorV> {
    parse_from(tokens_of(line), 0)
}

impl Parser {
    /// Splits a raw command line into tokens. A double quote toggles the
    /// quoted-literal flag and is never emitted; a space outside a quoted
    /// literal ends the current token; a run of spaces yields no empty token.
    pub fn chop_string(string: &str) -> (r: Vec<String>)
        ensures
            str_views(r@) == tokens_of(string@),
            forall|k: int| 0 <= k < str_views(r@).len() ==> str_views(r@)[k].len() > 0,
    {
        let n = string.unicode_len();
        let mut result: Vec<String> = Vec::new();
        let mut current: Vec<char> = Vec::new();
        let mut collecting_raw = false;
        let mut idx: usize = 0;
        proof {
            assert(string@.subrange(0, n as int) =~= string@);
            assert(str_views(result@) =~= Seq::<Seq<char>>::empty());
            assert(Seq::<Seq<char>>::empty() + chop(string@, false, Seq::empty()) =~= chop(
                string@,
                false,
                Seq::empty(),
            ));
        }
        while idx < n
            invariant
                idx <= n,
                n == string@.len(),
                tokens_of(string@) == str_views(result@) + chop(
                    string@.subrange(idx as int, n as int),
                    collecting_raw,
                    current@,
                ),
                forall|k: int| 0 <= k < str_views(result@).len() ==> str_views(result@)[k].len()
                    > 0,
            decreases n - idx,
        {
            let c = string.get_char(idx);
            proof {
                let tail = string@.subrange(idx as int, n as int);
                assert(tail[0] == string@[idx as int]);
                assert(tail.subrange(1, tail.len() as int) =~= string@.subrange(
                    idx as int + 1,
                    n as int,
                ));
            }
            if !collecting_raw && c == ' ' {
                if current.len() > 0 {
                    let ghost pre = result@;
                    let ghost curv = current@;
                    let tok = chars_to_string(&current);
                    result.push(tok);
                    current.clear();
                    proof {
                        assert(str_views(result@) =~= str_views(pre).push(curv));
                        assert(str_views(pre) + (seq![curv] + chop(
                            string@.subrange(idx as int + 1, n as int),
                            collecting_raw,
                            Seq::empty(),
                        )) =~= str_views(pre).push(curv) + chop(
                            string@.subrange(idx as int + 1, n as int),
                            collecting_raw,
                            Seq::empty(),
                        ));
                    }
                }
            } else if c == '"' {
                collecting_raw = !collecting_raw;
            } else {
                current.push(c);
            }
            idx += 1;
        }
        proof {
            assert(string@.subrange(idx as int, n as int).len() == 0);
        }
        if current.len() > 0 {
            let ghost pre = result@;
            let ghost curv = current@;
            let tok = chars_to_string(&current);
            result.push(tok);
            proof {
                assert(str_views(result@) =~= str_views(pre).push(curv));
                assert(str_views(pre) + seq![curv] =~= str_views(pre).push(curv));
            }
        }
        proof {
            assert(tokens_of(string@) =~= str_views(result@));
        }
        result
    }

    /// Joins the tokens from position `start` on with single spaces; the
    /// rest-of-line argument of the `=` and `.` commands.
    pub fn collect_until_end(tokens: &Vec<String>, start: usize) -> (r: String)
        requires
            start <= tokens@.len(),
        ensures
            r@ == join_with(
                str_views(tokens@).subrange(start as int, tokens@.len() as int),
                seq![' '],
            ),
    {
        let mut r = String::new();
        let mut i: usize = start;
        proof {
            assert(str_views(tokens@).subrange(start as int, start as int) =~= Seq::<
                Seq<char>,
            >::empty());
        }
        while i < tokens.len()
            invariant
                start <= i <= tokens@.len(),
                r@ == join_with(str_views(tokens@).subrange(start as int, i as int), seq![' ']),
                i == start ==> r@.len() == 0,
            decreases tokens@.len() - i,
        {
            let ghost vs = str_views(tokens@);
            let ghost before = vs.subrange(start as int, i as int);
            if i > start {
                r.append(" ");
                proof {
                    reveal_strlit(" ");
                    assert(" "@ =~= seq![' ']);
                }
            }
            r.append(tokens[i].as_str());
            proof {
                assert(vs.subrange(start as int, i as int + 1) =~= before.push(vs[i as int]));
                lemma_join_with_push(before, seq![' '], vs[i as int]);
                if i == start {
                    assert(before.len() == 0);
                    assert(r@ =~= vs[i as int]);
                }
            }
            i += 1;
        }
        r
    }

    /// Parses a raw command line into the list of actions it denotes, or the
    /// first error found; on an error no actions are returned at all.
    pub fn parse(command: &str) -> (r: Result<Vec<Action>, ParserError>)
        ensures
            (match r {
                Ok(v) => parse_spec(command@) == Ok::<Seq<ActionV>, ParserErrorV>(
                    actions_view(v@),
                ),
                Err(e) => parse_spec(command@) == Err::<Seq<ActionV>, ParserErrorV>(
                    parser_error_view(e),
                ),
            }),
    {
        let mut actions: Vec<Action> = Vec::new();
        let tokens = Self::chop_string(command);
        let ghost toks = str_views(tokens@);
        let mut i: usize = 0;
        proof {
            match parse_from(toks, 0) {
                Ok(v) => {
                    assert(Seq::<ActionV>::empty() + v =~= v);
                },
                Err(_) => {},
            }
            assert(actions_view(actions@) =~= Seq::<ActionV>::empty());
        }
        while i < tokens.len()
            invariant
                i <= tokens@.len(),
                toks == str_views(tokens@),
                toks == tokens_of(command@),
                parse_from(toks, 0) == prepend_actions(
                    actions_view(actions@),
                    parse_from(toks, i as int),
                ),
            decreases tokens@.len() - i,
        {
            let ghost prevv = actions@;
            let ghost pre = actions_view(actions@);
            let t = &tokens[i];
            if Self::str_is(t, "x") || Self::str_is(t, "exit") {
                actions.push(Action::Exit);
                proof {
                    lemma_actions_view_push(prevv, Action::Exit);
                    lemma_prepend_step(pre, ActionV::Exit, parse_from(toks, i as int + 1));
                }
                i += 1;
            } else if Self::str_is(t, "h") || Self::str_is(t, "help") {
                actions.push(Action::Help);
                proof {
                    lemma_actions_view_push(prevv, Action::Help);
                    lemma_prepend_step(pre, ActionV::Help, parse_from(toks, i as int + 1));
                }
                i += 1;
            } else if Self::str_is(t, "l") || Self::str_is(t, "load") {
                if i + 1 >= tokens.len() {
                    return Err(ParserError::TooFewArguments(t.clone()));
                }
                let name = tokens[i + 1].clone();
                actions.push(Action::Load(name));
                proof {
                    lemma_actions_view_push(
                        prevv,
                        Action::Load(tokens@[i as int + 1]),
                    );
                    lemma_prepend_step(
                        pre,
                        ActionV::Load(toks[i as int + 1]),
                        parse_from(toks, i as int + 2),
                    );
                }
                i += 2;
            } else if Self::str_is(t, "s") || Self::str_is(t, "save") {
                if i + 1 < tokens.len() {
                    let name = tokens[i + 1].clone();
                    actions.push(Action::Save(name));
                    proof {
                        lemma_actions_view_push(
                            prevv,
                            Action::Save(tokens@[i as int + 1]),
                        );
                        lemma_prepend_step(
                            pre,
                            ActionV::Save(toks[i as int + 1]),
                            parse_from(toks, i as int + 2),
                        );
                    }
                    i += 2;
                } else {
                    actions.push(Action::SaveCurrentFile);
                    proof {
                        lemma_actions_view_push(prevv, Action::SaveCurrentFile);
                        lemma_prepend_step(
                            pre,
                            ActionV::SaveCurrentFile,
                            parse_from(toks, i as int + 1),
                        );
                    }
                    i += 1;
                }
            } else if Self::str_is(t, "=") {
                let data = Self::collect_until_end(&tokens, i + 1);
                actions.push(Action::ReplaceCurrentLine(data));
                proof {
                    let arg = join_with(toks.subrange(i as int + 1, toks.len() as int), seq![' ']);
                    lemma_actions_view_push(prevv, Action::ReplaceCurrentLine(data));
                    lemma_prepend_step(
                        pre,
                        ActionV::ReplaceCurrentLine(arg),
                        Ok(Seq::empty()),
                    );
                    assert(parse_from(toks, toks.len() as int) == Ok::<
                        Seq<ActionV>,
                        ParserErrorV,
                    >(Seq::empty()));
                }
                i = tokens.len();
            } else if Self::str_is(t, "@!") || Self::str_is(t, "show") {
                actions.push(Action::Show);
                proof {
                    lemma_actions_view_push(prevv, Action::Show);
                    lemma_prepend_step(pre, ActionV::Show, parse_from(toks, i as int + 1));
                }
                i += 1;
            } else if Self::str_is(t, "@") || Self::str_is(t, "showline") {
                actions.push(Action::ShowCurrentLine);
                proof {
                    lemma_actions_view_push(prevv, Action::ShowCurrentLine);
                    lemma_prepend_step(
                        pre,
                        ActionV::ShowCurrentLine,
                        parse_from(toks, i as int + 1),
                    );
                }
                i += 1;
            } else if Self::str_is(t, "v=") {
                actions.push(Action::InsertLineBelow);
                proof {
                    lemma_actions_view_push(prevv, Action::InsertLineBelow);
                    lemma_prepend_step(
                        pre,
                        ActionV::InsertLineBelow,
                        parse_from(toks, i as int + 1),
                    );
                }
                i += 1;
            } else if Self::str_is(t, "^=") {
                actions.push(Action::InsertLineAbove);
                proof {
                    lemma_actions_view_push(prevv, Action::InsertLineAbove);
                    lemma_prepend_step(
                        pre,
                        ActionV::InsertLineAbove,
                        parse_from(toks, i as int + 1),
                    );
                }
                i += 1;
            } else if Self::str_is(t, "lb") {
                actions.push(Action::MoveToBeginning);
                proof {
                    lemma_actions_view_push(prevv, Action::MoveToBeginning);
                    lemma_prepend_step(
                        pre,
                        ActionV::MoveToBeginning,
                        parse_from(toks, i as int + 1),
                    );
                }
                i += 1;
            } else if Self::str_is(t, "le") {
                actions.push(Action::MoveToEnd);
                proof {
                    lemma_actions_view_push(prevv, Action::MoveToEnd);
                    lemma_prepend_step(pre, ActionV::MoveToEnd, parse_from(toks, i as int + 1));
                }
                i += 1;
            } else if Self::str_is(t, ".") {
                let data = Self::collect_until_end(&tokens, i + 1);
                actions.push(Action::Insert(data));
                proof {
                    let arg = join_with(toks.subrange(i as int + 1, toks.len() as int), seq![' ']);
                    lemma_actions_view_push(prevv, Action::Insert(data));
                    lemma_prepend_step(pre, ActionV::Insert(arg), Ok(Seq::empty()));
                    assert(parse_from(toks, toks.len() as int) == Ok::<
                        Seq<ActionV>,
                        ParserErrorV,
                    >(Seq::empty()));
                }
                i = tokens.len();
            } else if Self::str_is(t, "m") || Self::str_is(t, "move") {
                if tokens.len() - i < 3 {
                    return Err(ParserError::TooFewArguments(t.clone()));
                }
                let line = match parse_usize(tokens[i + 1].as_str()) {
                    Ok(v) => v,
                    Err(e) => {
                        return Err(ParserError::InvalidArgument(uint_error_message(e)));
                    },
                };
                let column = match parse_usize(tokens[i + 2].as_str()) {
                    Ok(v) => v,
                    Err(e) => {
                        return Err(ParserError::InvalidArgument(uint_error_message(e)));
                    },
                };
                actions.push(Action::MoveTo { line, column });
                proof {
                    lemma_actions_view_push(prevv, Action::MoveTo { line, column });
                    lemma_prepend_step(
                        pre,
                        ActionV::MoveTo { line: line as nat, column: column as nat },
                        parse_from(toks, i as int + 3),
                    );
                }
                i += 3;
            } else if Self::str_is(t, "u") {
                actions.push(Action::MoveLeft);
                proof {
                    lemma_actions_view_push(prevv, Action::MoveLeft);
                    lemma_prepend_step(pre, ActionV::MoveLeft, parse_from(toks, i as int + 1));
                }
                i += 1;
            } else if Self::str_is(t, "i") {
                actions.push(Action::MoveRight);
                proof {
                    lemma_actions_view_push(prevv, Action::MoveRight);
                    lemma_prepend_step(pre, ActionV::MoveRight, parse_from(toks, i as int + 1));
                }
                i += 1;
            } else if Self::str_is(t, "o") {
                actions.push(Action::MoveUp);
                proof {
                    lemma_actions_view_push(prevv, Action::MoveUp);
                    lemma_prepend_step(pre, ActionV::MoveUp, parse_from(toks, i as int + 1));
                }
                i += 1;
            } else if Self::str_is(t, "p") {
                actions.push(Action::MoveDown);
                proof {
                    lemma_actions_view_push(prevv, Action::MoveDown);
                    lemma_prepend_step(pre, ActionV::MoveDown, parse_from(toks, i as int + 1));
                }
                i += 1;
            } else {
                return Err(ParserError::UnexpectedCommand(t.clone()));
            }
        }
        proof {
            assert(parse_from(toks, i as int) == Ok::<Seq<ActionV>, ParserErrorV>(Seq::empty()));
            assert(actions_view(actions@) + Seq::<ActionV>::empty() =~= actions_view(actions@));
        }
        Ok(actions)
    }

    fn str_is(t: &String, lit: &str) -> (r: bool)
        ensures
            r == (t@ == lit@),
    {
        crate::strutil::str_eq(t.as_str(), lit)
    }
}

proof fn lemma_actions_view_push(v: Seq<Action>, a: Action)
    ensures
        actions_view(v.push(a)) == actions_view(v).push(action_view(a)),
{
    assert(actions_view(v.push(a)) =~= actions_view(v).push(action_view(a)));
}

proof fn lemma_prepend_step(pre: Seq<ActionV>, a: ActionV, r: Result<Seq<ActionV>, ParserErrorV>)
    ensures
        prepend_actions(pre, cons_action(a, r)) == prepend_actions(pre.push(a), r),
{
    match r {
        Ok(v) => {
            assert(pre + (seq![a] + v) =~= pre.push(a) + v);
        },
        Err(_) => {},
    }
}

} // verus!
