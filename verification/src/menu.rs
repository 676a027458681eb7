//! The interactive menu's input handling: reading a selection and deciding
//! what it asks for.

use vstd::prelude::*;
use crate::status::{is_running, ServiceRow};
use crate::text::{nat_text, u64_text, same_text, split_words, texts_view, trim, trim_str, words};

verus! {

/// Whether `c` is an ASCII decimal digit.
pub open spec fn is_digit(c: char) -> bool {
    '0' <= c && c <= '9'
}

/// The value of a decimal digit.
pub open spec fn digit_value(c: char) -> int {
    c as int - '0' as int
}

/// Whether every character of `s` is a decimal digit.
pub open spec fn all_digits(s: Seq<char>) -> bool {
    forall|i: int| 0 <= i < s.len() ==> is_digit(s[i])
}

/// The number a run of decimal digits denotes.
pub open spec fn digits_value(s: Seq<char>) -> int
    decreases s.len(),
{
    if s.len() == 0 {
        0
    } else {
        digits_value(s.drop_last()) * 10 + digit_value(s.last())
    }
}

/// The digits of an unsigned number's text: a leading '+' is dropped.
pub open spec fn unsigned_digits(s: Seq<char>) -> Seq<char> {
    if s.len() > 0 && s[0] == '+' {
        s.drop_first()
    } else {
        s
    }
}

/// What `usize::from_str` gives for `s`: an optional '+' then one or more
/// decimal digits, whose value fits in a `usize`.
pub open spec fn usize_value(s: Seq<char>) -> Option<usize> {
    let d = unsigned_digits(s);
    if d.len() > 0 && all_digits(d) && digits_value(d) <= usize::MAX {
        Some(digits_value(d) as usize)
    } else {
        None
    }
}

proof fn lemma_digits_value_grows(s: Seq<char>, j: int)
    requires
        all_digits(s),
        0 <= j <= s.len(),
    ensures
        0 <= digits_value(s.take(j)) <= digits_value(s),
    decreases s.len(),
{
    if s.len() > 0 {
        assert(all_digits(s.drop_last()));
        if j < s.len() {
            lemma_digits_value_grows(s.drop_last(), j);
            assert(s.drop_last().take(j) =~= s.take(j));
        } else {
            lemma_digits_value_grows(s.drop_last(), j - 1);
            assert(s.take(j) =~= s);
        }
    } else {
        assert(s.take(j) =~= s);
    }
}

/// Reads an unsigned decimal number as `usize::from_str` does.
pub fn parse_usize(s: &str) -> (r: Option<usize>)
    ensures
        r == usize_value(s@),
{
    let n = s.unicode_len();
    let mut start: usize = 0;
    if n > 0 && s.get_char(0) == '+' {
        start = 1;
    }
    let ghost d = unsigned_digits(s@);
    assert(d =~= s@.skip(start as int));
    if start == n {
        return None;
    }
    let mut acc: usize = 0;
    let mut k = start;
    assert(d.take(0) =~= Seq::<char>::empty());
    while k < n
        invariant
            n == s@.len(),
            start <= k <= n,
            d == s@.skip(start as int),
            d == unsigned_digits(s@),
            start < n,
            all_digits(d.take(k - start)),
            acc == digits_value(d.take(k - start)),
        decreases n - k,
    {
        let c = s.get_char(k);
        let ghost j: int = k - start;
        assert(d[j] == c);
        if !('0' <= c && c <= '9') {
            assert(!is_digit(d[j]));
            return None;
        }
        let dv = (c as u32 - '0' as u32) as usize;
        assert(d.take(j + 1).drop_last() =~= d.take(j));
        assert(d.take(j + 1).last() == c);
        assert(dv == digit_value(c));
        assert(digits_value(d.take(j + 1)) == acc * 10 + dv);
        assert(all_digits(d.take(j + 1)));
        match acc.checked_mul(10) {
            Some(m) => match m.checked_add(dv) {
                Some(v) => {
                    acc = v;
                },
                None => {
                    proof {
                        if all_digits(d) {
                            lemma_digits_value_grows(d, j + 1);
                        }
                    }
                    return None;
                },
            },
            None => {
                proof {
                    if all_digits(d) {
                        lemma_digits_value_grows(d, j + 1);
                    }
                }
                return None;
            },
        }
        k = k + 1;
    }
    assert(d.take(n - start) =~= d);
    Some(acc)
}

/// Why a menu selection could not be read.
#[derive(Debug, Clone, Copy, PartialEq, Eq, Structural)]
pub enum SelectionError {
    /// Nothing was entered.
    Empty,
    /// Neither the first nor the second word is a number.
    Usage,
}

impl SelectionError {
    /// The message shown for this error.
    pub fn message(&self) -> (r: String)
        ensures
            r@ == selection_error_text(*self),
    {
        match self {
            SelectionError::Empty => {
                let r = String::from_str("empty selection");
                proof {
                    reveal_strlit("empty selection");
                }
                r
            },
            SelectionError::Usage => {
                let r = String::from_str("use: <number> [action] or <action> <number>");
                proof {
                    reveal_strlit("use: <number> [action] or <action> <number>");
                }
                r
            },
        }
    }
}

/// The message of each selection error.
pub open spec fn selection_error_text(e: SelectionError) -> Seq<char> {
    match e {
        SelectionError::Empty => "empty selection"@,
        SelectionError::Usage => "use: <number> [action] or <action> <number>"@,
    }
}

/// Reads a menu selection: a number optionally followed by an action, or an
/// action followed by a number.
pub fn parse_menu_selection<'a>(parts: &[&'a str]) -> (r: Result<(usize, Option<&'a str>), SelectionError>)
    ensures
        selection_view(r) == selection_of(texts_view(parts@)),
        parts@.len() == 0 ==> r == Err::<(usize, Option<&'a str>), SelectionError>(SelectionError::Empty),
        parts@.len() > 0 && usize_value(parts@[0]@) is Some ==> r == Ok::<(usize, Option<&'a str>), SelectionError>((
            usize_value(parts@[0]@).unwrap(),
            if parts@.len() > 1 {
                Some(parts@[1])
            } else {
                None
            },
        )),
        parts@.len() > 0 && usize_value(parts@[0]@) is None && parts@.len() > 1 && usize_value(
            parts@[1]@,
        ) is Some ==> r == Ok::<(usize, Option<&'a str>), SelectionError>((usize_value(parts@[1]@).unwrap(), Some(parts@[0]))),
        parts@.len() > 0 && usize_value(parts@[0]@) is None && (parts@.len() < 2 || usize_value(
            parts@[1]@,
        ) is None) ==> r == Err::<(usize, Option<&'a str>), SelectionError>(SelectionError::Usage),
{
    if parts.len() == 0 {
        return Err(SelectionError::Empty);
    }
    if let Some(index) = parse_usize(parts[0]) {
        let action = if parts.len() > 1 {
            Some(parts[1])
        } else {
            None
        };
        return Ok((index, action));
    }
    if parts.len() < 2 {
        return Err(SelectionError::Usage);
    }
    match parse_usize(parts[1]) {
        Some(index) => Ok((index, Some(parts[0]))),
        None => Err(SelectionError::Usage),
    }
}

/// The outcome of reading a selection, by views.
pub open spec fn selection_of(parts: Seq<Seq<char>>) -> Result<(usize, Option<Seq<char>>), SelectionError> {
    if parts.len() == 0 {
        Err(SelectionError::Empty)
    } else if usize_value(parts[0]) is Some {
        Ok((usize_value(parts[0]).unwrap(), if parts.len() > 1 { Some(parts[1]) } else { None }))
    } else if parts.len() > 1 && usize_value(parts[1]) is Some {
        Ok((usize_value(parts[1]).unwrap(), Some(parts[0])))
    } else {
        Err(SelectionError::Usage)
    }
}

/// The view of what `parse_menu_selection` returns.
pub open spec fn selection_view<'a>(r: Result<(usize, Option<&'a str>), SelectionError>) -> Result<(usize, Option<Seq<char>>), SelectionError> {
    match r {
        Ok((n, Some(a))) => Ok((n, Some(a@))),
        Ok((n, None)) => Ok((n, None)),
        Err(e) => Err(e),
    }
}

/// What a line typed at the menu asks for.
#[derive(Debug)]
pub enum MenuCommand {
    /// Nothing was typed: show the menu again.
    Redraw,
    /// Leave the menu.
    Quit,
    /// The number names no row ("Invalid selection: N").
    Invalid(usize),
    /// Start the unit.
    Start(String),
    /// Stop the unit.
    Stop(String),
    /// Restart the unit.
    Restart(String),
    /// Show the unit's recent logs.
    Logs(String),
    /// The action word is not known ("Unknown action: W").
    Unknown(String),
}

/// A menu command by views.
pub enum MenuChoice {
    Redraw,
    Quit,
    Invalid(usize),
    Start(Seq<char>),
    Stop(Seq<char>),
    Restart(Seq<char>),
    Logs(Seq<char>),
    Unknown(Seq<char>),
}

impl View for MenuCommand {
    type V = MenuChoice;

    open spec fn view(&self) -> MenuChoice {
        match self {
            MenuCommand::Redraw => MenuChoice::Redraw,
            MenuCommand::Quit => MenuChoice::Quit,
            MenuCommand::Invalid(n) => MenuChoice::Invalid(*n),
            MenuCommand::Start(u) => MenuChoice::Start(u@),
            MenuCommand::Stop(u) => MenuChoice::Stop(u@),
            MenuCommand::Restart(u) => MenuChoice::Restart(u@),
            MenuCommand::Logs(u) => MenuChoice::Logs(u@),
            MenuCommand::Unknown(w) => MenuChoice::Unknown(w@),
        }
    }
}

/// Whether a trimmed line asks to leave the menu.
pub open spec fn is_quit_word(t: Seq<char>) -> bool {
    t == "q"@ || t == "quit"@ || t == "exit"@
}

/// What an action word asks of a unit.
pub open spec fn action_choice(word: Seq<char>, unit: Seq<char>) -> MenuChoice {
    if word == "s"@ || word == "start"@ {
        MenuChoice::Start(unit)
    } else if word == "p"@ || word == "stop"@ {
        MenuChoice::Stop(unit)
    } else if word == "r"@ || word == "restart"@ {
        MenuChoice::Restart(unit)
    } else if word == "l"@ || word == "logs"@ {
        MenuChoice::Logs(unit)
    } else {
        MenuChoice::Unknown(word)
    }
}

/// The row a selection number picks: number N picks row N, and 0 picks row 1.
pub open spec fn row_position(index: usize) -> int {
    if index == 0 {
        0
    } else {
        index - 1
    }
}

/// What a line typed at the menu asks for, given the rows shown: the line is
/// trimmed; an empty line redraws; "q", "quit" and "exit" leave; otherwise the
/// words are read as a selection, and an action that is not given toggles the
/// unit (stop a running unit, start any other).
pub open spec fn menu_choice(input: Seq<char>, rows: Seq<ServiceRow>) -> Result<MenuChoice, SelectionError> {
    let t = trim(input);
    if t.len() == 0 {
        Ok(MenuChoice::Redraw)
    } else if is_quit_word(t) {
        Ok(MenuChoice::Quit)
    } else {
        match selection_of(words(t)) {
            Err(e) => Err(e),
            Ok((index, action)) => {
                let pos = row_position(index);
                if pos >= rows.len() {
                    Ok(MenuChoice::Invalid(index))
                } else {
                    let row = rows[pos];
                    let word = match action {
                        Some(a) => a,
                        None => if is_running(row) {
                            "p"@
                        } else {
                            "s"@
                        },
                    };
                    Ok(action_choice(word, row.unit@))
                }
            },
        }
    }
}

/// The view of a menu command result.
pub open spec fn menu_view(r: Result<MenuCommand, SelectionError>) -> Result<MenuChoice, SelectionError> {
    match r {
        Ok(c) => Ok(c@),
        Err(e) => Err(e),
    }
}

fn one_of(t: &str, a: &str, b: &str) -> (r: bool)
    ensures
        r == (t@ == a@ || t@ == b@),
{
    same_text(t, a) || same_text(t, b)
}

fn action_command(word: &str, unit: &str) -> (r: MenuCommand)
    ensures
        r@ == action_choice(word@, unit@),
{
    proof {
        reveal_strlit("s");
        reveal_strlit("start");
        reveal_strlit("p");
        reveal_strlit("stop");
        reveal_strlit("r");
        reveal_strlit("restart");
        reveal_strlit("l");
        reveal_strlit("logs");
    }
    if one_of(word, "s", "start") {
        MenuCommand::Start(String::from_str(unit))
    } else if one_of(word, "p", "stop") {
        MenuCommand::Stop(String::from_str(unit))
    } else if one_of(word, "r", "restart") {
        MenuCommand::Restart(String::from_str(unit))
    } else if one_of(word, "l", "logs") {
        MenuCommand::Logs(String::from_str(unit))
    } else {
        MenuCommand::Unknown(String::from_str(word))
    }
}

/// Decides what a line typed at the menu asks for.
pub fn menu_command(input: &str, rows: &[ServiceRow]) -> (r: Result<MenuCommand, SelectionError>)
    ensures
        menu_view(r) == menu_choice(input@, rows@),
{
    let t = trim_str(input);
    if t.unicode_len() == 0 {
        return Ok(MenuCommand::Redraw);
    }
    proof {
        reveal_strlit("q");
        reveal_strlit("quit");
        reveal_strlit("exit");
    }
    if same_text(t, "q") || same_text(t, "quit") || same_text(t, "exit") {
        return Ok(MenuCommand::Quit);
    }
    let parts = split_words(t);
    let sel = parse_menu_selection(parts.as_slice());
    proof {
        assert(selection_view(sel) == selection_of(texts_view(parts@)));
    }
    match sel {
        Err(e) => Err(e),
        Ok((index, action)) => {
            let pos = if index == 0 {
                0
            } else {
                index - 1
            };
            if pos >= rows.len() {
                return Ok(MenuCommand::Invalid(index));
            }
            let row = &rows[pos];
            proof {
                reveal_strlit("p");
                reveal_strlit("s");
            }
            let word = match action {
                Some(a) => a,
                None => if row.running() {
                    "p"
                } else {
                    "s"
                },
            };
            Ok(action_command(word, row.unit.as_str()))
        },
    }
}

/// Whether an answer to the confirmation prompt agrees: after trimming, one
/// of "y", "Y", "yes" or "YES".
pub open spec fn is_yes(answer: Seq<char>) -> bool {
    let t = trim(answer);
    t == "y"@ || t == "Y"@ || t == "yes"@ || t == "YES"@
}

/// Reads an answer to the confirmation prompt.
pub fn confirmed(answer: &str) -> (r: bool)
    ensures
        r == is_yes(answer@),
{
    let t = trim_str(answer);
    one_of(t, "y", "Y") || one_of(t, "yes", "YES")
}

/// What the menu says when a number names no row.
pub fn invalid_selection_line(index: usize) -> (r: String)
    ensures
        r@ == "Invalid selection: "@ + nat_text(index as nat),
{
    let mut out = String::from_str("Invalid selection: ");
    let digits = u64_text(index as u64);
    out.append(digits.as_str());
    out
}

/// What the menu says of an action word it does not know.
pub fn unknown_action_line(word: &str) -> (r: String)
    ensures
        r@ == "Unknown action: "@ + word@,
{
    let mut out = String::from_str("Unknown action: ");
    out.append(word);
    out
}

/// The heading above a unit's recent logs.
pub fn logs_heading(unit: &str) -> (r: String)
    ensures
        r@ == "Recent logs for "@ + unit@,
{
    let mut out = String::from_str("Recent logs for ");
    out.append(unit);
    out
}

} // verus!
