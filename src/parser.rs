//! The parser: text to commands, one command per non-blank line.
use vstd::prelude::*;
use crate::command::{Command, CommandModel, command_models, command_result_view};
use crate::text::{
    chars_of, is_word, line_words, lines, split_lines, string_models, words, char_vec_models,
};
use crate::value::{EngineError, ErrorModel, Value, ValueModel, result_view};

verus! {

/// The largest magnitude that an `i64` literal may have (that of `i64::MIN`).
pub const MAX_MAGNITUDE: u128 = 9223372036854775808;

/// Whether `c` is an ASCII decimal digit.
pub open spec fn is_digit(c: char) -> bool {
    48 <= (c as u32) <= 57
}

/// The value of one decimal digit.
pub open spec fn digit_value(c: char) -> nat {
    ((c as u32) - 48) as nat
}

/// The number that a string of decimal digits denotes.
pub open spec fn digits_value(d: Seq<char>) -> nat
    decreases d.len(),
{
    if d.len() == 0 {
        0
    } else {
        digits_value(d.drop_last()) * 10 + digit_value(d.last())
    }
}

/// A token without its leading sign, if it has one.
pub open spec fn unsigned_part(t: Seq<char>) -> Seq<char> {
    if t.len() > 0 && (t[0] == '+' || t[0] == '-') {
        t.skip(1)
    } else {
        t
    }
}

/// The `i64` that a token denotes as a decimal literal with an optional sign,
/// or `None` when it is malformed or out of range.
pub open spec fn int_literal(t: Seq<char>) -> Option<i64> {
    let d = unsigned_part(t);
    if d.len() > 0 && (forall|i: int| 0 <= i < d.len() ==> is_digit(#[trigger] d[i])) {
        let m = digits_value(d) as int;
        let v = if t[0] == '-' {
            -m
        } else {
            m
        };
        if i64::MIN <= v <= i64::MAX {
            Some(v as i64)
        } else {
            None
        }
    } else {
        None
    }
}

/// Whether a token is a string literal: longer than one character, starting
/// and ending with a double quote.
pub open spec fn is_string_literal(t: Seq<char>) -> bool {
    t.len() > 1 && t[0] == '"' && t[t.len() - 1] == '"'
}

/// The value of a literal token: a string literal without its quotes, else an
/// integer literal, else a type mismatch.
pub open spec fn value_literal(t: Seq<char>) -> Result<ValueModel, ErrorModel> {
    if is_string_literal(t) {
        Ok(ValueModel::Str(t.subrange(1, t.len() - 1)))
    } else {
        match int_literal(t) {
            Some(n) => Ok(ValueModel::Int(n)),
            None => Err(ErrorModel::TypeMismatch),
        }
    }
}

/// The `set NAME LITERAL` command of a line's words.
pub open spec fn set_of(ws: Seq<Seq<char>>) -> Result<CommandModel, ErrorModel> {
    if ws.len() != 3 {
        Err(ErrorModel::MismatchNumParams)
    } else {
        match value_literal(ws[2]) {
            Ok(v) => Ok(CommandModel::SetVar(ws[1], v)),
            Err(e) => Err(e),
        }
    }
}

/// The `get NAME` command of a line's words.
pub open spec fn get_of(ws: Seq<Seq<char>>) -> Result<CommandModel, ErrorModel> {
    if ws.len() != 2 {
        Err(ErrorModel::MismatchNumParams)
    } else {
        Ok(CommandModel::GetVar(ws[1]))
    }
}

/// The `pushvar NAME` command of a line's words.
pub open spec fn pushvar_of(ws: Seq<Seq<char>>) -> Result<CommandModel, ErrorModel> {
    if ws.len() != 2 {
        Err(ErrorModel::MismatchNumParams)
    } else {
        Ok(CommandModel::PushVar(ws[1]))
    }
}

/// The `push LITERAL` command of a line's words.
pub open spec fn push_of(ws: Seq<Seq<char>>) -> Result<CommandModel, ErrorModel> {
    if ws.len() != 2 {
        Err(ErrorModel::MismatchNumParams)
    } else {
        match value_literal(ws[1]) {
            Ok(v) => Ok(CommandModel::Push(v)),
            Err(e) => Err(e),
        }
    }
}

/// A command without operands, given by a line of exactly one word.
pub open spec fn bare_of(ws: Seq<Seq<char>>, c: CommandModel) -> Result<CommandModel, ErrorModel> {
    if ws.len() != 1 {
        Err(ErrorModel::MismatchNumParams)
    } else {
        Ok(c)
    }
}

/// A line's command as an `Option`.
pub open spec fn some_command(r: Result<CommandModel, ErrorModel>) -> Result<
    Option<CommandModel>,
    ErrorModel,
> {
    match r {
        Ok(c) => Ok(Some(c)),
        Err(e) => Err(e),
    }
}

/// Whether `w` is one of the language's keywords.
pub open spec fn is_keyword(w: Seq<char>) -> bool {
    w == seq!['s', 'e', 't'] || w == seq!['g', 'e', 't'] || w == seq!['p', 'u', 's', 'h'] || w
        == seq!['p', 'u', 's', 'h', 'v', 'a', 'r'] || w == seq!['p', 'o', 'p'] || w == seq![
        'a',
        'd',
        'd',
    ]
}

/// The command of a line with words `ws`: none for a blank line, else the one
/// that its first word names.
pub open spec fn command_of(ws: Seq<Seq<char>>) -> Result<Option<CommandModel>, ErrorModel> {
    if ws.len() == 0 {
        Ok(None)
    } else if ws[0] == seq!['s', 'e', 't'] {
        some_command(set_of(ws))
    } else if ws[0] == seq!['g', 'e', 't'] {
        some_command(get_of(ws))
    } else if ws[0] == seq!['p', 'u', 's', 'h'] {
        some_command(push_of(ws))
    } else if ws[0] == seq!['p', 'u', 's', 'h', 'v', 'a', 'r'] {
        some_command(pushvar_of(ws))
    } else if ws[0] == seq!['p', 'o', 'p'] {
        some_command(bare_of(ws, CommandModel::Pop))
    } else if ws[0] == seq!['a', 'd', 'd'] {
        some_command(bare_of(ws, CommandModel::Add))
    } else {
        Err(ErrorModel::UnknownCommand(ws[0]))
    }
}

/// The commands of a sequence of lines, or the error of the first line that
/// fails.
pub open spec fn parse_lines(ls: Seq<Seq<char>>) -> Result<Seq<CommandModel>, ErrorModel>
    decreases ls.len(),
{
    if ls.len() == 0 {
        Ok(Seq::empty())
    } else {
        match parse_lines(ls.drop_last()) {
            Ok(cs) => match command_of(words(ls.last())) {
                Ok(Some(c)) => Ok(cs.push(c)),
                Ok(None) => Ok(cs),
                Err(e) => Err(e),
            },
            Err(e) => Err(e),
        }
    }
}

/// The commands of a text.
pub open spec fn parse_text(s: Seq<char>) -> Result<Seq<CommandModel>, ErrorModel> {
    parse_lines(lines(s))
}

/// Lines after a failing one do not change the error.
pub proof fn lemma_parse_stops_at_failure(ls: Seq<Seq<char>>, k: int)
    requires
        0 <= k <= ls.len(),
        parse_lines(ls.take(k)) is Err,
    ensures
        parse_lines(ls) == parse_lines(ls.take(k)),
    decreases ls.len() - k,
{
    if k == ls.len() {
        assert(ls.take(k) =~= ls);
    } else {
        assert(ls.take(k + 1).drop_last() =~= ls.take(k));
        lemma_parse_stops_at_failure(ls, k + 1);
    }
}

/// A variable name: the token as it stands.
pub fn parse_var_name(var_name: &str) -> (r: Result<String, EngineError>)
    ensures
        r is Ok,
        r->Ok_0@ == var_name@,
{
    Ok(var_name.to_owned())
}

/// A string literal without its quotes; a type mismatch if `val` is none.
pub fn parse_string(val: &str) -> (r: Result<Value, EngineError>)
    ensures
        is_string_literal(val@) ==> result_view(r) == Ok::<ValueModel, ErrorModel>(
            ValueModel::Str(val@.subrange(1, val@.len() - 1)),
        ),
        !is_string_literal(val@) ==> result_view(r) == Err::<ValueModel, ErrorModel>(
            ErrorModel::TypeMismatch,
        ),
{
    let n = val.unicode_len();
    if n > 1 && val.get_char(0) == '"' && val.get_char(n - 1) == '"' {
        let inner = val.substring_char(1, n - 1);
        Ok(Value::String(inner.to_owned()))
    } else {
        Err(EngineError::TypeMismatch)
    }
}

/// An integer literal with an optional sign; a type mismatch if `val` is
/// malformed or out of the range of `i64`.
pub fn parse_int(val: &str) -> (r: Result<Value, EngineError>)
    ensures
        result_view(r) == (match int_literal(val@) {
            Some(n) => Ok(ValueModel::Int(n)),
            None => Err(ErrorModel::TypeMismatch),
        }),
{
    let cs = chars_of(val);
    let n = cs.len();
    let mut start: usize = 0;
    let mut neg = false;
    if n > 0 && (cs[0] == '+' || cs[0] == '-') {
        neg = cs[0] == '-';
        start = 1;
    }
    let ghost d = unsigned_part(cs@);
    assert(d =~= cs@.subrange(start as int, n as int));
    if start >= n {
        return Err(EngineError::TypeMismatch);
    }
    // the magnitude read so far, capped just above the largest one allowed
    let mut acc: u128 = 0;
    let mut i: usize = start;
    while i < n
        invariant
            start <= i <= n == cs@.len(),
            cs@ == val@,
            d == unsigned_part(val@),
            d == cs@.subrange(start as int, n as int),
            forall|j: int| start <= j < i ==> is_digit(#[trigger] cs@[j]),
            acc as int == if digits_value(cs@.subrange(start as int, i as int)) <= MAX_MAGNITUDE {
                digits_value(cs@.subrange(start as int, i as int)) as int
            } else {
                MAX_MAGNITUDE + 1
            },
        decreases n - i,
    {
        let c = cs[i];
        let code = c as u32;
        if code < 48 || code > 57 {
            assert(!is_digit(d[i - start]));
            return Err(EngineError::TypeMismatch);
        }
        let ghost prev = digits_value(cs@.subrange(start as int, i as int));
        assert(cs@.subrange(start as int, i + 1).drop_last() =~= cs@.subrange(
            start as int,
            i as int,
        ));
        let digit = (code - 48) as u128;
        assert(digits_value(cs@.subrange(start as int, i + 1)) == prev * 10 + digit);
        if acc <= MAX_MAGNITUDE {
            acc = acc * 10 + digit;
            if acc > MAX_MAGNITUDE {
                acc = MAX_MAGNITUDE + 1;
            }
        } else {
            assert(prev * 10 + digit > MAX_MAGNITUDE) by (nonlinear_arith)
                requires
                    prev > MAX_MAGNITUDE,
            ;
        }
        i = i + 1;
    }
    assert forall|j: int| 0 <= j < d.len() implies is_digit(#[trigger] d[j]) by {
        assert(d[j] == cs@[start + j]);
    }
    assert(cs@.subrange(start as int, n as int) == d);
    if neg {
        if acc <= MAX_MAGNITUDE {
            Ok(Value::Int((0i128 - acc as i128) as i64))
        } else {
            Err(EngineError::TypeMismatch)
        }
    } else if acc < MAX_MAGNITUDE {
        Ok(Value::Int(acc as i64))
    } else {
        Err(EngineError::TypeMismatch)
    }
}

/// A literal: a string literal if `val` is one, else an integer literal.
pub fn parse_value(val: &str) -> (r: Result<Value, EngineError>)
    ensures
        result_view(r) == value_literal(val@),
{
    let n = val.unicode_len();
    if n > 1 && val.get_char(0) == '"' && val.get_char(n - 1) == '"' {
        parse_string(val)
    } else {
        parse_int(val)
    }
}

/// The words of a `set NAME LITERAL` line as a command.
pub fn parse_set(input: &[String]) -> (r: Result<Command, EngineError>)
    ensures
        command_result_view(r) == set_of(string_models(input@)),
{
    if input.len() != 3 {
        return Err(EngineError::MismatchNumParams);
    }
    let var_name = match parse_var_name(input[1].as_str()) {
        Ok(n) => n,
        Err(e) => {
            return Err(e);
        },
    };
    match parse_value(input[2].as_str()) {
        Ok(value) => Ok(Command::SetVar(var_name, value)),
        Err(e) => Err(e),
    }
}

/// The words of a `get NAME` line as a command.
pub fn parse_get(input: &[String]) -> (r: Result<Command, EngineError>)
    ensures
        command_result_view(r) == get_of(string_models(input@)),
{
    if input.len() != 2 {
        return Err(EngineError::MismatchNumParams);
    }
    match parse_var_name(input[1].as_str()) {
        Ok(n) => Ok(Command::GetVar(n)),
        Err(e) => Err(e),
    }
}

/// The words of a `pushvar NAME` line as a command.
pub fn parse_pushvar(input: &[String]) -> (r: Result<Command, EngineError>)
    ensures
        command_result_view(r) == pushvar_of(string_models(input@)),
{
    if input.len() != 2 {
        return Err(EngineError::MismatchNumParams);
    }
    match parse_var_name(input[1].as_str()) {
        Ok(n) => Ok(Command::PushVar(n)),
        Err(e) => Err(e),
    }
}

/// The words of a `push LITERAL` line as a command.
pub fn parse_push(input: &[String]) -> (r: Result<Command, EngineError>)
    ensures
        command_result_view(r) == push_of(string_models(input@)),
{
    if input.len() != 2 {
        return Err(EngineError::MismatchNumParams);
    }
    match parse_value(input[1].as_str()) {
        Ok(v) => Ok(Command::Push(v)),
        Err(e) => Err(e),
    }
}

/// The command of one line, given its words: `None` for a blank line.
pub fn parse_line(words: &Vec<String>) -> (r: Result<Option<Command>, EngineError>)
    ensures
        (match r {
            Ok(Some(c)) => Ok(Some(c@)),
            Ok(None) => Ok(None),
            Err(e) => Err(e@),
        }) == command_of(string_models(words@)),
{
    let ghost ws = string_models(words@);
    if words.len() == 0 {
        return Ok(None);
    }
    proof {
        reveal_strlit("set");
        reveal_strlit("get");
        reveal_strlit("push");
        reveal_strlit("pushvar");
        reveal_strlit("pop");
        reveal_strlit("add");
        assert("set"@ =~= seq!['s', 'e', 't']);
        assert("get"@ =~= seq!['g', 'e', 't']);
        assert("push"@ =~= seq!['p', 'u', 's', 'h']);
        assert("pushvar"@ =~= seq!['p', 'u', 's', 'h', 'v', 'a', 'r']);
        assert("pop"@ =~= seq!['p', 'o', 'p']);
        assert("add"@ =~= seq!['a', 'd', 'd']);
    }
    let keyword = &words[0];
    let parsed = if is_word(keyword, "set") {
        parse_set(words.as_slice())
    } else if is_word(keyword, "get") {
        parse_get(words.as_slice())
    } else if is_word(keyword, "push") {
        parse_push(words.as_slice())
    } else if is_word(keyword, "pushvar") {
        parse_pushvar(words.as_slice())
    } else if is_word(keyword, "pop") {
        if words.len() != 1 {
            Err(EngineError::MismatchNumParams)
        } else {
            Ok(Command::Pop)
        }
    } else if is_word(keyword, "add") {
        if words.len() != 1 {
            Err(EngineError::MismatchNumParams)
        } else {
            Ok(Command::Add)
        }
    } else {
        return Err(EngineError::UnknownCommand(keyword.clone()));
    };
    match parsed {
        Ok(c) => Ok(Some(c)),
        Err(e) => Err(e),
    }
}

/// The commands of a text, one for each non-blank line in order, or the error
/// of the first line that fails.
pub fn parse(input: &str) -> (r: Result<Vec<Command>, EngineError>)
    ensures
        (match r {
            Ok(cs) => Ok(command_models(cs@)),
            Err(e) => Err(e@),
        }) == parse_text(input@),
{
    let cs = chars_of(input);
    let ls = split_lines(&cs);
    let ghost lms = char_vec_models(ls@);
    let mut output: Vec<Command> = Vec::new();
    assert(lms.take(0) =~= Seq::<Seq<char>>::empty());
    assert(command_models(output@) =~= Seq::<CommandModel>::empty());
    let mut k: usize = 0;
    while k < ls.len()
        invariant
            k <= ls@.len(),
            lms == char_vec_models(ls@),
            lms == lines(input@),
            parse_lines(lms.take(k as int)) == Ok::<Seq<CommandModel>, ErrorModel>(
                command_models(output@),
            ),
        decreases ls@.len() - k,
    {
        assert(lms.take(k + 1).drop_last() =~= lms.take(k as int));
        assert(lms.take(k + 1).last() == ls@[k as int]@);
        let words = line_words(&ls[k]);
        let ghost before = command_models(output@);
        match parse_line(&words) {
            Ok(Some(c)) => {
                output.push(c);
                assert(command_models(output@) =~= before.push(command_models(output@).last()));
            },
            Ok(None) => {},
            Err(e) => {
                proof {
                    lemma_parse_stops_at_failure(lms, k + 1);
                }
                return Err(e);
            },
        }
        k = k + 1;
    }
    assert(lms.take(ls@.len() as int) =~= lms);
    Ok(output)
}

} // verus!
