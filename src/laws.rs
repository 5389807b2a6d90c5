//! Laws of the language, stated over the models of the parser and evaluator.
use vstd::prelude::*;
use crate::command::CommandModel;
use crate::evaluator::{MachineState, Outcome, combine, outcome_result, run, step};
use crate::parser::{command_of, is_keyword, parse_lines, value_literal};
use crate::evaluator::initial_state;
use crate::program::program_result;
use crate::text::{
    is_blank, lemma_lines_single, lemma_lines_split, lemma_words_single, lemma_words_split, lines,
    words,
};
use crate::value::{ErrorModel, ValueModel};

verus! {

/// The program text `set NAME LITERAL`, a line break, `get NAME` evaluates to
/// the literal's value, for every name and literal that are single words.
pub proof fn law_set_then_get_program(name: Seq<char>, lit: Seq<char>)
    requires
        name.len() > 0,
        lit.len() > 0,
        forall|i: int| 0 <= i < name.len() ==> !is_blank(#[trigger] name[i]),
        forall|i: int| 0 <= i < lit.len() ==> !is_blank(#[trigger] lit[i]),
        value_literal(lit) is Ok,
    ensures
        program_result(
            seq!['s', 'e', 't', ' '] + name + seq![' '] + lit + seq!['\n', 'g', 'e', 't', ' ']
                + name,
        ) == Ok::<ValueModel, ErrorModel>(value_literal(lit)->Ok_0),
{
    let kset = seq!['s', 'e', 't'];
    let kget = seq!['g', 'e', 't'];
    let rest = name + seq![' '] + lit;
    let l1 = kset + seq![' '] + rest;
    let l2 = kget + seq![' '] + name;
    let t = seq!['s', 'e', 't', ' '] + name + seq![' '] + lit + seq!['\n', 'g', 'e', 't', ' ']
        + name;
    assert(t =~= l1 + seq!['\n'] + l2);
    assert forall|i: int| 0 <= i < kset.len() implies !is_blank(#[trigger] kset[i]) by {}
    assert forall|i: int| 0 <= i < kget.len() implies !is_blank(#[trigger] kget[i]) by {}
    lemma_words_single(kset);
    lemma_words_single(kget);
    lemma_words_single(name);
    lemma_words_single(lit);
    lemma_words_split(name, ' ', lit);
    lemma_words_split(kset, ' ', rest);
    lemma_words_split(kget, ' ', name);
    assert(words(l1) =~= seq![kset, name, lit]);
    assert(words(l2) =~= seq![kget, name]);
    assert forall|i: int| 0 <= i < l1.len() implies #[trigger] l1[i] != '\n' by {
        if i < 4 {
        } else if i < 4 + name.len() {
            assert(l1[i] == name[i - 4]);
        } else if i == 4 + name.len() {
        } else {
            assert(l1[i] == lit[i - 5 - name.len()]);
        }
    }
    assert forall|i: int| 0 <= i < l2.len() implies #[trigger] l2[i] != '\n' by {
        if i >= 4 {
            assert(l2[i] == name[i - 4]);
        }
    }
    lemma_lines_split(l1, l2);
    lemma_lines_single(l2);
    assert(lines(t) =~= seq![l1, l2]);
    assert(seq![l1, l2].drop_last() =~= seq![l1]);
    assert(seq![l1].drop_last() =~= Seq::<Seq<char>>::empty());
    law_set_then_get(initial_state(), name, lit);
    let c1 = CommandModel::SetVar(name, value_literal(lit)->Ok_0);
    let c2 = CommandModel::GetVar(name);
    assert(Seq::<CommandModel>::empty().push(c1) =~= seq![c1]);
    assert(seq![l1].last() == l1);
    assert(seq![l1, l2].last() == l2);
    assert(command_of(words(l1)) == Ok::<Option<CommandModel>, ErrorModel>(Some(c1)));
    assert(command_of(words(l2)) == Ok::<Option<CommandModel>, ErrorModel>(Some(c2)));
    assert(parse_lines(Seq::<Seq<char>>::empty()) == Ok::<Seq<CommandModel>, ErrorModel>(
        Seq::empty(),
    ));
    assert(parse_lines(seq![l1]) == Ok::<Seq<CommandModel>, ErrorModel>(seq![c1]));
    assert(seq![c1].push(c2) =~= seq![c1, c2]);
    assert(parse_lines(seq![l1, l2]) == Ok::<Seq<CommandModel>, ErrorModel>(seq![c1, c2]));
}

/// Running one more command continues from where the run left off.
pub proof fn lemma_run_push(s: MachineState, cmds: Seq<CommandModel>, c: CommandModel)
    ensures
        run(s, cmds.push(c)) == (match run(s, cmds) {
            Ok((s1, o1)) => step(s1, o1, c),
            Err(x) => Err(x),
        }),
{
    assert(cmds.push(c).drop_last() =~= cmds);
}

/// `set NAME LITERAL` then `get NAME` yields the literal's value, whatever
/// the state they run in.
pub proof fn law_set_then_get(s: MachineState, name: Seq<char>, lit: Seq<char>)
    requires
        value_literal(lit) is Ok,
    ensures
        command_of(seq![seq!['s', 'e', 't'], name, lit]) == Ok::<
            Option<CommandModel>,
            ErrorModel,
        >(Some(CommandModel::SetVar(name, value_literal(lit)->Ok_0))),
        command_of(seq![seq!['g', 'e', 't'], name]) == Ok::<Option<CommandModel>, ErrorModel>(
            Some(CommandModel::GetVar(name)),
        ),
        outcome_result(
            run(
                s,
                seq![
                    CommandModel::SetVar(name, value_literal(lit)->Ok_0),
                    CommandModel::GetVar(name),
                ],
            ),
        ) == Ok::<ValueModel, ErrorModel>(value_literal(lit)->Ok_0),
{
    let v = value_literal(lit)->Ok_0;
    let c1 = CommandModel::SetVar(name, v);
    let c2 = CommandModel::GetVar(name);
    lemma_run_push(s, Seq::empty(), c1);
    lemma_run_push(s, seq![c1], c2);
    assert(Seq::<CommandModel>::empty().push(c1) =~= seq![c1]);
    assert(seq![c1].push(c2) =~= seq![c1, c2]);
    assert(seq![seq!['g', 'e', 't'], name][0] != seq!['s', 'e', 't']);
}

/// Unfolds `run` on each non-empty prefix of a sequence of six commands.
proof fn lemma_run_prefixes(s: MachineState, cmds: Seq<CommandModel>)
    requires
        cmds.len() == 6,
    ensures
        forall|k: int|
            1 <= k <= 6 ==> #[trigger] run(s, cmds.take(k)) == (match run(s, cmds.take(k - 1)) {
                Ok((s1, o1)) => step(s1, o1, cmds[k - 1]),
                Err(x) => Err(x),
            }),
{
    assert forall|k: int| 1 <= k <= 6 implies #[trigger] run(s, cmds.take(k)) == (match run(
        s,
        cmds.take(k - 1),
    ) {
        Ok((s1, o1)) => step(s1, o1, cmds[k - 1]),
        Err(x) => Err(x),
    }) by {
        lemma_run_push(s, cmds.take(k - 1), cmds[k - 1]);
        assert(cmds.take(k - 1).push(cmds[k - 1]) =~= cmds.take(k));
    }
}

/// `push A`, `push B`, `add`, `pop` combines `B`, the value popped first, as
/// the left operand with `A` as the right one; for strings the result is `B`
/// followed by `A`.
pub proof fn law_add_operand_order(s: MachineState, a: ValueModel, b: ValueModel)
    ensures
        outcome_result(
            run(s, seq![CommandModel::Push(a), CommandModel::Push(b), CommandModel::Add, CommandModel::Pop]),
        ) == combine(b, a),
        a is Str && b is Str ==> combine(b, a) == Ok::<ValueModel, ErrorModel>(
            ValueModel::Str(b->Str_0 + a->Str_0),
        ),
{
    let c1 = CommandModel::Push(a);
    let c2 = CommandModel::Push(b);
    lemma_run_push(s, Seq::empty(), c1);
    lemma_run_push(s, seq![c1], c2);
    lemma_run_push(s, seq![c1, c2], CommandModel::Add);
    lemma_run_push(s, seq![c1, c2, CommandModel::Add], CommandModel::Pop);
    assert(Seq::<CommandModel>::empty().push(c1) =~= seq![c1]);
    assert(seq![c1].push(c2) =~= seq![c1, c2]);
    assert(seq![c1, c2].push(CommandModel::Add) =~= seq![c1, c2, CommandModel::Add]);
    assert(seq![c1, c2, CommandModel::Add].push(CommandModel::Pop) =~= seq![
        c1,
        c2,
        CommandModel::Add,
        CommandModel::Pop,
    ]);
    let st = s.stack.push(a).push(b);
    assert(st.drop_last() =~= s.stack.push(a));
    assert(st.drop_last().drop_last() =~= s.stack);
}

/// Adding two integers does not depend on the order in which they were
/// pushed, and gives their sum when it fits in an `i64`.
pub proof fn law_int_add_commutes(s: MachineState, a: i64, b: i64)
    ensures
        outcome_result(
            run(
                s,
                seq![
                    CommandModel::Push(ValueModel::Int(a)),
                    CommandModel::Push(ValueModel::Int(b)),
                    CommandModel::Add,
                    CommandModel::Pop,
                ],
            ),
        ) == outcome_result(
            run(
                s,
                seq![
                    CommandModel::Push(ValueModel::Int(b)),
                    CommandModel::Push(ValueModel::Int(a)),
                    CommandModel::Add,
                    CommandModel::Pop,
                ],
            ),
        ),
        i64::MIN <= a + b <= i64::MAX ==> outcome_result(
            run(
                s,
                seq![
                    CommandModel::Push(ValueModel::Int(a)),
                    CommandModel::Push(ValueModel::Int(b)),
                    CommandModel::Add,
                    CommandModel::Pop,
                ],
            ),
        ) == Ok::<ValueModel, ErrorModel>(ValueModel::Int((a + b) as i64)),
{
    law_add_operand_order(s, ValueModel::Int(a), ValueModel::Int(b));
    law_add_operand_order(s, ValueModel::Int(b), ValueModel::Int(a));
}

/// Adding three integers gives their sum whichever way the additions are
/// grouped, when the sums fit in an `i64`.
pub proof fn law_int_add_associates(s: MachineState, a: i64, b: i64, c: i64)
    requires
        i64::MIN <= a + b <= i64::MAX,
        i64::MIN <= b + c <= i64::MAX,
        i64::MIN <= a + b + c <= i64::MAX,
    ensures
        outcome_result(
            run(
                s,
                seq![
                    CommandModel::Push(ValueModel::Int(a)),
                    CommandModel::Push(ValueModel::Int(b)),
                    CommandModel::Add,
                    CommandModel::Push(ValueModel::Int(c)),
                    CommandModel::Add,
                    CommandModel::Pop,
                ],
            ),
        ) == Ok::<ValueModel, ErrorModel>(ValueModel::Int((a + b + c) as i64)),
        outcome_result(
            run(
                s,
                seq![
                    CommandModel::Push(ValueModel::Int(a)),
                    CommandModel::Push(ValueModel::Int(b)),
                    CommandModel::Push(ValueModel::Int(c)),
                    CommandModel::Add,
                    CommandModel::Add,
                    CommandModel::Pop,
                ],
            ),
        ) == Ok::<ValueModel, ErrorModel>(ValueModel::Int((a + b + c) as i64)),
{
    let pa = CommandModel::Push(ValueModel::Int(a));
    let pb = CommandModel::Push(ValueModel::Int(b));
    let pc = CommandModel::Push(ValueModel::Int(c));
    let ad = CommandModel::Add;
    let po = CommandModel::Pop;
    let left = seq![pa, pb, ad, pc, ad, po];
    let right = seq![pa, pb, pc, ad, ad, po];
    lemma_run_prefixes(s, left);
    lemma_run_prefixes(s, right);
    assert(left.take(6) =~= left);
    assert(right.take(6) =~= right);
    assert(left.take(0) =~= Seq::<CommandModel>::empty());
    assert(right.take(0) =~= Seq::<CommandModel>::empty());
    let (ia, ib, ic) = (ValueModel::Int(a), ValueModel::Int(b), ValueModel::Int(c));
    let ab = ValueModel::Int((a + b) as i64);
    let bc = ValueModel::Int((b + c) as i64);
    let abc = ValueModel::Int((a + b + c) as i64);
    let st = s.stack;
    let n = ValueModel::Nothing;
    assert(run(s, left.take(0)) == Outcome::Ok((s, n)));
    assert(run(s, left.take(1)) == Outcome::Ok((MachineState { stack: st.push(ia), ..s }, n)));
    assert(run(s, left.take(2)) == Outcome::Ok(
        (MachineState { stack: st.push(ia).push(ib), ..s }, n),
    ));
    assert(st.push(ia).push(ib).drop_last().drop_last() =~= st);
    assert(st.push(ia).push(ib).drop_last() =~= st.push(ia));
    assert(run(s, left.take(3)) == Outcome::Ok((MachineState { stack: st.push(ab), ..s }, n)));
    assert(run(s, left.take(4)) == Outcome::Ok(
        (MachineState { stack: st.push(ab).push(ic), ..s }, n),
    ));
    assert(st.push(ab).push(ic).drop_last().drop_last() =~= st);
    assert(st.push(ab).push(ic).drop_last() =~= st.push(ab));
    assert(run(s, left.take(5)) == Outcome::Ok((MachineState { stack: st.push(abc), ..s }, n)));
    assert(st.push(abc).drop_last() =~= st);
    assert(run(s, left.take(6)) == Outcome::Ok((s, abc)));
    assert(run(s, right.take(0)) == Outcome::Ok((s, n)));
    assert(run(s, right.take(1)) == Outcome::Ok((MachineState { stack: st.push(ia), ..s }, n)));
    assert(run(s, right.take(2)) == Outcome::Ok(
        (MachineState { stack: st.push(ia).push(ib), ..s }, n),
    ));
    assert(run(s, right.take(3)) == Outcome::Ok(
        (MachineState { stack: st.push(ia).push(ib).push(ic), ..s }, n),
    ));
    assert(st.push(ia).push(ib).push(ic).drop_last().drop_last() =~= st.push(ia));
    assert(st.push(ia).push(ib).push(ic).drop_last() =~= st.push(ia).push(ib));
    assert(run(s, right.take(4)) == Outcome::Ok(
        (MachineState { stack: st.push(ia).push(bc), ..s }, n),
    ));
    assert(st.push(ia).push(bc).drop_last().drop_last() =~= st);
    assert(st.push(ia).push(bc).drop_last() =~= st.push(ia));
    assert(run(s, right.take(5)) == Outcome::Ok((MachineState { stack: st.push(abc), ..s }, n)));
    assert(run(s, right.take(6)) == Outcome::Ok((s, abc)));
}

/// `add` on an integer and a string, or on `Nothing` and anything, fails with
/// a type mismatch, in either order.
pub proof fn law_mixed_add_fails(s: MachineState, a: ValueModel, b: ValueModel)
    requires
        !(a is Int && b is Int),
        !(a is Str && b is Str),
    ensures
        outcome_result(run(s, seq![CommandModel::Push(a), CommandModel::Push(b), CommandModel::Add]))
            == Err::<ValueModel, ErrorModel>(ErrorModel::TypeMismatch),
        outcome_result(run(s, seq![CommandModel::Push(b), CommandModel::Push(a), CommandModel::Add]))
            == Err::<ValueModel, ErrorModel>(ErrorModel::TypeMismatch),
{
    lemma_push_push_add(s, a, b);
    lemma_push_push_add(s, b, a);
}

/// `push A`, `push B`, `add` leaves the combination of `B` with `A`.
proof fn lemma_push_push_add(s: MachineState, a: ValueModel, b: ValueModel)
    ensures
        outcome_result(run(s, seq![CommandModel::Push(a), CommandModel::Push(b), CommandModel::Add]))
            == (match combine(b, a) {
            Ok(_) => Ok(ValueModel::Nothing),
            Err(e) => Err(e),
        }),
{
    let c1 = CommandModel::Push(a);
    let c2 = CommandModel::Push(b);
    lemma_run_push(s, Seq::empty(), c1);
    lemma_run_push(s, seq![c1], c2);
    lemma_run_push(s, seq![c1, c2], CommandModel::Add);
    assert(Seq::<CommandModel>::empty().push(c1) =~= seq![c1]);
    assert(seq![c1].push(c2) =~= seq![c1, c2]);
    assert(seq![c1, c2].push(CommandModel::Add) =~= seq![c1, c2, CommandModel::Add]);
    let st = s.stack.push(a).push(b);
    assert(st.drop_last() =~= s.stack.push(a));
    assert(st.drop_last().drop_last() =~= s.stack);
}

/// `pop` on an empty stack, and `add` on a stack of fewer than two values,
/// fail with `EmptyStack`.
pub proof fn law_stack_underflow(s: MachineState, v: ValueModel)
    ensures
        s.stack.len() == 0 ==> outcome_result(run(s, seq![CommandModel::Pop])) == Err::<
            ValueModel,
            ErrorModel,
        >(ErrorModel::EmptyStack),
        s.stack.len() < 2 ==> outcome_result(run(s, seq![CommandModel::Add])) == Err::<
            ValueModel,
            ErrorModel,
        >(ErrorModel::EmptyStack),
        s.stack.len() == 0 ==> outcome_result(
            run(s, seq![CommandModel::Push(v), CommandModel::Add]),
        ) == Err::<ValueModel, ErrorModel>(ErrorModel::EmptyStack),
{
    lemma_run_push(s, Seq::empty(), CommandModel::Pop);
    lemma_run_push(s, Seq::empty(), CommandModel::Add);
    lemma_run_push(s, Seq::empty(), CommandModel::Push(v));
    lemma_run_push(s, seq![CommandModel::Push(v)], CommandModel::Add);
    assert(Seq::<CommandModel>::empty().push(CommandModel::Pop) =~= seq![CommandModel::Pop]);
    assert(Seq::<CommandModel>::empty().push(CommandModel::Add) =~= seq![CommandModel::Add]);
    assert(Seq::<CommandModel>::empty().push(CommandModel::Push(v)) =~= seq![
        CommandModel::Push(v),
    ]);
    assert(seq![CommandModel::Push(v)].push(CommandModel::Add) =~= seq![
        CommandModel::Push(v),
        CommandModel::Add,
    ]);
}

/// `get` and `pushvar` of an unbound name fail with `MissingVariable` of
/// exactly that name.
pub proof fn law_missing_variable(s: MachineState, name: Seq<char>)
    requires
        !s.vars.contains_key(name),
    ensures
        outcome_result(run(s, seq![CommandModel::GetVar(name)])) == Err::<ValueModel, ErrorModel>(
            ErrorModel::MissingVariable(name),
        ),
        outcome_result(run(s, seq![CommandModel::PushVar(name)])) == Err::<
            ValueModel,
            ErrorModel,
        >(ErrorModel::MissingVariable(name)),
{
    lemma_run_push(s, Seq::empty(), CommandModel::GetVar(name));
    lemma_run_push(s, Seq::empty(), CommandModel::PushVar(name));
    assert(Seq::<CommandModel>::empty().push(CommandModel::GetVar(name)) =~= seq![
        CommandModel::GetVar(name),
    ]);
    assert(Seq::<CommandModel>::empty().push(CommandModel::PushVar(name)) =~= seq![
        CommandModel::PushVar(name),
    ]);
}

/// A line whose first word is no keyword fails with `UnknownCommand` of
/// exactly that word.
pub proof fn law_unknown_keyword(ws: Seq<Seq<char>>)
    requires
        ws.len() > 0,
        !is_keyword(ws[0]),
    ensures
        command_of(ws) == Err::<Option<CommandModel>, ErrorModel>(
            ErrorModel::UnknownCommand(ws[0]),
        ),
{
}

/// A line of blanks has no words, gives no command and no error, and leaves
/// the commands of the lines before it as they were.
pub proof fn law_blank_line(ls: Seq<Seq<char>>, line: Seq<char>)
    requires
        forall|i: int| 0 <= i < line.len() ==> is_blank(#[trigger] line[i]),
    ensures
        words(line) == Seq::<Seq<char>>::empty(),
        command_of(words(line)) == Ok::<Option<CommandModel>, ErrorModel>(None),
        parse_lines(ls.push(line)) == parse_lines(ls),
    decreases line.len(),
{
    if line.len() > 0 {
        law_blank_line(ls, line.drop_last());
    }
    assert(ls.push(line).drop_last() =~= ls);
}

/// Binding a name twice and then reading it gives the second value.
pub proof fn law_last_write_wins(s: MachineState, name: Seq<char>, v1: ValueModel, v2: ValueModel)
    ensures
        outcome_result(
            run(
                s,
                seq![
                    CommandModel::SetVar(name, v1),
                    CommandModel::SetVar(name, v2),
                    CommandModel::GetVar(name),
                ],
            ),
        ) == Ok::<ValueModel, ErrorModel>(v2),
{
    let c1 = CommandModel::SetVar(name, v1);
    let c2 = CommandModel::SetVar(name, v2);
    let c3 = CommandModel::GetVar(name);
    lemma_run_push(s, Seq::empty(), c1);
    lemma_run_push(s, seq![c1], c2);
    lemma_run_push(s, seq![c1, c2], c3);
    assert(Seq::<CommandModel>::empty().push(c1) =~= seq![c1]);
    assert(seq![c1].push(c2) =~= seq![c1, c2]);
    assert(seq![c1, c2].push(c3) =~= seq![c1, c2, c3]);
}

} // verus!
