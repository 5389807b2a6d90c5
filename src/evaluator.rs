//! The evaluator: runs commands against a variable table and an operand stack.
use vstd::prelude::*;
use crate::command::{Command, CommandModel, command_models};
use crate::value::{EngineError, ErrorModel, Value, ValueModel, result_view};

verus! {

/// The abstract state of an evaluator.
pub struct MachineState {
    pub vars: Map<Seq<char>, ValueModel>,
    pub stack: Seq<ValueModel>,
}

/// What a run or a step leaves: the state and the pending output, or the
/// state at the failure and the error.
pub type Outcome = Result<(MachineState, ValueModel), (MachineState, ErrorModel)>;

/// The empty state of a fresh evaluator.
pub open spec fn initial_state() -> MachineState {
    MachineState { vars: Map::empty(), stack: Seq::empty() }
}

/// `add` on two operands: integers sum (wrapping at the bounds of `i64`),
/// strings concatenate left then right, any other pair is a type mismatch.
pub open spec fn combine(lhs: ValueModel, rhs: ValueModel) -> Result<ValueModel, ErrorModel> {
    match (lhs, rhs) {
        (ValueModel::Int(a), ValueModel::Int(b)) => Ok(
            ValueModel::Int(vstd::wrapping::i64_specs::wrapping_add(a, b)),
        ),
        (ValueModel::Str(a), ValueModel::Str(b)) => Ok(ValueModel::Str(a + b)),
        _ => Err(ErrorModel::TypeMismatch),
    }
}

/// One command executed on state `s` with pending output `out`.
pub open spec fn step(s: MachineState, out: ValueModel, c: CommandModel) -> Outcome {
    match c {
        CommandModel::SetVar(n, v) => Ok((MachineState { vars: s.vars.insert(n, v), ..s }, out)),
        CommandModel::GetVar(n) => if s.vars.contains_key(n) {
            Ok((s, s.vars[n]))
        } else {
            Err((s, ErrorModel::MissingVariable(n)))
        },
        CommandModel::PushVar(n) => if s.vars.contains_key(n) {
            Ok((MachineState { stack: s.stack.push(s.vars[n]), ..s }, out))
        } else {
            Err((s, ErrorModel::MissingVariable(n)))
        },
        CommandModel::Push(v) => Ok((MachineState { stack: s.stack.push(v), ..s }, out)),
        CommandModel::Pop => if s.stack.len() == 0 {
            Err((s, ErrorModel::EmptyStack))
        } else {
            Ok((MachineState { stack: s.stack.drop_last(), ..s }, s.stack.last()))
        },
        CommandModel::Add => if s.stack.len() == 0 {
            Err((s, ErrorModel::EmptyStack))
        } else if s.stack.len() == 1 {
            Err((MachineState { stack: s.stack.drop_last(), ..s }, ErrorModel::EmptyStack))
        } else {
            let lhs = s.stack.last();
            let rhs = s.stack.drop_last().last();
            let rest = s.stack.drop_last().drop_last();
            match combine(lhs, rhs) {
                Ok(v) => Ok((MachineState { stack: rest.push(v), ..s }, out)),
                Err(e) => Err((MachineState { stack: rest, ..s }, e)),
            }
        },
    }
}

/// The commands run in order from state `s`, stopping at the first failure;
/// the pending output starts as `Nothing`.
pub open spec fn run(s: MachineState, cmds: Seq<CommandModel>) -> Outcome
    decreases cmds.len(),
{
    if cmds.len() == 0 {
        Ok((s, ValueModel::Nothing))
    } else {
        match run(s, cmds.drop_last()) {
            Ok((s1, o1)) => step(s1, o1, cmds.last()),
            Err(x) => Err(x),
        }
    }
}

/// The result of a run as the caller sees it: the final output or the error.
pub open spec fn outcome_result(o: Outcome) -> Result<ValueModel, ErrorModel> {
    match o {
        Ok((_, v)) => Ok(v),
        Err((_, e)) => Err(e),
    }
}

/// A run that fails on a prefix of the commands fails the same way on all of
/// them: nothing after the failing command is executed.
pub proof fn lemma_run_stops_at_failure(s: MachineState, cmds: Seq<CommandModel>, k: int)
    requires
        0 <= k <= cmds.len(),
        run(s, cmds.take(k)) is Err,
    ensures
        run(s, cmds) == run(s, cmds.take(k)),
    decreases cmds.len() - k,
{
    if k == cmds.len() {
        assert(cmds.take(k) =~= cmds);
    } else {
        assert(cmds.take(k + 1).drop_last() =~= cmds.take(k));
        lemma_run_stops_at_failure(s, cmds, k + 1);
    }
}

/// Executes commands against a variable table and an operand stack.
pub struct Evaluator {
    vars: Vec<(String, Value)>,
    stack: Vec<Value>,
    table: Ghost<Map<Seq<char>, ValueModel>>,
}

impl View for Evaluator {
    type V = MachineState;

    closed spec fn view(&self) -> MachineState {
        MachineState { vars: self.table@, stack: self.stack@.map_values(|v: Value| v@) }
    }
}

impl Evaluator {
    /// The variable table holds each name once, and agrees with its model.
    pub closed spec fn wf(&self) -> bool {
        &&& forall|i: int, j: int|
            0 <= i < j < self.vars@.len() ==> #[trigger] self.vars@[i].0@ != #[trigger] self.vars@[j].0@
        &&& forall|i: int|
            0 <= i < self.vars@.len() ==> {
                &&& self.table@.contains_key(#[trigger] self.vars@[i].0@)
                &&& self.table@[self.vars@[i].0@] == self.vars@[i].1@
            }
        &&& forall|k: Seq<char>|
            #[trigger] self.table@.contains_key(k) ==> exists|i: int|
                0 <= i < self.vars@.len() && #[trigger] self.vars@[i].0@ == k
    }

    /// An evaluator with no variables and an empty stack.
    pub fn new() -> (r: Evaluator)
        ensures
            r.wf(),
            r@ == initial_state(),
    {
        let r = Evaluator { vars: Vec::new(), stack: Vec::new(), table: Ghost(Map::empty()) };
        assert(r@.stack =~= Seq::<ValueModel>::empty());
        r
    }

    /// The position of `name` in the variable table, if it is bound.
    fn find(&self, name: &String) -> (r: Option<usize>)
        requires
            self.wf(),
        ensures
            match r {
                Some(i) => i < self.vars@.len() && self.vars@[i as int].0@ == name@,
                None => !self@.vars.contains_key(name@),
            },
    {
        let mut i: usize = 0;
        while i < self.vars.len()
            invariant
                self.wf(),
                i <= self.vars@.len(),
                forall|j: int| 0 <= j < i ==> self.vars@[j].0@ != name@,
            decreases self.vars@.len() - i,
        {
            if self.vars[i].0.eq(name) {
                return Some(i);
            }
            i = i + 1;
        }
        None
    }

    /// Binds `name` to `value`, replacing an earlier binding.
    fn set_var(&mut self, name: &String, value: &Value)
        requires
            old(self).wf(),
        ensures
            final(self).wf(),
            final(self)@ == (MachineState { vars: old(self)@.vars.insert(name@, value@), ..old(self)@ }),
    {
        let ghost old_vars = self.vars@;
        let ghost old_table = self.table@;
        let entry = (name.clone(), value.duplicate());
        let ghost idx: int;
        match self.find(name) {
            Some(i) => {
                self.vars.set(i, entry);
                proof {
                    idx = i as int;
                }
            },
            None => {
                self.vars.push(entry);
                proof {
                    idx = old_vars.len() as int;
                }
            },
        }
        self.table = Ghost(old_table.insert(name@, value@));
        assert(self.vars@[idx].0@ == name@);
        assert forall|k: Seq<char>| #[trigger] self.table@.contains_key(k) implies exists|i: int|
            0 <= i < self.vars@.len() && #[trigger] self.vars@[i].0@ == k by {
            if k != name@ {
                let i = choose|i: int| 0 <= i < old_vars.len() && #[trigger] old_vars[i].0@ == k;
                assert(self.vars@[i].0@ == k);
            } else {
                assert(self.vars@[idx].0@ == k);
            }
        }
    }

    /// Removes the top of the stack and returns it; fails with `EmptyStack`
    /// and changes nothing when the stack is empty.
    pub fn pop(&mut self) -> (r: Result<Value, EngineError>)
        requires
            old(self).wf(),
        ensures
            final(self).wf(),
            old(self)@.stack.len() == 0 ==> final(self)@ == old(self)@ && result_view(r) == Err::<
                ValueModel,
                ErrorModel,
            >(ErrorModel::EmptyStack),
            old(self)@.stack.len() > 0 ==> final(self)@ == (MachineState {
                stack: old(self)@.stack.drop_last(),
                ..old(self)@
            }) && result_view(r) == Ok::<ValueModel, ErrorModel>(old(self)@.stack.last()),
    {
        let ghost before = self.stack@;
        let popped = self.stack.pop();
        assert(self.vars@ == old(self).vars@ && self.table@ == old(self).table@);
        match popped {
            Some(v) => {
                assert(self.stack@.map_values(|v: Value| v@) =~= before.map_values(
                    |v: Value| v@,
                ).drop_last());
                Ok(v)
            },
            None => Err(EngineError::EmptyStack),
        }
    }

    fn push(&mut self, v: Value)
        requires
            old(self).wf(),
        ensures
            final(self).wf(),
            final(self)@ == (MachineState { stack: old(self)@.stack.push(v@), ..old(self)@ }),
    {
        let ghost before = self.stack@;
        self.stack.push(v);
        assert(self.vars@ == old(self).vars@ && self.table@ == old(self).table@);
        assert(self.stack@.map_values(|v: Value| v@) =~= before.map_values(|v: Value| v@).push(
            v@,
        ));
    }

    /// Combines the two operands of `add`: `lhs` is the value popped first.
    pub fn add(&self, lhs: Value, rhs: Value) -> (r: Result<Value, EngineError>)
        ensures
            result_view(r) == combine(lhs@, rhs@),
    {
        match (lhs, rhs) {
            (Value::Int(a), Value::Int(b)) => Ok(Value::Int(a.wrapping_add(b))),
            (Value::String(a), Value::String(b)) => Ok(Value::String(a.concat(b.as_str()))),
            _ => Err(EngineError::TypeMismatch),
        }
    }

    /// Runs `commands` in order and returns the last value that `get` or `pop`
    /// produced (`Nothing` if none did), or the first error. The state is left
    /// as the commands before the failure left it.
    pub fn evaluate(&mut self, commands: &[Command]) -> (r: Result<Value, EngineError>)
        requires
            old(self).wf(),
        ensures
            final(self).wf(),
            run(old(self)@, command_models(commands@)) == (match r {
                Ok(v) => Ok((final(self)@, v@)),
                Err(e) => Err((final(self)@, e@)),
            }),
    {
        let ghost start = self@;
        let ghost cms = command_models(commands@);
        let mut output = Value::Nothing;
        let mut i: usize = 0;
        while i < commands.len()
            invariant
                self.wf(),
                start == old(self)@,
                i <= commands@.len(),
                cms == command_models(commands@),
                run(start, cms.take(i as int)) == Outcome::Ok((self@, output@)),
            decreases commands@.len() - i,
        {
            assert(cms.take(i + 1).drop_last() =~= cms.take(i as int));
            assert(cms.take(i + 1).last() == commands@[i as int]@);
            match &commands[i] {
                Command::SetVar(name, value) => {
                    self.set_var(name, value);
                },
                Command::GetVar(name) => match self.find(name) {
                    Some(j) => {
                        output = self.vars[j].1.duplicate();
                    },
                    None => {
                        let e = EngineError::MissingVariable(name.clone());
                        proof {
                            lemma_run_stops_at_failure(start, cms, i + 1);
                        }
                        return Err(e);
                    },
                },
                Command::PushVar(name) => match self.find(name) {
                    Some(j) => {
                        let v = self.vars[j].1.duplicate();
                        self.push(v);
                    },
                    None => {
                        let e = EngineError::MissingVariable(name.clone());
                        proof {
                            lemma_run_stops_at_failure(start, cms, i + 1);
                        }
                        return Err(e);
                    },
                },
                Command::Push(v) => {
                    self.push(v.duplicate());
                },
                Command::Pop => match self.pop() {
                    Ok(v) => {
                        output = v;
                    },
                    Err(e) => {
                        proof {
                            lemma_run_stops_at_failure(start, cms, i + 1);
                        }
                        return Err(e);
                    },
                },
                Command::Add => {
                    let lhs = match self.pop() {
                        Ok(v) => v,
                        Err(e) => {
                            proof {
                                lemma_run_stops_at_failure(start, cms, i + 1);
                            }
                            return Err(e);
                        },
                    };
                    let rhs = match self.pop() {
                        Ok(v) => v,
                        Err(e) => {
                            proof {
                                lemma_run_stops_at_failure(start, cms, i + 1);
                            }
                            return Err(e);
                        },
                    };
                    match self.add(lhs, rhs) {
                        Ok(v) => {
                            self.push(v);
                        },
                        Err(e) => {
                            proof {
                                lemma_run_stops_at_failure(start, cms, i + 1);
                            }
                            return Err(e);
                        },
                    }
                },
            }
            i = i + 1;
        }
        assert(cms.take(commands@.len() as int) =~= cms);
        Ok(output)
    }
}

} // verus!
