//! The evaluator as a sequence of steps. Each step runs until a value is
//! needed that only the caller's arithmetic can give, and says which; the
//! caller computes it and resumes.

use vstd::prelude::*;
use vstd::string::*;
use crate::error::EvalError;
use crate::error::EvalFailure;
use crate::evaluation::environment::Environment;
use crate::evaluation::semantics::combine;
use crate::evaluation::semantics::is_zero;
use crate::evaluation::semantics::value;
use crate::evaluation::semantics::Arithmetic;
use crate::expression::Expression;
use crate::expression::Node;
use crate::expression::Operator;
use crate::expression::Term;
use crate::number::Literal;
use crate::number::Number;

verus! {

/// One piece of work that an evaluation has before it.
pub enum Work {
    /// Evaluate this term and put its value on the values.
    Visit(Term),
    /// Take the two last values off and put what the operator gives on them.
    Apply(Operator),
}

/// What doing all of `work`, the last piece first, leads to from `values`: the
/// one value that is left at the end, or the first failure on the way.
pub open spec fn outcome(
    work: Seq<Work>,
    values: Seq<u64>,
    environment: Map<Seq<char>, u64>,
    arithmetic: Arithmetic,
) -> Result<u64, EvalFailure>
    decreases work.len(),
{
    if work.len() == 0 {
        Ok(values.last())
    } else {
        match work.last() {
            Work::Visit(term) => match value(term, environment, arithmetic) {
                Err(failure) => Err(failure),
                Ok(v) => outcome(work.drop_last(), values.push(v), environment, arithmetic),
            },
            Work::Apply(operator) => match combine(
                operator,
                values[values.len() - 2],
                values.last(),
                arithmetic,
            ) {
                Err(failure) => Err(failure),
                Ok(v) => outcome(
                    work.drop_last(),
                    values.drop_last().drop_last().push(v),
                    environment,
                    arithmetic,
                ),
            },
        }
    }
}

/// Whether `work` can be done from `count` values: no operator finds fewer
/// than two, and one value is left at the end.
pub open spec fn balanced(work: Seq<Work>, count: int) -> bool
    decreases work.len(),
{
    if work.len() == 0 {
        count == 1
    } else {
        match work.last() {
            Work::Visit(_) => balanced(work.drop_last(), count + 1),
            Work::Apply(_) => count >= 2 && balanced(work.drop_last(), count - 1),
        }
    }
}

/// The size of a term: one for a leaf, two more than its operands for an
/// operator.
pub open spec fn size(term: Term) -> nat
    decreases term,
{
    match term {
        Term::Binary(_, left, right) => size(*left) + size(*right) + 2,
        _ => 1,
    }
}

/// A bound on the steps that `work` takes: the sizes of the terms to visit,
/// and one for each operator to apply.
pub open spec fn weight(work: Seq<Work>) -> nat
    decreases work.len(),
{
    if work.len() == 0 {
        0
    } else {
        weight(work.drop_last()) + match work.last() {
            Work::Visit(term) => size(term),
            Work::Apply(_) => 1,
        }
    }
}

/// The view of an [`Evaluation`]: the work before it, the values it holds,
/// and the environment it reads.
pub struct Suspended {
    pub work: Seq<Work>,
    pub values: Seq<u64>,
    pub environment: Map<Seq<char>, u64>,
}

impl Suspended {
    /// What the evaluation leads to once it is resumed with `reply`.
    pub open spec fn resumed(self, reply: u64, arithmetic: Arithmetic) -> Result<u64, EvalFailure> {
        outcome(self.work, self.values.push(reply), self.environment, arithmetic)
    }

    /// A bound on the number of values that the evaluation still needs, the
    /// one it has stopped for included.
    pub open spec fn remaining(self) -> nat {
        weight(self.work) + 1
    }
}

/// Visiting an operator's node is visiting its left operand, then its right
/// operand, then applying the operator.
pub proof fn lemma_visit_operator(
    work: Seq<Work>,
    values: Seq<u64>,
    environment: Map<Seq<char>, u64>,
    arithmetic: Arithmetic,
    operator: Operator,
    left: Term,
    right: Term,
)
    ensures
        outcome(
            work.push(Work::Apply(operator)).push(Work::Visit(right)).push(Work::Visit(left)),
            values,
            environment,
            arithmetic,
        ) == outcome(
            work.push(Work::Visit(Term::Binary(operator, Box::new(left), Box::new(right)))),
            values,
            environment,
            arithmetic,
        ),
{
    let applied = work.push(Work::Apply(operator));
    let second = applied.push(Work::Visit(right));
    let first = second.push(Work::Visit(left));
    let node = work.push(Work::Visit(Term::Binary(operator, Box::new(left), Box::new(right))));
    assert(first.drop_last() =~= second);
    assert(second.drop_last() =~= applied);
    assert(applied.drop_last() =~= work);
    assert(node.drop_last() =~= work);
    if let Ok(x) = value(left, environment, arithmetic) {
        if let Ok(y) = value(right, environment, arithmetic) {
            let both = values.push(x).push(y);
            assert(both.drop_last().drop_last() =~= values);
            assert(outcome(second, values.push(x), environment, arithmetic) == outcome(
                applied,
                both,
                environment,
                arithmetic,
            ));
        }
    }
}

/// One piece of work, as the evaluation holds it.
enum Task<'a> {
    Visit(&'a Expression),
    Apply(Operator),
}

impl<'a> Task<'a> {
    spec fn work(self) -> Work {
        match self {
            Task::Visit(expression) => Work::Visit(expression@),
            Task::Apply(operator) => Work::Apply(operator),
        }
    }
}

spec fn works<'a>(tasks: Seq<Task<'a>>) -> Seq<Work> {
    tasks.map_values(|task: Task<'a>| task.work())
}

/// An evaluation that has stopped for a value it needs. It is resumed, once,
/// with that value.
pub struct Evaluation<'a> {
    tasks: Vec<Task<'a>>,
    values: Vec<u64>,
    variables: &'a Environment,
}

impl<'a> View for Evaluation<'a> {
    type V = Suspended;

    closed spec fn view(&self) -> Suspended {
        Suspended {
            work: works(self.tasks@),
            values: self.values@,
            environment: self.variables@,
        }
    }
}

impl<'a> Evaluation<'a> {
    #[verifier::type_invariant]
    spec fn well_formed(self) -> bool {
        balanced(works(self.tasks@), self.values.len() + 1)
    }

    /// Goes on with `reply` as the value that was asked for, up to the next
    /// value that is needed, or to the end.
    ///
    /// Where each reply is what one arithmetic gives, the meaning of the
    /// progress under that arithmetic stays what it was from the first step
    /// on: the value of the expression.
    pub fn resume(self, reply: u64) -> (progress: Progress<'a>)
        ensures
            forall|arithmetic: Arithmetic| #[trigger]
                progress.meaning(arithmetic) == self@.resumed(reply, arithmetic),
            progress.sound(),
            progress.remaining() < self@.remaining(),
    {
        proof {
            use_type_invariant(&self);
        }
        let Evaluation { tasks, mut values, variables } = self;
        values.push(reply);
        run(tasks, values, variables)
    }
}

impl Expression {
    /// Begins the evaluation of the expression against `variables`, and takes
    /// it up to the first value that is needed from the caller, or to the end.
    ///
    /// Operands are evaluated from the left, and the first failure ends the
    /// evaluation: a variable that `variables` does not hold, or a divisor
    /// that is a zero.
    pub fn evaluate<'a>(&'a self, variables: &'a Environment) -> (progress: Progress<'a>)
        ensures
            forall|arithmetic: Arithmetic| #[trigger]
                progress.meaning(arithmetic) == value(self@, variables@, arithmetic),
            progress.sound(),
            progress.remaining() <= size(self@),
    {
        let mut tasks: Vec<Task<'a>> = Vec::new();
        tasks.push(Task::Visit(self));
        let values: Vec<u64> = Vec::new();
        proof {
            let work = works(tasks@);
            assert(work =~= seq![Work::Visit(self@)]);
            assert(work.drop_last() =~= Seq::<Work>::empty());
            assert(balanced(work.drop_last(), 1));
            assert(weight(work.drop_last()) == 0);
            assert(weight(work) == size(self@));
            assert forall|arithmetic: Arithmetic| #[trigger]
                outcome(work, values@, variables@, arithmetic) == value(
                    self@,
                    variables@,
                    arithmetic,
                ) by {
                if let Ok(v) = value(self@, variables@, arithmetic) {
                    assert(outcome(work.drop_last(), values@.push(v), variables@, arithmetic)
                        == Ok::<u64, EvalFailure>(v));
                }
            }
        }
        run(tasks, values, variables)
    }
}

/// Where an evaluation stands.
pub enum Progress<'a> {
    /// It needs the value of this literal.
    Literal(Evaluation<'a>, &'a Literal),
    /// It needs what this operator gives on these two values, the left one
    /// first. A division is never asked for with a zero as the divisor.
    Compute(Evaluation<'a>, Operator, u64, u64),
    /// It is over, with the expression's value or the reason why it has none.
    Finished(Result<u64, EvalError>),
}

impl<'a> Progress<'a> {
    /// What the evaluation leads to, where every value that is asked for from
    /// here on is given as `arithmetic` has it.
    pub open spec fn meaning(self, arithmetic: Arithmetic) -> Result<u64, EvalFailure> {
        match self {
            Progress::Literal(evaluation, literal) => evaluation@.resumed(
                (arithmetic.literal)(literal@),
                arithmetic,
            ),
            Progress::Compute(evaluation, operator, left, right) => evaluation@.resumed(
                (arithmetic.apply)(operator, left, right),
                arithmetic,
            ),
            Progress::Finished(result) => failure_view(result),
        }
    }

    /// Whether what is asked for may be asked: no division by a zero.
    pub open spec fn sound(self) -> bool {
        self matches Progress::Compute(_, operator, _, right) ==> !(operator == Operator::Divide
            && is_zero(right))
    }

    /// A bound on the number of values that will still be asked for, this one
    /// included.
    pub open spec fn remaining(self) -> nat {
        match self {
            Progress::Literal(evaluation, _) => evaluation@.remaining(),
            Progress::Compute(evaluation, _, _, _) => evaluation@.remaining(),
            Progress::Finished(_) => 0,
        }
    }

    /// Takes the evaluation to its end, with `literal` for the value of each
    /// number literal and `apply` for the result of each operator.
    ///
    /// Whatever arithmetic the two functions compute, the result is what the
    /// evaluation means under it. `apply` is never called for a division by a
    /// zero.
    pub fn complete<L, A>(self, literal: &L, apply: &A) -> (r: Result<u64, EvalError>) where
        L: Fn(&Literal) -> u64,
        A: Fn(Operator, u64, u64) -> u64,

        requires
            self.sound(),
            forall|written: &Literal| literal.requires((written,)),
            forall|operator: Operator, left: u64, right: u64|
                !(operator == Operator::Divide && is_zero(right)) ==> apply.requires(
                    (operator, left, right),
                ),
        ensures
            forall|arithmetic: Arithmetic|
                computes(literal, apply, arithmetic) ==> #[trigger] self.meaning(arithmetic)
                    == failure_view(r),
    {
        let mut progress = self;
        loop
            invariant
                progress.sound(),
                forall|written: &Literal| literal.requires((written,)),
                forall|operator: Operator, left: u64, right: u64|
                    !(operator == Operator::Divide && is_zero(right)) ==> apply.requires(
                        (operator, left, right),
                    ),
                forall|arithmetic: Arithmetic|
                    computes(literal, apply, arithmetic) ==> #[trigger] self.meaning(arithmetic)
                        == progress.meaning(arithmetic),
            decreases progress.remaining(),
        {
            let ghost before = progress;
            progress =
            match progress {
                Progress::Literal(evaluation, written) => {
                    let reply = literal(written);
                    evaluation.resume(reply)
                },
                Progress::Compute(evaluation, operator, left, right) => {
                    let reply = apply(operator, left, right);
                    evaluation.resume(reply)
                },
                Progress::Finished(result) => {
                    return result;
                },
            };
            proof {
                assert forall|arithmetic: Arithmetic|
                    computes(literal, apply, arithmetic) implies #[trigger] self.meaning(
                    arithmetic,
                ) == progress.meaning(arithmetic) by {
                    assert(before.meaning(arithmetic) == progress.meaning(arithmetic));
                }
            }
        }
    }
}

/// Whether `literal` and `apply` compute what `arithmetic` says: whatever they
/// return for some arguments is what it gives for them.
pub open spec fn computes<L, A>(literal: &L, apply: &A, arithmetic: Arithmetic) -> bool where
    L: Fn(&Literal) -> u64,
    A: Fn(Operator, u64, u64) -> u64,
 {
    &&& forall|written: &Literal, v: u64| #[trigger]
        literal.ensures((written,), v) ==> v == (arithmetic.literal)(written@)
    &&& forall|operator: Operator, left: u64, right: u64, v: u64| #[trigger]
        apply.ensures((operator, left, right), v) ==> v == (arithmetic.apply)(
            operator,
            left,
            right,
        )
}

/// The view of an evaluation's result.
pub open spec fn failure_view(result: Result<u64, EvalError>) -> Result<u64, EvalFailure> {
    match result {
        Ok(v) => Ok(v),
        Err(error) => Err(error@),
    }
}

/// Exec counterpart of [`is_zero`].
fn bits_are_zero(bits: u64) -> (r: bool)
    ensures
        r == is_zero(bits),
{
    bits == 0 || bits == 0x8000_0000_0000_0000
}

/// Does the work in `tasks`, the last piece first, until a value is needed
/// from the caller or nothing is left to do.
#[verifier::loop_isolation(false)]
fn run<'a>(tasks: Vec<Task<'a>>, values: Vec<u64>, variables: &'a Environment) -> (progress: Progress<'a>)
    requires
        balanced(works(tasks@), values.len() as int),
    ensures
        forall|arithmetic: Arithmetic| #[trigger]
            progress.meaning(arithmetic) == outcome(
                works(tasks@),
                values@,
                variables@,
                arithmetic,
            ),
        progress.sound(),
        progress.remaining() <= weight(works(tasks@)),
{
    let ghost start_work = works(tasks@);
    let ghost start_values = values@;
    let mut tasks = tasks;
    let mut values = values;
    loop
        invariant
            balanced(works(tasks@), values.len() as int),
            forall|arithmetic: Arithmetic|
                outcome(works(tasks@), values@, variables@, arithmetic) == #[trigger] outcome(
                    start_work,
                    start_values,
                    variables@,
                    arithmetic,
                ),
            weight(works(tasks@)) <= weight(start_work),
        decreases weight(works(tasks@)),
    {
        let ghost work = works(tasks@);
        let ghost held = values@;
        let task = tasks.pop();
        proof {
            if task is Some {
                assert(work.drop_last() =~= works(tasks@));
                assert(work.last() == task.unwrap().work());
            }
        }
        match task {
            None => {
                let progress = Progress::Finished(Ok(values[0]));
                proof {
                    assert forall|arithmetic: Arithmetic| #[trigger]
                        progress.meaning(arithmetic) == outcome(
                            start_work,
                            start_values,
                            variables@,
                            arithmetic,
                        ) by {
                        assert(outcome(work, held, variables@, arithmetic) == Ok::<u64, EvalFailure>(
                            held.last(),
                        ));
                    }
                }
                return progress;
            },
            Some(Task::Apply(operator)) => {
                let right = values.pop().unwrap();
                let left = values.pop().unwrap();
                proof {
                    assert(values@ =~= held.drop_last().drop_last());
                }
                if operator == Operator::Divide && bits_are_zero(right) {
                    let progress = Progress::Finished(Err(EvalError::DivisionByZero));
                    proof {
                        assert forall|arithmetic: Arithmetic| #[trigger]
                            progress.meaning(arithmetic) == outcome(
                                start_work,
                                start_values,
                                variables@,
                                arithmetic,
                            ) by {
                            assert(outcome(work, held, variables@, arithmetic) == Err::<
                                u64,
                                EvalFailure,
                            >(EvalFailure::DivisionByZero));
                        }
                    }
                    return progress;
                }
                let progress = Progress::Compute(
                    Evaluation { tasks, values, variables },
                    operator,
                    left,
                    right,
                );
                proof {
                    assert forall|arithmetic: Arithmetic| #[trigger]
                        progress.meaning(arithmetic) == outcome(
                            start_work,
                            start_values,
                            variables@,
                            arithmetic,
                        ) by {
                        assert(outcome(work, held, variables@, arithmetic) == outcome(
                            work.drop_last(),
                            held.drop_last().drop_last().push(
                                (arithmetic.apply)(operator, left, right),
                            ),
                            variables@,
                            arithmetic,
                        ));
                    }
                    assert(weight(work) == weight(work.drop_last()) + 1);
                }
                return progress;
            },
            Some(Task::Visit(expression)) => {
                match expression.node() {
                    Node::Binary(operator, left, right) => {
                        tasks.push(Task::Apply(operator));
                        tasks.push(Task::Visit(right));
                        tasks.push(Task::Visit(left));
                        proof {
                            let rest = work.drop_last();
                            assert(works(tasks@) =~= rest.push(Work::Apply(operator)).push(
                                Work::Visit(right@),
                            ).push(Work::Visit(left@)));
                            assert(work =~= rest.push(Work::Visit(expression@)));
                            assert forall|arithmetic: Arithmetic|
                                outcome(works(tasks@), values@, variables@, arithmetic)
                                    == #[trigger] outcome(
                                    start_work,
                                    start_values,
                                    variables@,
                                    arithmetic,
                                ) by {
                                lemma_visit_operator(
                                    rest,
                                    held,
                                    variables@,
                                    arithmetic,
                                    operator,
                                    left@,
                                    right@,
                                );
                            }
                            lemma_weight_of_operator(rest, operator, left@, right@);
                            lemma_balanced_operator(rest, held.len() as int, operator, left@, right@);
                        }
                    },
                    Node::Number(Number::Written(literal)) => {
                        let progress = Progress::Literal(
                            Evaluation { tasks, values, variables },
                            literal,
                        );
                        proof {
                            assert forall|arithmetic: Arithmetic| #[trigger]
                                progress.meaning(arithmetic) == outcome(
                                    start_work,
                                    start_values,
                                    variables@,
                                    arithmetic,
                                ) by {
                                assert(outcome(work, held, variables@, arithmetic) == outcome(
                                    work.drop_last(),
                                    held.push((arithmetic.literal)(literal@)),
                                    variables@,
                                    arithmetic,
                                ));
                            }
                            assert(weight(work) == weight(work.drop_last()) + 1);
                        }
                        return progress;
                    },
                    Node::Number(Number::Value(bits)) => {
                        values.push(*bits);
                        proof {
                            assert forall|arithmetic: Arithmetic|
                                outcome(works(tasks@), values@, variables@, arithmetic)
                                    == #[trigger] outcome(
                                    start_work,
                                    start_values,
                                    variables@,
                                    arithmetic,
                                ) by {
                                assert(outcome(work, held, variables@, arithmetic) == outcome(
                                    work.drop_last(),
                                    held.push(*bits),
                                    variables@,
                                    arithmetic,
                                ));
                            }
                            assert(weight(work) == weight(work.drop_last()) + 1);
                        }
                    },
                    Node::Variable(name) => match variables.get(name.as_str()) {
                        Some(v) => {
                            values.push(v);
                            proof {
                                assert forall|arithmetic: Arithmetic|
                                    outcome(works(tasks@), values@, variables@, arithmetic)
                                        == #[trigger] outcome(
                                        start_work,
                                        start_values,
                                        variables@,
                                        arithmetic,
                                    ) by {
                                    assert(outcome(work, held, variables@, arithmetic) == outcome(
                                        work.drop_last(),
                                        held.push(v),
                                        variables@,
                                        arithmetic,
                                    ));
                                }
                                assert(weight(work) == weight(work.drop_last()) + 1);
                            }
                        },
                        None => {
                            let progress = Progress::Finished(
                                Err(EvalError::UnknownVariable(name.clone())),
                            );
                            proof {
                                assert forall|arithmetic: Arithmetic| #[trigger]
                                    progress.meaning(arithmetic) == outcome(
                                        start_work,
                                        start_values,
                                        variables@,
                                        arithmetic,
                                    ) by {
                                    assert(outcome(work, held, variables@, arithmetic) == Err::<
                                        u64,
                                        EvalFailure,
                                    >(EvalFailure::UnknownVariable(name@)));
                                }
                            }
                            return progress;
                        },
                    },
                }
            },
        }
    }
}

/// The weight of an operator's node, spread out.
proof fn lemma_weight_of_operator(work: Seq<Work>, operator: Operator, left: Term, right: Term)
    ensures
        weight(work.push(Work::Apply(operator)).push(Work::Visit(right)).push(Work::Visit(left)))
            < weight(work.push(Work::Visit(Term::Binary(operator, Box::new(left), Box::new(right))))),
{
    let applied = work.push(Work::Apply(operator));
    let second = applied.push(Work::Visit(right));
    let first = second.push(Work::Visit(left));
    let node = work.push(Work::Visit(Term::Binary(operator, Box::new(left), Box::new(right))));
    assert(first.drop_last() =~= second);
    assert(second.drop_last() =~= applied);
    assert(applied.drop_last() =~= work);
    assert(node.drop_last() =~= work);
    assert(weight(first) == weight(second) + size(left));
    assert(weight(second) == weight(applied) + size(right));
    assert(weight(applied) == weight(work) + 1);
    assert(weight(node) == weight(work) + size(left) + size(right) + 2);
}

/// An operator's node, spread out, needs as many values as the node.
proof fn lemma_balanced_operator(
    work: Seq<Work>,
    count: int,
    operator: Operator,
    left: Term,
    right: Term,
)
    requires
        balanced(
            work.push(Work::Visit(Term::Binary(operator, Box::new(left), Box::new(right)))),
            count,
        ),
        count >= 0,
    ensures
        balanced(
            work.push(Work::Apply(operator)).push(Work::Visit(right)).push(Work::Visit(left)),
            count,
        ),
{
    let applied = work.push(Work::Apply(operator));
    let second = applied.push(Work::Visit(right));
    let first = second.push(Work::Visit(left));
    let node = work.push(Work::Visit(Term::Binary(operator, Box::new(left), Box::new(right))));
    assert(first.drop_last() =~= second);
    assert(second.drop_last() =~= applied);
    assert(applied.drop_last() =~= work);
    assert(node.drop_last() =~= work);
    assert(balanced(applied, count + 2));
    assert(balanced(second, count + 1));
}

} // verus!
