//! What holds of every evaluation and every run.

use crate::number::fits;
use crate::runtime::{
    combine, evaluate, operand, plus, run, Environment, Evaluation, ExecErrorView, Run, ValueView,
};
use crate::tokenize::{Keyword, Operator, TokenView};
use vstd::prelude::*;

verus! {

/// The queue of `let name = a + b` followed by `let name = name - b`.
pub open spec fn add_then_subtract(name: Seq<char>, a: i64, b: i64) -> Seq<TokenView> {
    seq![
        TokenView::Keyword(Keyword::Let),
        TokenView::Variable(name),
        TokenView::Operator(Operator::Equals),
        TokenView::Number(a),
        TokenView::Operator(Operator::Plus),
        TokenView::Number(b),
        TokenView::Keyword(Keyword::Let),
        TokenView::Variable(name),
        TokenView::Operator(Operator::Equals),
        TokenView::Variable(name),
        TokenView::Operator(Operator::Subtract),
        TokenView::Number(b),
    ]
}

/// Binding a variable to `a + b` and then to itself less `b` leaves it bound to
/// `a`, whenever the sum fits in 64 signed bits.
pub proof fn law_add_then_subtract(name: Seq<char>, a: i64, b: i64, env: Environment)
    requires
        fits(a + b),
    ensures
        run(add_then_subtract(name, a, b), env) == (Run {
            status: Ok(()),
            tokens: Seq::empty(),
            variables: env.insert(name, ValueView::Number(a)),
        }),
{
    let q = add_then_subtract(name, a, b);
    let sum = ValueView::Number((a + b) as i64);
    let second = q.skip(6);
    let end = second.skip(6);
    let bound = env.insert(name, sum);

    // The first statement binds the sum and leaves the second statement.
    assert(q.skip(4).skip(2) == second);
    assert(evaluate(q[5], second, env).outcome == Ok::<ValueView, ExecErrorView>(
        ValueView::Number(b),
    ));
    assert(evaluate(q[3], q.skip(4), env) == Evaluation { outcome: Ok(sum), rest: second });
    assert(run(q, env) == run(second, bound));

    // The second statement reads the sum and takes `b` off again.
    assert(second.skip(4).skip(2) == end);
    assert(evaluate(second[5], end, bound).outcome == Ok::<ValueView, ExecErrorView>(
        ValueView::Number(b),
    ));
    assert(evaluate(second[3], second.skip(4), bound) == Evaluation {
        outcome: Ok(ValueView::Number(a)),
        rest: end,
    });
    assert(bound.insert(name, ValueView::Number(a)) == env.insert(name, ValueView::Number(a)));
    assert(run(second, bound) == run(end, env.insert(name, ValueView::Number(a))));
    assert(end == Seq::<TokenView>::empty());
}

/// Joining strings is associative.
pub proof fn law_concatenation_is_associative(a: Seq<char>, b: Seq<char>, c: Seq<char>)
    ensures
        plus(ValueView::String(a), ValueView::String(b + c)) == plus(
            ValueView::String(a + b),
            ValueView::String(c),
        ),
        plus(ValueView::String(a), ValueView::String(b + c)) == Ok::<ValueView, ExecErrorView>(
            ValueView::String(a + b + c),
        ),
{
    assert(a + (b + c) == a + b + c);
}

/// A chain of three strings joined by `+` evaluates, from the right, to the
/// three joined in order.
pub proof fn law_string_chain(a: Seq<char>, b: Seq<char>, c: Seq<char>, env: Environment)
    ensures
        evaluate(
            TokenView::String(a),
            seq![
                TokenView::Operator(Operator::Plus),
                TokenView::String(b),
                TokenView::Operator(Operator::Plus),
                TokenView::String(c),
            ],
            env,
        ) == (Evaluation { outcome: Ok(ValueView::String(a + b + c)), rest: Seq::empty() }),
{
    let q = seq![
        TokenView::Operator(Operator::Plus),
        TokenView::String(b),
        TokenView::Operator(Operator::Plus),
        TokenView::String(c),
    ];
    let tail = q.skip(2);
    let end = tail.skip(2);
    assert(end == Seq::<TokenView>::empty());
    let last = evaluate(tail[1], end, env);
    assert(last == Evaluation { outcome: Ok(ValueView::String(c)), rest: end });
    let middle = evaluate(q[1], tail, env);
    assert(middle == Evaluation { outcome: Ok(ValueView::String(b + c)), rest: end });
    assert(a + (b + c) == a + b + c);
}

/// A chain of two operators is folded from the right: `x p y q z` is
/// `x p (y q z)`, whatever the operators, and an error of `y q z` is the
/// error of the whole.
pub proof fn law_chain_folds_from_the_right(
    x: TokenView,
    p: Operator,
    y: TokenView,
    q: Operator,
    z: TokenView,
    env: Environment,
)
    requires
        p.is_arithmetic(),
        q.is_arithmetic(),
        operand(x, env) is Ok,
        operand(y, env) is Ok,
        operand(z, env) is Ok,
    ensures
        evaluate(x, seq![TokenView::Operator(p), y, TokenView::Operator(q), z], env) == (Evaluation {
            outcome: match combine(q, operand(y, env)->Ok_0, operand(z, env)->Ok_0) {
                Ok(right) => combine(p, operand(x, env)->Ok_0, right),
                Err(e) => Err(e),
            },
            rest: Seq::empty(),
        }),
{
    let queue = seq![TokenView::Operator(p), y, TokenView::Operator(q), z];
    let tail = queue.skip(2);
    let end = tail.skip(2);
    assert(end == Seq::<TokenView>::empty());
    assert(evaluate(z, end, env) == Evaluation { outcome: operand(z, env), rest: end });
    assert(evaluate(y, tail, env) == Evaluation {
        outcome: combine(q, operand(y, env)->Ok_0, operand(z, env)->Ok_0),
        rest: end,
    });
}

/// Evaluating a variable that the environment does not bind fails with
/// `VariableNotFound`, whatever else is bound and whatever the queue holds, and
/// takes nothing off the queue.
pub proof fn law_unbound_variable_fails(name: Seq<char>, queue: Seq<TokenView>, env: Environment)
    requires
        !env.contains_key(name),
    ensures
        evaluate(TokenView::Variable(name), queue, env) == (Evaluation {
            outcome: Err(ExecErrorView::VariableNotFound(name)),
            rest: queue,
        }),
{
}

/// A queue without `let` runs to its end without an error and leaves the
/// environment as it was.
pub proof fn law_run_without_let(queue: Seq<TokenView>, env: Environment)
    requires
        forall|i: int| 0 <= i < queue.len() ==> queue[i] != TokenView::Keyword(Keyword::Let),
    ensures
        run(queue, env) == (Run { status: Ok(()), tokens: Seq::empty(), variables: env }),
    decreases queue.len(),
{
    if queue.len() == 0 {
        assert(queue == Seq::<TokenView>::empty());
    } else {
        law_run_without_let(queue.skip(1), env);
    }
}

} // verus!
