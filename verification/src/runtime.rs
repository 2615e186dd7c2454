//! Values, and the executor that runs a token queue against an environment.

use crate::number::fits;
use crate::text::texts;
use crate::tokenize::{token_views, Keyword, Operator, Token, TokenView};
use vstd::hash_map::StringHashMap;
use vstd::prelude::*;

verus! {

/// The kind of a value, as error messages name it.
#[derive(Clone, Copy, Debug, PartialEq, Eq, Structural)]
pub enum TypeTag {
    String,
    Number,
    Boolean,
    Null,
}

impl TypeTag {
    /// The tag's name.
    pub open spec fn name(self) -> Seq<char> {
        match self {
            TypeTag::String => "String"@,
            TypeTag::Number => "Number"@,
            TypeTag::Boolean => "Boolean"@,
            TypeTag::Null => "Null"@,
        }
    }

    /// The tag's name.
    pub fn as_str(self) -> (r: &'static str)
        ensures
            r@ == self.name(),
    {
        match self {
            TypeTag::String => "String",
            TypeTag::Number => "Number",
            TypeTag::Boolean => "Boolean",
            TypeTag::Null => "Null",
        }
    }
}

/// Why a run stopped.
#[derive(Debug)]
pub enum ExecError {
    /// A `let` and its variable are not followed by `=`.
    EqualsExpected,
    /// A variable is read that no `let` has bound.
    VariableNotFound { name: String },
    /// An operator is applied to values that it does not combine.
    TypeMismatch { left: TypeTag, right: TypeTag },
    /// A result does not fit in 64 signed bits.
    Overflow,
    /// A number is divided by zero.
    DivisionByZero,
    /// The queue ends where a statement or an expression needs one more token.
    UnexpectedEnd,
}

/// An error, with the name it holds as a sequence of characters.
pub enum ExecErrorView {
    EqualsExpected,
    VariableNotFound(Seq<char>),
    TypeMismatch(TypeTag, TypeTag),
    Overflow,
    DivisionByZero,
    UnexpectedEnd,
}

impl ExecErrorView {
    /// The text that describes the error.
    pub open spec fn message(self) -> Seq<char> {
        match self {
            ExecErrorView::EqualsExpected => "Equals expected"@,
            ExecErrorView::VariableNotFound(name) => "Variable not found "@ + name,
            ExecErrorView::TypeMismatch(left, right) => "Cannot add types "@ + left.name()
                + " and "@ + right.name(),
            ExecErrorView::Overflow => "Arithmetic overflow"@,
            ExecErrorView::DivisionByZero => "Division by zero"@,
            ExecErrorView::UnexpectedEnd => "Unexpected end of input"@,
        }
    }
}

impl View for ExecError {
    type V = ExecErrorView;

    open spec fn view(&self) -> ExecErrorView {
        match self {
            ExecError::EqualsExpected => ExecErrorView::EqualsExpected,
            ExecError::VariableNotFound { name } => ExecErrorView::VariableNotFound(name@),
            ExecError::TypeMismatch { left, right } => ExecErrorView::TypeMismatch(*left, *right),
            ExecError::Overflow => ExecErrorView::Overflow,
            ExecError::DivisionByZero => ExecErrorView::DivisionByZero,
            ExecError::UnexpectedEnd => ExecErrorView::UnexpectedEnd,
        }
    }
}

impl ExecError {
    /// The text that describes the error.
    pub fn message(&self) -> (r: String)
        ensures
            r@ == self@.message(),
    {
        match self {
            ExecError::EqualsExpected => String::from_str("Equals expected"),
            ExecError::VariableNotFound { name } => {
                let mut r = String::from_str("Variable not found ");
                r.append(name.as_str());
                r
            },
            ExecError::TypeMismatch { left, right } => {
                let mut r = String::from_str("Cannot add types ");
                r.append(left.as_str());
                r.append(" and ");
                r.append(right.as_str());
                r
            },
            ExecError::Overflow => String::from_str("Arithmetic overflow"),
            ExecError::DivisionByZero => String::from_str("Division by zero"),
            ExecError::UnexpectedEnd => String::from_str("Unexpected end of input"),
        }
    }
}

/// What an expression evaluates to.
#[derive(Debug)]
pub enum Value {
    String(String),
    Number(i64),
    Boolean(bool),
    Null,
}

/// A value, with the text it holds as a sequence of characters.
pub enum ValueView {
    String(Seq<char>),
    Number(i64),
    Boolean(bool),
    Null,
}

impl ValueView {
    /// The kind of the value.
    pub open spec fn tag(self) -> TypeTag {
        match self {
            ValueView::String(_) => TypeTag::String,
            ValueView::Number(_) => TypeTag::Number,
            ValueView::Boolean(_) => TypeTag::Boolean,
            ValueView::Null => TypeTag::Null,
        }
    }
}

impl View for Value {
    type V = ValueView;

    open spec fn view(&self) -> ValueView {
        match self {
            Value::String(s) => ValueView::String(s@),
            Value::Number(n) => ValueView::Number(*n),
            Value::Boolean(b) => ValueView::Boolean(*b),
            Value::Null => ValueView::Null,
        }
    }
}

/// A value, or the error that kept it from being computed.
pub type Outcome = Result<ValueView, ExecErrorView>;

/// The view of an evaluation's result.
pub open spec fn outcome_of(r: Result<Value, ExecError>) -> Outcome {
    match r {
        Ok(v) => Ok(v@),
        Err(e) => Err(e@),
    }
}

/// The view of a run's result.
pub open spec fn status_of(r: Result<(), ExecError>) -> Result<(), ExecErrorView> {
    match r {
        Ok(_) => Ok(()),
        Err(e) => Err(e@),
    }
}

/// A number, or an overflow where it does not fit.
pub open spec fn number(n: int) -> Outcome {
    if fits(n) {
        Ok(ValueView::Number(n as i64))
    } else {
        Err(ExecErrorView::Overflow)
    }
}

/// The error for two values that an operator does not combine.
pub open spec fn mismatch(a: ValueView, b: ValueView) -> Outcome {
    Err(ExecErrorView::TypeMismatch(a.tag(), b.tag()))
}

/// The quotient of `a` by `b`, rounded toward zero.
pub open spec fn truncated_quotient(a: int, b: int) -> int
    recommends
        b != 0,
{
    let magnitude = (if a < 0 { -a } else { a }) / (if b < 0 { -b } else { b });
    if (a < 0) == (b < 0) {
        magnitude
    } else {
        -magnitude
    }
}

/// `a + b`: two strings are joined, two numbers are summed.
pub open spec fn plus(a: ValueView, b: ValueView) -> Outcome {
    match (a, b) {
        (ValueView::String(x), ValueView::String(y)) => Ok(ValueView::String(x + y)),
        (ValueView::Number(x), ValueView::Number(y)) => number(x + y),
        _ => mismatch(a, b),
    }
}

/// `a - b`: the difference of two numbers.
pub open spec fn minus(a: ValueView, b: ValueView) -> Outcome {
    match (a, b) {
        (ValueView::Number(x), ValueView::Number(y)) => number(x - y),
        _ => mismatch(a, b),
    }
}

/// `a * b`: the product of two numbers.
pub open spec fn times(a: ValueView, b: ValueView) -> Outcome {
    match (a, b) {
        (ValueView::Number(x), ValueView::Number(y)) => number(x * y),
        _ => mismatch(a, b),
    }
}

/// `a / b`: the quotient of two numbers, rounded toward zero. Nothing is
/// divided by zero.
pub open spec fn divided(a: ValueView, b: ValueView) -> Outcome {
    match (a, b) {
        (ValueView::Number(x), ValueView::Number(y)) => if y == 0 {
            Err(ExecErrorView::DivisionByZero)
        } else {
            number(truncated_quotient(x as int, y as int))
        },
        _ => mismatch(a, b),
    }
}

/// `a op b` for an arithmetic operator.
pub open spec fn combine(op: Operator, a: ValueView, b: ValueView) -> Outcome
    recommends
        op.is_arithmetic(),
{
    match op {
        Operator::Plus => plus(a, b),
        Operator::Subtract => minus(a, b),
        Operator::Multiply => times(a, b),
        _ => divided(a, b),
    }
}

impl Clone for Value {
    fn clone(&self) -> (r: Value)
        ensures
            r@ == self@,
    {
        match self {
            Value::String(s) => Value::String(s.clone()),
            Value::Number(n) => Value::Number(*n),
            Value::Boolean(b) => Value::Boolean(*b),
            Value::Null => Value::Null,
        }
    }
}

impl Value {
    /// The kind of the value.
    pub fn tag(&self) -> (t: TypeTag)
        ensures
            t == self@.tag(),
    {
        match self {
            Value::String(_) => TypeTag::String,
            Value::Number(_) => TypeTag::Number,
            Value::Boolean(_) => TypeTag::Boolean,
            Value::Null => TypeTag::Null,
        }
    }

    /// The number `n`, or an overflow where there is none.
    fn number(n: Option<i64>) -> (r: Result<Value, ExecError>)
        ensures
            outcome_of(r) == match n {
                Some(v) => Ok::<ValueView, ExecErrorView>(ValueView::Number(v)),
                None => Err(ExecErrorView::Overflow),
            },
    {
        match n {
            Some(v) => Ok(Value::Number(v)),
            None => Err(ExecError::Overflow),
        }
    }

    /// The error for two values that an operator does not combine.
    fn mismatch(&self, other: &Value) -> (r: Result<Value, ExecError>)
        ensures
            outcome_of(r) == mismatch(self@, other@),
    {
        Err(ExecError::TypeMismatch { left: self.tag(), right: other.tag() })
    }

    /// `self + other`.
    pub fn add(self, other: Value) -> (r: Result<Value, ExecError>)
        ensures
            outcome_of(r) == plus(self@, other@),
    {
        match (self, other) {
            (Value::String(a), Value::String(b)) => {
                let mut joined = a;
                joined.append(b.as_str());
                Ok(Value::String(joined))
            },
            (Value::Number(a), Value::Number(b)) => Self::number(a.checked_add(b)),
            (a, b) => a.mismatch(&b),
        }
    }

    /// `self - other`.
    pub fn sub(self, other: Value) -> (r: Result<Value, ExecError>)
        ensures
            outcome_of(r) == minus(self@, other@),
    {
        match (self, other) {
            (Value::Number(a), Value::Number(b)) => Self::number(a.checked_sub(b)),
            (a, b) => a.mismatch(&b),
        }
    }

    /// `self * other`.
    pub fn mul(self, other: Value) -> (r: Result<Value, ExecError>)
        ensures
            outcome_of(r) == times(self@, other@),
    {
        match (self, other) {
            (Value::Number(a), Value::Number(b)) => Self::number(a.checked_mul(b)),
            (a, b) => a.mismatch(&b),
        }
    }

    /// `self / other`.
    pub fn div(self, other: Value) -> (r: Result<Value, ExecError>)
        ensures
            outcome_of(r) == divided(self@, other@),
    {
        match (self, other) {
            (Value::Number(a), Value::Number(b)) => {
                if b == 0 {
                    Err(ExecError::DivisionByZero)
                } else {
                    Self::number(a.checked_div(b))
                }
            },
            (a, b) => a.mismatch(&b),
        }
    }
}

/// The bindings of variable names to values.
pub type Environment = Map<Seq<char>, ValueView>;

/// The value of one operand: a literal is itself, a variable is what the
/// environment binds it to, and any other token is null.
pub open spec fn operand(tok: TokenView, env: Environment) -> Outcome {
    match tok {
        TokenView::Number(n) => Ok(ValueView::Number(n)),
        TokenView::String(s) => Ok(ValueView::String(s)),
        TokenView::Boolean(b) => Ok(ValueView::Boolean(b)),
        TokenView::Variable(name) => if env.contains_key(name) {
            Ok(env[name])
        } else {
            Err(ExecErrorView::VariableNotFound(name))
        },
        _ => Ok(ValueView::Null),
    }
}

/// The arithmetic operator at the front of the queue, if one is there.
pub open spec fn front_operator(queue: Seq<TokenView>) -> Option<Operator> {
    if queue.len() > 0 && queue[0] is Operator && queue[0]->Operator_0.is_arithmetic() {
        Some(queue[0]->Operator_0)
    } else {
        None
    }
}

/// The result of an evaluation, and the queue that it leaves.
pub struct Evaluation {
    pub outcome: Outcome,
    pub rest: Seq<TokenView>,
}

/// Evaluates the expression that begins with `tok` and goes on in `queue`.
///
/// The operand `tok` is resolved first. If an arithmetic operator then stands
/// at the front of the queue, it is taken off with the token behind it, the
/// expression that begins with that token is evaluated, and the two values are
/// combined: a chain `a + b + c` is `a + (b + c)`. Any other front token ends
/// the expression and stays in the queue.
pub open spec fn evaluate(tok: TokenView, queue: Seq<TokenView>, env: Environment) -> Evaluation
    decreases queue.len(),
{
    match operand(tok, env) {
        Err(e) => Evaluation { outcome: Err(e), rest: queue },
        Ok(left) => match front_operator(queue) {
            None => Evaluation { outcome: Ok(left), rest: queue },
            Some(op) => if queue.len() < 2 {
                Evaluation { outcome: Err(ExecErrorView::UnexpectedEnd), rest: queue.skip(1) }
            } else {
                let right = evaluate(queue[1], queue.skip(2), env);
                match right.outcome {
                    Err(e) => right,
                    Ok(r) => Evaluation { outcome: combine(op, left, r), rest: right.rest },
                }
            },
        },
    }
}

/// An evaluation only takes tokens off the front of the queue.
pub proof fn lemma_evaluate_rest(tok: TokenView, queue: Seq<TokenView>, env: Environment)
    ensures
        evaluate(tok, queue, env).rest.len() <= queue.len(),
        evaluate(tok, queue, env).rest == queue.skip(
            queue.len() - evaluate(tok, queue, env).rest.len(),
        ),
    decreases queue.len(),
{
    if operand(tok, env) is Ok && front_operator(queue) is Some && queue.len() >= 2 {
        lemma_evaluate_rest(queue[1], queue.skip(2), env);
        let right = evaluate(queue[1], queue.skip(2), env);
        let k = queue.skip(2).len() - right.rest.len();
        assert(queue.skip(2).skip(k) == queue.skip(2 + k));
    } else {
        assert(queue.skip(0) == queue);
    }
}

/// How a run ended, and the queue and the environment that it leaves.
pub struct Run {
    pub status: Result<(), ExecErrorView>,
    pub tokens: Seq<TokenView>,
    pub variables: Environment,
}

/// A run that the error `e` has stopped.
pub open spec fn stopped(e: ExecErrorView, tokens: Seq<TokenView>, env: Environment) -> Run {
    Run { status: Err(e), tokens, variables: env }
}

/// Runs the statements of `queue`, front to back.
///
/// A statement that begins with `let` takes the next token as its target. If
/// that is a variable, `=` must follow, and the expression behind it is
/// evaluated and bound to the variable. If it is not, the statement ends
/// there. A statement that begins with any other token is that token alone,
/// and does nothing. The run stops at the first error, with the queue as the
/// failing step left it and the bindings made until then.
pub open spec fn run(queue: Seq<TokenView>, env: Environment) -> Run
    decreases queue.len(),
{
    if queue.len() == 0 {
        Run { status: Ok(()), tokens: queue, variables: env }
    } else if queue[0] != TokenView::Keyword(Keyword::Let) {
        run(queue.skip(1), env)
    } else if queue.len() < 2 {
        stopped(ExecErrorView::UnexpectedEnd, queue.skip(1), env)
    } else if queue[1] is Variable {
        if queue.len() < 3 {
            stopped(ExecErrorView::EqualsExpected, queue.skip(2), env)
        } else if queue[2] != TokenView::Operator(Operator::Equals) {
            stopped(ExecErrorView::EqualsExpected, queue.skip(3), env)
        } else if queue.len() < 4 {
            stopped(ExecErrorView::UnexpectedEnd, queue.skip(3), env)
        } else {
            let value = evaluate(queue[3], queue.skip(4), env);
            match value.outcome {
                Err(e) => stopped(e, value.rest, env),
                Ok(v) => {
                    proof {
                        lemma_evaluate_rest(queue[3], queue.skip(4), env);
                    }
                    run(value.rest, env.insert(queue[1]->Variable_0, v))
                },
            }
        }
    } else {
        run(queue.skip(2), env)
    }
}

/// The environment that a map of values stands for.
pub open spec fn bindings(m: Map<Seq<char>, Value>) -> Environment {
    m.map_values(|v: Value| v@)
}

/// The variables that a run has bound, each with its value, and their names
/// in the order in which they were first bound.
pub struct Variables {
    map: StringHashMap<Value>,
    names: Vec<String>,
}

impl View for Variables {
    type V = Environment;

    closed spec fn view(&self) -> Environment {
        bindings(self.map@)
    }
}

impl Variables {
    /// The names are those that the map binds, each once.
    #[verifier::type_invariant]
    closed spec fn well_formed(self) -> bool {
        &&& texts(self.names@).no_duplicates()
        &&& forall|k: Seq<char>| self.map@.contains_key(k) <==> texts(self.names@).contains(k)
    }

    /// No variables.
    pub fn new() -> (r: Variables)
        ensures
            r@ == Map::<Seq<char>, ValueView>::empty(),
    {
        let r = Variables { map: StringHashMap::new(), names: Vec::new() };
        assert(r@ =~= Map::<Seq<char>, ValueView>::empty());
        r
    }

    /// The value that `name` is bound to.
    pub fn get(&self, name: &str) -> (r: Option<&Value>)
        ensures
            match r {
                Some(v) => self@.contains_key(name@) && v@ == self@[name@],
                None => !self@.contains_key(name@),
            },
    {
        self.map.get(name)
    }

    /// Binds `name` to `value`, in place of what it was bound to.
    pub fn insert(&mut self, name: String, value: Value)
        ensures
            final(self)@ == old(self)@.insert(name@, value@),
    {
        let mut taken = Variables::new();
        std::mem::swap(self, &mut taken);
        proof {
            use_type_invariant(&taken);
        }
        let Variables { mut map, mut names } = taken;
        let ghost before = texts(names@);
        let ghost bound = map@;
        if !map.contains_key(name.as_str()) {
            names.push(name.clone());
            assert(texts(names@) == before.push(name@));
        }
        map.insert(name, value);
        assert(bindings(map@) =~= bindings(bound).insert(name@, value@));
        assert forall|k: Seq<char>| map@.contains_key(k) <==> texts(names@).contains(k) by {
            if before.contains(k) {
                let i = choose|i: int| 0 <= i < before.len() && before[i] == k;
                assert(texts(names@)[i] == k);
            }
            if k == name@ && !before.contains(k) {
                assert(texts(names@)[before.len() as int] == k);
            }
        }
        *self = Variables { map, names };
    }

    /// The names of the variables, each once, in the order in which they were
    /// first bound.
    pub fn names(&self) -> (r: &Vec<String>)
        ensures
            texts(r@).no_duplicates(),
            forall|k: Seq<char>| texts(r@).contains(k) <==> self@.contains_key(k),
    {
        proof {
            use_type_invariant(self);
        }
        &self.names
    }
}

/// An executor's state: the tokens still in its queue, and its bindings.
pub struct ExecutorView {
    pub tokens: Seq<TokenView>,
    pub variables: Environment,
}

/// Runs a queue of tokens, front to back, against the environment it owns.
pub struct Executor {
    pub tokens: Vec<Token>,
    variables: Variables,
}

impl View for Executor {
    type V = ExecutorView;

    closed spec fn view(&self) -> ExecutorView {
        ExecutorView { tokens: token_views(self.tokens@), variables: self.variables@ }
    }
}

impl Executor {
    /// An executor with `tokens` as its queue and no bindings.
    pub fn new(tokens: Vec<Token>) -> (e: Executor)
        ensures
            e@.tokens == token_views(tokens@),
            e@.variables == Map::<Seq<char>, ValueView>::empty(),
    {
        Executor { tokens, variables: Variables::new() }
    }

    /// The tokens still in the queue.
    pub fn tokens(&self) -> (r: &Vec<Token>)
        ensures
            token_views(r@) == self@.tokens,
    {
        &self.tokens
    }

    /// The names of the bound variables, each once, in the order in which
    /// they were first bound.
    pub fn bound_names(&self) -> (r: &Vec<String>)
        ensures
            texts(r@).no_duplicates(),
            forall|k: Seq<char>| texts(r@).contains(k) <==> self@.variables.contains_key(k),
    {
        self.variables.names()
    }

    /// The value that `name` is bound to.
    pub fn lookup(&self, name: &str) -> (r: Option<Value>)
        ensures
            match r {
                Some(v) => self@.variables.contains_key(name@) && v@ == self@.variables[name@],
                None => !self@.variables.contains_key(name@),
            },
    {
        match self.variables.get(name) {
            Some(v) => Some(v.clone()),
            None => None,
        }
    }

    /// Whether the queue is empty.
    fn at_end(&self) -> (r: bool)
        ensures
            r == (self@.tokens.len() == 0),
    {
        self.tokens.len() == 0
    }

    /// Takes the front token off the queue.
    fn pop_front(&mut self) -> (t: Token)
        requires
            old(self)@.tokens.len() > 0,
        ensures
            t@ == old(self)@.tokens[0],
            final(self)@.tokens == old(self)@.tokens.skip(1),
            final(self)@.variables == old(self)@.variables,
    {
        let t = self.tokens.remove(0);
        assert(token_views(self.tokens@) == token_views(old(self).tokens@).skip(1));
        t
    }

    /// The arithmetic operator at the front of the queue, if one is there.
    fn peek_operator(&self) -> (r: Option<Operator>)
        ensures
            r == front_operator(self@.tokens),
    {
        if self.tokens.len() == 0 {
            return None;
        }
        match &self.tokens[0] {
            Token::Operator { op } => match op {
                Operator::Plus | Operator::Subtract | Operator::Multiply | Operator::Divide => Some(
                    *op,
                ),
                _ => None,
            },
            _ => None,
        }
    }

    /// Evaluates the expression that begins with `value` and goes on at the
    /// front of the queue.
    pub fn parse_value(&mut self, value: &Token) -> (r: Result<Value, ExecError>)
        ensures
            outcome_of(r) == evaluate(value@, old(self)@.tokens, old(self)@.variables).outcome,
            final(self)@.tokens == evaluate(value@, old(self)@.tokens, old(self)@.variables).rest,
            final(self)@.variables == old(self)@.variables,
        decreases old(self)@.tokens.len(),
    {
        let left = match value {
            Token::Number { value } => Value::Number(*value),
            Token::String { value } => Value::String(value.clone()),
            Token::Boolean { value } => Value::Boolean(*value),
            Token::Variable { identifier } => match self.variables.get(identifier.as_str()) {
                Some(v) => v.clone(),
                None => {
                    return Err(ExecError::VariableNotFound { name: identifier.clone() });
                },
            },
            _ => Value::Null,
        };
        let op = match self.peek_operator() {
            Some(op) => op,
            None => {
                return Ok(left);
            },
        };
        let _ = self.pop_front();
        if self.at_end() {
            return Err(ExecError::UnexpectedEnd);
        }
        let next = self.pop_front();
        proof {
            assert(old(self)@.tokens.skip(1).skip(1) == old(self)@.tokens.skip(2));
        }
        let right = match self.parse_value(&next) {
            Ok(v) => v,
            Err(e) => {
                return Err(e);
            },
        };
        match op {
            Operator::Plus => left.add(right),
            Operator::Subtract => left.sub(right),
            Operator::Multiply => left.mul(right),
            _ => left.div(right),
        }
    }

    /// Binds `name` to `value`, in place of what it was bound to.
    fn bind(&mut self, name: String, value: Value)
        ensures
            final(self)@.tokens == old(self)@.tokens,
            final(self)@.variables == old(self)@.variables.insert(name@, value@),
    {
        self.variables.insert(name, value);
    }

    /// Runs the queue until it is empty or a statement fails.
    pub fn execute(&mut self) -> (r: Result<(), ExecError>)
        ensures
            status_of(r) == run(old(self)@.tokens, old(self)@.variables).status,
            final(self)@.tokens == run(old(self)@.tokens, old(self)@.variables).tokens,
            final(self)@.variables == run(old(self)@.tokens, old(self)@.variables).variables,
    {
        while !self.at_end()
            invariant
                run(self@.tokens, self@.variables) == run(old(self)@.tokens, old(self)@.variables),
            decreases self@.tokens.len(),
        {
            let ghost queue = self@.tokens;
            let first = self.pop_front();
            if let Token::Keyword { kw: Keyword::Let } = first {
                if self.at_end() {
                    return Err(ExecError::UnexpectedEnd);
                }
                let target = self.pop_front();
                assert(queue.skip(1).skip(1) == queue.skip(2));
                if let Token::Variable { identifier } = target {
                    if self.at_end() {
                        return Err(ExecError::EqualsExpected);
                    }
                    let equals = self.pop_front();
                    assert(queue.skip(2).skip(1) == queue.skip(3));
                    match equals {
                        Token::Operator { op: Operator::Equals } => {},
                        _ => {
                            return Err(ExecError::EqualsExpected);
                        },
                    }
                    if self.at_end() {
                        return Err(ExecError::UnexpectedEnd);
                    }
                    let rhs = self.pop_front();
                    assert(queue.skip(3).skip(1) == queue.skip(4));
                    proof {
                        lemma_evaluate_rest(rhs@, queue.skip(4), self@.variables);
                    }
                    match self.parse_value(&rhs) {
                        Ok(v) => {
                            self.bind(identifier, v);
                        },
                        Err(e) => {
                            return Err(e);
                        },
                    }
                }
            }
        }
        Ok(())
    }
}

} // verus!
