//! The evaluator: walks a syntax tree and keeps the scope of named values.
use crate::syntax_tree::{
    BinOpKind, CompilationUnit, Expression, ExpressionView, Statement, StatementView,
};
use vstd::hash_map::StringHashMap;
use vstd::prelude::*;
use vstd::string::StringExecFns;

verus! {

/// The bit pattern of the number 10, the value of `a` in a new scope.
pub const TEN: u64 = 0x4024_0000_0000_0000;

/// A value. `Float` holds the bit pattern of a number.
#[derive(Debug, Copy, Clone, PartialEq, Eq, Structural)]
pub enum EvaluatorValue {
    Unit,
    Float(u64),
    Bool(bool),
}

/// Whether `text` is how the value is shown: `() : unit`, a number as
/// `float_text` writes it and then ` : float`, or `true : bool` and
/// `false : bool`.
pub open spec fn renders<F: Fn(u64) -> String>(
    float_text: F,
    value: EvaluatorValue,
    text: Seq<char>,
) -> bool {
    match value {
        EvaluatorValue::Unit => text == "() : unit"@,
        EvaluatorValue::Float(bits) => exists|number: String|
            call_ensures(float_text, (bits,), number) && text == number@ + " : float"@,
        EvaluatorValue::Bool(value) => text == if value {
            "true : bool"@
        } else {
            "false : bool"@
        },
    }
}

impl EvaluatorValue {
    /// Shows the value and its type. `float_text` is called for a number, with
    /// its bit pattern, and writes the number.
    pub fn to_string<F: Fn(u64) -> String>(&self, float_text: F) -> (text: String)
        requires
            forall|bits: u64|
                *self == EvaluatorValue::Float(bits) ==> call_requires(float_text, (bits,)),
        ensures
            renders(float_text, *self, text@),
    {
        match self {
            EvaluatorValue::Unit => String::from_str("() : unit"),
            EvaluatorValue::Float(value) => {
                let number = float_text(*value);
                number.concat(" : float")
            },
            EvaluatorValue::Bool(value) => if *value {
                String::from_str("true : bool")
            } else {
                String::from_str("false : bool")
            },
        }
    }
}

/// Why an evaluation failed.
#[derive(Debug, PartialEq, Eq)]
pub enum EvaluatorError {
    /// The operator does not take operands of these two types.
    UnknownBinaryOperator(BinOpKind, EvaluatorValue, EvaluatorValue),
    /// The name was read or assigned to and is not in scope.
    UnknownIdentifier(String),
    /// The name was declared and is in scope already.
    VariableAlreadyDeclared(String),
}

/// What an [`EvaluatorError`] denotes.
pub enum EvaluatorErrorView {
    UnknownBinaryOperator(BinOpKind, EvaluatorValue, EvaluatorValue),
    UnknownIdentifier(Seq<char>),
    VariableAlreadyDeclared(Seq<char>),
}

impl View for EvaluatorError {
    type V = EvaluatorErrorView;

    open spec fn view(&self) -> EvaluatorErrorView {
        match self {
            EvaluatorError::UnknownBinaryOperator(kind, left, right) => {
                EvaluatorErrorView::UnknownBinaryOperator(*kind, *left, *right)
            },
            EvaluatorError::UnknownIdentifier(name) => EvaluatorErrorView::UnknownIdentifier(name@),
            EvaluatorError::VariableAlreadyDeclared(name) => {
                EvaluatorErrorView::VariableAlreadyDeclared(name@)
            },
        }
    }
}

/// Where an evaluation ends: the scope it leaves, and the value or the error
/// it gives.
pub struct Evaluated {
    pub scope: Map<Seq<char>, EvaluatorValue>,
    pub result: Result<EvaluatorValue, EvaluatorErrorView>,
}

/// What a result of the evaluator denotes.
pub open spec fn denotes(result: Result<EvaluatorValue, EvaluatorError>) -> Result<
    EvaluatorValue,
    EvaluatorErrorView,
> {
    match result {
        Ok(value) => Ok(value),
        Err(error) => Err(error@),
    }
}

/// The end that a scope and a result make up.
pub open spec fn evaluated(
    scope: Map<Seq<char>, EvaluatorValue>,
    result: Result<EvaluatorValue, EvaluatorError>,
) -> Evaluated {
    Evaluated { scope, result: denotes(result) }
}

/// What reading a name gives: its value, or `UnknownIdentifier`.
pub open spec fn lookup(scope: Map<Seq<char>, EvaluatorValue>, name: Seq<char>) -> Result<
    EvaluatorValue,
    EvaluatorErrorView,
> {
    if scope.contains_key(name) {
        Ok(scope[name])
    } else {
        Err(EvaluatorErrorView::UnknownIdentifier(name))
    }
}

/// Whether `result` is what the operator gives of the two operands. Two
/// numbers under an arithmetic operator give a number that `arithmetic`
/// returned for them; two booleans under a logical operator give a boolean;
/// all else is `UnknownBinaryOperator`.
pub open spec fn applies<A: Fn(BinOpKind, u64, u64) -> u64>(
    arithmetic: A,
    kind: BinOpKind,
    left: EvaluatorValue,
    right: EvaluatorValue,
    result: Result<EvaluatorValue, EvaluatorErrorView>,
) -> bool {
    match (left, right) {
        (EvaluatorValue::Float(l), EvaluatorValue::Float(r)) if kind.is_arithmetic() => {
            &&& result matches Ok(EvaluatorValue::Float(bits))
            &&& call_ensures(arithmetic, (kind, l, r), bits)
        },
        (EvaluatorValue::Bool(l), EvaluatorValue::Bool(r)) if kind == BinOpKind::LogicalAnd => {
            result == Ok::<EvaluatorValue, EvaluatorErrorView>(EvaluatorValue::Bool(l && r))
        },
        (EvaluatorValue::Bool(l), EvaluatorValue::Bool(r)) if kind == BinOpKind::LogicalOr => {
            result == Ok::<EvaluatorValue, EvaluatorErrorView>(EvaluatorValue::Bool(l || r))
        },
        _ => result == Err::<EvaluatorValue, EvaluatorErrorView>(
            EvaluatorErrorView::UnknownBinaryOperator(kind, left, right),
        ),
    }
}

/// Whether a binary operation ends in `end`, given where its operands end.
/// Both operands are evaluated, the left one first, whatever the operator; an
/// operand that fails ends the operation.
pub open spec fn combines<A: Fn(BinOpKind, u64, u64) -> u64>(
    arithmetic: A,
    kind: BinOpKind,
    first: Evaluated,
    second: Evaluated,
    end: Evaluated,
) -> bool {
    match (first.result, second.result) {
        (Err(_), _) => end == first,
        (Ok(_), Err(_)) => end == second,
        (Ok(left), Ok(right)) => {
            &&& end.scope == second.scope
            &&& applies(arithmetic, kind, left, right, end.result)
        },
    }
}

/// Whether assigning to `name` ends in `end`, given where the assigned
/// expression ends. The name has to be in scope: an assignment makes no new
/// variable. Its value is the value assigned.
pub open spec fn assigns(name: Seq<char>, inner: Evaluated, end: Evaluated) -> bool {
    match inner.result {
        Err(_) => end == inner,
        Ok(value) => if inner.scope.contains_key(name) {
            end == (Evaluated { scope: inner.scope.insert(name, value), result: Ok(value) })
        } else {
            end == (Evaluated {
                scope: inner.scope,
                result: Err(EvaluatorErrorView::UnknownIdentifier(name)),
            })
        },
    }
}

/// Whether declaring `name` ends in `end`, given where its initializer ends.
/// The name must not be in scope: a declaration does not shadow. Its value is
/// `Unit`.
pub open spec fn declares(name: Seq<char>, inner: Evaluated, end: Evaluated) -> bool {
    match inner.result {
        Err(_) => end == inner,
        Ok(value) => if inner.scope.contains_key(name) {
            end == (Evaluated {
                scope: inner.scope,
                result: Err(EvaluatorErrorView::VariableAlreadyDeclared(name)),
            })
        } else {
            end == (Evaluated {
                scope: inner.scope.insert(name, value),
                result: Ok(EvaluatorValue::Unit),
            })
        },
    }
}

/// Whether evaluating `expression` in the scope `before` ends in `end`, with
/// `arithmetic` doing the arithmetic on numbers.
pub open spec fn evaluates<A: Fn(BinOpKind, u64, u64) -> u64>(
    arithmetic: A,
    before: Map<Seq<char>, EvaluatorValue>,
    expression: ExpressionView,
    end: Evaluated,
) -> bool
    decreases expression,
{
    match expression {
        ExpressionView::F64(bits) => end == (Evaluated {
            scope: before,
            result: Ok(EvaluatorValue::Float(bits)),
        }),
        ExpressionView::Bool(value) => end == (Evaluated {
            scope: before,
            result: Ok(EvaluatorValue::Bool(value)),
        }),
        ExpressionView::Identifier(name) => end == (Evaluated {
            scope: before,
            result: lookup(before, name),
        }),
        ExpressionView::BinOp(kind, left, right) => exists|first: Evaluated, second: Evaluated|
            #![trigger combines(arithmetic, kind, first, second, end)]
            {
                &&& combines(arithmetic, kind, first, second, end)
                &&& evaluates(arithmetic, before, *left, first)
                &&& first.result is Ok ==> evaluates(arithmetic, first.scope, *right, second)
            },
        ExpressionView::Assignment(name, value) => exists|inner: Evaluated|
            #![trigger assigns(name, inner, end)]
            {
                &&& assigns(name, inner, end)
                &&& evaluates(arithmetic, before, *value, inner)
            },
    }
}

/// Whether executing `statement` in the scope `before` ends in `end`. The
/// initializer of a declaration is evaluated before the name is looked for.
pub open spec fn executes<A: Fn(BinOpKind, u64, u64) -> u64>(
    arithmetic: A,
    before: Map<Seq<char>, EvaluatorValue>,
    statement: StatementView,
    end: Evaluated,
) -> bool {
    match statement {
        StatementView::ExpressionStatement(expression) => evaluates(
            arithmetic,
            before,
            expression,
            end,
        ),
        StatementView::VariableDeclaration(name, initializer) => exists|inner: Evaluated|
            #![trigger declares(name, inner, end)]
            {
                &&& declares(name, inner, end)
                &&& evaluates(arithmetic, before, initializer, inner)
            },
    }
}

/// How a binary operation ends, given where its operands end.
pub proof fn lemma_binary_operation<A: Fn(BinOpKind, u64, u64) -> u64>(
    arithmetic: A,
    before: Map<Seq<char>, EvaluatorValue>,
    kind: BinOpKind,
    left: ExpressionView,
    right: ExpressionView,
    first: Evaluated,
    second: Evaluated,
    end: Evaluated,
)
    requires
        evaluates(arithmetic, before, left, first),
        first.result is Ok ==> evaluates(arithmetic, first.scope, right, second),
        combines(arithmetic, kind, first, second, end),
    ensures
        evaluates(
            arithmetic,
            before,
            ExpressionView::BinOp(kind, Box::new(left), Box::new(right)),
            end,
        ),
{
    let whole = ExpressionView::BinOp(kind, Box::new(left), Box::new(right));
    assert(combines(arithmetic, whole->BinOp_0, first, second, end));
}

/// How an assignment ends, given where the assigned expression ends.
pub proof fn lemma_assignment<A: Fn(BinOpKind, u64, u64) -> u64>(
    arithmetic: A,
    before: Map<Seq<char>, EvaluatorValue>,
    name: Seq<char>,
    value: ExpressionView,
    inner: Evaluated,
    end: Evaluated,
)
    requires
        evaluates(arithmetic, before, value, inner),
        assigns(name, inner, end),
    ensures
        evaluates(arithmetic, before, ExpressionView::Assignment(name, Box::new(value)), end),
{
    let whole = ExpressionView::Assignment(name, Box::new(value));
    assert(assigns(whole->Assignment_0, inner, end));
}

/// How a declaration ends, given where its initializer ends.
pub proof fn lemma_declaration<A: Fn(BinOpKind, u64, u64) -> u64>(
    arithmetic: A,
    before: Map<Seq<char>, EvaluatorValue>,
    name: Seq<char>,
    initializer: ExpressionView,
    inner: Evaluated,
    end: Evaluated,
)
    requires
        evaluates(arithmetic, before, initializer, inner),
        declares(name, inner, end),
    ensures
        executes(arithmetic, before, StatementView::VariableDeclaration(name, initializer), end),
{
    let whole = StatementView::VariableDeclaration(name, initializer);
    assert(declares(whole->VariableDeclaration_0, inner, end));
}

/// Reading a name changes nothing: the scope stays as it is, and a second read
/// gives what the first one gave.
pub proof fn lemma_reading_twice_gives_the_same<A: Fn(BinOpKind, u64, u64) -> u64>(
    arithmetic: A,
    scope: Map<Seq<char>, EvaluatorValue>,
    name: Seq<char>,
    first: Evaluated,
    second: Evaluated,
)
    requires
        evaluates(arithmetic, scope, ExpressionView::Identifier(name), first),
        evaluates(arithmetic, first.scope, ExpressionView::Identifier(name), second),
    ensures
        first.scope == scope,
        second == first,
{
}

/// Whether `arithmetic` computes `function`: whatever it returns for an
/// operator and two numbers is what `function` gives for them.
pub open spec fn computes<A: Fn(BinOpKind, u64, u64) -> u64>(
    arithmetic: A,
    function: spec_fn(BinOpKind, u64, u64) -> u64,
) -> bool {
    forall|kind: BinOpKind, left: u64, right: u64, bits: u64|
        call_ensures(arithmetic, (kind, left, right), bits) ==> bits == function(kind, left, right)
}

/// What the operator gives of the two operands, with `function` for the
/// arithmetic.
pub open spec fn operation(
    function: spec_fn(BinOpKind, u64, u64) -> u64,
    kind: BinOpKind,
    left: EvaluatorValue,
    right: EvaluatorValue,
) -> Result<EvaluatorValue, EvaluatorErrorView> {
    match (left, right) {
        (EvaluatorValue::Float(l), EvaluatorValue::Float(r)) if kind.is_arithmetic() => Ok(
            EvaluatorValue::Float(function(kind, l, r)),
        ),
        (EvaluatorValue::Bool(l), EvaluatorValue::Bool(r)) if kind == BinOpKind::LogicalAnd => Ok(
            EvaluatorValue::Bool(l && r),
        ),
        (EvaluatorValue::Bool(l), EvaluatorValue::Bool(r)) if kind == BinOpKind::LogicalOr => Ok(
            EvaluatorValue::Bool(l || r),
        ),
        _ => Err(EvaluatorErrorView::UnknownBinaryOperator(kind, left, right)),
    }
}

/// Where evaluating `expression` in the scope `before` ends, with `function`
/// for the arithmetic.
pub open spec fn evaluation(
    function: spec_fn(BinOpKind, u64, u64) -> u64,
    before: Map<Seq<char>, EvaluatorValue>,
    expression: ExpressionView,
) -> Evaluated
    decreases expression,
{
    match expression {
        ExpressionView::F64(bits) => Evaluated {
            scope: before,
            result: Ok(EvaluatorValue::Float(bits)),
        },
        ExpressionView::Bool(value) => Evaluated {
            scope: before,
            result: Ok(EvaluatorValue::Bool(value)),
        },
        ExpressionView::Identifier(name) => Evaluated {
            scope: before,
            result: lookup(before, name),
        },
        ExpressionView::BinOp(kind, left, right) => {
            let first = evaluation(function, before, *left);
            let second = evaluation(function, first.scope, *right);
            match (first.result, second.result) {
                (Err(_), _) => first,
                (Ok(_), Err(_)) => second,
                (Ok(l), Ok(r)) => Evaluated {
                    scope: second.scope,
                    result: operation(function, kind, l, r),
                },
            }
        },
        ExpressionView::Assignment(name, value) => {
            let inner = evaluation(function, before, *value);
            match inner.result {
                Err(_) => inner,
                Ok(assigned) => if inner.scope.contains_key(name) {
                    Evaluated { scope: inner.scope.insert(name, assigned), result: Ok(assigned) }
                } else {
                    Evaluated {
                        scope: inner.scope,
                        result: Err(EvaluatorErrorView::UnknownIdentifier(name)),
                    }
                },
            }
        },
    }
}

/// Where executing `statement` in the scope `before` ends, with `function`
/// for the arithmetic.
pub open spec fn execution(
    function: spec_fn(BinOpKind, u64, u64) -> u64,
    before: Map<Seq<char>, EvaluatorValue>,
    statement: StatementView,
) -> Evaluated {
    match statement {
        StatementView::ExpressionStatement(expression) => evaluation(function, before, expression),
        StatementView::VariableDeclaration(name, initializer) => {
            let inner = evaluation(function, before, initializer);
            match inner.result {
                Err(_) => inner,
                Ok(value) => if inner.scope.contains_key(name) {
                    Evaluated {
                        scope: inner.scope,
                        result: Err(EvaluatorErrorView::VariableAlreadyDeclared(name)),
                    }
                } else {
                    Evaluated {
                        scope: inner.scope.insert(name, value),
                        result: Ok(EvaluatorValue::Unit),
                    }
                },
            }
        },
    }
}

/// Where the arithmetic computes a function, an evaluation ends where that
/// function says: the scope and the result are determined.
pub proof fn lemma_evaluation_follows_the_arithmetic<A: Fn(BinOpKind, u64, u64) -> u64>(
    arithmetic: A,
    function: spec_fn(BinOpKind, u64, u64) -> u64,
    before: Map<Seq<char>, EvaluatorValue>,
    expression: ExpressionView,
    end: Evaluated,
)
    requires
        computes(arithmetic, function),
        evaluates(arithmetic, before, expression, end),
    ensures
        end == evaluation(function, before, expression),
    decreases expression,
{
    match expression {
        ExpressionView::BinOp(kind, left, right) => {
            let (first, second) = choose|first: Evaluated, second: Evaluated|
                #![trigger combines(arithmetic, kind, first, second, end)]
                {
                    &&& combines(arithmetic, kind, first, second, end)
                    &&& evaluates(arithmetic, before, *left, first)
                    &&& first.result is Ok ==> evaluates(arithmetic, first.scope, *right, second)
                };
            lemma_evaluation_follows_the_arithmetic(arithmetic, function, before, *left, first);
            if first.result is Ok {
                lemma_evaluation_follows_the_arithmetic(
                    arithmetic,
                    function,
                    first.scope,
                    *right,
                    second,
                );
            }
        },
        ExpressionView::Assignment(name, value) => {
            let inner = choose|inner: Evaluated|
                #![trigger assigns(name, inner, end)]
                assigns(name, inner, end) && evaluates(arithmetic, before, *value, inner);
            lemma_evaluation_follows_the_arithmetic(arithmetic, function, before, *value, inner);
        },
        _ => {},
    }
}

/// Where the arithmetic computes a function, an execution ends where that
/// function says.
pub proof fn lemma_execution_follows_the_arithmetic<A: Fn(BinOpKind, u64, u64) -> u64>(
    arithmetic: A,
    function: spec_fn(BinOpKind, u64, u64) -> u64,
    before: Map<Seq<char>, EvaluatorValue>,
    statement: StatementView,
    end: Evaluated,
)
    requires
        computes(arithmetic, function),
        executes(arithmetic, before, statement, end),
    ensures
        end == execution(function, before, statement),
{
    match statement {
        StatementView::ExpressionStatement(expression) => {
            lemma_evaluation_follows_the_arithmetic(arithmetic, function, before, expression, end);
        },
        StatementView::VariableDeclaration(name, initializer) => {
            let inner = choose|inner: Evaluated|
                #![trigger declares(name, inner, end)]
                declares(name, inner, end) && evaluates(arithmetic, before, initializer, inner);
            lemma_evaluation_follows_the_arithmetic(
                arithmetic,
                function,
                before,
                initializer,
                inner,
            );
        },
    }
}

/// A function that does arithmetic on numbers and can be called with every
/// arithmetic operator and every two numbers.
struct Arithmetic<A: Fn(BinOpKind, u64, u64) -> u64> {
    function: A,
}

impl<A: Fn(BinOpKind, u64, u64) -> u64> Arithmetic<A> {
    #[verifier::type_invariant]
    spec fn total(self) -> bool {
        forall|kind: BinOpKind, left: u64, right: u64|
            kind.is_arithmetic() ==> #[trigger] call_requires(self.function, (kind, left, right))
    }

    fn apply(&self, kind: BinOpKind, left: u64, right: u64) -> (bits: u64)
        requires
            kind.is_arithmetic(),
        ensures
            call_ensures(self.function, (kind, left, right), bits),
    {
        proof {
            use_type_invariant(self);
        }
        (self.function)(kind, left, right)
    }
}

/// An evaluator: a scope, and the function that does the arithmetic.
pub struct Evaluator<A: Fn(BinOpKind, u64, u64) -> u64> {
    scope: StringHashMap<EvaluatorValue>,
    arithmetic: Arithmetic<A>,
}

impl<A: Fn(BinOpKind, u64, u64) -> u64> Evaluator<A> {
    /// The scope: the names and their values.
    pub closed spec fn scope(&self) -> Map<Seq<char>, EvaluatorValue> {
        self.scope@
    }

    /// The function that does the arithmetic.
    pub closed spec fn arithmetic(&self) -> A {
        self.arithmetic.function
    }

    /// An evaluator whose scope holds one variable, `a`, with the value 10.
    /// `arithmetic` is called with an arithmetic operator and the bit patterns
    /// of two numbers, and hands back the bit pattern of the result.
    pub fn new(arithmetic: A) -> (evaluator: Self)
        requires
            forall|kind: BinOpKind, left: u64, right: u64|
                kind.is_arithmetic() ==> #[trigger] call_requires(arithmetic, (kind, left, right)),
        ensures
            evaluator.scope() == Map::<Seq<char>, EvaluatorValue>::empty().insert(
                "a"@,
                EvaluatorValue::Float(TEN),
            ),
            evaluator.arithmetic() == arithmetic,
    {
        let mut scope = StringHashMap::new();
        scope.insert(String::from_str("a"), EvaluatorValue::Float(TEN));
        Evaluator { scope, arithmetic: Arithmetic { function: arithmetic } }
    }

    /// Evaluates the statement of a compilation unit.
    pub fn evaluate(&mut self, unit: &CompilationUnit) -> (result: Result<
        EvaluatorValue,
        EvaluatorError,
    >)
        ensures
            final(self).arithmetic() == old(self).arithmetic(),
            executes(
                old(self).arithmetic(),
                old(self).scope(),
                unit@,
                evaluated(final(self).scope(), result),
            ),
    {
        self.evaluate_statement(&unit.statement)
    }

    /// Executes a statement.
    pub fn evaluate_statement(&mut self, statement: &Statement) -> (result: Result<
        EvaluatorValue,
        EvaluatorError,
    >)
        ensures
            final(self).arithmetic() == old(self).arithmetic(),
            executes(
                old(self).arithmetic(),
                old(self).scope(),
                statement@,
                evaluated(final(self).scope(), result),
            ),
    {
        match statement {
            Statement::VariableDeclaration(ident, expr) => {
                self.evaluate_variable_declaration(ident, expr)
            },
            Statement::ExpressionStatement(expr) => self.evaluate_expression(expr),
        }
    }

    /// Declares the variable `ident` with the value of `expr`.
    pub fn evaluate_variable_declaration(&mut self, ident: &String, expr: &Expression) -> (result:
        Result<EvaluatorValue, EvaluatorError>)
        ensures
            final(self).arithmetic() == old(self).arithmetic(),
            executes(
                old(self).arithmetic(),
                old(self).scope(),
                StatementView::VariableDeclaration(ident@, expr@),
                evaluated(final(self).scope(), result),
            ),
    {
        let ghost before = self.scope@;
        let evaluation = self.evaluate_expression(expr);
        let ghost inner = evaluated(self.scope@, evaluation);
        let result = match evaluation {
            Err(error) => Err(error),
            Ok(value) => {
                if self.scope.contains_key(ident.as_str()) {
                    Err(EvaluatorError::VariableAlreadyDeclared(ident.clone()))
                } else {
                    self.scope.insert(ident.clone(), value);
                    Ok(EvaluatorValue::Unit)
                }
            },
        };
        proof {
            lemma_declaration(
                old(self).arithmetic(),
                before,
                ident@,
                expr@,
                inner,
                evaluated(self.scope@, result),
            );
        }
        result
    }

    /// Evaluates an expression.
    pub fn evaluate_expression(&mut self, expression: &Expression) -> (result: Result<
        EvaluatorValue,
        EvaluatorError,
    >)
        ensures
            final(self).arithmetic() == old(self).arithmetic(),
            evaluates(
                old(self).arithmetic(),
                old(self).scope(),
                expression@,
                evaluated(final(self).scope(), result),
            ),
        decreases expression, 1int,
    {
        match expression {
            Expression::F64(value) => Ok(EvaluatorValue::Float(*value)),
            Expression::Bool(value) => Ok(EvaluatorValue::Bool(*value)),
            Expression::BinOp(kind, left, right) => self.evaluate_binop(kind, left, right),
            Expression::Identifier(ident) => self.evaluate_identifier(ident),
            Expression::Assignment(ident, expr) => self.evaluate_assignment_expression(ident, expr),
        }
    }

    fn evaluate_binop(&mut self, kind: &BinOpKind, left: &Expression, right: &Expression) -> (result:
        Result<EvaluatorValue, EvaluatorError>)
        ensures
            final(self).arithmetic() == old(self).arithmetic(),
            evaluates(
                old(self).arithmetic(),
                old(self).scope(),
                ExpressionView::BinOp(*kind, Box::new(left@), Box::new(right@)),
                evaluated(final(self).scope(), result),
            ),
        decreases Expression::BinOp(*kind, Box::new(*left), Box::new(*right)), 0int,
    {
        let ghost arithmetic = self.arithmetic.function;
        let ghost before = self.scope@;
        let ghost whole = Expression::BinOp(*kind, Box::new(*left), Box::new(*right));
        assert(*whole->BinOp_1 == *left && *whole->BinOp_2 == *right);
        let first_result = self.evaluate_expression(left);
        let ghost first = evaluated(self.scope@, first_result);
        let left_value = match first_result {
            Ok(value) => value,
            Err(error) => {
                proof {
                    lemma_binary_operation(arithmetic, before, *kind, left@, right@, first, first, first);
                }
                return Err(error);
            },
        };
        let second_result = self.evaluate_expression(right);
        let ghost second = evaluated(self.scope@, second_result);
        let right_value = match second_result {
            Ok(value) => value,
            Err(error) => {
                proof {
                    lemma_binary_operation(arithmetic, before, *kind, left@, right@, first, second, second);
                }
                return Err(error);
            },
        };
        let result = match (left_value, right_value, *kind) {
            (EvaluatorValue::Float(l), EvaluatorValue::Float(r), BinOpKind::Add) => Ok(
                EvaluatorValue::Float(self.arithmetic.apply(BinOpKind::Add, l, r)),
            ),
            (EvaluatorValue::Float(l), EvaluatorValue::Float(r), BinOpKind::Sub) => Ok(
                EvaluatorValue::Float(self.arithmetic.apply(BinOpKind::Sub, l, r)),
            ),
            (EvaluatorValue::Float(l), EvaluatorValue::Float(r), BinOpKind::Mul) => Ok(
                EvaluatorValue::Float(self.arithmetic.apply(BinOpKind::Mul, l, r)),
            ),
            (EvaluatorValue::Float(l), EvaluatorValue::Float(r), BinOpKind::Div) => Ok(
                EvaluatorValue::Float(self.arithmetic.apply(BinOpKind::Div, l, r)),
            ),
            (EvaluatorValue::Bool(l), EvaluatorValue::Bool(r), BinOpKind::LogicalAnd) => Ok(
                EvaluatorValue::Bool(l && r),
            ),
            (EvaluatorValue::Bool(l), EvaluatorValue::Bool(r), BinOpKind::LogicalOr) => Ok(
                EvaluatorValue::Bool(l || r),
            ),
            _ => Err(EvaluatorError::UnknownBinaryOperator(*kind, left_value, right_value)),
        };
        proof {
            lemma_binary_operation(
                arithmetic,
                before,
                *kind,
                left@,
                right@,
                first,
                second,
                evaluated(self.scope@, result),
            );
        }
        result
    }

    fn evaluate_identifier(&self, expr: &String) -> (result: Result<
        EvaluatorValue,
        EvaluatorError,
    >)
        ensures
            denotes(result) == lookup(self.scope(), expr@),
    {
        match self.scope.get(expr.as_str()) {
            Some(value) => Ok(*value),
            None => Err(EvaluatorError::UnknownIdentifier(expr.clone())),
        }
    }

    fn evaluate_assignment_expression(&mut self, ident: &String, expr: &Expression) -> (result:
        Result<EvaluatorValue, EvaluatorError>)
        ensures
            final(self).arithmetic() == old(self).arithmetic(),
            evaluates(
                old(self).arithmetic(),
                old(self).scope(),
                ExpressionView::Assignment(ident@, Box::new(expr@)),
                evaluated(final(self).scope(), result),
            ),
        decreases Expression::Assignment(*ident, Box::new(*expr)), 0int,
    {
        let ghost before = self.scope@;
        let ghost whole = Expression::Assignment(*ident, Box::new(*expr));
        assert(*whole->Assignment_1 == *expr);
        let evaluation = self.evaluate_expression(expr);
        let ghost inner = evaluated(self.scope@, evaluation);
        let result = match evaluation {
            Err(error) => Err(error),
            Ok(value) => {
                match self.scope.get(ident.as_str()) {
                    Some(_) => {
                        self.scope.insert(ident.clone(), value);
                        Ok(value)
                    },
                    None => Err(EvaluatorError::UnknownIdentifier(ident.clone())),
                }
            },
        };
        proof {
            lemma_assignment(
                old(self).arithmetic(),
                before,
                ident@,
                expr@,
                inner,
                evaluated(self.scope@, result),
            );
        }
        result
    }
}

} // verus!
