//! The operators of the language on values.
//!
//! Two integers are computed on here, exactly, and a result that does not
//! fit in 32 bits is an error. Where a float takes part, the operand that is
//! an integer is converted and the operator applied by the host, and the
//! result is a float with the bits that the host answered. Every other pair
//! of operands is a type error that names both.
use vstd::prelude::*;
use vstd::string::StringExecFns;
use crate::errors::{Error, ErrorType, ErrorView};
use crate::interpreter::host::{
    answered, arithmetic_answer, ask_arithmetic, ask_comparison, ask_conversion, astray,
    comparison_answer, conversion_answer, lemma_prefix_push, result_view, ArithmeticOp, CompareOp,
    Host, HostCall,
};
use crate::interpreter::symbols::{symbol_text, Symbol, SymbolKind, SymbolType, SymbolView};
use crate::lexer::tokens::TokenPosition;

verus! {

/// The result of an operator, the index of the next call of the host, and
/// whether the host was asked what the operator asks.
pub struct Applied {
    pub result: Result<SymbolView, ErrorView>,
    pub next: nat,
    pub faithful: bool,
}

/// What stands for the result of an operator where the host was not asked
/// what the operator asks.
pub open spec fn lost(next: nat) -> Applied {
    Applied { result: Err(astray()), next: next, faithful: false }
}

/// A result that takes no call of the host.
pub open spec fn settled(result: Result<SymbolView, ErrorView>, at: nat) -> Applied {
    Applied { result: result, next: at, faithful: true }
}

/// The float that the host answered.
pub open spec fn float_result(answer: Option<u32>, position: TokenPosition, next: nat) -> Applied {
    match answer {
        Some(bits) => Applied { result: Ok(float_at(bits, position)), next: next, faithful: true },
        None => lost(next),
    }
}

/// 1 or 0 for the truth that the host answered.
pub open spec fn truth_result(answer: Option<bool>, position: TokenPosition, next: nat) -> Applied {
    match answer {
        Some(truth) => Applied {
            result: Ok(integer_at(bool_int(truth), position)),
            next: next,
            faithful: true,
        },
        None => lost(next),
    }
}

/// 1 for true and 0 for false.
pub open spec fn bool_int(b: bool) -> i32 {
    if b {
        1i32
    } else {
        0i32
    }
}

/// 1 for true and 0 for false.
pub fn bool_to_int(b: bool) -> (r: i32)
    ensures
        r == bool_int(b),
{
    if b {
        1
    } else {
        0
    }
}

/// An error of the given kind that is raised while evaluating.
pub open spec fn runtime_error(kind: ErrorType, message: Seq<char>, position: TokenPosition) -> ErrorView {
    ErrorView { error_type: kind, error_message: message, position: position }
}

/// The integer `value` at `position`.
pub open spec fn integer_at(value: i32, position: TokenPosition) -> SymbolView {
    SymbolView { value: SymbolKind::Integer(value), position: position }
}

/// The float with the bits `bits` at `position`.
pub open spec fn float_at(bits: u32, position: TokenPosition) -> SymbolView {
    SymbolView { value: SymbolKind::Float(bits), position: position }
}

/// The integer `value` where it fits in 32 bits, else an overflow error.
pub open spec fn checked(value: int, position: TokenPosition) -> Result<SymbolView, ErrorView> {
    if i32::MIN <= value <= i32::MAX {
        Ok(integer_at(value as i32, position))
    } else {
        Err(runtime_error(ErrorType::Exception, "Integer overflow"@, position))
    }
}

/// `a` multiplied by itself `n` times.
pub open spec fn power(a: int, n: nat) -> int
    decreases n,
{
    if n == 0 {
        1
    } else {
        a * power(a, (n - 1) as nat)
    }
}

/// The number without its sign.
pub open spec fn magnitude(a: int) -> int {
    if a < 0 {
        -a
    } else {
        a
    }
}

/// The quotient of `a` by `b`, rounded towards zero.
pub open spec fn quotient(a: int, b: int) -> int
    recommends
        b != 0,
{
    if (a < 0) == (b < 0) {
        magnitude(a) / magnitude(b)
    } else {
        -(magnitude(a) / magnitude(b))
    }
}

/// An arithmetic operator on two integers.
pub open spec fn integer_arithmetic(op: ArithmeticOp, a: i32, b: i32, position: TokenPosition) -> Result<SymbolView, ErrorView> {
    match op {
        ArithmeticOp::Add => checked(a + b, position),
        ArithmeticOp::Subtract => checked(a - b, position),
        ArithmeticOp::Multiply => checked(a * b, position),
        ArithmeticOp::Divide => if b == 0 {
            Err(runtime_error(ErrorType::Exception, "Division by zero"@, position))
        } else {
            checked(quotient(a as int, b as int), position)
        },
        ArithmeticOp::Power => if b < 0 {
            Err(runtime_error(ErrorType::Exception, "Negative exponent"@, position))
        } else {
            checked(power(a as int, b as nat), position)
        },
    }
}

/// A relational operator on two integers.
pub open spec fn integer_compare(op: CompareOp, a: int, b: int) -> bool {
    match op {
        CompareOp::Less => a < b,
        CompareOp::LessEqual => a <= b,
        CompareOp::Greater => a > b,
        CompareOp::GreaterEqual => a >= b,
        CompareOp::Equal => a == b,
        CompareOp::NotEqual => a != b,
    }
}

/// The word for an arithmetic operator in the message of a type error.
pub open spec fn arithmetic_verb(op: ArithmeticOp) -> Seq<char> {
    match op {
        ArithmeticOp::Add => "add"@,
        ArithmeticOp::Subtract => "subtract"@,
        ArithmeticOp::Multiply => "multiply"@,
        ArithmeticOp::Divide => "divide"@,
        ArithmeticOp::Power => "power"@,
    }
}

/// The message of the type error for two operands that an operator does not
/// take: it names the operator and both operands.
#[verifier::opaque]
pub open spec fn operands_message(verb: Seq<char>, left: SymbolKind, right: SymbolKind) -> Seq<char> {
    "Cannot "@ + verb + " '"@ + symbol_text(left) + "' and '"@ + symbol_text(right) + "'"@
}

/// The message of the type error for an operand that a unary operator does
/// not take.
#[verifier::opaque]
pub open spec fn operand_message(verb: Seq<char>, operand: SymbolKind) -> Seq<char> {
    "Cannot apply "@ + verb + " to '"@ + symbol_text(operand) + "'"@
}

/// The type error for two operands that an operator does not take, at the
/// left operand.
pub open spec fn operands_error(verb: Seq<char>, left: SymbolView, right: SymbolView) -> ErrorView {
    runtime_error(
        ErrorType::TypeError,
        operands_message(verb, left.value, right.value),
        left.position,
    )
}

/// An arithmetic operator on two values. Where a float takes part, the host
/// is asked: first for the float of the operand that is an integer, if one
/// is, and then for the operator on the two floats.
pub open spec fn arithmetic(op: ArithmeticOp, left: SymbolView, right: SymbolView, calls: Seq<HostCall>, at: nat) -> Applied {
    match (left.value, right.value) {
        (SymbolKind::Integer(a), SymbolKind::Integer(b)) => settled(
            integer_arithmetic(op, a, b, left.position),
            at,
        ),
        (SymbolKind::Float(a), SymbolKind::Float(b)) => float_result(
            arithmetic_answer(calls, at, op, a, b),
            left.position,
            at + 1,
        ),
        (SymbolKind::Integer(a), SymbolKind::Float(b)) => match conversion_answer(calls, at, a) {
            Some(converted) => float_result(
                arithmetic_answer(calls, at + 1, op, converted, b),
                left.position,
                at + 2,
            ),
            None => lost(at + 2),
        },
        (SymbolKind::Float(a), SymbolKind::Integer(b)) => match conversion_answer(calls, at, b) {
            Some(converted) => float_result(
                arithmetic_answer(calls, at + 1, op, a, converted),
                left.position,
                at + 2,
            ),
            None => lost(at + 2),
        },
        _ => settled(Err(operands_error(arithmetic_verb(op), left, right)), at),
    }
}

/// A relational operator on two values: 1 where it holds, else 0. Where a
/// float takes part, the host is asked as for an arithmetic operator.
pub open spec fn compare(op: CompareOp, left: SymbolView, right: SymbolView, calls: Seq<HostCall>, at: nat) -> Applied {
    match (left.value, right.value) {
        (SymbolKind::Integer(a), SymbolKind::Integer(b)) => settled(
            Ok(integer_at(bool_int(integer_compare(op, a as int, b as int)), left.position)),
            at,
        ),
        (SymbolKind::Float(a), SymbolKind::Float(b)) => truth_result(
            comparison_answer(calls, at, op, a, b),
            left.position,
            at + 1,
        ),
        (SymbolKind::Integer(a), SymbolKind::Float(b)) => match conversion_answer(calls, at, a) {
            Some(converted) => truth_result(
                comparison_answer(calls, at + 1, op, converted, b),
                left.position,
                at + 2,
            ),
            None => lost(at + 2),
        },
        (SymbolKind::Float(a), SymbolKind::Integer(b)) => match conversion_answer(calls, at, b) {
            Some(converted) => truth_result(
                comparison_answer(calls, at + 1, op, a, converted),
                left.position,
                at + 2,
            ),
            None => lost(at + 2),
        },
        _ => settled(Err(operands_error("compare"@, left, right)), at),
    }
}

/// `and` of two values: both must be integers, and every integer but 0 is
/// true.
pub open spec fn conjunction(left: SymbolView, right: SymbolView) -> Result<SymbolView, ErrorView> {
    match (left.value, right.value) {
        (SymbolKind::Integer(a), SymbolKind::Integer(b)) => Ok(
            integer_at(bool_int(a != 0 && b != 0), left.position),
        ),
        _ => Err(operands_error("combine with and"@, left, right)),
    }
}

/// `or` of two values: both must be integers, and every integer but 0 is
/// true.
pub open spec fn disjunction(left: SymbolView, right: SymbolView) -> Result<SymbolView, ErrorView> {
    match (left.value, right.value) {
        (SymbolKind::Integer(a), SymbolKind::Integer(b)) => Ok(
            integer_at(bool_int(a != 0 || b != 0), left.position),
        ),
        _ => Err(operands_error("combine with or"@, left, right)),
    }
}

/// `not` of a value: 1 for the integer 0, 0 for every other integer.
pub open spec fn negation(operand: SymbolView) -> Result<SymbolView, ErrorView> {
    match operand.value {
        SymbolKind::Integer(a) => Ok(integer_at(bool_int(a == 0), operand.position)),
        _ => Err(
            runtime_error(
                ErrorType::TypeError,
                operand_message("not"@, operand.value),
                operand.position,
            ),
        ),
    }
}

/// The bits of a float with its sign changed.
pub open spec fn flip_sign(bits: u32) -> u32 {
    bits ^ 0x8000_0000u32
}

/// The opposite of a number. The sign of a float is its highest bit.
pub open spec fn opposite(operand: SymbolView) -> Result<SymbolView, ErrorView> {
    match operand.value {
        SymbolKind::Integer(a) => checked(-a, operand.position),
        SymbolKind::Float(bits) => Ok(float_at(flip_sign(bits), operand.position)),
        _ => Err(
            runtime_error(
                ErrorType::TypeError,
                operand_message("neg"@, operand.value),
                operand.position,
            ),
        ),
    }
}

/// Whether an arithmetic operator that was applied from the answers `log`
/// on, and gave `result` and the answers `after`, did what [`arithmetic`]
/// says of every sequence of answers that begins with `after`.
pub open spec fn applied_arithmetic(
    op: ArithmeticOp,
    left: SymbolView,
    right: SymbolView,
    log: Seq<HostCall>,
    result: Result<Symbol, Error>,
    after: Seq<HostCall>,
) -> bool {
    &&& log.is_prefix_of(after)
    &&& forall|replies: Seq<HostCall>|
        after.is_prefix_of(replies) ==> #[trigger] arithmetic(op, left, right, replies, log.len())
            == (Applied { result: result_view(result), next: after.len(), faithful: true })
}

/// The same for a relational operator and [`compare`].
pub open spec fn applied_compare(
    op: CompareOp,
    left: SymbolView,
    right: SymbolView,
    log: Seq<HostCall>,
    result: Result<Symbol, Error>,
    after: Seq<HostCall>,
) -> bool {
    &&& log.is_prefix_of(after)
    &&& forall|replies: Seq<HostCall>|
        after.is_prefix_of(replies) ==> #[trigger] compare(op, left, right, replies, log.len())
            == (Applied { result: result_view(result), next: after.len(), faithful: true })
}

/// The magnitude of a product is the product of the magnitudes.
pub proof fn lemma_magnitude_product(a: int, b: int)
    ensures
        magnitude(a * b) == magnitude(a) * magnitude(b),
{
    assert(magnitude(a * b) == magnitude(a) * magnitude(b)) by (nonlinear_arith)
        requires
            magnitude(a) == if a < 0 {
                -a
            } else {
                a
            },
            magnitude(b) == if b < 0 {
                -b
            } else {
                b
            },
            magnitude(a * b) == if a * b < 0 {
                -(a * b)
            } else {
                a * b
            },
    ;
}

/// The powers of a number beyond 1 and -1 grow: each is at least double the
/// one before, in magnitude.
pub proof fn lemma_power_grows(a: int, m: nat, n: nat)
    requires
        magnitude(a) >= 2,
        m <= n,
    ensures
        magnitude(power(a, n)) >= magnitude(power(a, m)),
        n > m ==> magnitude(power(a, n)) >= 2 * magnitude(power(a, m)),
    decreases n,
{
    if n > m {
        lemma_power_grows(a, m, (n - 1) as nat);
        lemma_magnitude_product(a, power(a, (n - 1) as nat));
        let before = magnitude(power(a, (n - 1) as nat));
        let factor = magnitude(a);
        assert(factor * before >= 2 * before) by (nonlinear_arith)
            requires
                factor >= 2,
                before >= 0,
        ;
    }
}

/// The powers of 0, 1 and -1 stay among 0, 1 and -1.
pub proof fn lemma_power_small(a: int, n: nat)
    requires
        magnitude(a) <= 1,
    ensures
        magnitude(power(a, n)) <= 1,
    decreases n,
{
    if n > 0 {
        lemma_power_small(a, (n - 1) as nat);
        lemma_magnitude_product(a, power(a, (n - 1) as nat));
        let before = magnitude(power(a, (n - 1) as nat));
        let factor = magnitude(a);
        assert(factor * before <= 1) by (nonlinear_arith)
            requires
                0 <= factor <= 1,
                0 <= before <= 1,
        ;
    }
}

fn overflow(position: &TokenPosition) -> (e: Error)
    ensures
        e@ == runtime_error(ErrorType::Exception, "Integer overflow"@, *position),
{
    Error::new_runtime(ErrorType::Exception, String::from_str("Integer overflow"), position)
}

/// The integer `value` where it fits in 32 bits, else an overflow error.
fn check_range(value: i64, position: &TokenPosition) -> (r: Result<Symbol, Error>)
    ensures
        result_view(r) == checked(value as int, *position),
{
    if value < i32::MIN as i64 || value > i32::MAX as i64 {
        Err(overflow(position))
    } else {
        Ok(Symbol::new(SymbolType::Integer(value as i32), *position))
    }
}

/// The power of two integers.
fn integer_power(a: i32, b: i32, position: &TokenPosition) -> (r: Result<Symbol, Error>)
    requires
        b >= 0,
    ensures
        result_view(r) == checked(power(a as int, b as nat), *position),
{
    let mut acc: i64 = 1;
    let mut i: i32 = 0;
    while i < b
        invariant
            0 <= i <= b,
            acc == power(a as int, i as nat),
            i32::MIN <= acc <= i32::MAX,
        decreases b - i,
    {
        assert(i32::MIN * i32::MAX <= acc * a <= i32::MIN * i32::MIN) by (nonlinear_arith)
            requires
                i32::MIN <= acc <= i32::MAX,
                i32::MIN <= a <= i32::MAX,
        ;
        let next: i64 = acc * (a as i64);
        assert(next == power(a as int, (i + 1) as nat)) by {
            assert(power(a as int, (i + 1) as nat) == a * power(a as int, i as nat));
            assert(a * acc == acc * a) by (nonlinear_arith);
        }
        if next < i32::MIN as i64 || next > i32::MAX as i64 {
            proof {
                if magnitude(a as int) <= 1 {
                    lemma_power_small(a as int, (i + 1) as nat);
                } else {
                    lemma_power_grows(a as int, (i + 1) as nat, b as nat);
                }
            }
            return Err(overflow(position));
        }
        acc = next;
        i += 1;
    }
    check_range(acc, position)
}

/// The quotient of two integers, rounded towards zero.
fn integer_quotient(a: i32, b: i32, position: &TokenPosition) -> (r: Result<Symbol, Error>)
    requires
        b != 0,
    ensures
        result_view(r) == checked(quotient(a as int, b as int), *position),
{
    let left: i64 = if a < 0 {
        -(a as i64)
    } else {
        a as i64
    };
    let right: i64 = if b < 0 {
        -(b as i64)
    } else {
        b as i64
    };
    let size: i64 = ((left as u64) / (right as u64)) as i64;
    let value: i64 = if (a < 0) == (b < 0) {
        size
    } else {
        -size
    };
    check_range(value, position)
}

/// An arithmetic operator on two integers.
pub fn apply_integer_arithmetic(op: ArithmeticOp, a: i32, b: i32, position: &TokenPosition) -> (r:
    Result<Symbol, Error>)
    ensures
        result_view(r) == integer_arithmetic(op, a, b, *position),
{
    match op {
        ArithmeticOp::Add => check_range(a as i64 + b as i64, position),
        ArithmeticOp::Subtract => check_range(a as i64 - b as i64, position),
        ArithmeticOp::Multiply => {
            assert(i32::MIN * i32::MAX <= a * b <= i32::MIN * i32::MIN) by (nonlinear_arith)
                requires
                    i32::MIN <= a <= i32::MAX,
                    i32::MIN <= b <= i32::MAX,
            ;
            check_range((a as i64) * (b as i64), position)
        },
        ArithmeticOp::Divide => {
            if b == 0 {
                Err(
                    Error::new_runtime(
                        ErrorType::Exception,
                        String::from_str("Division by zero"),
                        position,
                    ),
                )
            } else {
                integer_quotient(a, b, position)
            }
        },
        ArithmeticOp::Power => {
            if b < 0 {
                Err(
                    Error::new_runtime(
                        ErrorType::Exception,
                        String::from_str("Negative exponent"),
                        position,
                    ),
                )
            } else {
                integer_power(a, b, position)
            }
        },
    }
}

/// A relational operator on two integers.
pub fn apply_integer_compare(op: CompareOp, a: i32, b: i32) -> (r: bool)
    ensures
        r == integer_compare(op, a as int, b as int),
{
    match op {
        CompareOp::Less => a < b,
        CompareOp::LessEqual => a <= b,
        CompareOp::Greater => a > b,
        CompareOp::GreaterEqual => a >= b,
        CompareOp::Equal => a == b,
        CompareOp::NotEqual => a != b,
    }
}

/// The type error for two operands that an operator does not take.
pub fn operands_type_error(verb: &str, left: &Symbol, right: &Symbol) -> (e: Error)
    ensures
        e@ == operands_error(verb@, left@, right@),
{
    proof {
        reveal(operands_message);
    }
    let mut message = String::from_str("Cannot ");
    message.append(verb);
    message.append(" '");
    message.append(left.value.to_string().as_str());
    message.append("' and '");
    message.append(right.value.to_string().as_str());
    message.append("'");
    Error::new_runtime(ErrorType::TypeError, message, &left.position)
}

/// The type error for an operand that a unary operator does not take.
pub fn operand_type_error(verb: &str, operand: &Symbol) -> (e: Error)
    ensures
        e@ == runtime_error(
            ErrorType::TypeError,
            operand_message(verb@, operand@.value),
            operand@.position,
        ),
{
    proof {
        reveal(operand_message);
    }
    let mut message = String::from_str("Cannot apply ");
    message.append(verb);
    message.append(" to '");
    message.append(operand.value.to_string().as_str());
    message.append("'");
    Error::new_runtime(ErrorType::TypeError, message, &operand.position)
}

fn verb_of(op: ArithmeticOp) -> (r: &'static str)
    ensures
        r@ == arithmetic_verb(op),
{
    match op {
        ArithmeticOp::Add => "add",
        ArithmeticOp::Subtract => "subtract",
        ArithmeticOp::Multiply => "multiply",
        ArithmeticOp::Divide => "divide",
        ArithmeticOp::Power => "power",
    }
}

/// An arithmetic operator on two values, with the answers of the host noted.
pub(crate) fn apply_arithmetic<H: Host>(
    op: ArithmeticOp,
    left: &Symbol,
    right: &Symbol,
    host: &mut H,
    Ghost(log): Ghost<Seq<HostCall>>,
) -> (out: (Result<Symbol, Error>, Ghost<Seq<HostCall>>))
    ensures
        applied_arithmetic(op, left@, right@, log, out.0, out.1@),
{
    match (&left.value, &right.value) {
        (SymbolType::Integer(a), SymbolType::Integer(b)) => (apply_integer_arithmetic(op, *a, *b, &left.position), Ghost(log)),
        (SymbolType::Float(a), SymbolType::Float(b)) => {
            let (bits, Ghost(after)) = ask_arithmetic(host, op, *a, *b, Ghost(log));
            proof {
                assert forall|replies: Seq<HostCall>| after.is_prefix_of(replies) implies arithmetic_answer(
                    replies,
                    log.len(),
                    op,
                    *a,
                    *b,
                ) == Some(bits) by {
                    lemma_prefix_push(log, HostCall::Arithmetic { op: op, left: *a, right: *b, bits: bits }, replies);
                }
            }
            (Ok(Symbol::new(SymbolType::Float(bits), left.position)), Ghost(after))
        },
        (SymbolType::Integer(a), SymbolType::Float(b)) => {
            let (converted, Ghost(middle)) = ask_conversion(host, *a, Ghost(log));
            let (bits, Ghost(after)) = ask_arithmetic(host, op, converted, *b, Ghost(middle));
            proof {
                assert forall|replies: Seq<HostCall>| after.is_prefix_of(replies) implies conversion_answer(
                    replies,
                    log.len(),
                    *a,
                ) == Some(converted) && arithmetic_answer(
                    replies,
                    log.len() + 1,
                    op,
                    converted,
                    *b,
                ) == Some(bits) by {
                    lemma_prefix_push(middle, HostCall::Arithmetic { op: op, left: converted, right: *b, bits: bits }, replies);
                    lemma_prefix_push(
                        log,
                        HostCall::Conversion { value: *a, bits: converted },
                        replies,
                    );
                }
            }
            (Ok(Symbol::new(SymbolType::Float(bits), left.position)), Ghost(after))
        },
        (SymbolType::Float(a), SymbolType::Integer(b)) => {
            let (converted, Ghost(middle)) = ask_conversion(host, *b, Ghost(log));
            let (bits, Ghost(after)) = ask_arithmetic(host, op, *a, converted, Ghost(middle));
            proof {
                assert forall|replies: Seq<HostCall>| after.is_prefix_of(replies) implies conversion_answer(
                    replies,
                    log.len(),
                    *b,
                ) == Some(converted) && arithmetic_answer(
                    replies,
                    log.len() + 1,
                    op,
                    *a,
                    converted,
                ) == Some(bits) by {
                    lemma_prefix_push(middle, HostCall::Arithmetic { op: op, left: *a, right: converted, bits: bits }, replies);
                    lemma_prefix_push(
                        log,
                        HostCall::Conversion { value: *b, bits: converted },
                        replies,
                    );
                }
            }
            (Ok(Symbol::new(SymbolType::Float(bits), left.position)), Ghost(after))
        },
        _ => (Err(operands_type_error(verb_of(op), left, right)), Ghost(log)),
    }
}

/// A relational operator on two values, with the answers of the host noted.
pub(crate) fn apply_compare<H: Host>(
    op: CompareOp,
    left: &Symbol,
    right: &Symbol,
    host: &mut H,
    Ghost(log): Ghost<Seq<HostCall>>,
) -> (out: (Result<Symbol, Error>, Ghost<Seq<HostCall>>))
    ensures
        applied_compare(op, left@, right@, log, out.0, out.1@),
{
    match (&left.value, &right.value) {
        (SymbolType::Integer(a), SymbolType::Integer(b)) => {
            let truth = apply_integer_compare(op, *a, *b);
            (Ok(Symbol::new(SymbolType::Integer(bool_to_int(truth)), left.position)), Ghost(log))
        },
        (SymbolType::Float(a), SymbolType::Float(b)) => {
            let (truth, Ghost(after)) = ask_comparison(host, op, *a, *b, Ghost(log));
            proof {
                assert forall|replies: Seq<HostCall>| after.is_prefix_of(replies) implies comparison_answer(
                    replies,
                    log.len(),
                    op,
                    *a,
                    *b,
                ) == Some(truth) by {
                    lemma_prefix_push(log, HostCall::Comparison { op: op, left: *a, right: *b, truth: truth }, replies);
                }
            }
            (Ok(Symbol::new(SymbolType::Integer(bool_to_int(truth)), left.position)), Ghost(after))
        },
        (SymbolType::Integer(a), SymbolType::Float(b)) => {
            let (converted, Ghost(middle)) = ask_conversion(host, *a, Ghost(log));
            let (truth, Ghost(after)) = ask_comparison(host, op, converted, *b, Ghost(middle));
            proof {
                assert forall|replies: Seq<HostCall>| after.is_prefix_of(replies) implies conversion_answer(
                    replies,
                    log.len(),
                    *a,
                ) == Some(converted) && comparison_answer(
                    replies,
                    log.len() + 1,
                    op,
                    converted,
                    *b,
                ) == Some(truth) by {
                    lemma_prefix_push(middle, HostCall::Comparison { op: op, left: converted, right: *b, truth: truth }, replies);
                    lemma_prefix_push(
                        log,
                        HostCall::Conversion { value: *a, bits: converted },
                        replies,
                    );
                }
            }
            (Ok(Symbol::new(SymbolType::Integer(bool_to_int(truth)), left.position)), Ghost(after))
        },
        (SymbolType::Float(a), SymbolType::Integer(b)) => {
            let (converted, Ghost(middle)) = ask_conversion(host, *b, Ghost(log));
            let (truth, Ghost(after)) = ask_comparison(host, op, *a, converted, Ghost(middle));
            proof {
                assert forall|replies: Seq<HostCall>| after.is_prefix_of(replies) implies conversion_answer(
                    replies,
                    log.len(),
                    *b,
                ) == Some(converted) && comparison_answer(
                    replies,
                    log.len() + 1,
                    op,
                    *a,
                    converted,
                ) == Some(truth) by {
                    lemma_prefix_push(middle, HostCall::Comparison { op: op, left: *a, right: converted, truth: truth }, replies);
                    lemma_prefix_push(
                        log,
                        HostCall::Conversion { value: *b, bits: converted },
                        replies,
                    );
                }
            }
            (Ok(Symbol::new(SymbolType::Integer(bool_to_int(truth)), left.position)), Ghost(after))
        },
        _ => (Err(operands_type_error("compare", left, right)), Ghost(log)),
    }
}

impl Symbol {
    /// An arithmetic operator on this value and `other`. Of the answers of
    /// the host, `replies` are those that were given.
    pub fn arithmetic<H: Host>(&self, op: ArithmeticOp, other: &Symbol, host: &mut H) -> (r: Result<
        Symbol,
        Error,
    >)
        ensures
            exists|replies: Seq<HostCall>| #[trigger]
                arithmetic(op, self@, other@, replies, 0) == (Applied {
                    result: result_view(r),
                    next: replies.len(),
                    faithful: true,
                }),
    {
        let (result, Ghost(after)) = apply_arithmetic(op, self, other, host, Ghost(Seq::empty()));
        proof {
            assert(after.is_prefix_of(after));
            assert(arithmetic(op, self@, other@, after, 0) == (Applied {
                result: result_view(result),
                next: after.len(),
                faithful: true,
            }));
        }
        result
    }

    /// A relational operator on this value and `other`.
    pub fn compare<H: Host>(&self, op: CompareOp, other: &Symbol, host: &mut H) -> (r: Result<
        Symbol,
        Error,
    >)
        ensures
            exists|replies: Seq<HostCall>| #[trigger]
                compare(op, self@, other@, replies, 0) == (Applied {
                    result: result_view(r),
                    next: replies.len(),
                    faithful: true,
                }),
    {
        let (result, Ghost(after)) = apply_compare(op, self, other, host, Ghost(Seq::empty()));
        proof {
            assert(after.is_prefix_of(after));
            assert(compare(op, self@, other@, after, 0) == (Applied {
                result: result_view(result),
                next: after.len(),
                faithful: true,
            }));
        }
        result
    }

    /// The sum of this value and `other`.
    pub fn add<H: Host>(&self, other: &Symbol, host: &mut H) -> (r: Result<Symbol, Error>)
        ensures
            exists|replies: Seq<HostCall>| #[trigger]
                arithmetic(ArithmeticOp::Add, self@, other@, replies, 0) == (Applied {
                    result: result_view(r),
                    next: replies.len(),
                    faithful: true,
                }),
    {
        self.arithmetic(ArithmeticOp::Add, other, host)
    }

    /// The difference of this value and `other`.
    pub fn sub<H: Host>(&self, other: &Symbol, host: &mut H) -> (r: Result<Symbol, Error>)
        ensures
            exists|replies: Seq<HostCall>| #[trigger]
                arithmetic(ArithmeticOp::Subtract, self@, other@, replies, 0) == (Applied {
                    result: result_view(r),
                    next: replies.len(),
                    faithful: true,
                }),
    {
        self.arithmetic(ArithmeticOp::Subtract, other, host)
    }

    /// The product of this value and `other`.
    pub fn mul<H: Host>(&self, other: &Symbol, host: &mut H) -> (r: Result<Symbol, Error>)
        ensures
            exists|replies: Seq<HostCall>| #[trigger]
                arithmetic(ArithmeticOp::Multiply, self@, other@, replies, 0) == (Applied {
                    result: result_view(r),
                    next: replies.len(),
                    faithful: true,
                }),
    {
        self.arithmetic(ArithmeticOp::Multiply, other, host)
    }

    /// The quotient of this value and `other`.
    pub fn div<H: Host>(&self, other: &Symbol, host: &mut H) -> (r: Result<Symbol, Error>)
        ensures
            exists|replies: Seq<HostCall>| #[trigger]
                arithmetic(ArithmeticOp::Divide, self@, other@, replies, 0) == (Applied {
                    result: result_view(r),
                    next: replies.len(),
                    faithful: true,
                }),
    {
        self.arithmetic(ArithmeticOp::Divide, other, host)
    }

    /// The power of this value and `other`.
    pub fn power<H: Host>(&self, other: &Symbol, host: &mut H) -> (r: Result<Symbol, Error>)
        ensures
            exists|replies: Seq<HostCall>| #[trigger]
                arithmetic(ArithmeticOp::Power, self@, other@, replies, 0) == (Applied {
                    result: result_view(r),
                    next: replies.len(),
                    faithful: true,
                }),
    {
        self.arithmetic(ArithmeticOp::Power, other, host)
    }

    /// Whether this value is less than `other`: 1 or 0.
    pub fn lt<H: Host>(&self, other: &Symbol, host: &mut H) -> (r: Result<Symbol, Error>)
        ensures
            exists|replies: Seq<HostCall>| #[trigger]
                compare(CompareOp::Less, self@, other@, replies, 0) == (Applied {
                    result: result_view(r),
                    next: replies.len(),
                    faithful: true,
                }),
    {
        self.compare(CompareOp::Less, other, host)
    }

    /// Whether this value is at most `other`: 1 or 0.
    pub fn le<H: Host>(&self, other: &Symbol, host: &mut H) -> (r: Result<Symbol, Error>)
        ensures
            exists|replies: Seq<HostCall>| #[trigger]
                compare(CompareOp::LessEqual, self@, other@, replies, 0) == (Applied {
                    result: result_view(r),
                    next: replies.len(),
                    faithful: true,
                }),
    {
        self.compare(CompareOp::LessEqual, other, host)
    }

    /// Whether this value is greater than `other`: 1 or 0.
    pub fn gt<H: Host>(&self, other: &Symbol, host: &mut H) -> (r: Result<Symbol, Error>)
        ensures
            exists|replies: Seq<HostCall>| #[trigger]
                compare(CompareOp::Greater, self@, other@, replies, 0) == (Applied {
                    result: result_view(r),
                    next: replies.len(),
                    faithful: true,
                }),
    {
        self.compare(CompareOp::Greater, other, host)
    }

    /// Whether this value is at least `other`: 1 or 0.
    pub fn ge<H: Host>(&self, other: &Symbol, host: &mut H) -> (r: Result<Symbol, Error>)
        ensures
            exists|replies: Seq<HostCall>| #[trigger]
                compare(CompareOp::GreaterEqual, self@, other@, replies, 0) == (Applied {
                    result: result_view(r),
                    next: replies.len(),
                    faithful: true,
                }),
    {
        self.compare(CompareOp::GreaterEqual, other, host)
    }

    /// Whether this value equals `other`: 1 or 0.
    pub fn eq<H: Host>(&self, other: &Symbol, host: &mut H) -> (r: Result<Symbol, Error>)
        ensures
            exists|replies: Seq<HostCall>| #[trigger]
                compare(CompareOp::Equal, self@, other@, replies, 0) == (Applied {
                    result: result_view(r),
                    next: replies.len(),
                    faithful: true,
                }),
    {
        self.compare(CompareOp::Equal, other, host)
    }

    /// Whether this value differs from `other`: 1 or 0.
    pub fn ne<H: Host>(&self, other: &Symbol, host: &mut H) -> (r: Result<Symbol, Error>)
        ensures
            exists|replies: Seq<HostCall>| #[trigger]
                compare(CompareOp::NotEqual, self@, other@, replies, 0) == (Applied {
                    result: result_view(r),
                    next: replies.len(),
                    faithful: true,
                }),
    {
        self.compare(CompareOp::NotEqual, other, host)
    }

    /// `and` of this value and `other`.
    pub fn and(&self, other: &Symbol) -> (r: Result<Symbol, Error>)
        ensures
            result_view(r) == conjunction(self@, other@),
    {
        match (&self.value, &other.value) {
            (SymbolType::Integer(a), SymbolType::Integer(b)) => Ok(
                Symbol::new(SymbolType::Integer(bool_to_int(*a != 0 && *b != 0)), self.position),
            ),
            _ => Err(operands_type_error("combine with and", self, other)),
        }
    }

    /// `or` of this value and `other`.
    pub fn or(&self, other: &Symbol) -> (r: Result<Symbol, Error>)
        ensures
            result_view(r) == disjunction(self@, other@),
    {
        match (&self.value, &other.value) {
            (SymbolType::Integer(a), SymbolType::Integer(b)) => Ok(
                Symbol::new(SymbolType::Integer(bool_to_int(*a != 0 || *b != 0)), self.position),
            ),
            _ => Err(operands_type_error("combine with or", self, other)),
        }
    }

    /// `not` of this value.
    pub fn not(&self) -> (r: Result<Symbol, Error>)
        ensures
            result_view(r) == negation(self@),
    {
        match &self.value {
            SymbolType::Integer(a) => Ok(
                Symbol::new(SymbolType::Integer(bool_to_int(*a == 0)), self.position),
            ),
            _ => Err(operand_type_error("not", self)),
        }
    }

    /// The opposite of this value.
    pub fn neg(&self) -> (r: Result<Symbol, Error>)
        ensures
            result_view(r) == opposite(self@),
    {
        match &self.value {
            SymbolType::Integer(a) => check_range(-(*a as i64), &self.position),
            SymbolType::Float(bits) => Ok(
                Symbol::new(SymbolType::Float(*bits ^ 0x8000_0000u32), self.position),
            ),
            _ => Err(operand_type_error("neg", self)),
        }
    }
}

} // verus!
