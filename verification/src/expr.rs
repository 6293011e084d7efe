//! The expression language: handed to `evalexpr`, whose results carry names
//! here.

use vstd::prelude::*;
use evalexpr::{ContextWithMutableFunctions, ContextWithMutableVariables};

verus! {

/// `evalexpr::HashMapContext`: the table of variables and functions that an
/// expression is evaluated under. Nothing of it is seen here but through the
/// three names that follow.
#[verifier::external_type_specification]
#[verifier::external_body]
pub struct ExHashMapContext(evalexpr::HashMapContext);

/// The variables of a context that hold a number: each name with the text
/// that the number was read from.
pub uninterp spec fn context_numbers(context: evalexpr::HashMapContext) -> Map<
    Seq<char>,
    Seq<char>,
>;

/// The variables of a context that hold a string: each name with the string.
pub uninterp spec fn context_strings(context: evalexpr::HashMapContext) -> Map<
    Seq<char>,
    Seq<char>,
>;

/// The names under which `shift_left` or `shift_right` stands in a context
/// as a function, in place of the evaluator's own.
pub uninterp spec fn context_guards(context: evalexpr::HashMapContext) -> Set<Seq<char>>;

/// Whether `str::parse` reads `raw` as a floating-point number.
pub uninterp spec fn number_text(raw: Seq<char>) -> bool;

/// What the evaluator makes of `expression` under the variables given, with
/// `shift_left` as `shl` and `shift_right` as `shr`: the printed form of the
/// value, or `None` where the expression does not parse or evaluate.
pub uninterp spec fn expression_value(
    expression: Seq<char>,
    numbers: Map<Seq<char>, Seq<char>>,
    strings: Map<Seq<char>, Seq<char>>,
) -> Option<Seq<char>>;

/// What the evaluator makes of `expression` as a truth value, with no
/// variable defined at the start and with `shift_left` as `shl` and
/// `shift_right` as `shr`: `None` where it does not evaluate to one.
pub uninterp spec fn boolean_value(expression: Seq<char>) -> Option<bool>;

/// No variables.
pub open spec fn no_bindings() -> Map<Seq<char>, Seq<char>> {
    Map::empty()
}

/// No names.
pub open spec fn no_guards() -> Set<Seq<char>> {
    Set::empty()
}

/// The two names under which the shift functions stand: `shl` and `shr`.
pub open spec fn shift_guards() -> Set<Seq<char>> {
    no_guards().insert("shl"@).insert("shr"@)
}

/// Whether a value can be shifted by `amount` bits.
pub open spec fn shift_in_range(amount: i64) -> bool {
    0 <= amount < 64
}

/// `value` shifted to the left by `amount` bits; `None` where the amount is
/// below 0 or not below 64.
pub fn shift_left(value: i64, amount: i64) -> (out: Option<i64>)
    ensures
        out == if shift_in_range(amount) {
            Some(value << amount)
        } else {
            None::<i64>
        },
{
    if 0 <= amount && amount < 64 {
        Some(value << amount)
    } else {
        None
    }
}

/// `value` shifted to the right by `amount` bits; `None` where the amount is
/// below 0 or not below 64.
pub fn shift_right(value: i64, amount: i64) -> (out: Option<i64>)
    ensures
        out == if shift_in_range(amount) {
            Some(value >> amount)
        } else {
            None::<i64>
        },
{
    if 0 <= amount && amount < 64 {
        Some(value >> amount)
    } else {
        None
    }
}

/// `HashMapContext::new`: a context without variables and functions.
#[verifier::external_body]
pub(crate) fn new_context() -> (context: evalexpr::HashMapContext)
    ensures
        context_numbers(context) == no_bindings(),
        context_strings(context) == no_bindings(),
        context_guards(context) == no_guards(),
{
    evalexpr::HashMapContext::new()
}

/// `HashMapContext::set_function` with `Function::new`: `shift_left` stands
/// in the context as `shl`, on two integers as the evaluator's own, and is
/// called in its place. The variables stay.
#[verifier::external_body]
pub(crate) fn guard_shift_left(context: &mut evalexpr::HashMapContext)
    ensures
        context_numbers(*final(context)) == context_numbers(*old(context)),
        context_strings(*final(context)) == context_strings(*old(context)),
        context_guards(*final(context)) == context_guards(*old(context)).insert("shl"@),
{
    let guarded = evalexpr::Function::new(|argument| {
        let pair = argument.as_fixed_len_tuple(2)?;
        match shift_left(pair[0].as_int()?, pair[1].as_int()?) {
            Some(shifted) => Ok(evalexpr::Value::Int(shifted)),
            None => Err(evalexpr::EvalexprError::CustomMessage("shift out of range".to_string())),
        }
    });
    let _ = context.set_function("shl".to_string(), guarded);
}

/// `HashMapContext::set_function` with `Function::new`: `shift_right` stands
/// in the context as `shr`, on two integers as the evaluator's own, and is
/// called in its place. The variables stay.
#[verifier::external_body]
pub(crate) fn guard_shift_right(context: &mut evalexpr::HashMapContext)
    ensures
        context_numbers(*final(context)) == context_numbers(*old(context)),
        context_strings(*final(context)) == context_strings(*old(context)),
        context_guards(*final(context)) == context_guards(*old(context)).insert("shr"@),
{
    let guarded = evalexpr::Function::new(|argument| {
        let pair = argument.as_fixed_len_tuple(2)?;
        match shift_right(pair[0].as_int()?, pair[1].as_int()?) {
            Some(shifted) => Ok(evalexpr::Value::Int(shifted)),
            None => Err(evalexpr::EvalexprError::CustomMessage("shift out of range".to_string())),
        }
    });
    let _ = context.set_function("shr".to_string(), guarded);
}

/// A context without variables in which the two shift functions are
/// guarded.
pub fn guarded_context() -> (context: evalexpr::HashMapContext)
    ensures
        context_numbers(context) == no_bindings(),
        context_strings(context) == no_bindings(),
        context_guards(context) == shift_guards(),
{
    let mut context = new_context();
    guard_shift_left(&mut context);
    guard_shift_right(&mut context);
    context
}

/// `str::parse` for a floating-point number: whether it reads `raw` as one.
#[verifier::external_body]
pub(crate) fn reads_as_number(raw: &str) -> (reads: bool)
    ensures
        reads == number_text(raw@),
{
    raw.parse::<evalexpr::FloatType>().is_ok()
}

/// `HashMapContext::set_value` with a name that the context does not hold
/// yet, and the number that `str::parse` reads `raw` as: the context gains
/// the variable and keeps what it held.
#[verifier::external_body]
pub(crate) fn bind_number(context: &mut evalexpr::HashMapContext, name: &str, raw: &str)
    requires
        number_text(raw@),
        !context_numbers(*old(context)).contains_key(name@),
        !context_strings(*old(context)).contains_key(name@),
    ensures
        context_numbers(*final(context)) == context_numbers(*old(context)).insert(name@, raw@),
        context_strings(*final(context)) == context_strings(*old(context)),
        context_guards(*final(context)) == context_guards(*old(context)),
{
    if let Ok(number) = raw.parse() {
        let _ = context.set_value(name.to_string(), evalexpr::Value::Float(number));
    }
}

/// `HashMapContext::set_value` with a name that the context does not hold
/// yet, and `raw` as a string: the context gains the variable and keeps what
/// it held.
#[verifier::external_body]
pub(crate) fn bind_string(context: &mut evalexpr::HashMapContext, name: &str, raw: &str)
    requires
        !context_numbers(*old(context)).contains_key(name@),
        !context_strings(*old(context)).contains_key(name@),
    ensures
        context_numbers(*final(context)) == context_numbers(*old(context)),
        context_strings(*final(context)) == context_strings(*old(context)).insert(name@, raw@),
        context_guards(*final(context)) == context_guards(*old(context)),
{
    let _ = context.set_value(name.to_string(), evalexpr::Value::String(raw.to_string()));
}

/// `eval_with_context`, and `to_string` on the value: the printed form of
/// what `expression` evaluates to under the variables of `context`, `None`
/// where it does not parse or evaluate. The context holds the two guarded
/// shift functions, so that no shift stops the program.
#[verifier::external_body]
pub(crate) fn evaluate(expression: &str, context: &evalexpr::HashMapContext) -> (value: Option<
    String,
>)
    requires
        context_guards(*context) == shift_guards(),
    ensures
        value.deep_view() == expression_value(
            expression@,
            context_numbers(*context),
            context_strings(*context),
        ),
{
    match evalexpr::eval_with_context(expression, context) {
        Ok(value) => Some(value.to_string()),
        Err(_) => None,
    }
}

/// `eval_boolean_with_context_mut`: the truth value of `expression` in a
/// context that holds no variable yet, `None` where it does not evaluate to
/// one. The context holds the two guarded shift functions.
#[verifier::external_body]
pub(crate) fn evaluate_boolean(expression: &str, context: evalexpr::HashMapContext) -> (value:
    Option<bool>)
    requires
        context_numbers(context) == no_bindings(),
        context_strings(context) == no_bindings(),
        context_guards(context) == shift_guards(),
    ensures
        value == boolean_value(expression@),
{
    let mut context = context;
    evalexpr::eval_boolean_with_context_mut(expression, &mut context).ok()
}

} // verus!
