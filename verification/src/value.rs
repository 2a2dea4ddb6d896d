use vstd::prelude::*;
use std::rc::Rc;

use crate::ast::AstNode;
use crate::ast::CalcOp;
use crate::ast::ComparisonOp;
use crate::ast::LogicalOp;
use crate::ast::VarType;
use crate::numeric::dec_text;
use crate::numeric::number_to_text;
use crate::numeric::parse_dec;
use crate::numeric::text_to_number;

verus! {

/// Why an evaluation stopped. Every failure is final: the evaluator
/// propagates the first one to the caller and performs no recovery.
///
/// Two kinds do not come from a language rule: `DivisionByZero`, because
/// numbers are exact integers and a zero divisor has no quotient, and
/// `RecursionLimit`, reported when nested evaluation exceeds the caller's
/// depth budget.
#[derive(Clone, Copy, PartialEq, Eq, Structural, Debug)]
pub enum RuntimeError {
    UndefinedIdentifier,
    UndefinedFunction,
    MissingArgument,
    ConstantReassignment,
    UndeclaredReassignment,
    TypeMismatchArithmetic,
    TypeMismatchComparison,
    ParseCoercionFailure,
    DivisionByZero,
    RecursionLimit,
}

/// A scalar held by a bound variable.
#[derive(Debug, PartialEq)]
pub enum OranVariableValue {
    Number(i64),
    Str(String),
    Boolean(bool),
    Null,
}

/// A bound variable: the declaration kind it was created with, its name,
/// and its scalar value.
#[derive(Debug, PartialEq)]
pub struct OranVariable {
    pub var_type: VarType,
    pub name: String,
    pub value: OranVariableValue,
}

/// A user function as stored in the environment. The pieces are shared
/// with the defining node, never copied.
#[derive(Debug, PartialEq)]
pub struct FunctionDefine {
    pub name: String,
    pub args: Rc<Vec<AstNode>>,
    pub body: Rc<Vec<AstNode>>,
    pub fn_return: Rc<AstNode>,
}

/// The result of evaluating any node.
#[derive(Debug, PartialEq)]
pub enum OranValue {
    Number(i64),
    Str(String),
    Boolean(bool),
    Null,
    Variable(OranVariable),
    Function(FunctionDefine),
}

/// Relies on `Rc::clone`: the returned handle shares the same inner value.
#[verifier::external_body]
pub fn rc_clone<T>(rc: &Rc<T>) -> (res: Rc<T>)
    ensures
        res == *rc,
{
    Rc::clone(rc)
}

impl Clone for OranVariableValue {
    fn clone(&self) -> (res: Self)
        ensures
            res == *self,
    {
        match self {
            OranVariableValue::Number(n) => OranVariableValue::Number(*n),
            OranVariableValue::Str(s) => OranVariableValue::Str(s.clone()),
            OranVariableValue::Boolean(b) => OranVariableValue::Boolean(*b),
            OranVariableValue::Null => OranVariableValue::Null,
        }
    }
}

impl Clone for OranVariable {
    fn clone(&self) -> (res: Self)
        ensures
            res == *self,
    {
        OranVariable {
            var_type: self.var_type,
            name: self.name.clone(),
            value: self.value.clone(),
        }
    }
}

impl Clone for FunctionDefine {
    fn clone(&self) -> (res: Self)
        ensures
            res == *self,
    {
        FunctionDefine {
            name: self.name.clone(),
            args: rc_clone(&self.args),
            body: rc_clone(&self.body),
            fn_return: rc_clone(&self.fn_return),
        }
    }
}

impl Clone for OranValue {
    fn clone(&self) -> (res: Self)
        ensures
            res == *self,
    {
        match self {
            OranValue::Number(n) => OranValue::Number(*n),
            OranValue::Str(s) => OranValue::Str(s.clone()),
            OranValue::Boolean(b) => OranValue::Boolean(*b),
            OranValue::Null => OranValue::Null,
            OranValue::Variable(v) => OranValue::Variable(v.clone()),
            OranValue::Function(f) => OranValue::Function(f.clone()),
        }
    }
}

/// The scalar behind a value: a bound variable contributes its inner
/// scalar, a function definition counts as null.
pub open spec fn scalar_of(v: OranValue) -> OranVariableValue {
    match v {
        OranValue::Number(n) => OranVariableValue::Number(n),
        OranValue::Str(s) => OranVariableValue::Str(s),
        OranValue::Boolean(b) => OranVariableValue::Boolean(b),
        OranValue::Null => OranVariableValue::Null,
        OranValue::Variable(ov) => ov.value,
        OranValue::Function(_) => OranVariableValue::Null,
    }
}

/// The text a scalar prints as: numbers in decimal, strings as they are,
/// booleans as `true`/`false`, null as empty text.
pub open spec fn sv_text(sv: OranVariableValue) -> Seq<char> {
    match sv {
        OranVariableValue::Number(n) => dec_text(n as int),
        OranVariableValue::Str(s) => s@,
        OranVariableValue::Boolean(b) => if b {
            "true"@
        } else {
            "false"@
        },
        OranVariableValue::Null => Seq::empty(),
    }
}

/// The text a value prints as.
pub open spec fn val_text(v: OranValue) -> Seq<char> {
    sv_text(scalar_of(v))
}

/// The truth of a scalar: a string is true unless empty (the text `false`
/// is not special-cased), a number is true unless zero, null is false.
pub open spec fn sv_bool(sv: OranVariableValue) -> bool {
    match sv {
        OranVariableValue::Number(n) => n != 0,
        OranVariableValue::Str(s) => s@.len() != 0,
        OranVariableValue::Boolean(b) => b,
        OranVariableValue::Null => false,
    }
}

/// The truth of a value; a function definition counts as true.
pub open spec fn val_bool(v: OranValue) -> bool {
    match v {
        OranValue::Function(_) => true,
        _ => sv_bool(scalar_of(v)),
    }
}

/// The numeric coercion of a scalar: numbers pass through, a string must
/// parse as a number, null is zero, a boolean has no numeric coercion.
pub open spec fn sv_num(sv: OranVariableValue) -> Result<i64, RuntimeError> {
    match sv {
        OranVariableValue::Number(n) => Ok(n),
        OranVariableValue::Str(s) => match parse_dec(s@) {
            Some(n) => Ok(n),
            None => Err(RuntimeError::ParseCoercionFailure),
        },
        OranVariableValue::Boolean(_) => Err(RuntimeError::TypeMismatchArithmetic),
        OranVariableValue::Null => Ok(0),
    }
}

/// The numeric coercion of a value; a function definition has none.
pub open spec fn val_num(v: OranValue) -> Result<i64, RuntimeError> {
    match v {
        OranValue::Function(_) => Err(RuntimeError::TypeMismatchArithmetic),
        _ => sv_num(scalar_of(v)),
    }
}

/// Whether the numeric coercion of a value succeeds.
pub open spec fn is_num(v: OranValue) -> bool {
    val_num(v) is Ok
}

/// The coerced number of a value, meaningful where `is_num` holds.
pub open spec fn num_of(v: OranValue) -> i64 {
    match val_num(v) {
        Ok(n) => n,
        Err(_) => 0,
    }
}

/// Whether a stored binding is a constant: only a bound variable created
/// by a constant declaration counts.
pub open spec fn guard_is_const(v: OranValue) -> bool {
    v matches OranValue::Variable(ov) && ov.var_type == VarType::Constant
}

/// The scalar a value is stored as when wrapped into a bound variable.
pub fn to_scalar(v: &OranValue) -> (r: OranVariableValue)
    ensures
        r == scalar_of(*v),
{
    match v {
        OranValue::Number(n) => OranVariableValue::Number(*n),
        OranValue::Str(s) => OranVariableValue::Str(s.clone()),
        OranValue::Boolean(b) => OranVariableValue::Boolean(*b),
        OranValue::Null => OranVariableValue::Null,
        OranValue::Variable(ov) => ov.value.clone(),
        OranValue::Function(_) => OranVariableValue::Null,
    }
}

/// The number a value offers as the left operand of arithmetic: only a
/// number, or a bound variable holding one, qualifies.
pub open spec fn left_num(v: OranValue) -> Option<i64> {
    match v {
        OranValue::Number(n) => Some(n),
        OranValue::Variable(ov) => match ov.value {
            OranVariableValue::Number(n) => Some(n),
            _ => None,
        },
        _ => None,
    }
}

/// Signed division truncating toward zero; dividing the smallest number by
/// minus one wraps to itself.
pub open spec fn div_trunc(x: i64, d: i64) -> i64
    recommends
        d != 0,
{
    match x.checked_div(d) {
        Some(q) => q,
        None => i64::MIN,
    }
}

/// Signed remainder with the sign of the dividend; the one overflowing
/// case leaves no remainder.
pub open spec fn rem_trunc(x: i64, d: i64) -> i64
    recommends
        d != 0,
{
    match x.checked_rem(d) {
        Some(q) => q,
        None => 0,
    }
}

/// Exponentiation by repeated wrapping multiplication.
pub open spec fn pow_wrap(b: i64, e: nat) -> i64
    decreases e,
{
    if e == 0 {
        1
    } else {
        vstd::wrapping::i64_specs::wrapping_mul(pow_wrap(b, (e - 1) as nat), b)
    }
}

/// What an arithmetic node yields: the left operand must be a number (or a
/// variable holding one) — except for `^`, whose base is coerced like any
/// right operand — and the right is coerced; `+ - *` wrap, `/ %` follow
/// the machine convention and reject a zero divisor, `^` is wrapping
/// exponentiation, with a negative exponent read as the exact rational
/// rounded toward zero.
pub open spec fn calc_spec(op: CalcOp, a: OranValue, b: OranValue) -> Result<
    OranValue,
    RuntimeError,
> {
    let lan: Result<i64, RuntimeError> = if op == CalcOp::Power {
        val_num(a)
    } else {
        match left_num(a) {
            Some(n) => Ok(n),
            None => Err(RuntimeError::TypeMismatchArithmetic),
        }
    };
    match lan {
        Err(e) => Err(e),
        Ok(la) => match val_num(b) {
            Err(e) => Err(e),
            Ok(rb) => match op {
                CalcOp::Plus => Ok(
                    OranValue::Number(vstd::wrapping::i64_specs::wrapping_add(la, rb)),
                ),
                CalcOp::Minus => Ok(
                    OranValue::Number(vstd::wrapping::i64_specs::wrapping_sub(la, rb)),
                ),
                CalcOp::Times => Ok(
                    OranValue::Number(vstd::wrapping::i64_specs::wrapping_mul(la, rb)),
                ),
                CalcOp::Divide => if rb == 0 {
                    Err(RuntimeError::DivisionByZero)
                } else {
                    Ok(OranValue::Number(div_trunc(la, rb)))
                },
                CalcOp::Modulus => if rb == 0 {
                    Err(RuntimeError::DivisionByZero)
                } else {
                    Ok(OranValue::Number(rem_trunc(la, rb)))
                },
                CalcOp::Power => if rb >= 0 {
                    Ok(OranValue::Number(pow_wrap(la, rb as nat)))
                } else if la == 1 {
                    Ok(OranValue::Number(1))
                } else if la == -1 {
                    Ok(OranValue::Number(if rb % 2 == 0 { 1i64 } else { -1i64 }))
                } else if la == 0 {
                    Err(RuntimeError::DivisionByZero)
                } else {
                    Ok(OranValue::Number(0))
                },
            },
        },
    }
}

/// Equality between two values, decided by the kind of the left one: a
/// number compares coerced numbers, a string compares printed text, a
/// boolean compares truth, null equals only null.
pub open spec fn eq_vals(a: OranValue, b: OranValue) -> bool {
    match scalar_of(a) {
        OranVariableValue::Number(n) => n == num_of(b),
        OranVariableValue::Str(s) => s@ == val_text(b),
        OranVariableValue::Boolean(bb) => bb == val_bool(b),
        OranVariableValue::Null => scalar_of(b) is Null,
    }
}

/// What a comparison node yields. When either side has no numeric
/// coercion, only equality is allowed and it compares the printed text of
/// the two sides; otherwise the five operators act on the values, ordering
/// by the coerced numbers.
pub open spec fn compare_spec(op: ComparisonOp, a: OranValue, b: OranValue) -> Result<
    OranValue,
    RuntimeError,
> {
    if !is_num(a) || !is_num(b) {
        if op == ComparisonOp::Equal {
            Ok(OranValue::Boolean(val_text(a) == val_text(b)))
        } else {
            Err(RuntimeError::TypeMismatchComparison)
        }
    } else {
        match op {
            ComparisonOp::Equal => Ok(OranValue::Boolean(eq_vals(a, b))),
            ComparisonOp::BiggerThan => Ok(OranValue::Boolean(num_of(a) > num_of(b))),
            ComparisonOp::SmallerThan => Ok(OranValue::Boolean(num_of(a) < num_of(b))),
            ComparisonOp::EbiggerThan => Ok(OranValue::Boolean(num_of(a) >= num_of(b))),
            ComparisonOp::EsmallerThan => Ok(OranValue::Boolean(num_of(a) <= num_of(b))),
        }
    }
}

/// What a logical node yields: both operands are coerced to booleans and
/// combined; there is no short-circuit.
pub open spec fn logical_spec(op: LogicalOp, a: OranValue, b: OranValue) -> OranValue {
    OranValue::Boolean(
        match op {
            LogicalOp::And => val_bool(a) && val_bool(b),
            LogicalOp::Or => val_bool(a) || val_bool(b),
        },
    )
}

pub fn calc_values(op: CalcOp, a: &OranValue, b: &OranValue) -> (r: Result<
    OranValue,
    RuntimeError,
>)
    ensures
        r == calc_spec(op, *a, *b),
{
    let la: i64 = if let CalcOp::Power = op {
        match to_num(a) {
            Ok(n) => n,
            Err(e) => {
                return Err(e);
            },
        }
    } else {
        match a {
            OranValue::Number(n) => *n,
            OranValue::Variable(ov) => match &ov.value {
                OranVariableValue::Number(n) => *n,
                _ => {
                    return Err(RuntimeError::TypeMismatchArithmetic);
                },
            },
            _ => {
                return Err(RuntimeError::TypeMismatchArithmetic);
            },
        }
    };
    let rb: i64 = match to_num(b) {
        Ok(n) => n,
        Err(e) => {
            return Err(e);
        },
    };
    match op {
        CalcOp::Plus => Ok(OranValue::Number(la.wrapping_add(rb))),
        CalcOp::Minus => Ok(OranValue::Number(la.wrapping_sub(rb))),
        CalcOp::Times => Ok(OranValue::Number(la.wrapping_mul(rb))),
        CalcOp::Divide => {
            if rb == 0 {
                return Err(RuntimeError::DivisionByZero);
            }
            match la.checked_div(rb) {
                Some(q) => Ok(OranValue::Number(q)),
                None => Ok(OranValue::Number(i64::MIN)),
            }
        },
        CalcOp::Modulus => {
            if rb == 0 {
                return Err(RuntimeError::DivisionByZero);
            }
            match la.checked_rem(rb) {
                Some(q) => Ok(OranValue::Number(q)),
                None => Ok(OranValue::Number(0)),
            }
        },
        CalcOp::Power => {
            if rb >= 0 {
                let mut acc: i64 = 1;
                let mut k: i64 = 0;
                while k < rb
                    invariant
                        0 <= k <= rb,
                        acc == pow_wrap(la, k as nat),
                    decreases rb - k,
                {
                    acc = acc.wrapping_mul(la);
                    k = k + 1;
                }
                Ok(OranValue::Number(acc))
            } else if la == 1 {
                Ok(OranValue::Number(1))
            } else if la == -1 {
                Ok(OranValue::Number(if rb % 2 == 0 { 1 } else { -1 }))
            } else if la == 0 {
                Err(RuntimeError::DivisionByZero)
            } else {
                Ok(OranValue::Number(0))
            }
        },
    }
}

pub fn compare_values(op: ComparisonOp, a: &OranValue, b: &OranValue) -> (r: Result<
    OranValue,
    RuntimeError,
>)
    ensures
        r == compare_spec(op, *a, *b),
{
    let na = to_num(a);
    let nb = to_num(b);
    match (na, nb) {
        (Ok(x), Ok(y)) => match op {
            ComparisonOp::Equal => {
                let same = match a {
                    OranValue::Number(_) | OranValue::Null | OranValue::Boolean(_) => eq_scalar(
                        a,
                        b,
                        y,
                    ),
                    OranValue::Str(s) => {
                        let tb = to_text(b);
                        s.eq(&tb)
                    },
                    OranValue::Variable(ov) => match &ov.value {
                        OranVariableValue::Str(s) => {
                            let tb = to_text(b);
                            s.eq(&tb)
                        },
                        _ => eq_scalar(a, b, y),
                    },
                    OranValue::Function(_) => eq_scalar(a, b, y),
                };
                Ok(OranValue::Boolean(same))
            },
            ComparisonOp::BiggerThan => Ok(OranValue::Boolean(x > y)),
            ComparisonOp::SmallerThan => Ok(OranValue::Boolean(x < y)),
            ComparisonOp::EbiggerThan => Ok(OranValue::Boolean(x >= y)),
            ComparisonOp::EsmallerThan => Ok(OranValue::Boolean(x <= y)),
        },
        _ => match op {
            ComparisonOp::Equal => {
                let ta = to_text(a);
                let tb = to_text(b);
                Ok(OranValue::Boolean(ta.eq(&tb)))
            },
            _ => Err(RuntimeError::TypeMismatchComparison),
        },
    }
}

/// Equality against `b` for a left side whose scalar is not a string;
/// `y` must be the coerced number of `b`.
fn eq_scalar(a: &OranValue, b: &OranValue, y: i64) -> (r: bool)
    requires
        !(scalar_of(*a) is Str),
        val_num(*b) == Ok::<i64, RuntimeError>(y),
    ensures
        r == eq_vals(*a, *b),
{
    match a {
        OranValue::Number(n) => *n == y,
        OranValue::Boolean(bb) => *bb == to_bool(b),
        OranValue::Null => is_null_scalar(b),
        OranValue::Variable(ov) => match &ov.value {
            OranVariableValue::Number(n) => *n == y,
            OranVariableValue::Boolean(bb) => *bb == to_bool(b),
            OranVariableValue::Null => is_null_scalar(b),
            OranVariableValue::Str(_) => false,
        },
        OranValue::Function(_) => is_null_scalar(b),
        OranValue::Str(_) => false,
    }
}

/// Whether the scalar behind a value is null.
fn is_null_scalar(v: &OranValue) -> (r: bool)
    ensures
        r == (scalar_of(*v) is Null),
{
    match v {
        OranValue::Null => true,
        OranValue::Variable(ov) => match &ov.value {
            OranVariableValue::Null => true,
            _ => false,
        },
        OranValue::Function(_) => true,
        _ => false,
    }
}

pub fn logical_values(op: LogicalOp, a: &OranValue, b: &OranValue) -> (r: OranValue)
    ensures
        r == logical_spec(op, *a, *b),
{
    let ba = to_bool(a);
    let bb = to_bool(b);
    match op {
        LogicalOp::And => OranValue::Boolean(ba && bb),
        LogicalOp::Or => OranValue::Boolean(ba || bb),
    }
}

/// Law: the truth of a string is decided by emptiness alone — the empty
/// string is false and every other string is true, including the text
/// `false`.
pub proof fn lemma_string_truth(s: String)
    ensures
        val_bool(OranValue::Str(s)) == (s@.len() != 0),
{
}

/// Law: equality between a string and a number compares the string
/// against the number's printed text, not their coerced numeric values.
pub proof fn lemma_string_number_equality(s: String, n: i64)
    requires
        parse_dec(s@) is Some,
    ensures
        compare_spec(ComparisonOp::Equal, OranValue::Str(s), OranValue::Number(n)) == Ok::<
            OranValue,
            RuntimeError,
        >(OranValue::Boolean(s@ == dec_text(n as int))),
{
}

pub fn to_text(v: &OranValue) -> (r: String)
    ensures
        r@ == val_text(*v),
{
    match v {
        OranValue::Number(n) => number_to_text(*n),
        OranValue::Str(s) => s.clone(),
        OranValue::Boolean(b) => if *b {
            String::from_str("true")
        } else {
            String::from_str("false")
        },
        OranValue::Null => String::new(),
        OranValue::Variable(ov) => match &ov.value {
            OranVariableValue::Number(n) => number_to_text(*n),
            OranVariableValue::Str(s) => s.clone(),
            OranVariableValue::Boolean(b) => if *b {
                String::from_str("true")
            } else {
                String::from_str("false")
            },
            OranVariableValue::Null => String::new(),
        },
        OranValue::Function(_) => String::new(),
    }
}

pub fn to_bool(v: &OranValue) -> (r: bool)
    ensures
        r == val_bool(*v),
{
    match v {
        OranValue::Number(n) => *n != 0,
        OranValue::Str(s) => !s.as_str().is_empty(),
        OranValue::Boolean(b) => *b,
        OranValue::Null => false,
        OranValue::Variable(ov) => match &ov.value {
            OranVariableValue::Number(n) => *n != 0,
            OranVariableValue::Str(s) => !s.as_str().is_empty(),
            OranVariableValue::Boolean(b) => *b,
            OranVariableValue::Null => false,
        },
        OranValue::Function(_) => true,
    }
}

pub fn to_num(v: &OranValue) -> (r: Result<i64, RuntimeError>)
    ensures
        r == val_num(*v),
{
    match v {
        OranValue::Number(n) => Ok(*n),
        OranValue::Str(s) => match text_to_number(s.as_str()) {
            Some(n) => Ok(n),
            None => Err(RuntimeError::ParseCoercionFailure),
        },
        OranValue::Boolean(_) => Err(RuntimeError::TypeMismatchArithmetic),
        OranValue::Null => Ok(0),
        OranValue::Variable(ov) => match &ov.value {
            OranVariableValue::Number(n) => Ok(*n),
            OranVariableValue::Str(s) => match text_to_number(s.as_str()) {
                Some(n) => Ok(n),
                None => Err(RuntimeError::ParseCoercionFailure),
            },
            OranVariableValue::Boolean(_) => Err(RuntimeError::TypeMismatchArithmetic),
            OranVariableValue::Null => Ok(0),
        },
        OranValue::Function(_) => Err(RuntimeError::TypeMismatchArithmetic),
    }
}

} // verus!
