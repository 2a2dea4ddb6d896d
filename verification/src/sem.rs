use vstd::prelude::*;

use crate::ast::AstNode;
use crate::ast::CalcOp;
use crate::ast::ComparisonOp;
use crate::ast::FnKind;
use crate::ast::FunctionOrValueType;
use crate::ast::LogicalOp;
use crate::ast::VarType;
use crate::env::EnvKey;
use crate::numeric::dec_text;
use crate::numeric::parse_dec;
use crate::value::div_trunc;
use crate::value::eq_vals;
use crate::value::left_num;
use crate::value::num_of;
use crate::value::is_num;
use crate::value::pow_wrap;
use crate::value::rem_trunc;
use crate::value::scalar_of;
use crate::value::val_bool;
use crate::value::val_num;
use crate::value::val_text;
use crate::value::calc_spec;
use crate::value::compare_spec;
use crate::value::logical_spec;
use crate::value::guard_is_const;
use crate::value::OranValue;
use crate::value::OranVariableValue;
use crate::value::RuntimeError;

verus! {

// ---------------------------------------------------------------------------
// The mathematical value model. A runtime value is mirrored with every text
// as a character sequence, so that the semantics below can build values that
// evaluation only produces at run time (a freshly concatenated string, a
// freshly bound variable).
// ---------------------------------------------------------------------------

/// The mathematical scalar behind a bound variable.
pub ghost enum GScalar {
    Number(i64),
    Str(Seq<char>),
    Boolean(bool),
    Null,
}

/// The mathematical form of a bound variable.
pub ghost struct GVariable {
    pub var_type: VarType,
    pub name: Seq<char>,
    pub value: GScalar,
}

/// The mathematical form of a stored user function: its name and the parts
/// of its defining node.
pub ghost struct GFunction {
    pub name: Seq<char>,
    pub args: Seq<AstNode>,
    pub body: Seq<AstNode>,
    pub fn_return: AstNode,
}

/// The mathematical form of a runtime value.
pub ghost enum GValue {
    Number(i64),
    Str(Seq<char>),
    Boolean(bool),
    Null,
    Variable(GVariable),
    Function(GFunction),
}

/// The mathematical scalar a runtime scalar stands for.
pub open spec fn g_scalar(sv: OranVariableValue) -> GScalar {
    match sv {
        OranVariableValue::Number(n) => GScalar::Number(n),
        OranVariableValue::Str(s) => GScalar::Str(s@),
        OranVariableValue::Boolean(b) => GScalar::Boolean(b),
        OranVariableValue::Null => GScalar::Null,
    }
}

/// The mathematical value a runtime value stands for.
pub open spec fn g_of(v: OranValue) -> GValue {
    match v {
        OranValue::Number(n) => GValue::Number(n),
        OranValue::Str(s) => GValue::Str(s@),
        OranValue::Boolean(b) => GValue::Boolean(b),
        OranValue::Null => GValue::Null,
        OranValue::Variable(ov) => GValue::Variable(
            GVariable { var_type: ov.var_type, name: ov.name@, value: g_scalar(ov.value) },
        ),
        OranValue::Function(fd) => GValue::Function(
            GFunction { name: fd.name@, args: fd.args@, body: fd.body@, fn_return: *fd.fn_return },
        ),
    }
}

/// An evaluation result, value for value.
pub open spec fn g_res(r: Result<OranValue, RuntimeError>) -> Result<GValue, RuntimeError> {
    match r {
        Ok(v) => Ok(g_of(v)),
        Err(e) => Err(e),
    }
}

/// The mathematical form of the whole binding store.
pub open spec fn g_env(m: Map<EnvKey, OranValue>) -> Map<EnvKey, GValue> {
    m.map_values(|v: OranValue| g_of(v))
}

/// The texts of the output log's chunks, in order.
pub open spec fn log_view(out: Seq<String>) -> Seq<Seq<char>> {
    out.map(|i: int, s: String| s@)
}

// ---------------------------------------------------------------------------
// Coercions over mathematical values, mirroring those of the value layer.
// ---------------------------------------------------------------------------

/// The scalar behind a mathematical value.
pub open spec fn g_scalar_of(v: GValue) -> GScalar {
    match v {
        GValue::Number(n) => GScalar::Number(n),
        GValue::Str(s) => GScalar::Str(s),
        GValue::Boolean(b) => GScalar::Boolean(b),
        GValue::Null => GScalar::Null,
        GValue::Variable(gv) => gv.value,
        GValue::Function(_) => GScalar::Null,
    }
}

/// The text a mathematical scalar prints as.
pub open spec fn gs_text(sv: GScalar) -> Seq<char> {
    match sv {
        GScalar::Number(n) => dec_text(n as int),
        GScalar::Str(s) => s,
        GScalar::Boolean(b) => if b {
            "true"@
        } else {
            "false"@
        },
        GScalar::Null => Seq::empty(),
    }
}

/// The text a mathematical value prints as.
pub open spec fn g_text(v: GValue) -> Seq<char> {
    gs_text(g_scalar_of(v))
}

/// The truth of a mathematical scalar.
pub open spec fn gs_bool(sv: GScalar) -> bool {
    match sv {
        GScalar::Number(n) => n != 0,
        GScalar::Str(s) => s.len() != 0,
        GScalar::Boolean(b) => b,
        GScalar::Null => false,
    }
}

/// The truth of a mathematical value; a function definition counts as true.
pub open spec fn g_bool(v: GValue) -> bool {
    match v {
        GValue::Function(_) => true,
        _ => gs_bool(g_scalar_of(v)),
    }
}

/// The numeric coercion of a mathematical scalar.
pub open spec fn gs_num(sv: GScalar) -> Result<i64, RuntimeError> {
    match sv {
        GScalar::Number(n) => Ok(n),
        GScalar::Str(s) => match parse_dec(s) {
            Some(n) => Ok(n),
            None => Err(RuntimeError::ParseCoercionFailure),
        },
        GScalar::Boolean(_) => Err(RuntimeError::TypeMismatchArithmetic),
        GScalar::Null => Ok(0),
    }
}

/// The numeric coercion of a mathematical value.
pub open spec fn g_num(v: GValue) -> Result<i64, RuntimeError> {
    match v {
        GValue::Function(_) => Err(RuntimeError::TypeMismatchArithmetic),
        _ => gs_num(g_scalar_of(v)),
    }
}

/// Whether the numeric coercion of a mathematical value succeeds.
pub open spec fn g_is_num(v: GValue) -> bool {
    g_num(v) is Ok
}

/// The coerced number of a mathematical value, meaningful where `g_is_num`
/// holds.
pub open spec fn g_num_of(v: GValue) -> i64 {
    match g_num(v) {
        Ok(n) => n,
        Err(_) => 0,
    }
}

/// The number a mathematical value offers as the left operand of
/// arithmetic.
pub open spec fn g_left_num(v: GValue) -> Option<i64> {
    match v {
        GValue::Number(n) => Some(n),
        GValue::Variable(gv) => match gv.value {
            GScalar::Number(n) => Some(n),
            _ => None,
        },
        _ => None,
    }
}

/// Whether a stored binding is a constant.
pub open spec fn g_is_const(v: GValue) -> bool {
    v matches GValue::Variable(gv) && gv.var_type == VarType::Constant
}

/// What an arithmetic node yields, over mathematical values; exactly the
/// value layer's rule.
pub open spec fn g_calc(op: CalcOp, a: GValue, b: GValue) -> Result<GValue, RuntimeError> {
    let lan: Result<i64, RuntimeError> = if op == CalcOp::Power {
        g_num(a)
    } else {
        match g_left_num(a) {
            Some(n) => Ok(n),
            None => Err(RuntimeError::TypeMismatchArithmetic),
        }
    };
    match lan {
        Err(e) => Err(e),
        Ok(la) => match g_num(b) {
            Err(e) => Err(e),
            Ok(rb) => match op {
                CalcOp::Plus => Ok(
                    GValue::Number(vstd::wrapping::i64_specs::wrapping_add(la, rb)),
                ),
                CalcOp::Minus => Ok(
                    GValue::Number(vstd::wrapping::i64_specs::wrapping_sub(la, rb)),
                ),
                CalcOp::Times => Ok(
                    GValue::Number(vstd::wrapping::i64_specs::wrapping_mul(la, rb)),
                ),
                CalcOp::Divide => if rb == 0 {
                    Err(RuntimeError::DivisionByZero)
                } else {
                    Ok(GValue::Number(div_trunc(la, rb)))
                },
                CalcOp::Modulus => if rb == 0 {
                    Err(RuntimeError::DivisionByZero)
                } else {
                    Ok(GValue::Number(rem_trunc(la, rb)))
                },
                CalcOp::Power => if rb >= 0 {
                    Ok(GValue::Number(pow_wrap(la, rb as nat)))
                } else if la == 1 {
                    Ok(GValue::Number(1))
                } else if la == -1 {
                    Ok(GValue::Number(if rb % 2 == 0 { 1i64 } else { -1i64 }))
                } else if la == 0 {
                    Err(RuntimeError::DivisionByZero)
                } else {
                    Ok(GValue::Number(0))
                },
            },
        },
    }
}

/// Equality between two mathematical values, decided by the kind of the
/// left one.
pub open spec fn g_eq(a: GValue, b: GValue) -> bool {
    match g_scalar_of(a) {
        GScalar::Number(n) => n == g_num_of(b),
        GScalar::Str(s) => s == g_text(b),
        GScalar::Boolean(bb) => bb == g_bool(b),
        GScalar::Null => g_scalar_of(b) is Null,
    }
}

/// What a comparison node yields, over mathematical values.
pub open spec fn g_compare(op: ComparisonOp, a: GValue, b: GValue) -> Result<
    GValue,
    RuntimeError,
> {
    if !g_is_num(a) || !g_is_num(b) {
        if op == ComparisonOp::Equal {
            Ok(GValue::Boolean(g_text(a) == g_text(b)))
        } else {
            Err(RuntimeError::TypeMismatchComparison)
        }
    } else {
        match op {
            ComparisonOp::Equal => Ok(GValue::Boolean(g_eq(a, b))),
            ComparisonOp::BiggerThan => Ok(GValue::Boolean(g_num_of(a) > g_num_of(b))),
            ComparisonOp::SmallerThan => Ok(GValue::Boolean(g_num_of(a) < g_num_of(b))),
            ComparisonOp::EbiggerThan => Ok(GValue::Boolean(g_num_of(a) >= g_num_of(b))),
            ComparisonOp::EsmallerThan => Ok(GValue::Boolean(g_num_of(a) <= g_num_of(b))),
        }
    }
}

/// What a logical node yields, over mathematical values.
pub open spec fn g_logical(op: LogicalOp, a: GValue, b: GValue) -> GValue {
    GValue::Boolean(
        match op {
            LogicalOp::And => g_bool(a) && g_bool(b),
            LogicalOp::Or => g_bool(a) || g_bool(b),
        },
    )
}

/// The mutability rule checked before every assignment: a constant may not
/// be the target of a reassignment, and a reassignment must target a name
/// already bound as a value in the same scope.
pub open spec fn guard_spec(
    m: Map<EnvKey, GValue>,
    scope: int,
    name: Seq<char>,
    vt: VarType,
) -> Result<(), RuntimeError> {
    let k = EnvKey { scope, kind: FunctionOrValueType::Value, name };
    if m.contains_key(k) {
        if vt == VarType::VariableReAssigned && g_is_const(m[k]) {
            Err(RuntimeError::ConstantReassignment)
        } else {
            Ok(())
        }
    } else {
        if vt == VarType::VariableReAssigned {
            Err(RuntimeError::UndeclaredReassignment)
        } else {
            Ok(())
        }
    }
}

/// The function binding visible from `scope`: the binding at `scope`
/// itself, or failing that the nearest one below, down to the top level.
pub open spec fn fn_lookup(m: Map<EnvKey, GValue>, scope: int, name: Seq<char>) -> Option<GValue>
    decreases scope,
{
    let k = EnvKey { scope, kind: FunctionOrValueType::Function, name };
    if m.contains_key(k) {
        Some(m[k])
    } else if scope <= 0 {
        None
    } else {
        fn_lookup(m, scope - 1, name)
    }
}

/// The store with every binding of the given scope removed.
pub open spec fn g_purge(m: Map<EnvKey, GValue>, scope: int) -> Map<EnvKey, GValue> {
    Map::new(|k: EnvKey| m.contains_key(k) && k.scope != scope, |k: EnvKey| m[k])
}

// ---------------------------------------------------------------------------
// The big-step semantics. One evaluation step takes a store and a node and
// yields the store after it, the output chunks it appended, and its result.
// `fuel` bounds the depth of nested evaluation exactly as the evaluator's
// depth budget does.
// ---------------------------------------------------------------------------

/// What one evaluation leaves behind: the store after it, the chunks it
/// appended to the output log, and its result.
pub ghost struct Eval<R> {
    pub env: Map<EnvKey, GValue>,
    pub chunks: Seq<Seq<char>>,
    pub res: Result<R, RuntimeError>,
}

/// An evaluation that changed nothing and succeeded with `r`.
pub open spec fn ev_ok<R>(m: Map<EnvKey, GValue>, r: R) -> Eval<R> {
    Eval { env: m, chunks: Seq::empty(), res: Ok(r) }
}

/// An evaluation that changed nothing and stopped with `e`.
pub open spec fn ev_stop<R>(m: Map<EnvKey, GValue>, e: RuntimeError) -> Eval<R> {
    Eval { env: m, chunks: Seq::empty(), res: Err(e) }
}

/// The value of one node: the dispatch rule of the evaluator, node kind by
/// node kind, as a function of the store, the scope, the binding-kind
/// context and the depth budget.
pub open spec fn eval_expr(
    m: Map<EnvKey, GValue>,
    node: AstNode,
    scope: int,
    vt: FunctionOrValueType,
    fuel: nat,
) -> Eval<GValue>
    decreases fuel, 0int, 0int,
{
    if fuel == 0 {
        ev_stop(m, RuntimeError::RecursionLimit)
    } else {
        let f = (fuel - 1) as nat;
        match node {
            AstNode::Number(n) => ev_ok(m, GValue::Number(n)),
            AstNode::Calc(op, lhs, rhs) => {
                let e1 = eval_expr(m, *lhs, scope, vt, f);
                match e1.res {
                    Err(er) => Eval { env: e1.env, chunks: e1.chunks, res: Err(er) },
                    Ok(v1) => {
                        let e2 = eval_expr(e1.env, *rhs, scope, vt, f);
                        match e2.res {
                            Err(er) => Eval {
                                env: e2.env,
                                chunks: e1.chunks + e2.chunks,
                                res: Err(er),
                            },
                            Ok(v2) => Eval {
                                env: e2.env,
                                chunks: e1.chunks + e2.chunks,
                                res: g_calc(op, v1, v2),
                            },
                        }
                    },
                }
            },
            AstNode::Ident(name) => {
                let k = EnvKey { scope, kind: vt, name: name@ };
                if m.contains_key(k) {
                    ev_ok(m, m[k])
                } else {
                    ev_stop(m, RuntimeError::UndefinedIdentifier)
                }
            },
            AstNode::Assign(vt2, ident, expr) => {
                match guard_spec(m, scope, ident@, vt2) {
                    Err(e) => ev_stop(m, e),
                    Ok(u) => {
                        let e1 = eval_expr(m, *expr, scope, vt, f);
                        match e1.res {
                            Err(er) => Eval { env: e1.env, chunks: e1.chunks, res: Err(er) },
                            Ok(v1) => {
                                let gv = GValue::Variable(
                                    GVariable {
                                        var_type: vt2,
                                        name: ident@,
                                        value: g_scalar_of(v1),
                                    },
                                );
                                Eval {
                                    env: e1.env.insert(
                                        EnvKey { scope, kind: vt, name: ident@ },
                                        gv,
                                    ),
                                    chunks: e1.chunks,
                                    res: Ok(gv),
                                }
                            },
                        }
                    },
                }
            },
            AstNode::FunctionCall(kind, name, args) => {
                if kind == FnKind::Print || kind == FnKind::Println {
                    let t = eval_texts(m, args@, scope, vt, f);
                    match t.res {
                        Err(er) => Eval { env: t.env, chunks: t.chunks, res: Err(er) },
                        Ok(txt) => {
                            let chunk = if kind == FnKind::Println {
                                txt + seq!['\n']
                            } else {
                                txt
                            };
                            Eval {
                                env: t.env,
                                chunks: t.chunks.push(chunk),
                                res: Ok(GValue::Boolean(true)),
                            }
                        },
                    }
                } else {
                    match fn_lookup(m, scope, name@) {
                        Some(GValue::Function(gf)) => {
                            let cs = scope + 1;
                            let b = eval_bind(m, gf.args, args@, scope, cs, vt, f);
                            match b.res {
                                Err(er) => Eval {
                                    env: g_purge(b.env, cs),
                                    chunks: b.chunks,
                                    res: Err(er),
                                },
                                Ok(u) => {
                                    let s = eval_stmts(b.env, gf.body, cs, vt, f);
                                    match s.res {
                                        Err(er) => Eval {
                                            env: g_purge(s.env, cs),
                                            chunks: b.chunks + s.chunks,
                                            res: Err(er),
                                        },
                                        Ok(u2) => {
                                            let r = eval_expr(s.env, gf.fn_return, cs, vt, f);
                                            Eval {
                                                env: g_purge(r.env, cs),
                                                chunks: b.chunks + s.chunks + r.chunks,
                                                res: r.res,
                                            }
                                        },
                                    }
                                },
                            }
                        },
                        _ => ev_stop(m, RuntimeError::UndefinedFunction),
                    }
                }
            },
            AstNode::FunctionDefine(name, args, body, ret) => {
                let gf = GValue::Function(
                    GFunction { name: name@, args: args@, body: body@, fn_return: *ret },
                );
                Eval {
                    env: m.insert(
                        EnvKey { scope, kind: FunctionOrValueType::Function, name: name@ },
                        gf,
                    ),
                    chunks: Seq::empty(),
                    res: Ok(gf),
                }
            },
            AstNode::Argument(name, e) => {
                let e1 = eval_expr(m, *e, scope, vt, f);
                match e1.res {
                    Err(er) => Eval { env: e1.env, chunks: e1.chunks, res: Err(er) },
                    Ok(v1) => Eval {
                        env: e1.env.insert(
                            EnvKey { scope, kind: FunctionOrValueType::Value, name: name@ },
                            v1,
                        ),
                        chunks: e1.chunks,
                        res: Ok(GValue::Str(name@)),
                    },
                }
            },
            AstNode::Str(s) => ev_ok(m, GValue::Str(s@)),
            AstNode::Strs(parts) => {
                let t = eval_texts(m, parts@, scope, vt, f);
                match t.res {
                    Err(er) => Eval { env: t.env, chunks: t.chunks, res: Err(er) },
                    Ok(txt) => Eval { env: t.env, chunks: t.chunks, res: Ok(GValue::Str(txt)) },
                }
            },
            AstNode::Condition(op, lhs, rhs) => {
                let e1 = eval_expr(m, *lhs, scope, vt, f);
                match e1.res {
                    Err(er) => Eval { env: e1.env, chunks: e1.chunks, res: Err(er) },
                    Ok(v1) => {
                        let e2 = eval_expr(e1.env, *rhs, scope, vt, f);
                        match e2.res {
                            Err(er) => Eval {
                                env: e2.env,
                                chunks: e1.chunks + e2.chunks,
                                res: Err(er),
                            },
                            Ok(v2) => Eval {
                                env: e2.env,
                                chunks: e1.chunks + e2.chunks,
                                res: Ok(g_logical(op, v1, v2)),
                            },
                        }
                    },
                }
            },
            AstNode::Comparison(lhs, op, rhs) => {
                let e1 = eval_expr(m, *lhs, scope, vt, f);
                match e1.res {
                    Err(er) => Eval { env: e1.env, chunks: e1.chunks, res: Err(er) },
                    Ok(v1) => {
                        let e2 = eval_expr(e1.env, *rhs, scope, vt, f);
                        match e2.res {
                            Err(er) => Eval {
                                env: e2.env,
                                chunks: e1.chunks + e2.chunks,
                                res: Err(er),
                            },
                            Ok(v2) => Eval {
                                env: e2.env,
                                chunks: e1.chunks + e2.chunks,
                                res: g_compare(op, v1, v2),
                            },
                        }
                    },
                }
            },
            AstNode::IF(cond, body, clauses, els) => {
                let ec = eval_expr(m, *cond, scope, vt, f);
                match ec.res {
                    Err(er) => Eval { env: ec.env, chunks: ec.chunks, res: Err(er) },
                    Ok(vc) => if g_bool(vc) {
                        let es = eval_stmts(ec.env, body@, scope, vt, f);
                        Eval {
                            env: es.env,
                            chunks: ec.chunks + es.chunks,
                            res: match es.res {
                                Ok(u) => Ok(GValue::Null),
                                Err(e) => Err(e),
                            },
                        }
                    } else {
                        let cl = eval_clauses(ec.env, clauses@, scope, vt, f);
                        match cl.res {
                            Err(er) => Eval {
                                env: cl.env,
                                chunks: ec.chunks + cl.chunks,
                                res: Err(er),
                            },
                            Ok(fired) => if fired {
                                Eval {
                                    env: cl.env,
                                    chunks: ec.chunks + cl.chunks,
                                    res: Ok(GValue::Null),
                                }
                            } else {
                                let es = eval_stmts(cl.env, els@, scope, vt, f);
                                Eval {
                                    env: es.env,
                                    chunks: ec.chunks + cl.chunks + es.chunks,
                                    res: match es.res {
                                        Ok(u) => Ok(GValue::Null),
                                        Err(e) => Err(e),
                                    },
                                }
                            },
                        }
                    },
                }
            },
            AstNode::Bool(b) => ev_ok(m, GValue::Boolean(b)),
            AstNode::ForLoop(incl, lvt, ident, first, last, stmts) => {
                let ef = eval_expr(m, *first, scope, FunctionOrValueType::Value, f);
                match ef.res {
                    Err(er) => Eval { env: ef.env, chunks: ef.chunks, res: Err(er) },
                    Ok(vf) => match g_num(vf) {
                        Err(e) => Eval { env: ef.env, chunks: ef.chunks, res: Err(e) },
                        Ok(nf) => {
                            let el = eval_expr(ef.env, *last, scope, FunctionOrValueType::Value, f);
                            match el.res {
                                Err(er) => Eval {
                                    env: el.env,
                                    chunks: ef.chunks + el.chunks,
                                    res: Err(er),
                                },
                                Ok(vl) => match g_num(vl) {
                                    Err(e) => Eval {
                                        env: el.env,
                                        chunks: ef.chunks + el.chunks,
                                        res: Err(e),
                                    },
                                    Ok(nl) => {
                                        let span: int = if incl {
                                            nl - nf + 1
                                        } else {
                                            nl - nf
                                        };
                                        let count: int = if span < 0 {
                                            0
                                        } else {
                                            span
                                        };
                                        let lp = eval_for(
                                            el.env,
                                            ident@,
                                            lvt,
                                            nf as int,
                                            count,
                                            stmts@,
                                            scope,
                                            f,
                                        );
                                        Eval {
                                            env: lp.env,
                                            chunks: ef.chunks + el.chunks + lp.chunks,
                                            res: match lp.res {
                                                Ok(u) => Ok(GValue::Null),
                                                Err(e) => Err(e),
                                            },
                                        }
                                    },
                                },
                            }
                        },
                    },
                }
            },
            AstNode::Null => ev_ok(m, GValue::Null),
        }
    }
}

/// A statement list, run in order for its side effects, stopping at the
/// first failure.
pub open spec fn eval_stmts(
    m: Map<EnvKey, GValue>,
    stmts: Seq<AstNode>,
    scope: int,
    vt: FunctionOrValueType,
    fuel: nat,
) -> Eval<()>
    decreases fuel, 1int, stmts.len(),
{
    if stmts.len() == 0 {
        ev_ok(m, ())
    } else {
        let e1 = eval_expr(m, stmts[0], scope, vt, fuel);
        match e1.res {
            Err(e) => Eval { env: e1.env, chunks: e1.chunks, res: Err(e) },
            Ok(v) => {
                let rest = eval_stmts(e1.env, stmts.skip(1), scope, vt, fuel);
                Eval { env: rest.env, chunks: e1.chunks + rest.chunks, res: rest.res }
            },
        }
    }
}

/// An expression list, each part evaluated in order and its printed text
/// appended: what the built-ins and string interpolation produce.
pub open spec fn eval_texts(
    m: Map<EnvKey, GValue>,
    parts: Seq<AstNode>,
    scope: int,
    vt: FunctionOrValueType,
    fuel: nat,
) -> Eval<Seq<char>>
    decreases fuel, 1int, parts.len(),
{
    if parts.len() == 0 {
        ev_ok(m, Seq::empty())
    } else {
        let e1 = eval_expr(m, parts[0], scope, vt, fuel);
        match e1.res {
            Err(e) => Eval { env: e1.env, chunks: e1.chunks, res: Err(e) },
            Ok(v1) => {
                let rest = eval_texts(e1.env, parts.skip(1), scope, vt, fuel);
                Eval {
                    env: rest.env,
                    chunks: e1.chunks + rest.chunks,
                    res: match rest.res {
                        Ok(t) => Ok(g_text(v1) + t),
                        Err(e) => Err(e),
                    },
                }
            },
        }
    }
}

/// Parameter binding at a call: each parameter-name node is evaluated in
/// the callee's scope, the matching argument in the caller's, and the
/// result bound under the parameter's printed name in the callee's frame;
/// a parameter without an argument stops the call.
pub open spec fn eval_bind(
    m: Map<EnvKey, GValue>,
    params: Seq<AstNode>,
    cargs: Seq<AstNode>,
    caller: int,
    cs: int,
    vt: FunctionOrValueType,
    fuel: nat,
) -> Eval<()>
    decreases fuel, 1int, params.len(),
{
    if params.len() == 0 {
        ev_ok(m, ())
    } else {
        let e1 = eval_expr(m, params[0], cs, vt, fuel);
        match e1.res {
            Err(e) => Eval { env: e1.env, chunks: e1.chunks, res: Err(e) },
            Ok(v1) => if cargs.len() == 0 {
                Eval { env: e1.env, chunks: e1.chunks, res: Err(RuntimeError::MissingArgument) }
            } else {
                let e2 = eval_expr(e1.env, cargs[0], caller, vt, fuel);
                match e2.res {
                    Err(e) => Eval { env: e2.env, chunks: e1.chunks + e2.chunks, res: Err(e) },
                    Ok(v2) => {
                        let m2 = e2.env.insert(
                            EnvKey { scope: cs, kind: vt, name: g_text(v1) },
                            v2,
                        );
                        let rest = eval_bind(
                            m2,
                            params.skip(1),
                            cargs.skip(1),
                            caller,
                            cs,
                            vt,
                            fuel,
                        );
                        Eval {
                            env: rest.env,
                            chunks: e1.chunks + e2.chunks + rest.chunks,
                            res: rest.res,
                        }
                    },
                }
            },
        }
    }
}

/// A condition list of one else-if clause, scanned in order: true when the
/// first true condition is reached, false when none is.
pub open spec fn eval_conds(
    m: Map<EnvKey, GValue>,
    conds: Seq<AstNode>,
    scope: int,
    vt: FunctionOrValueType,
    fuel: nat,
) -> Eval<bool>
    decreases fuel, 1int, conds.len(),
{
    if conds.len() == 0 {
        ev_ok(m, false)
    } else {
        let e1 = eval_expr(m, conds[0], scope, vt, fuel);
        match e1.res {
            Err(e) => Eval { env: e1.env, chunks: e1.chunks, res: Err(e) },
            Ok(v1) => if g_bool(v1) {
                Eval { env: e1.env, chunks: e1.chunks, res: Ok(true) }
            } else {
                let rest = eval_conds(e1.env, conds.skip(1), scope, vt, fuel);
                Eval { env: rest.env, chunks: e1.chunks + rest.chunks, res: rest.res }
            },
        }
    }
}

/// The else-if clauses, scanned in order: the first clause with a true
/// condition runs its body and stops the scan; the result says whether any
/// clause fired.
pub open spec fn eval_clauses(
    m: Map<EnvKey, GValue>,
    clauses: Seq<(Vec<AstNode>, Vec<AstNode>)>,
    scope: int,
    vt: FunctionOrValueType,
    fuel: nat,
) -> Eval<bool>
    decreases fuel, 2int, clauses.len(),
{
    if clauses.len() == 0 {
        ev_ok(m, false)
    } else {
        let c = eval_conds(m, clauses[0].0@, scope, vt, fuel);
        match c.res {
            Err(e) => Eval { env: c.env, chunks: c.chunks, res: Err(e) },
            Ok(found) => if found {
                let es = eval_stmts(c.env, clauses[0].1@, scope, vt, fuel);
                Eval {
                    env: es.env,
                    chunks: c.chunks + es.chunks,
                    res: match es.res {
                        Ok(u) => Ok(true),
                        Err(e) => Err(e),
                    },
                }
            } else {
                let rest = eval_clauses(c.env, clauses.skip(1), scope, vt, fuel);
                Eval { env: rest.env, chunks: c.chunks + rest.chunks, res: rest.res }
            },
        }
    }
}

/// The iterations of a range loop that remain: the loop variable is bound
/// into the current scope before each iteration and the body run for its
/// side effects.
pub open spec fn eval_for(
    m: Map<EnvKey, GValue>,
    ident: Seq<char>,
    lvt: VarType,
    next: int,
    count: int,
    stmts: Seq<AstNode>,
    scope: int,
    fuel: nat,
) -> Eval<()>
    decreases fuel, 2int, count,
{
    if count <= 0 {
        ev_ok(m, ())
    } else {
        let m1 = m.insert(
            EnvKey { scope, kind: FunctionOrValueType::Value, name: ident },
            GValue::Variable(GVariable { var_type: lvt, name: ident, value: GScalar::Number(next as i64) }),
        );
        let es = eval_stmts(m1, stmts, scope, FunctionOrValueType::Value, fuel);
        match es.res {
            Err(e) => Eval { env: es.env, chunks: es.chunks, res: Err(e) },
            Ok(u) => {
                let rest = eval_for(es.env, ident, lvt, next + 1, count - 1, stmts, scope, fuel);
                Eval { env: rest.env, chunks: es.chunks + rest.chunks, res: rest.res }
            },
        }
    }
}

// ---------------------------------------------------------------------------
// The bridge between the runtime layer and the mathematical one.
// ---------------------------------------------------------------------------

/// The store's mathematical form answers exactly as the store does.
pub proof fn lemma_g_env_key(m: Map<EnvKey, OranValue>, k: EnvKey)
    ensures
        g_env(m).contains_key(k) == m.contains_key(k),
        m.contains_key(k) ==> g_env(m)[k] == g_of(m[k]),
{
}

/// An insert into the store is an insert of the mirrored value.
pub proof fn lemma_g_env_insert(m: Map<EnvKey, OranValue>, k: EnvKey, v: OranValue)
    ensures
        g_env(m.insert(k, v)) == g_env(m).insert(k, g_of(v)),
{
    assert(g_env(m.insert(k, v)) =~= g_env(m).insert(k, g_of(v)));
}

/// A store that lost exactly the bindings of one scope mirrors as a purge.
pub proof fn lemma_g_env_purge(pre: Map<EnvKey, OranValue>, post: Map<EnvKey, OranValue>, scope: int)
    requires
        forall|k: EnvKey| k.scope == scope ==> !post.contains_key(k),
        forall|k: EnvKey| k.scope != scope ==> post.contains_key(k) == pre.contains_key(k),
        forall|k: EnvKey|
            k.scope != scope && pre.contains_key(k) ==> post[k] == pre[k],
    ensures
        g_env(post) == g_purge(g_env(pre), scope),
{
    assert(g_env(post) =~= g_purge(g_env(pre), scope));
}

/// Appending a chunk to the log appends its text to the log's view.
pub proof fn lemma_log_push(out: Seq<String>, s: String)
    ensures
        log_view(out.push(s)) == log_view(out).push(s@),
{
    assert(log_view(out.push(s)) =~= log_view(out).push(s@));
}

/// The runtime scalar stored for a value mirrors the mathematical one.
pub proof fn lemma_g_scalar_of(v: OranValue)
    ensures
        g_scalar(scalar_of(v)) == g_scalar_of(g_of(v)),
{
}

/// The printed text of a value is that of its mathematical form.
pub proof fn lemma_g_text(v: OranValue)
    ensures
        g_text(g_of(v)) == val_text(v),
{
    lemma_g_scalar_of(v);
}

/// The truth of a value is that of its mathematical form.
pub proof fn lemma_g_bool(v: OranValue)
    ensures
        g_bool(g_of(v)) == val_bool(v),
{
    lemma_g_scalar_of(v);
}

/// The numeric coercion of a value is that of its mathematical form.
pub proof fn lemma_g_num(v: OranValue)
    ensures
        g_num(g_of(v)) == val_num(v),
{
    lemma_g_scalar_of(v);
}

/// A stored constant mirrors as a constant.
pub proof fn lemma_g_is_const(v: OranValue)
    ensures
        g_is_const(g_of(v)) == guard_is_const(v),
{
}

/// The arithmetic rule commutes with mirroring.
pub proof fn lemma_g_calc(op: CalcOp, a: OranValue, b: OranValue)
    ensures
        g_calc(op, g_of(a), g_of(b)) == g_res(calc_spec(op, a, b)),
{
    lemma_g_num(a);
    lemma_g_num(b);
    assert(g_left_num(g_of(a)) == left_num(a));
}

/// Value equality commutes with mirroring.
pub proof fn lemma_g_eq(a: OranValue, b: OranValue)
    ensures
        g_eq(g_of(a), g_of(b)) == eq_vals(a, b),
{
    lemma_g_scalar_of(a);
    lemma_g_scalar_of(b);
    lemma_g_num(b);
    lemma_g_text(b);
    lemma_g_bool(b);
}

/// The comparison rule commutes with mirroring.
pub proof fn lemma_g_compare(op: ComparisonOp, a: OranValue, b: OranValue)
    ensures
        g_compare(op, g_of(a), g_of(b)) == g_res(compare_spec(op, a, b)),
{
    lemma_g_num(a);
    lemma_g_num(b);
    lemma_g_text(a);
    lemma_g_text(b);
    lemma_g_eq(a, b);
}

/// The logical rule commutes with mirroring.
pub proof fn lemma_g_logical(op: LogicalOp, a: OranValue, b: OranValue)
    ensures
        g_logical(op, g_of(a), g_of(b)) == g_of(logical_spec(op, a, b)),
{
    lemma_g_bool(a);
    lemma_g_bool(b);
}

} // verus!
