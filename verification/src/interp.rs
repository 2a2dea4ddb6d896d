use vstd::prelude::*;

use crate::ast::AstNode;
use crate::ast::FnKind;
use crate::ast::FunctionOrValueType;
use crate::ast::VarType;
use crate::env::Env;
use crate::env::EnvKey;
use crate::sem::eval_bind;
use crate::sem::eval_clauses;
use crate::sem::eval_conds;
use crate::sem::eval_expr;
use crate::sem::eval_for;
use crate::sem::eval_stmts;
use crate::sem::eval_texts;
use crate::sem::fn_lookup;
use crate::sem::g_env;
use crate::sem::g_of;
use crate::sem::g_res;
use crate::sem::guard_spec;
use crate::sem::lemma_g_bool;
use crate::sem::lemma_g_calc;
use crate::sem::lemma_g_compare;
use crate::sem::lemma_g_env_insert;
use crate::sem::lemma_g_env_key;
use crate::sem::lemma_g_env_purge;
use crate::sem::lemma_g_is_const;
use crate::sem::lemma_g_logical;
use crate::sem::lemma_g_num;
use crate::sem::lemma_g_scalar_of;
use crate::sem::lemma_g_text;
use crate::sem::lemma_log_push;
use crate::sem::log_view;
use crate::sem::Eval;
use crate::sem::GValue;
use crate::value::calc_values;
use crate::value::compare_values;
use crate::value::logical_values;
use crate::value::to_bool;
use crate::value::to_num;
use crate::value::to_scalar;
use crate::value::to_text;
use crate::value::FunctionDefine;
use crate::value::OranValue;
use crate::value::OranVariable;
use crate::value::RuntimeError;

verus! {

/// Every binding of an ancestor frame (a scope id below `scope`) is the
/// same in `post` as in `pre`: evaluation never corrupts an outer frame.
pub open spec fn env_frames_kept(
    pre: Map<EnvKey, OranValue>,
    post: Map<EnvKey, OranValue>,
    scope: int,
) -> bool {
    (forall|k: EnvKey|
        k.scope < scope && #[trigger] pre.contains_key(k) ==> post.contains_key(k) && post[k]
            == pre[k]) && (forall|k: EnvKey|
        k.scope < scope && #[trigger] post.contains_key(k) ==> pre.contains_key(k))
}

/// Evaluation leaves no binding above scope id `scope` behind that was
/// not already there: a callee frame is always torn down on return.
pub open spec fn env_no_new_above(
    pre: Map<EnvKey, OranValue>,
    post: Map<EnvKey, OranValue>,
    scope: int,
) -> bool {
    forall|k: EnvKey| k.scope > scope && #[trigger] post.contains_key(k) ==> pre.contains_key(k)
}

/// The output log only grows: every chunk already emitted stays in place.
pub open spec fn out_extends(pre: Seq<String>, post: Seq<String>) -> bool {
    pre.len() <= post.len() && (forall|i: int| 0 <= i < pre.len() ==> pre[i] == #[trigger] post[i])
}

/// Law: assigning to a name bound as a constant with a reassignment-kind
/// assignment is always refused with `ConstantReassignment`, whatever the
/// scope depth.
pub proof fn lemma_constant_reassignment(m: Map<EnvKey, GValue>, scope: int, name: Seq<char>)
    requires
        m.contains_key((EnvKey { scope, kind: FunctionOrValueType::Value, name })),
        crate::sem::g_is_const(m[(EnvKey { scope, kind: FunctionOrValueType::Value, name })]),
    ensures
        guard_spec(m, scope, name, VarType::VariableReAssigned) == Err::<(), RuntimeError>(
            RuntimeError::ConstantReassignment,
        ),
{
}

/// Law: a reassignment-kind assignment to a name with no live value
/// binding in the current scope is always refused with
/// `UndeclaredReassignment`, whatever the scope depth.
pub proof fn lemma_undeclared_reassignment(m: Map<EnvKey, GValue>, scope: int, name: Seq<char>)
    requires
        !m.contains_key((EnvKey { scope, kind: FunctionOrValueType::Value, name })),
    ensures
        guard_spec(m, scope, name, VarType::VariableReAssigned) == Err::<(), RuntimeError>(
            RuntimeError::UndeclaredReassignment,
        ),
{
}

proof fn lemma_cat_none_r(c: Seq<Seq<char>>)
    ensures
        c + Seq::<Seq<char>>::empty() == c,
{
    assert(c + Seq::<Seq<char>>::empty() =~= c);
}

proof fn lemma_cat_none_l(c: Seq<Seq<char>>)
    ensures
        Seq::<Seq<char>>::empty() + c == c,
{
    assert(Seq::<Seq<char>>::empty() + c =~= c);
}

proof fn lemma_cat_assoc(a: Seq<Seq<char>>, b: Seq<Seq<char>>, c: Seq<Seq<char>>)
    ensures
        (a + b) + c == a + (b + c),
{
    assert((a + b) + c =~= a + (b + c));
}

proof fn lemma_text_none_l(t: Seq<char>)
    ensures
        Seq::<char>::empty() + t == t,
{
    assert(Seq::<char>::empty() + t =~= t);
}

proof fn lemma_text_none_r(t: Seq<char>)
    ensures
        t + Seq::<char>::empty() == t,
{
    assert(t + Seq::<char>::empty() =~= t);
}

proof fn lemma_text_assoc(a: Seq<char>, b: Seq<char>, c: Seq<char>)
    ensures
        (a + b) + c == a + (b + c),
{
    assert((a + b) + c =~= a + (b + c));
}

proof fn lemma_skip_zero<A>(s: Seq<A>)
    ensures
        s.skip(0) == s,
{
    assert(s.skip(0) =~= s);
}

proof fn lemma_skip_all<A>(s: Seq<A>)
    ensures
        s.skip(s.len() as int) == Seq::<A>::empty(),
{
    assert(s.skip(s.len() as int) =~= Seq::<A>::empty());
}

proof fn lemma_skip_step<A>(s: Seq<A>, i: int)
    requires
        0 <= i < s.len(),
    ensures
        s.skip(i).skip(1) == s.skip(i + 1),
        s.skip(i)[0] == s[i],
{
    assert(s.skip(i).skip(1) =~= s.skip(i + 1));
}

/// Decides whether an assignment to `ident` with declaration kind
/// `variable_type` is permitted in scope `scope`, read-only. The rules,
/// in order: reassigning a binding created as a constant is refused;
/// reassigning a name with no live value binding in this scope is refused;
/// anything else is permitted.
pub fn is_mutable(scope: usize, env: &Env, ident: &str, variable_type: &VarType) -> (r: Result<
    (),
    RuntimeError,
>)
    ensures
        r == guard_spec(g_env(env@), scope as int, ident@, *variable_type),
{
    let name = String::from_str(ident);
    proof {
        lemma_g_env_key(
            env@,
            EnvKey { scope: scope as int, kind: FunctionOrValueType::Value, name: ident@ },
        );
    }
    match env.get(scope, FunctionOrValueType::Value, &name) {
        Some(v) => {
            proof {
                lemma_g_is_const(*v);
            }
            let existing_const = match v {
                OranValue::Variable(ov) => ov.var_type == VarType::Constant,
                _ => false,
            };
            if *variable_type == VarType::VariableReAssigned && existing_const {
                Err(RuntimeError::ConstantReassignment)
            } else {
                Ok(())
            }
        },
        None => {
            if *variable_type == VarType::VariableReAssigned {
                Err(RuntimeError::UndeclaredReassignment)
            } else {
                Ok(())
            }
        },
    }
}

/// Resolves a function by name, walking outward from the calling scope to
/// the scope that defined it.
fn lookup_function(env: &Env, scope: usize, name: &String) -> (r: Option<OranValue>)
    ensures
        ({
            let fl = fn_lookup(g_env(env@), scope as int, name@);
            match r {
                Some(v) => fl == Some(g_of(v)),
                None => fl is None,
            }
        }),
{
    let mut s: usize = scope;
    while s > 0
        invariant
            s <= scope,
            fn_lookup(g_env(env@), scope as int, name@) == fn_lookup(g_env(env@), s as int, name@),
        decreases s,
    {
        proof {
            lemma_g_env_key(
                env@,
                EnvKey { scope: s as int, kind: FunctionOrValueType::Function, name: name@ },
            );
        }
        match env.get(s, FunctionOrValueType::Function, name) {
            Some(v) => {
                return Some(v.clone());
            },
            None => {
                s = s - 1;
            },
        }
    }
    proof {
        lemma_g_env_key(
            env@,
            EnvKey { scope: 0, kind: FunctionOrValueType::Function, name: name@ },
        );
    }
    match env.get(0, FunctionOrValueType::Function, name) {
        Some(v) => Some(v.clone()),
        None => None,
    }
}

/// Evaluates a list of statements in order for their side effects,
/// stopping at the first failure: exactly `eval_stmts` of the statements
/// against the store and log as they stood.
#[verifier::loop_isolation(false)]
#[verifier::rlimit(100)]
fn interp_stmts(
    scope: usize,
    env: &mut Env,
    stmts: &Vec<AstNode>,
    var_type: FunctionOrValueType,
    out: &mut Vec<String>,
    fuel: u64,
) -> (r: Result<(), RuntimeError>)
    requires
        scope as int + fuel as int <= usize::MAX as int,
    ensures
        env_frames_kept(old(env)@, final(env)@, scope as int),
        env_no_new_above(old(env)@, final(env)@, scope as int),
        out_extends(old(out)@, final(out)@),
        ({
            let e = eval_stmts(g_env(old(env)@), stmts@, scope as int, var_type, fuel as nat);
            &&& g_env(final(env)@) == e.env
            &&& log_view(final(out)@) == log_view(old(out)@) + e.chunks
            &&& r == e.res
        }),
    decreases fuel, 2int,
{
    let ghost g0 = g_env(old(env)@);
    let ghost full = eval_stmts(g0, stmts@, scope as int, var_type, fuel as nat);
    let ghost mut emitted: Seq<Seq<char>> = Seq::empty();
    proof {
        lemma_skip_zero(stmts@);
        lemma_cat_none_l(full.chunks);
    }
    let mut i: usize = 0;
    while i < stmts.len()
        invariant
            i <= stmts@.len(),
            scope as int + fuel as int <= usize::MAX as int,
            env_frames_kept(old(env)@, env@, scope as int),
            env_no_new_above(old(env)@, env@, scope as int),
            out_extends(old(out)@, out@),
            log_view(out@) == log_view(old(out)@) + emitted,
            ({
                let rest = eval_stmts(
                    g_env(env@),
                    stmts@.skip(i as int),
                    scope as int,
                    var_type,
                    fuel as nat,
                );
                &&& full.env == rest.env
                &&& full.chunks == emitted + rest.chunks
                &&& full.res == rest.res
            }),
        decreases stmts@.len() - i,
    {
        let ghost m_i = env@;
        let ghost o_i = out@;
        proof {
            lemma_skip_step(stmts@, i as int);
        }
        match interp_expr(scope, env, &stmts[i], var_type, out, fuel) {
            Ok(_) => {},
            Err(e) => {
                proof {
                    lemma_cat_assoc(
                        log_view(old(out)@),
                        emitted,
                        eval_expr(g_env(m_i), stmts@[i as int], scope as int, var_type, fuel as nat).chunks,
                    );
                    emitted = emitted + eval_expr(
                        g_env(m_i),
                        stmts@[i as int],
                        scope as int,
                        var_type,
                        fuel as nat,
                    ).chunks;
                }
                return Err(e);
            },
        }
        proof {
            let step = eval_expr(g_env(m_i), stmts@[i as int], scope as int, var_type, fuel as nat);
            lemma_cat_assoc(log_view(old(out)@), emitted, step.chunks);
            lemma_cat_assoc(
                emitted,
                step.chunks,
                eval_stmts(g_env(env@), stmts@.skip(i as int + 1), scope as int, var_type, fuel as nat).chunks,
            );
            emitted = emitted + step.chunks;
        }
        i = i + 1;
    }
    proof {
        lemma_skip_all(stmts@);
        lemma_cat_none_r(emitted);
    }
    Ok(())
}

/// Evaluates one node at the given scope and binding-kind context against
/// the environment store, appending any console output to `out` as one
/// chunk per print call. `fuel` bounds the depth of nested evaluation;
/// when it runs out the evaluation stops with `RecursionLimit`.
///
/// The store after the call, the chunks appended to the output log and the
/// result are exactly those of `eval_expr`, the language's big-step rule,
/// on the store and node as they stood: every dispatch case — arithmetic,
/// comparison and logical nodes, assignment and its mutability guard, the
/// print built-ins, user calls with their frame at the caller's scope plus
/// one, conditionals, range loops — is pinned by that one equation.
///
/// Whatever the node, an evaluation never touches a binding of an
/// ancestor frame, never leaves a binding above the current scope behind
/// that was not already there, and only appends to the output log; a user
/// call that resolved its callee leaves no binding of the callee's frame
/// behind, whether it returned a value or stopped with a failure.
#[verifier::loop_isolation(false)]
#[verifier::rlimit(100)]
pub fn interp_expr(
    scope: usize,
    env: &mut Env,
    reduced_expr: &AstNode,
    var_type: FunctionOrValueType,
    out: &mut Vec<String>,
    fuel: u64,
) -> (r: Result<OranValue, RuntimeError>)
    requires
        scope as int + fuel as int <= usize::MAX as int,
    ensures
        env_frames_kept(old(env)@, final(env)@, scope as int),
        env_no_new_above(old(env)@, final(env)@, scope as int),
        out_extends(old(out)@, final(out)@),
        ({
            let e = eval_expr(
                g_env(old(env)@),
                *reduced_expr,
                scope as int,
                var_type,
                fuel as nat,
            );
            &&& g_env(final(env)@) == e.env
            &&& log_view(final(out)@) == log_view(old(out)@) + e.chunks
            &&& g_res(r) == e.res
        }),
        fuel > 0 ==> (*reduced_expr matches AstNode::FunctionCall(kind, name, _cargs) ==> ((kind
            == FnKind::UserDefined && fn_lookup(g_env(old(env)@), scope as int, name@) matches Some(
            GValue::Function(_gf),
        )) ==> (forall|k: EnvKey|
            k.scope == scope as int + 1 ==> !final(env)@.contains_key(k)))),
    decreases fuel, 1int,
{
    let ghost g0 = g_env(old(env)@);
    let ghost full = eval_expr(g0, *reduced_expr, scope as int, var_type, fuel as nat);
    if fuel == 0 {
        proof {
            lemma_cat_none_r(log_view(out@));
        }
        return Err(RuntimeError::RecursionLimit);
    }
    let sub_fuel: u64 = fuel - 1;
    match reduced_expr {
        AstNode::Number(n) => {
            proof {
                lemma_cat_none_r(log_view(out@));
            }
            Ok(OranValue::Number(*n))
        },
        AstNode::Calc(op, lhs, rhs) => {
            let lv = match interp_expr(scope, env, lhs, var_type, out, sub_fuel) {
                Ok(v) => v,
                Err(e) => {
                    return Err(e);
                },
            };
            let ghost m1 = env@;
            let ghost o1 = out@;
            let rv = match interp_expr(scope, env, rhs, var_type, out, sub_fuel) {
                Ok(v) => v,
                Err(e) => {
                    proof {
                        let e1 = eval_expr(g0, **lhs, scope as int, var_type, sub_fuel as nat);
                        let e2 = eval_expr(e1.env, **rhs, scope as int, var_type, sub_fuel as nat);
                        lemma_cat_assoc(log_view(old(out)@), e1.chunks, e2.chunks);
                    }
                    return Err(e);
                },
            };
            let res = calc_values(*op, &lv, &rv);
            proof {
                let e1 = eval_expr(g0, **lhs, scope as int, var_type, sub_fuel as nat);
                let e2 = eval_expr(e1.env, **rhs, scope as int, var_type, sub_fuel as nat);
                lemma_cat_assoc(log_view(old(out)@), e1.chunks, e2.chunks);
                lemma_g_calc(*op, lv, rv);
            }
            res
        },
        AstNode::Ident(ident) => {
            proof {
                lemma_g_env_key(
                    env@,
                    EnvKey { scope: scope as int, kind: var_type, name: ident@ },
                );
                lemma_cat_none_r(log_view(out@));
            }
            match env.get(scope, var_type, ident) {
                Some(v) => Ok(v.clone()),
                None => Err(RuntimeError::UndefinedIdentifier),
            }
        },
        AstNode::Assign(variable_type, ident, expr) => {
            match is_mutable(scope, env, ident.as_str(), variable_type) {
                Ok(_) => {},
                Err(e) => {
                    proof {
                        lemma_cat_none_r(log_view(out@));
                    }
                    return Err(e);
                },
            }
            let rv = match interp_expr(scope, env, expr, var_type, out, sub_fuel) {
                Ok(v) => v,
                Err(e) => {
                    return Err(e);
                },
            };
            let oran_val = OranValue::Variable(
                OranVariable {
                    var_type: *variable_type,
                    name: ident.clone(),
                    value: to_scalar(&rv),
                },
            );
            let stored = oran_val.clone();
            proof {
                lemma_g_scalar_of(rv);
                lemma_g_env_insert(
                    env@,
                    EnvKey { scope: scope as int, kind: var_type, name: ident@ },
                    stored,
                );
            }
            env.insert(scope, var_type, ident.clone(), stored);
            Ok(oran_val)
        },
        AstNode::FunctionCall(_kind, _name, _cargs) => interp_fncall(scope, env, reduced_expr, var_type, out, fuel),
        AstNode::FunctionDefine(func_name, args, astnodes, fn_return) => {
            let val = OranValue::Function(
                FunctionDefine {
                    name: func_name.clone(),
                    args: crate::value::rc_clone(args),
                    body: crate::value::rc_clone(astnodes),
                    fn_return: crate::value::rc_clone(fn_return),
                },
            );
            let stored = val.clone();
            proof {
                lemma_g_env_insert(
                    env@,
                    EnvKey {
                        scope: scope as int,
                        kind: FunctionOrValueType::Function,
                        name: func_name@,
                    },
                    stored,
                );
                lemma_cat_none_r(log_view(out@));
            }
            env.insert(scope, FunctionOrValueType::Function, func_name.clone(), stored);
            Ok(val)
        },
        AstNode::Argument(argument_name, arg_val) => {
            let v = match interp_expr(scope, env, arg_val, var_type, out, sub_fuel) {
                Ok(v) => v,
                Err(e) => {
                    return Err(e);
                },
            };
            proof {
                lemma_g_env_insert(
                    env@,
                    EnvKey {
                        scope: scope as int,
                        kind: FunctionOrValueType::Value,
                        name: argument_name@,
                    },
                    v,
                );
            }
            env.insert(scope, FunctionOrValueType::Value, argument_name.clone(), v);
            Ok(OranValue::Str(argument_name.clone()))
        },
        AstNode::Str(str_val) => {
            proof {
                lemma_cat_none_r(log_view(out@));
            }
            Ok(OranValue::Str(str_val.clone()))
        },
        AstNode::Strs(_parts) => interp_strs(scope, env, reduced_expr, var_type, out, fuel),
        AstNode::Condition(c, e, o) => {
            let ev = match interp_expr(scope, env, e, var_type, out, sub_fuel) {
                Ok(v) => v,
                Err(er) => {
                    return Err(er);
                },
            };
            let ghost m1 = env@;
            let ov = match interp_expr(scope, env, o, var_type, out, sub_fuel) {
                Ok(v) => v,
                Err(er) => {
                    proof {
                        let e1 = eval_expr(g0, **e, scope as int, var_type, sub_fuel as nat);
                        let e2 = eval_expr(e1.env, **o, scope as int, var_type, sub_fuel as nat);
                        lemma_cat_assoc(log_view(old(out)@), e1.chunks, e2.chunks);
                    }
                    return Err(er);
                },
            };
            proof {
                let e1 = eval_expr(g0, **e, scope as int, var_type, sub_fuel as nat);
                let e2 = eval_expr(e1.env, **o, scope as int, var_type, sub_fuel as nat);
                lemma_cat_assoc(log_view(old(out)@), e1.chunks, e2.chunks);
                lemma_g_logical(*c, ev, ov);
            }
            Ok(logical_values(*c, &ev, &ov))
        },
        AstNode::Comparison(e, c, o) => {
            let ev = match interp_expr(scope, env, e, var_type, out, sub_fuel) {
                Ok(v) => v,
                Err(er) => {
                    return Err(er);
                },
            };
            let ghost m1 = env@;
            let ov = match interp_expr(scope, env, o, var_type, out, sub_fuel) {
                Ok(v) => v,
                Err(er) => {
                    proof {
                        let e1 = eval_expr(g0, **e, scope as int, var_type, sub_fuel as nat);
                        let e2 = eval_expr(e1.env, **o, scope as int, var_type, sub_fuel as nat);
                        lemma_cat_assoc(log_view(old(out)@), e1.chunks, e2.chunks);
                    }
                    return Err(er);
                },
            };
            let res = compare_values(*c, &ev, &ov);
            proof {
                let e1 = eval_expr(g0, **e, scope as int, var_type, sub_fuel as nat);
                let e2 = eval_expr(e1.env, **o, scope as int, var_type, sub_fuel as nat);
                lemma_cat_assoc(log_view(old(out)@), e1.chunks, e2.chunks);
                lemma_g_compare(*c, ev, ov);
            }
            res
        },
        AstNode::IF(_c0, _b0, _ei0, _el0) => interp_if(scope, env, reduced_expr, var_type, out, fuel),
        AstNode::Bool(b) => {
            proof {
                lemma_cat_none_r(log_view(out@));
            }
            Ok(OranValue::Boolean(*b))
        },
        AstNode::ForLoop(_i0, _v0, _n0, _f0, _l0, _s0) => interp_for(scope, env, reduced_expr, var_type, out, fuel),
        AstNode::Null => {
            proof {
                lemma_cat_none_r(log_view(out@));
            }
            Ok(OranValue::Null)
        },
    }
}


/// The dispatch case for a call node: the print built-ins, or a user
/// function run in a fresh frame at the caller's scope plus one.
#[verifier::loop_isolation(false)]
#[verifier::rlimit(100)]
fn interp_fncall(
    scope: usize,
    env: &mut Env,
    reduced_expr: &AstNode,
    var_type: FunctionOrValueType,
    out: &mut Vec<String>,
    fuel: u64,
) -> (r: Result<OranValue, RuntimeError>)
    requires
        scope as int + fuel as int <= usize::MAX as int,
        fuel >= 1,
        *reduced_expr matches AstNode::FunctionCall(_k, _n, _a),
    ensures
        env_frames_kept(old(env)@, final(env)@, scope as int),
        env_no_new_above(old(env)@, final(env)@, scope as int),
        out_extends(old(out)@, final(out)@),
        ({
            let e = eval_expr(
                g_env(old(env)@),
                *reduced_expr,
                scope as int,
                var_type,
                fuel as nat,
            );
            &&& g_env(final(env)@) == e.env
            &&& log_view(final(out)@) == log_view(old(out)@) + e.chunks
            &&& g_res(r) == e.res
        }),
        fuel > 0 ==> (*reduced_expr matches AstNode::FunctionCall(kind, name, _cargs) ==> ((kind
            == FnKind::UserDefined && fn_lookup(g_env(old(env)@), scope as int, name@) matches Some(
            GValue::Function(_gf),
        )) ==> (forall|k: EnvKey|
            k.scope == scope as int + 1 ==> !final(env)@.contains_key(k)))),
    decreases fuel, 0int,
{
    let ghost g0 = g_env(old(env)@);
    let sub_fuel: u64 = fuel - 1;
    match reduced_expr {
        AstNode::FunctionCall(kind, name, arg_values) => {
            match kind {
                FnKind::Print | FnKind::Println => {
                    let ghost fullt = eval_texts(
                        g0,
                        arg_values@,
                        scope as int,
                        var_type,
                        sub_fuel as nat,
                    );
                    let ghost mut emitted: Seq<Seq<char>> = Seq::empty();
                    let mut text = String::new();
                    proof {
                        lemma_skip_zero(arg_values@);
                        lemma_cat_none_l(fullt.chunks);
                        if fullt.res is Ok {
                            lemma_text_none_l(fullt.res->Ok_0);
                        }
                    }
                    let mut i: usize = 0;
                    while i < arg_values.len()
                        invariant
                            i <= arg_values@.len(),
                            scope as int + fuel as int <= usize::MAX as int,
                            sub_fuel == fuel - 1,
                            env_frames_kept(old(env)@, env@, scope as int),
                            env_no_new_above(old(env)@, env@, scope as int),
                            out_extends(old(out)@, out@),
                            log_view(out@) == log_view(old(out)@) + emitted,
                            ({
                                let rest = eval_texts(
                                    g_env(env@),
                                    arg_values@.skip(i as int),
                                    scope as int,
                                    var_type,
                                    sub_fuel as nat,
                                );
                                &&& fullt.env == rest.env
                                &&& fullt.chunks == emitted + rest.chunks
                                &&& fullt.res == (match rest.res {
                                    Ok(t) => Ok::<Seq<char>, RuntimeError>(text@ + t),
                                    Err(e) => Err(e),
                                })
                            }),
                        decreases arg_values@.len() - i,
                    {
                        let ghost m_i = env@;
                        proof {
                            lemma_skip_step(arg_values@, i as int);
                        }
                        let av = match interp_expr(
                            scope,
                            env,
                            &arg_values[i],
                            var_type,
                            out,
                            sub_fuel,
                        ) {
                            Ok(v) => v,
                            Err(e) => {
                                proof {
                                    let step = eval_expr(
                                        g_env(m_i),
                                        arg_values@[i as int],
                                        scope as int,
                                        var_type,
                                        sub_fuel as nat,
                                    );
                                    lemma_cat_assoc(log_view(old(out)@), emitted, step.chunks);
                                }
                                return Err(e);
                            },
                        };
                        let t = to_text(&av);
                        proof {
                            let step = eval_expr(
                                g_env(m_i),
                                arg_values@[i as int],
                                scope as int,
                                var_type,
                                sub_fuel as nat,
                            );
                            let rest2 = eval_texts(
                                g_env(env@),
                                arg_values@.skip(i as int + 1),
                                scope as int,
                                var_type,
                                sub_fuel as nat,
                            );
                            lemma_g_text(av);
                            lemma_cat_assoc(log_view(old(out)@), emitted, step.chunks);
                            lemma_cat_assoc(emitted, step.chunks, rest2.chunks);
                            if rest2.res is Ok {
                                lemma_text_assoc(text@, t@, rest2.res->Ok_0);
                            }
                            emitted = emitted + step.chunks;
                        }
                        text.append(t.as_str());
                        i = i + 1;
                    }
                    proof {
                        lemma_skip_all(arg_values@);
                        lemma_cat_none_r(emitted);
                        lemma_text_none_r(text@);
                    }
                    if let FnKind::Println = kind {
                        proof {
                            reveal_strlit("\n");
                            assert("\n"@ =~= seq!['\n']);
                        }
                        text.append("\n");
                    }
                    proof {
                        lemma_log_push(out@, text);
                        assert((log_view(old(out)@) + emitted).push(text@) =~= log_view(old(out)@)
                            + emitted.push(text@));
                    }
                    out.push(text);
                    Ok(OranValue::Boolean(true))
                },
                FnKind::UserDefined => {
                    let looked = lookup_function(env, scope, name);
                    let fd: FunctionDefine = match looked {
                        Some(OranValue::Function(f)) => f,
                        Some(other) => {
                            proof {
                                assert(!(g_of(other) is Function));
                                lemma_cat_none_r(log_view(out@));
                            }
                            return Err(RuntimeError::UndefinedFunction);
                        },
                        None => {
                            proof {
                                lemma_cat_none_r(log_view(out@));
                            }
                            return Err(RuntimeError::UndefinedFunction);
                        },
                    };
                    let callee_scope = scope + 1;
                    let ghost cs = callee_scope as int;
                    let ghost fullb = eval_bind(
                        g0,
                        fd.args@,
                        arg_values@,
                        scope as int,
                        cs,
                        var_type,
                        sub_fuel as nat,
                    );
                    let ghost mut emitted: Seq<Seq<char>> = Seq::empty();
                    proof {
                        lemma_skip_zero(fd.args@);
                        lemma_skip_zero(arg_values@);
                        lemma_cat_none_l(fullb.chunks);
                    }
                    let mut i: usize = 0;
                    let n_params = fd.args.len();
                    while i < n_params
                        invariant
                            i <= fd.args@.len(),
                            i <= arg_values@.len(),
                            n_params == fd.args@.len(),
                            callee_scope == scope + 1,
                            cs == callee_scope as int,
                            scope as int + fuel as int <= usize::MAX as int,
                            fuel >= 1,
                            sub_fuel == fuel - 1,
                            env_frames_kept(old(env)@, env@, scope as int),
                            env_no_new_above(old(env)@, env@, callee_scope as int),
                            out_extends(old(out)@, out@),
                            log_view(out@) == log_view(old(out)@) + emitted,
                            ({
                                let rest = eval_bind(
                                    g_env(env@),
                                    fd.args@.skip(i as int),
                                    arg_values@.skip(i as int),
                                    scope as int,
                                    cs,
                                    var_type,
                                    sub_fuel as nat,
                                );
                                &&& fullb.env == rest.env
                                &&& fullb.chunks == emitted + rest.chunks
                                &&& fullb.res == rest.res
                            }),
                        decreases fd.args@.len() - i,
                    {
                        let param_node = &fd.args[i];
                        let ghost m_i = env@;
                        proof {
                            lemma_skip_step(fd.args@, i as int);
                        }
                        let name_val = match interp_expr(
                            callee_scope,
                            env,
                            param_node,
                            var_type,
                            out,
                            sub_fuel,
                        ) {
                            Ok(v) => v,
                            Err(e) => {
                                let ghost m_e = env@;
                                env.purge(callee_scope);
                                proof {
                                    let step = eval_expr(
                                        g_env(m_i),
                                        fd.args@[i as int],
                                        cs,
                                        var_type,
                                        sub_fuel as nat,
                                    );
                                    lemma_cat_assoc(log_view(old(out)@), emitted, step.chunks);
                                    lemma_g_env_purge(m_e, env@, cs);
                                }
                                return Err(e);
                            },
                        };
                        let param_name = to_text(&name_val);
                        proof {
                            lemma_g_text(name_val);
                        }
                        if i >= arg_values.len() {
                            let ghost m_e = env@;
                            env.purge(callee_scope);
                            proof {
                                let step = eval_expr(
                                    g_env(m_i),
                                    fd.args@[i as int],
                                    cs,
                                    var_type,
                                    sub_fuel as nat,
                                );
                                lemma_cat_assoc(log_view(old(out)@), emitted, step.chunks);
                                lemma_g_env_purge(m_e, env@, cs);
                            }
                            return Err(RuntimeError::MissingArgument);
                        }
                        let ghost m_a = env@;
                        proof {
                            lemma_skip_step(arg_values@, i as int);
                        }
                        let val = match interp_expr(
                            scope,
                            env,
                            &arg_values[i],
                            var_type,
                            out,
                            sub_fuel,
                        ) {
                            Ok(v) => v,
                            Err(e) => {
                                let ghost m_e = env@;
                                env.purge(callee_scope);
                                proof {
                                    let step = eval_expr(
                                        g_env(m_i),
                                        fd.args@[i as int],
                                        cs,
                                        var_type,
                                        sub_fuel as nat,
                                    );
                                    let step2 = eval_expr(
                                        g_env(m_a),
                                        arg_values@[i as int],
                                        scope as int,
                                        var_type,
                                        sub_fuel as nat,
                                    );
                                    lemma_cat_assoc(log_view(old(out)@), emitted, step.chunks);
                                    lemma_cat_assoc(
                                        log_view(old(out)@) + emitted,
                                        step.chunks,
                                        step2.chunks,
                                    );
                                    lemma_cat_assoc(emitted, step.chunks, step2.chunks);
                                    lemma_g_env_purge(m_e, env@, cs);
                                }
                                return Err(e);
                            },
                        };
                        proof {
                            let step = eval_expr(
                                g_env(m_i),
                                fd.args@[i as int],
                                cs,
                                var_type,
                                sub_fuel as nat,
                            );
                            let step2 = eval_expr(
                                g_env(m_a),
                                arg_values@[i as int],
                                scope as int,
                                var_type,
                                sub_fuel as nat,
                            );
                            let rest2 = eval_bind(
                                g_env(env@).insert(
                                    EnvKey { scope: cs, kind: var_type, name: param_name@ },
                                    g_of(val),
                                ),
                                fd.args@.skip(i as int + 1),
                                arg_values@.skip(i as int + 1),
                                scope as int,
                                cs,
                                var_type,
                                sub_fuel as nat,
                            );
                            lemma_g_env_insert(
                                env@,
                                EnvKey { scope: cs, kind: var_type, name: param_name@ },
                                val,
                            );
                            lemma_cat_assoc(log_view(old(out)@), emitted, step.chunks);
                            lemma_cat_assoc(
                                log_view(old(out)@) + emitted,
                                step.chunks,
                                step2.chunks,
                            );
                            lemma_cat_assoc(emitted, step.chunks, step2.chunks);
                            lemma_cat_assoc(emitted, step.chunks + step2.chunks, rest2.chunks);
                            lemma_cat_assoc(step.chunks, step2.chunks, rest2.chunks);
                            emitted = emitted + (step.chunks + step2.chunks);
                        }
                        env.insert(callee_scope, var_type, param_name, val);
                        i = i + 1;
                    }
                    proof {
                        lemma_skip_all(fd.args@);
                        lemma_cat_none_r(emitted);
                    }
                    let ghost m_b = env@;
                    let ghost fulls = eval_stmts(fullb.env, fd.body@, cs, var_type, sub_fuel as nat);
                    match interp_stmts(callee_scope, env, &fd.body, var_type, out, sub_fuel) {
                        Ok(_) => {},
                        Err(e) => {
                            let ghost m_e = env@;
                            env.purge(callee_scope);
                            proof {
                                lemma_cat_assoc(log_view(old(out)@), emitted, fulls.chunks);
                                lemma_g_env_purge(m_e, env@, cs);
                            }
                            return Err(e);
                        },
                    }
                    let ghost m_r = env@;
                    let fr: &AstNode = &fd.fn_return;
                    let ghost fullr = eval_expr(fulls.env, *fr, cs, var_type, sub_fuel as nat);
                    let ret_val = match interp_expr(
                        callee_scope,
                        env,
                        &fd.fn_return,
                        var_type,
                        out,
                        sub_fuel,
                    ) {
                        Ok(v) => v,
                        Err(e) => {
                            let ghost m_e = env@;
                            env.purge(callee_scope);
                            proof {
                                lemma_cat_assoc(log_view(old(out)@), emitted, fulls.chunks);
                                lemma_cat_assoc(
                                    log_view(old(out)@) + emitted,
                                    fulls.chunks,
                                    fullr.chunks,
                                );
                                lemma_cat_assoc(emitted, fulls.chunks, fullr.chunks);
                                lemma_cat_assoc(fullb.chunks, fulls.chunks, fullr.chunks);
                                lemma_g_env_purge(m_e, env@, cs);
                            }
                            return Err(e);
                        },
                    };
                    let ghost m_e = env@;
                    env.purge(callee_scope);
                    proof {
                        lemma_cat_assoc(log_view(old(out)@), emitted, fulls.chunks);
                        lemma_cat_assoc(log_view(old(out)@) + emitted, fulls.chunks, fullr.chunks);
                        lemma_cat_assoc(emitted, fulls.chunks, fullr.chunks);
                        lemma_cat_assoc(fullb.chunks, fulls.chunks, fullr.chunks);
                        lemma_g_env_purge(m_e, env@, cs);
                    }
                    Ok(ret_val)
                },
            }
        },
        _ => {
            proof {
                assert(false);
            }
            Err(RuntimeError::RecursionLimit)
        },
    }
}


/// The dispatch case for string interpolation.
#[verifier::loop_isolation(false)]
#[verifier::rlimit(100)]
fn interp_strs(
    scope: usize,
    env: &mut Env,
    reduced_expr: &AstNode,
    var_type: FunctionOrValueType,
    out: &mut Vec<String>,
    fuel: u64,
) -> (r: Result<OranValue, RuntimeError>)
    requires
        scope as int + fuel as int <= usize::MAX as int,
        fuel >= 1,
        *reduced_expr matches AstNode::Strs(_p),
    ensures
        env_frames_kept(old(env)@, final(env)@, scope as int),
        env_no_new_above(old(env)@, final(env)@, scope as int),
        out_extends(old(out)@, final(out)@),
        ({
            let e = eval_expr(
                g_env(old(env)@),
                *reduced_expr,
                scope as int,
                var_type,
                fuel as nat,
            );
            &&& g_env(final(env)@) == e.env
            &&& log_view(final(out)@) == log_view(old(out)@) + e.chunks
            &&& g_res(r) == e.res
        }),
    decreases fuel, 0int,
{
    let ghost g0 = g_env(old(env)@);
    let sub_fuel: u64 = fuel - 1;
    match reduced_expr {
        AstNode::Strs(strs) => {
            let ghost fullt = eval_texts(g0, strs@, scope as int, var_type, sub_fuel as nat);
            let ghost mut emitted: Seq<Seq<char>> = Seq::empty();
            let mut text = String::new();
            proof {
                lemma_skip_zero(strs@);
                lemma_cat_none_l(fullt.chunks);
                if fullt.res is Ok {
                    lemma_text_none_l(fullt.res->Ok_0);
                }
            }
            let mut i: usize = 0;
            while i < strs.len()
                invariant
                    i <= strs@.len(),
                    scope as int + fuel as int <= usize::MAX as int,
                    sub_fuel == fuel - 1,
                    env_frames_kept(old(env)@, env@, scope as int),
                    env_no_new_above(old(env)@, env@, scope as int),
                    out_extends(old(out)@, out@),
                    log_view(out@) == log_view(old(out)@) + emitted,
                    ({
                        let rest = eval_texts(
                            g_env(env@),
                            strs@.skip(i as int),
                            scope as int,
                            var_type,
                            sub_fuel as nat,
                        );
                        &&& fullt.env == rest.env
                        &&& fullt.chunks == emitted + rest.chunks
                        &&& fullt.res == (match rest.res {
                            Ok(t) => Ok::<Seq<char>, RuntimeError>(text@ + t),
                            Err(e) => Err(e),
                        })
                    }),
                decreases strs@.len() - i,
            {
                let ghost m_i = env@;
                proof {
                    lemma_skip_step(strs@, i as int);
                }
                let pv = match interp_expr(scope, env, &strs[i], var_type, out, sub_fuel) {
                    Ok(v) => v,
                    Err(e) => {
                        proof {
                            let step = eval_expr(
                                g_env(m_i),
                                strs@[i as int],
                                scope as int,
                                var_type,
                                sub_fuel as nat,
                            );
                            lemma_cat_assoc(log_view(old(out)@), emitted, step.chunks);
                        }
                        return Err(e);
                    },
                };
                let t = to_text(&pv);
                proof {
                    let step = eval_expr(
                        g_env(m_i),
                        strs@[i as int],
                        scope as int,
                        var_type,
                        sub_fuel as nat,
                    );
                    let rest2 = eval_texts(
                        g_env(env@),
                        strs@.skip(i as int + 1),
                        scope as int,
                        var_type,
                        sub_fuel as nat,
                    );
                    lemma_g_text(pv);
                    lemma_cat_assoc(log_view(old(out)@), emitted, step.chunks);
                    lemma_cat_assoc(emitted, step.chunks, rest2.chunks);
                    if rest2.res is Ok {
                        lemma_text_assoc(text@, t@, rest2.res->Ok_0);
                    }
                    emitted = emitted + step.chunks;
                }
                text.append(t.as_str());
                i = i + 1;
            }
            proof {
                lemma_skip_all(strs@);
                lemma_cat_none_r(emitted);
                lemma_text_none_r(text@);
            }
            Ok(OranValue::Str(text))
        },
        _ => {
            proof {
                assert(false);
            }
            Err(RuntimeError::RecursionLimit)
        },
    }
}


/// The dispatch case for a conditional node.
#[verifier::loop_isolation(false)]
#[verifier::rlimit(100)]
fn interp_if(
    scope: usize,
    env: &mut Env,
    reduced_expr: &AstNode,
    var_type: FunctionOrValueType,
    out: &mut Vec<String>,
    fuel: u64,
) -> (r: Result<OranValue, RuntimeError>)
    requires
        scope as int + fuel as int <= usize::MAX as int,
        fuel >= 1,
        *reduced_expr matches AstNode::IF(_c, _b, _ei, _el),
    ensures
        env_frames_kept(old(env)@, final(env)@, scope as int),
        env_no_new_above(old(env)@, final(env)@, scope as int),
        out_extends(old(out)@, final(out)@),
        ({
            let e = eval_expr(
                g_env(old(env)@),
                *reduced_expr,
                scope as int,
                var_type,
                fuel as nat,
            );
            &&& g_env(final(env)@) == e.env
            &&& log_view(final(out)@) == log_view(old(out)@) + e.chunks
            &&& g_res(r) == e.res
        }),
    decreases fuel, 0int,
{
    let ghost g0 = g_env(old(env)@);
    let sub_fuel: u64 = fuel - 1;
    match reduced_expr {
        AstNode::IF(if_condition, body, else_if_bodies_conditions, else_bodies) => {
            let cv = match interp_expr(scope, env, if_condition, var_type, out, sub_fuel) {
                Ok(v) => v,
                Err(e) => {
                    return Err(e);
                },
            };
            let ghost ec = eval_expr(g0, **if_condition, scope as int, var_type, sub_fuel as nat);
            proof {
                lemma_g_bool(cv);
            }
            if to_bool(&cv) {
                let ghost m_b = env@;
                let ghost es = eval_stmts(ec.env, body@, scope as int, var_type, sub_fuel as nat);
                match interp_stmts(scope, env, body, var_type, out, sub_fuel) {
                    Ok(_) => {},
                    Err(e) => {
                        proof {
                            lemma_cat_assoc(log_view(old(out)@), ec.chunks, es.chunks);
                        }
                        return Err(e);
                    },
                }
                proof {
                    lemma_cat_assoc(log_view(old(out)@), ec.chunks, es.chunks);
                }
                return Ok(OranValue::Null);
            }
            let ghost fullcl = eval_clauses(
                ec.env,
                else_if_bodies_conditions@,
                scope as int,
                var_type,
                sub_fuel as nat,
            );
            let ghost mut cl_emitted: Seq<Seq<char>> = Seq::empty();
            proof {
                lemma_skip_zero(else_if_bodies_conditions@);
                lemma_cat_none_l(fullcl.chunks);
            }
            let mut ci: usize = 0;
            while ci < else_if_bodies_conditions.len()
                invariant
                    ci <= else_if_bodies_conditions@.len(),
                    scope as int + fuel as int <= usize::MAX as int,
                    sub_fuel == fuel - 1,
                    env_frames_kept(old(env)@, env@, scope as int),
                    env_no_new_above(old(env)@, env@, scope as int),
                    out_extends(old(out)@, out@),
                    ec == eval_expr(g0, **if_condition, scope as int, var_type, sub_fuel as nat),
                    fullcl == eval_clauses(
                        ec.env,
                        else_if_bodies_conditions@,
                        scope as int,
                        var_type,
                        sub_fuel as nat,
                    ),
                    log_view(out@) == log_view(old(out)@) + (ec.chunks + cl_emitted),
                    ({
                        let rest = eval_clauses(
                            g_env(env@),
                            else_if_bodies_conditions@.skip(ci as int),
                            scope as int,
                            var_type,
                            sub_fuel as nat,
                        );
                        &&& fullcl.env == rest.env
                        &&& fullcl.chunks == cl_emitted + rest.chunks
                        &&& fullcl.res == rest.res
                    }),
                decreases else_if_bodies_conditions@.len() - ci,
            {
                let ghost m_ci = env@;
                let ghost fullco = eval_conds(
                    g_env(m_ci),
                    else_if_bodies_conditions@[ci as int].0@,
                    scope as int,
                    var_type,
                    sub_fuel as nat,
                );
                let ghost mut co_emitted: Seq<Seq<char>> = Seq::empty();
                proof {
                    lemma_skip_step(else_if_bodies_conditions@, ci as int);
                    lemma_skip_zero(else_if_bodies_conditions@[ci as int].0@);
                    lemma_cat_none_l(fullco.chunks);
                }
                let mut qi: usize = 0;
                let n_conds = else_if_bodies_conditions[ci].0.len();
                while qi < n_conds
                    invariant
                        ci < else_if_bodies_conditions@.len(),
                        qi <= n_conds,
                        n_conds == else_if_bodies_conditions@[ci as int].0@.len(),
                        scope as int + fuel as int <= usize::MAX as int,
                        sub_fuel == fuel - 1,
                        env_frames_kept(old(env)@, env@, scope as int),
                        env_no_new_above(old(env)@, env@, scope as int),
                        out_extends(old(out)@, out@),
                        ec == eval_expr(
                            g0,
                            **if_condition,
                            scope as int,
                            var_type,
                            sub_fuel as nat,
                        ),
                        fullcl == eval_clauses(
                            ec.env,
                            else_if_bodies_conditions@,
                            scope as int,
                            var_type,
                            sub_fuel as nat,
                        ),
                        fullco == eval_conds(
                            g_env(m_ci),
                            else_if_bodies_conditions@[ci as int].0@,
                            scope as int,
                            var_type,
                            sub_fuel as nat,
                        ),
                        ({
                            let rest = eval_clauses(
                                g_env(m_ci),
                                else_if_bodies_conditions@.skip(ci as int),
                                scope as int,
                                var_type,
                                sub_fuel as nat,
                            );
                            &&& fullcl.env == rest.env
                            &&& fullcl.chunks == cl_emitted + rest.chunks
                            &&& fullcl.res == rest.res
                        }),
                        log_view(out@) == log_view(old(out)@) + (ec.chunks + (cl_emitted
                            + co_emitted)),
                        ({
                            let restc = eval_conds(
                                g_env(env@),
                                else_if_bodies_conditions@[ci as int].0@.skip(qi as int),
                                scope as int,
                                var_type,
                                sub_fuel as nat,
                            );
                            &&& fullco.env == restc.env
                            &&& fullco.chunks == co_emitted + restc.chunks
                            &&& fullco.res == restc.res
                        }),
                    decreases n_conds - qi,
                {
                    let ghost m_qi = env@;
                    proof {
                        lemma_skip_step(else_if_bodies_conditions@[ci as int].0@, qi as int);
                    }
                    let result = match interp_expr(
                        scope,
                        env,
                        &else_if_bodies_conditions[ci].0[qi],
                        var_type,
                        out,
                        sub_fuel,
                    ) {
                        Ok(v) => v,
                        Err(e) => {
                            proof {
                                let step = eval_expr(
                                    g_env(m_qi),
                                    else_if_bodies_conditions@[ci as int].0@[qi as int],
                                    scope as int,
                                    var_type,
                                    sub_fuel as nat,
                                );
                                lemma_cat_assoc(co_emitted, step.chunks, Seq::empty());
                                lemma_cat_none_r(co_emitted + step.chunks);
                                assert(fullco.res == Err::<bool, RuntimeError>(e));
                                assert(fullco.chunks == co_emitted + step.chunks);
                                lemma_cat_assoc(cl_emitted, co_emitted + step.chunks, Seq::empty());
                                lemma_cat_none_r(cl_emitted + (co_emitted + step.chunks));
                                lemma_cat_assoc(
                                    log_view(old(out)@),
                                    ec.chunks,
                                    cl_emitted + co_emitted,
                                );
                                lemma_cat_assoc(
                                    log_view(old(out)@) + ec.chunks,
                                    cl_emitted + co_emitted,
                                    step.chunks,
                                );
                                lemma_cat_assoc(cl_emitted, co_emitted, step.chunks);
                                lemma_cat_assoc(
                                    log_view(old(out)@),
                                    ec.chunks,
                                    cl_emitted + (co_emitted + step.chunks),
                                );
                                lemma_cat_assoc(
                                    ec.chunks,
                                    cl_emitted + (co_emitted + step.chunks),
                                    Seq::empty(),
                                );
                                lemma_cat_assoc(ec.chunks, fullcl.chunks, Seq::empty());
                            }
                            return Err(e);
                        },
                    };
                    proof {
                        let step = eval_expr(
                            g_env(m_qi),
                            else_if_bodies_conditions@[ci as int].0@[qi as int],
                            scope as int,
                            var_type,
                            sub_fuel as nat,
                        );
                        lemma_g_bool(result);
                        let restc2 = eval_conds(
                            g_env(env@),
                            else_if_bodies_conditions@[ci as int].0@.skip(qi as int + 1),
                            scope as int,
                            var_type,
                            sub_fuel as nat,
                        );
                        lemma_cat_assoc(co_emitted, step.chunks, restc2.chunks);
                        lemma_cat_assoc(cl_emitted, co_emitted, step.chunks);
                        lemma_cat_assoc(
                            log_view(old(out)@),
                            ec.chunks,
                            cl_emitted + co_emitted,
                        );
                        lemma_cat_assoc(
                            log_view(old(out)@) + ec.chunks,
                            cl_emitted + co_emitted,
                            step.chunks,
                        );
                        lemma_cat_assoc(
                            log_view(old(out)@),
                            ec.chunks,
                            cl_emitted + (co_emitted + step.chunks),
                        );
                        co_emitted = co_emitted + step.chunks;
                    }
                    if to_bool(&result) {
                        let ghost m_t = env@;
                        let ghost es2 = eval_stmts(
                            g_env(m_t),
                            else_if_bodies_conditions@[ci as int].1@,
                            scope as int,
                            var_type,
                            sub_fuel as nat,
                        );
                        match interp_stmts(
                            scope,
                            env,
                            &else_if_bodies_conditions[ci].1,
                            var_type,
                            out,
                            sub_fuel,
                        ) {
                            Ok(_) => {},
                            Err(e) => {
                                proof {
                                    lemma_cat_none_r(co_emitted);
                                    lemma_cat_assoc(co_emitted, es2.chunks, Seq::empty());
                                    lemma_cat_none_r(co_emitted + es2.chunks);
                                    lemma_cat_assoc(cl_emitted, co_emitted, es2.chunks);
                                    lemma_cat_assoc(
                                        log_view(old(out)@),
                                        ec.chunks,
                                        cl_emitted + co_emitted,
                                    );
                                    lemma_cat_assoc(
                                        log_view(old(out)@) + ec.chunks,
                                        cl_emitted + co_emitted,
                                        es2.chunks,
                                    );
                                    lemma_cat_assoc(
                                        log_view(old(out)@),
                                        ec.chunks,
                                        cl_emitted + (co_emitted + es2.chunks),
                                    );
                                    lemma_cat_assoc(ec.chunks, fullcl.chunks, Seq::empty());
                                }
                                return Err(e);
                            },
                        }
                        proof {
                            lemma_cat_none_r(co_emitted);
                            lemma_cat_assoc(co_emitted, es2.chunks, Seq::empty());
                            lemma_cat_none_r(co_emitted + es2.chunks);
                            lemma_cat_assoc(cl_emitted, co_emitted, es2.chunks);
                            lemma_cat_assoc(
                                log_view(old(out)@),
                                ec.chunks,
                                cl_emitted + co_emitted,
                            );
                            lemma_cat_assoc(
                                log_view(old(out)@) + ec.chunks,
                                cl_emitted + co_emitted,
                                es2.chunks,
                            );
                            lemma_cat_assoc(
                                log_view(old(out)@),
                                ec.chunks,
                                cl_emitted + (co_emitted + es2.chunks),
                            );
                            lemma_cat_assoc(ec.chunks, fullcl.chunks, Seq::empty());
                        }
                        return Ok(OranValue::Null);
                    }
                    qi = qi + 1;
                }
                proof {
                    lemma_skip_all(else_if_bodies_conditions@[ci as int].0@);
                    lemma_cat_none_r(co_emitted);
                    let rest2 = eval_clauses(
                        g_env(env@),
                        else_if_bodies_conditions@.skip(ci as int + 1),
                        scope as int,
                        var_type,
                        sub_fuel as nat,
                    );
                    lemma_cat_assoc(cl_emitted, co_emitted, rest2.chunks);
                    lemma_cat_assoc(log_view(old(out)@), ec.chunks, cl_emitted + co_emitted);
                    cl_emitted = cl_emitted + co_emitted;
                }
                ci = ci + 1;
            }
            proof {
                lemma_skip_all(else_if_bodies_conditions@);
                lemma_cat_none_r(cl_emitted);
            }
            let ghost m_e2 = env@;
            let ghost es3 = eval_stmts(g_env(m_e2), else_bodies@, scope as int, var_type, sub_fuel as nat);
            match interp_stmts(scope, env, else_bodies, var_type, out, sub_fuel) {
                Ok(_) => {},
                Err(e) => {
                    proof {
                        lemma_cat_assoc(log_view(old(out)@), ec.chunks + cl_emitted, es3.chunks);
                        lemma_cat_assoc(ec.chunks, cl_emitted, es3.chunks);
                        lemma_cat_assoc(ec.chunks, fullcl.chunks, es3.chunks);
                    }
                    return Err(e);
                },
            }
            proof {
                lemma_cat_assoc(log_view(old(out)@), ec.chunks + cl_emitted, es3.chunks);
                lemma_cat_assoc(ec.chunks, cl_emitted, es3.chunks);
                lemma_cat_assoc(ec.chunks, fullcl.chunks, es3.chunks);
            }
            Ok(OranValue::Null)
        },
        _ => {
            proof {
                assert(false);
            }
            Err(RuntimeError::RecursionLimit)
        },
    }
}


/// The dispatch case for a numeric range loop.
#[verifier::loop_isolation(false)]
#[verifier::rlimit(100)]
fn interp_for(
    scope: usize,
    env: &mut Env,
    reduced_expr: &AstNode,
    var_type: FunctionOrValueType,
    out: &mut Vec<String>,
    fuel: u64,
) -> (r: Result<OranValue, RuntimeError>)
    requires
        scope as int + fuel as int <= usize::MAX as int,
        fuel >= 1,
        *reduced_expr matches AstNode::ForLoop(_i, _v, _n, _f, _l, _s),
    ensures
        env_frames_kept(old(env)@, final(env)@, scope as int),
        env_no_new_above(old(env)@, final(env)@, scope as int),
        out_extends(old(out)@, final(out)@),
        ({
            let e = eval_expr(
                g_env(old(env)@),
                *reduced_expr,
                scope as int,
                var_type,
                fuel as nat,
            );
            &&& g_env(final(env)@) == e.env
            &&& log_view(final(out)@) == log_view(old(out)@) + e.chunks
            &&& g_res(r) == e.res
        }),
    decreases fuel, 0int,
{
    let ghost g0 = g_env(old(env)@);
    let sub_fuel: u64 = fuel - 1;
    match reduced_expr {
        AstNode::ForLoop(is_inclusive, loop_var_type, ident, first_elem, last_elem, stmts) => {
            let fv = match interp_expr(
                scope,
                env,
                first_elem,
                FunctionOrValueType::Value,
                out,
                sub_fuel,
            ) {
                Ok(v) => v,
                Err(e) => {
                    return Err(e);
                },
            };
            let ghost ef = eval_expr(
                g0,
                **first_elem,
                scope as int,
                FunctionOrValueType::Value,
                sub_fuel as nat,
            );
            let first_num = match to_num(&fv) {
                Ok(n) => n,
                Err(e) => {
                    proof {
                        lemma_g_num(fv);
                    }
                    return Err(e);
                },
            };
            proof {
                lemma_g_num(fv);
            }
            let ghost m1 = env@;
            let lv = match interp_expr(
                scope,
                env,
                last_elem,
                FunctionOrValueType::Value,
                out,
                sub_fuel,
            ) {
                Ok(v) => v,
                Err(e) => {
                    proof {
                        let el = eval_expr(
                            ef.env,
                            **last_elem,
                            scope as int,
                            FunctionOrValueType::Value,
                            sub_fuel as nat,
                        );
                        lemma_cat_assoc(log_view(old(out)@), ef.chunks, el.chunks);
                    }
                    return Err(e);
                },
            };
            let ghost el = eval_expr(
                ef.env,
                **last_elem,
                scope as int,
                FunctionOrValueType::Value,
                sub_fuel as nat,
            );
            let last_num = match to_num(&lv) {
                Ok(n) => n,
                Err(e) => {
                    proof {
                        lemma_g_num(lv);
                        lemma_cat_assoc(log_view(old(out)@), ef.chunks, el.chunks);
                    }
                    return Err(e);
                },
            };
            proof {
                lemma_g_num(lv);
            }
            let span: i128 = if *is_inclusive {
                last_num as i128 - first_num as i128 + 1
            } else {
                last_num as i128 - first_num as i128
            };
            let count: i128 = if span < 0 {
                0
            } else {
                span
            };
            let ghost fullf = eval_for(
                el.env,
                ident@,
                *loop_var_type,
                first_num as int,
                count as int,
                stmts@,
                scope as int,
                sub_fuel as nat,
            );
            let ghost mut emitted: Seq<Seq<char>> = Seq::empty();
            proof {
                lemma_cat_none_l(fullf.chunks);
            }
            let mut j: i128 = 0;
            while j < count
                invariant
                    0 <= j <= count,
                    count <= i64::MAX as i128 - first_num as i128 + 1,
                    scope as int + fuel as int <= usize::MAX as int,
                    sub_fuel == fuel - 1,
                    env_frames_kept(old(env)@, env@, scope as int),
                    env_no_new_above(old(env)@, env@, scope as int),
                    out_extends(old(out)@, out@),
                    ef == eval_expr(
                        g0,
                        **first_elem,
                        scope as int,
                        FunctionOrValueType::Value,
                        sub_fuel as nat,
                    ),
                    el == eval_expr(
                        ef.env,
                        **last_elem,
                        scope as int,
                        FunctionOrValueType::Value,
                        sub_fuel as nat,
                    ),
                    fullf == eval_for(
                        el.env,
                        ident@,
                        *loop_var_type,
                        first_num as int,
                        count as int,
                        stmts@,
                        scope as int,
                        sub_fuel as nat,
                    ),
                    log_view(out@) == log_view(old(out)@) + ((ef.chunks + el.chunks) + emitted),
                    ({
                        let rest = eval_for(
                            g_env(env@),
                            ident@,
                            *loop_var_type,
                            first_num as int + j as int,
                            count as int - j as int,
                            stmts@,
                            scope as int,
                            sub_fuel as nat,
                        );
                        &&& fullf.env == rest.env
                        &&& fullf.chunks == emitted + rest.chunks
                        &&& fullf.res == rest.res
                    }),
                decreases count - j,
            {
                let num = (first_num as i128 + j) as i64;
                let ghost pre_iter = env@;
                let bound = OranValue::Variable(
                    OranVariable {
                        var_type: *loop_var_type,
                        name: ident.clone(),
                        value: crate::value::OranVariableValue::Number(num),
                    },
                );
                proof {
                    assert(num as int == first_num as int + j as int);
                    lemma_g_env_insert(
                        env@,
                        EnvKey {
                            scope: scope as int,
                            kind: FunctionOrValueType::Value,
                            name: ident@,
                        },
                        bound,
                    );
                }
                env.insert(scope, FunctionOrValueType::Value, ident.clone(), bound);
                proof {
                    assert forall|k: EnvKey|
                        k.scope < scope as int && #[trigger] pre_iter.contains_key(k) implies env@.contains_key(
                        k,
                    ) && env@[k] == pre_iter[k] by {}
                    assert forall|k: EnvKey|
                        k.scope != scope as int && #[trigger] env@.contains_key(k) implies pre_iter.contains_key(
                        k,
                    ) by {}
                }
                let ghost m_s = env@;
                let ghost es = eval_stmts(
                    g_env(m_s),
                    stmts@,
                    scope as int,
                    FunctionOrValueType::Value,
                    sub_fuel as nat,
                );
                match interp_stmts(scope, env, stmts, FunctionOrValueType::Value, out, sub_fuel) {
                    Ok(_) => {},
                    Err(e) => {
                        proof {
                            lemma_cat_assoc(
                                log_view(old(out)@),
                                (ef.chunks + el.chunks) + emitted,
                                es.chunks,
                            );
                            lemma_cat_assoc(ef.chunks + el.chunks, emitted, es.chunks);
                            lemma_cat_assoc(
                                log_view(old(out)@),
                                ef.chunks + el.chunks,
                                emitted + es.chunks,
                            );
                            lemma_cat_assoc(ef.chunks, el.chunks, emitted + es.chunks);
                            lemma_cat_assoc(ef.chunks, el.chunks, fullf.chunks);
                        }
                        return Err(e);
                    },
                }
                proof {
                    let rest2 = eval_for(
                        g_env(env@),
                        ident@,
                        *loop_var_type,
                        first_num as int + j as int + 1,
                        count as int - j as int - 1,
                        stmts@,
                        scope as int,
                        sub_fuel as nat,
                    );
                    lemma_cat_assoc(
                        log_view(old(out)@),
                        (ef.chunks + el.chunks) + emitted,
                        es.chunks,
                    );
                    lemma_cat_assoc(ef.chunks + el.chunks, emitted, es.chunks);
                    lemma_cat_assoc(emitted, es.chunks, rest2.chunks);
                    emitted = emitted + es.chunks;
                }
                j = j + 1;
            }
            proof {
                lemma_cat_none_r(emitted);
                lemma_cat_assoc(ef.chunks, el.chunks, emitted);
                lemma_cat_assoc(log_view(old(out)@), ef.chunks + el.chunks, emitted);
                lemma_cat_assoc(ef.chunks, el.chunks, fullf.chunks);
            }
            Ok(OranValue::Null)
        },
        _ => {
            proof {
                assert(false);
            }
            Err(RuntimeError::RecursionLimit)
        },
    }
}

} // verus!
