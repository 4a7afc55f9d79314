//! The checker's walk over statements: declarations enter the innermost scope, blocks
//! open and close scopes, conditions must be `bool`, `break` and `continue` must stand
//! in loops, and `return` settles the function's return type.

use vstd::prelude::*;

use crate::checker::{
    check_expr, check_ok, check_spec, cx_ok, last_named, opt_seq, quoted, scope_view, scopes_view,
    CheckCtx, Local, LocalV,
};
use crate::expressions::Expr;
use crate::statements::{
    check_condition, check_declared_type, check_return, cond_error, declared_type, opt_text, return_rule, CondKind,
    ReturnState, BREAK_MESSAGE, CONTINUE_MESSAGE,
};
use crate::text::{push_str, string_from_chars, strs_view};
use crate::types::{Type, TypeV};
use crate::typing::class_ids_ok;

verus! {

/// A statement, as the checker reads it.
pub enum Stmt {
    /// An expression evaluated for its effect.
    Expr(Expr),
    /// `let` (`mutable`) or `const` declaration of `name`, with its resolved type
    /// annotation and its initialiser, if any.
    Var { name: String, mutable: bool, annotation: Option<Type>, init: Option<Expr> },
    /// `{ ... }`.
    Block(Vec<Stmt>),
    If { cond: Expr, then: Box<Stmt>, else_: Option<Box<Stmt>> },
    While { cond: Expr, body: Box<Stmt> },
    Break,
    Continue,
    Return(Option<Expr>),
}

/// Where the walk stands in the function: inside a loop, inside a `switch`, and what
/// it knows of the return type.
pub struct BodyState {
    pub in_loop: bool,
    pub in_switch: bool,
    pub ret: ReturnState,
}

/// The view of a walk state: inside a loop, inside a `switch`, the return type so
/// far, and whether a value has been returned.
pub struct FlowV {
    pub in_loop: bool,
    pub in_switch: bool,
    pub ret: TypeV,
    pub saw_value: bool,
}

/// The view of a walk state.
pub open spec fn flow_view(b: BodyState) -> FlowV {
    FlowV { in_loop: b.in_loop, in_switch: b.in_switch, ret: b.ret.ret@, saw_value: b.ret.saw_return_value }
}

/// `变量 `name` 重复声明`.
pub open spec fn redeclared_text(name: Seq<char>) -> Seq<char> {
    quoted("变量 `"@, name, "` 重复声明"@)
}

/// The scopes, walk state and errors after the statement `s`:
/// - an expression is checked;
/// - a declaration checks its initialiser and takes its declared type
///   (`declared_type`); a name already declared in the innermost scope is an error and
///   is not declared again, else the name enters the innermost scope;
/// - a block walks its statements in a new scope, closed at its end;
/// - `if` and `while` need `bool` conditions; a `while` body is inside a loop;
/// - `break` outside loops and `switch`es, and `continue` outside loops, are errors;
/// - `return` settles the return type and checks the value against it (`return_rule`).
pub open spec fn walk_stmt(cx: CheckCtx, sc: Seq<Seq<LocalV>>, f: FlowV, s: Stmt) -> (
    Seq<Seq<LocalV>>,
    FlowV,
    Seq<Seq<char>>,
)
    decreases s, 0nat,
{
    match s {
        Stmt::Expr(e) => (sc, f, check_spec(cx, sc, e).1),
        Stmt::Var { name, mutable, annotation, init } => {
            let (init_part, e1) = match init {
                Some(e) => (Some((e, check_spec(cx, sc, e).0)), check_spec(cx, sc, e).1),
                None => (None, Seq::empty()),
            };
            let ann = match annotation {
                Some(t) => Some(t@),
                None => None,
            };
            let (ty, m) = declared_type(cx.types, ann, init_part);
            let errs = e1 + opt_seq(m);
            if last_named(sc.last(), name@) is Some {
                (sc, f, errs.push(redeclared_text(name@)))
            } else {
                (sc.update(sc.len() - 1, sc.last().push((name@, ty, mutable))), f, errs)
            }
        },
        Stmt::Block(stmts) => {
            let (inner, g, errs) = walk_list(cx, sc.push(Seq::empty()), f, stmts@);
            (inner.drop_last(), g, errs)
        },
        Stmt::If { cond, then, else_ } => {
            let (ct, e1) = check_spec(cx, sc, cond);
            let e2 = opt_seq(cond_error(CondKind::If, ct));
            let (sc1, f1, e3) = walk_stmt(cx, sc, f, *then);
            match else_ {
                Some(other) => {
                    let (sc2, f2, e4) = walk_stmt(cx, sc1, f1, *other);
                    (sc2, f2, e1 + e2 + e3 + e4)
                },
                None => (sc1, f1, e1 + e2 + e3),
            }
        },
        Stmt::While { cond, body } => {
            let (ct, e1) = check_spec(cx, sc, cond);
            let e2 = opt_seq(cond_error(CondKind::While, ct));
            let (sc1, f1, e3) = walk_stmt(cx, sc, FlowV { in_loop: true, ..f }, *body);
            (sc1, FlowV { in_loop: f.in_loop, ..f1 }, e1 + e2 + e3)
        },
        Stmt::Break => (sc, f, if !f.in_loop && !f.in_switch {
            seq![BREAK_MESSAGE@]
        } else {
            Seq::empty()
        }),
        Stmt::Continue => (sc, f, if !f.in_loop {
            seq![CONTINUE_MESSAGE@]
        } else {
            Seq::empty()
        }),
        Stmt::Return(value) => match value {
            Some(e) => {
                let (t, e1) = check_spec(cx, sc, e);
                let (ret, m) = return_rule(cx.types, f.ret, Some(t));
                (sc, FlowV { ret, saw_value: true, ..f }, e1 + opt_seq(m))
            },
            None => {
                let (ret, m) = return_rule(cx.types, f.ret, None);
                (sc, FlowV { ret, ..f }, opt_seq(m))
            },
        },
    }
}

/// The scopes, walk state and errors after the statements `stmts`, in order.
pub open spec fn walk_list(cx: CheckCtx, sc: Seq<Seq<LocalV>>, f: FlowV, stmts: Seq<Stmt>) -> (
    Seq<Seq<LocalV>>,
    FlowV,
    Seq<Seq<char>>,
)
    decreases stmts, 1nat,
{
    if stmts.len() == 0 {
        (sc, f, Seq::empty())
    } else {
        let (sc1, f1, e1) = walk_list(cx, sc, f, stmts.drop_last());
        let (sc2, f2, e2) = walk_stmt(cx, sc1, f1, stmts.last());
        (sc2, f2, e1 + e2)
    }
}

/// Every expression of `s` can be checked where it stands (see `check_ok`), and the
/// initialisers of declarations and the returned values have well-formed types.
pub open spec fn stmt_ok(cx: CheckCtx, sc: Seq<Seq<LocalV>>, f: FlowV, s: Stmt) -> bool
    decreases s, 0nat,
{
    match s {
        Stmt::Expr(e) => check_ok(cx, sc, e),
        Stmt::Var { init, .. } => match init {
            Some(e) => check_ok(cx, sc, e) && class_ids_ok(check_spec(cx, sc, e).0, cx.types.classes@.len()),
            None => true,
        },
        Stmt::Block(stmts) => list_ok(cx, sc.push(Seq::empty()), f, stmts@),
        Stmt::If { cond, then, else_ } => check_ok(cx, sc, cond) && stmt_ok(cx, sc, f, *then) && match else_ {
            Some(other) => {
                let (sc1, f1, _) = walk_stmt(cx, sc, f, *then);
                stmt_ok(cx, sc1, f1, *other)
            },
            None => true,
        },
        Stmt::While { cond, body } => check_ok(cx, sc, cond) && stmt_ok(cx, sc, FlowV { in_loop: true, ..f }, *body),
        Stmt::Return(value) => match value {
            Some(e) => check_ok(cx, sc, e) && class_ids_ok(check_spec(cx, sc, e).0, cx.types.classes@.len()),
            None => true,
        },
        _ => true,
    }
}

/// Every statement of `stmts` can be walked where it stands (see `stmt_ok`).
pub open spec fn list_ok(cx: CheckCtx, sc: Seq<Seq<LocalV>>, f: FlowV, stmts: Seq<Stmt>) -> bool
    decreases stmts, 1nat,
{
    if stmts.len() == 0 {
        true
    } else {
        let (sc1, f1, _) = walk_list(cx, sc, f, stmts.drop_last());
        list_ok(cx, sc, f, stmts.drop_last()) && stmt_ok(cx, sc1, f1, stmts.last())
    }
}

/// A walk changes only the innermost scope: the outer ones stay as they were.
pub proof fn lemma_walk_keeps_outer(cx: CheckCtx, sc: Seq<Seq<LocalV>>, f: FlowV, s: Stmt)
    requires
        sc.len() > 0,
    ensures
        walk_stmt(cx, sc, f, s).0.len() == sc.len(),
        walk_stmt(cx, sc, f, s).0.take(sc.len() - 1) == sc.take(sc.len() - 1),
    decreases s, 0nat,
{
    match s {
        Stmt::Var { .. } => {
            let r = walk_stmt(cx, sc, f, s).0;
            assert(r.take(sc.len() - 1) =~= sc.take(sc.len() - 1));
        },
        Stmt::Block(stmts) => {
            let wide = sc.push(Seq::empty());
            lemma_walk_list_keeps_outer(cx, wide, f, stmts@);
            let inner = walk_list(cx, wide, f, stmts@).0;
            assert(inner.drop_last() =~= inner.take(sc.len() as int));
            assert(wide.take(sc.len() as int) =~= sc);
            assert(inner.drop_last() =~= sc);
            assert(walk_stmt(cx, sc, f, s).0.take(sc.len() - 1) =~= sc.take(sc.len() - 1));
        },
        Stmt::If { cond, then, else_ } => {
            lemma_walk_keeps_outer(cx, sc, f, *then);
            match else_ {
                Some(other) => {
                    let (sc1, f1, _) = walk_stmt(cx, sc, f, *then);
                    lemma_walk_keeps_outer(cx, sc1, f1, *other);
                },
                None => {},
            }
        },
        Stmt::While { cond, body } => {
            lemma_walk_keeps_outer(cx, sc, FlowV { in_loop: true, ..f }, *body);
        },
        _ => {},
    }
}

/// A walk over a list changes only the innermost scope.
pub proof fn lemma_walk_list_keeps_outer(cx: CheckCtx, sc: Seq<Seq<LocalV>>, f: FlowV, stmts: Seq<Stmt>)
    requires
        sc.len() > 0,
    ensures
        walk_list(cx, sc, f, stmts).0.len() == sc.len(),
        walk_list(cx, sc, f, stmts).0.take(sc.len() - 1) == sc.take(sc.len() - 1),
    decreases stmts, 1nat,
{
    if stmts.len() > 0 {
        lemma_walk_list_keeps_outer(cx, sc, f, stmts.drop_last());
        let (sc1, f1, _) = walk_list(cx, sc, f, stmts.drop_last());
        lemma_walk_keeps_outer(cx, sc1, f1, stmts.last());
    }
}

/// Declarations inside a block do not outlive it: after a block the scopes are those
/// before it.
pub proof fn lemma_block_restores_scopes(cx: CheckCtx, sc: Seq<Seq<LocalV>>, f: FlowV, stmts: Vec<Stmt>)
    requires
        sc.len() > 0,
    ensures
        walk_stmt(cx, sc, f, Stmt::Block(stmts)).0 == sc,
{
    lemma_walk_keeps_outer(cx, sc, f, Stmt::Block(stmts));
    let wide = sc.push(Seq::empty());
    lemma_walk_list_keeps_outer(cx, wide, f, stmts@);
    let inner = walk_list(cx, wide, f, stmts@).0;
    assert(inner.drop_last() =~= inner.take(sc.len() as int));
    assert(wide.take(sc.len() as int) =~= sc);
}

fn push_msg(out: &mut Vec<String>, m: String)
    ensures
        strs_view(final(out)@) == strs_view(old(out)@).push(m@),
{
    out.push(m);
    assert(strs_view(out@) =~= strs_view(old(out)@).push(m@));
}

fn push_opt(out: &mut Vec<String>, m: Option<String>)
    ensures
        strs_view(final(out)@) == strs_view(old(out)@) + opt_seq(opt_text(m)),
{
    match m {
        Some(t) => push_msg(out, t),
        None => {
            assert(strs_view(out@) =~= strs_view(out@) + Seq::<Seq<char>>::empty());
        },
    }
}

fn redeclared_msg(name: &str) -> (r: String)
    ensures
        r@ == redeclared_text(name@),
{
    let mut v: Vec<char> = Vec::new();
    push_str(&mut v, "变量 `");
    push_str(&mut v, name);
    push_str(&mut v, "` 重复声明");
    string_from_chars(&v)
}

fn declared_in(scope: &Vec<Local>, name: &str) -> (r: bool)
    ensures
        r == (last_named(scope_view(scope@), name@) is Some),
{
    let ghost v = scope_view(scope@);
    let mut i: usize = scope.len();
    assert(v.take(i as int) =~= v);
    while i > 0
        invariant
            i <= scope@.len(),
            v == scope_view(scope@),
            v.len() == scope@.len(),
            last_named(v, name@) == last_named(v.take(i as int), name@),
        decreases i,
    {
        assert(v.take(i as int).last() == v[i - 1]);
        if crate::text::same_text(scope[i - 1].name.as_str(), name) {
            return true;
        }
        assert(v.take(i as int).drop_last() =~= v.take(i - 1));
        i -= 1;
    }
    false
}

#[verifier::rlimit(100)]
fn check_var_stmt(cx: &CheckCtx, scopes: &mut Vec<Vec<Local>>, st: &mut BodyState, s: &Stmt, out: &mut Vec<String>)
    requires
        cx_ok(*cx),
        old(scopes)@.len() > 0,
        stmt_ok(*cx, scopes_view(old(scopes)@), flow_view(*old(st)), *s),
        s is Var,
    ensures
        scopes_view(final(scopes)@) == walk_stmt(*cx, scopes_view(old(scopes)@), flow_view(*old(st)), *s).0,
        flow_view(*final(st)) == walk_stmt(*cx, scopes_view(old(scopes)@), flow_view(*old(st)), *s).1,
        strs_view(final(out)@) == strs_view(old(out)@) + walk_stmt(*cx, scopes_view(old(scopes)@), flow_view(*old(st)), *s).2,
    decreases s, 0nat,
{
    let ghost sc0 = scopes_view(scopes@);
    let ghost f0 = flow_view(*st);
    let ghost o0 = strs_view(out@);
    proof {
        assert(o0 + Seq::<Seq<char>>::empty() =~= o0);
    }
    match s {
        Stmt::Var { name, mutable, annotation, init } => {
            let (ty, m) = match init {
                Some(e) => {
                    let t = check_expr(cx, scopes, e, out);
                    check_declared_type(&cx.types, annotation.as_ref(), Some((e, &t)))
                },
                None => check_declared_type(&cx.types, annotation.as_ref(), None),
            };
            push_opt(out, m);
            let ghost o1 = strs_view(out@);
            let k = scopes.len() - 1;
            proof {
                assert(sc0.last() == scope_view(scopes@[k as int]@));
            }
            if declared_in(&scopes[k], name.as_str()) {
                push_msg(out, redeclared_msg(name.as_str()));
            } else {
                let ghost tv = ty@;
                let mut top = scopes.pop().unwrap();
                let ghost before = top@;
                top.push(Local { name: name.clone(), ty, mutable: *mutable });
                scopes.push(top);
                proof {
                    assert(scope_view(top@) =~= scope_view(before).push((name@, tv, *mutable)));
                    assert(scopes_view(scopes@) =~= sc0.update(sc0.len() - 1, sc0.last().push((name@, tv, *mutable))));
                }
            }
            proof {
                assert(strs_view(out@) =~= o0 + walk_stmt(*cx, sc0, f0, *s).2);
            }
        },
        _ => {},
    }
}

#[verifier::rlimit(100)]
fn check_block_stmt(cx: &CheckCtx, scopes: &mut Vec<Vec<Local>>, st: &mut BodyState, s: &Stmt, out: &mut Vec<String>)
    requires
        cx_ok(*cx),
        old(scopes)@.len() > 0,
        stmt_ok(*cx, scopes_view(old(scopes)@), flow_view(*old(st)), *s),
        s is Block,
    ensures
        scopes_view(final(scopes)@) == walk_stmt(*cx, scopes_view(old(scopes)@), flow_view(*old(st)), *s).0,
        flow_view(*final(st)) == walk_stmt(*cx, scopes_view(old(scopes)@), flow_view(*old(st)), *s).1,
        strs_view(final(out)@) == strs_view(old(out)@) + walk_stmt(*cx, scopes_view(old(scopes)@), flow_view(*old(st)), *s).2,
    decreases s, 0nat,
{
    let ghost sc0 = scopes_view(scopes@);
    let ghost f0 = flow_view(*st);
    let ghost o0 = strs_view(out@);
    proof {
        assert(o0 + Seq::<Seq<char>>::empty() =~= o0);
    }
    match s {
        Stmt::Block(stmts) => {
            let fresh: Vec<Local> = Vec::new();
            proof {
                assert(scope_view(fresh@) =~= Seq::<LocalV>::empty());
            }
            scopes.push(fresh);
            proof {
                assert(scopes_view(scopes@) =~= sc0.push(Seq::empty()));
            }
            check_list(cx, scopes, st, stmts, out);
            proof {
                lemma_walk_list_keeps_outer(*cx, sc0.push(Seq::empty()), f0, stmts@);
            }
            let ghost inner = scopes@;
            scopes.pop();
            proof {
                assert(scopes_view(scopes@) =~= scopes_view(inner).drop_last());
            }
        },
        _ => {},
    }
}

#[verifier::rlimit(100)]
fn check_if_stmt(cx: &CheckCtx, scopes: &mut Vec<Vec<Local>>, st: &mut BodyState, s: &Stmt, out: &mut Vec<String>)
    requires
        cx_ok(*cx),
        old(scopes)@.len() > 0,
        stmt_ok(*cx, scopes_view(old(scopes)@), flow_view(*old(st)), *s),
        s is If,
    ensures
        scopes_view(final(scopes)@) == walk_stmt(*cx, scopes_view(old(scopes)@), flow_view(*old(st)), *s).0,
        flow_view(*final(st)) == walk_stmt(*cx, scopes_view(old(scopes)@), flow_view(*old(st)), *s).1,
        strs_view(final(out)@) == strs_view(old(out)@) + walk_stmt(*cx, scopes_view(old(scopes)@), flow_view(*old(st)), *s).2,
    decreases s, 0nat,
{
    let ghost sc0 = scopes_view(scopes@);
    let ghost f0 = flow_view(*st);
    let ghost o0 = strs_view(out@);
    proof {
        assert(o0 + Seq::<Seq<char>>::empty() =~= o0);
    }
    match s {
        Stmt::If { cond, then, else_ } => {
            let ct = check_expr(cx, scopes, cond, out);
            push_opt(out, check_condition(CondKind::If, &ct));
            check_stmt(cx, scopes, st, then, out);
            proof {
                lemma_walk_keeps_outer(*cx, sc0, f0, **then);
            }
            match else_ {
                Some(other) => {
                    check_stmt(cx, scopes, st, other, out);
                },
                None => {},
            }
            proof {
                assert(strs_view(out@) =~= o0 + walk_stmt(*cx, sc0, f0, *s).2);
            }
        },
        _ => {},
    }
}

#[verifier::rlimit(100)]
fn check_while_stmt(cx: &CheckCtx, scopes: &mut Vec<Vec<Local>>, st: &mut BodyState, s: &Stmt, out: &mut Vec<String>)
    requires
        cx_ok(*cx),
        old(scopes)@.len() > 0,
        stmt_ok(*cx, scopes_view(old(scopes)@), flow_view(*old(st)), *s),
        s is While,
    ensures
        scopes_view(final(scopes)@) == walk_stmt(*cx, scopes_view(old(scopes)@), flow_view(*old(st)), *s).0,
        flow_view(*final(st)) == walk_stmt(*cx, scopes_view(old(scopes)@), flow_view(*old(st)), *s).1,
        strs_view(final(out)@) == strs_view(old(out)@) + walk_stmt(*cx, scopes_view(old(scopes)@), flow_view(*old(st)), *s).2,
    decreases s, 0nat,
{
    let ghost sc0 = scopes_view(scopes@);
    let ghost f0 = flow_view(*st);
    let ghost o0 = strs_view(out@);
    proof {
        assert(o0 + Seq::<Seq<char>>::empty() =~= o0);
    }
    match s {
        Stmt::While { cond, body } => {
            let ct = check_expr(cx, scopes, cond, out);
            push_opt(out, check_condition(CondKind::While, &ct));
            let saved = st.in_loop;
            st.in_loop = true;
            check_stmt(cx, scopes, st, body, out);
            st.in_loop = saved;
            proof {
                assert(strs_view(out@) =~= o0 + walk_stmt(*cx, sc0, f0, *s).2);
            }
        },
        _ => {},
    }
}

#[verifier::rlimit(100)]
fn check_return_stmt(cx: &CheckCtx, scopes: &mut Vec<Vec<Local>>, st: &mut BodyState, s: &Stmt, out: &mut Vec<String>)
    requires
        cx_ok(*cx),
        old(scopes)@.len() > 0,
        stmt_ok(*cx, scopes_view(old(scopes)@), flow_view(*old(st)), *s),
        s is Return,
    ensures
        scopes_view(final(scopes)@) == walk_stmt(*cx, scopes_view(old(scopes)@), flow_view(*old(st)), *s).0,
        flow_view(*final(st)) == walk_stmt(*cx, scopes_view(old(scopes)@), flow_view(*old(st)), *s).1,
        strs_view(final(out)@) == strs_view(old(out)@) + walk_stmt(*cx, scopes_view(old(scopes)@), flow_view(*old(st)), *s).2,
    decreases s, 0nat,
{
    let ghost sc0 = scopes_view(scopes@);
    let ghost f0 = flow_view(*st);
    let ghost o0 = strs_view(out@);
    proof {
        assert(o0 + Seq::<Seq<char>>::empty() =~= o0);
    }
    match s {
        Stmt::Return(value) => match value {
            Some(e) => {
                let t = check_expr(cx, scopes, e, out);
                let m = check_return(&cx.types, &mut st.ret, Some(&t));
                push_opt(out, m);
                proof {
                    assert(strs_view(out@) =~= o0 + walk_stmt(*cx, sc0, f0, *s).2);
                }
            },
            None => {
                let m = check_return(&cx.types, &mut st.ret, None);
                push_opt(out, m);
            },
        },
        _ => {},
    }
}

/// Checks the statement `s`, with the scopes `scopes` (innermost last) and the walk
/// state `st`: updates both and appends the errors to `out` (see `walk_stmt`).
#[verifier::rlimit(100)]
pub fn check_stmt(cx: &CheckCtx, scopes: &mut Vec<Vec<Local>>, st: &mut BodyState, s: &Stmt, out: &mut Vec<String>)
    requires
        cx_ok(*cx),
        old(scopes)@.len() > 0,
        stmt_ok(*cx, scopes_view(old(scopes)@), flow_view(*old(st)), *s),
    ensures
        scopes_view(final(scopes)@) == walk_stmt(*cx, scopes_view(old(scopes)@), flow_view(*old(st)), *s).0,
        flow_view(*final(st)) == walk_stmt(*cx, scopes_view(old(scopes)@), flow_view(*old(st)), *s).1,
        strs_view(final(out)@) == strs_view(old(out)@) + walk_stmt(*cx, scopes_view(old(scopes)@), flow_view(*old(st)), *s).2,
    decreases s, 1nat,
{
    let ghost sc0 = scopes_view(scopes@);
    let ghost f0 = flow_view(*st);
    let ghost o0 = strs_view(out@);
    proof {
        assert(o0 + Seq::<Seq<char>>::empty() =~= o0);
    }
    match s {
        Stmt::Expr(e) => {
            check_expr(cx, scopes, e, out);
        },
        Stmt::Var { .. } => check_var_stmt(cx, scopes, st, s, out),
        Stmt::Block(_) => check_block_stmt(cx, scopes, st, s, out),
        Stmt::If { .. } => check_if_stmt(cx, scopes, st, s, out),
        Stmt::While { .. } => check_while_stmt(cx, scopes, st, s, out),
        Stmt::Break => {
            if !st.in_loop && !st.in_switch {
                push_msg(out, String::from_str(BREAK_MESSAGE));
            }
        },
        Stmt::Continue => {
            if !st.in_loop {
                push_msg(out, String::from_str(CONTINUE_MESSAGE));
            }
        },
        Stmt::Return(_) => check_return_stmt(cx, scopes, st, s, out),
    }
}

/// Checks the statements `stmts` in order (see `walk_list`).
pub fn check_list(cx: &CheckCtx, scopes: &mut Vec<Vec<Local>>, st: &mut BodyState, stmts: &Vec<Stmt>, out: &mut Vec<String>)
    requires
        cx_ok(*cx),
        old(scopes)@.len() > 0,
        list_ok(*cx, scopes_view(old(scopes)@), flow_view(*old(st)), stmts@),
    ensures
        scopes_view(final(scopes)@) == walk_list(*cx, scopes_view(old(scopes)@), flow_view(*old(st)), stmts@).0,
        flow_view(*final(st)) == walk_list(*cx, scopes_view(old(scopes)@), flow_view(*old(st)), stmts@).1,
        strs_view(final(out)@) == strs_view(old(out)@) + walk_list(*cx, scopes_view(old(scopes)@), flow_view(*old(st)), stmts@).2,
    decreases stmts, 1nat,
{
    let ghost sc0 = scopes_view(scopes@);
    let ghost f0 = flow_view(*st);
    let ghost o0 = strs_view(out@);
    let mut i: usize = 0;
    assert(o0 + walk_list(*cx, sc0, f0, stmts@.take(0)).2 =~= o0);
    while i < stmts.len()
        invariant
            i <= stmts@.len(),
            cx_ok(*cx),
            list_ok(*cx, sc0, f0, stmts@),
            scopes@.len() > 0,
            scopes_view(scopes@) == walk_list(*cx, sc0, f0, stmts@.take(i as int)).0,
            flow_view(*st) == walk_list(*cx, sc0, f0, stmts@.take(i as int)).1,
            strs_view(out@) == o0 + walk_list(*cx, sc0, f0, stmts@.take(i as int)).2,
        decreases stmts@.len() - i,
    {
        proof {
            assert(stmts@.take(i + 1).drop_last() =~= stmts@.take(i as int));
            assert(stmts@.take(i + 1).last() == stmts@[i as int]);
            lemma_list_prefix_ok(*cx, sc0, f0, stmts@, i + 1);
        }
        check_stmt(cx, scopes, st, &stmts[i], out);
        proof {
            let (sc1, f1, _) = walk_list(*cx, sc0, f0, stmts@.take(i as int));
            lemma_walk_keeps_outer(*cx, sc1, f1, stmts@[i as int]);
            assert(strs_view(out@) =~= o0 + walk_list(*cx, sc0, f0, stmts@.take(i + 1)).2);
        }
        i += 1;
    }
    proof {
        assert(stmts@.take(i as int) =~= stmts@);
    }
}

proof fn lemma_list_prefix_ok(cx: CheckCtx, sc: Seq<Seq<LocalV>>, f: FlowV, stmts: Seq<Stmt>, k: int)
    requires
        list_ok(cx, sc, f, stmts),
        0 < k <= stmts.len(),
    ensures
        list_ok(cx, sc, f, stmts.take(k)),
    decreases stmts.len() - k,
{
    if k < stmts.len() {
        assert(stmts.take(k + 1).drop_last() =~= stmts.take(k));
        if k + 1 < stmts.len() {
            lemma_list_prefix_ok(cx, sc, f, stmts, k + 1);
        } else {
            assert(stmts.take(k + 1) =~= stmts);
        }
    } else {
        assert(stmts.take(k) =~= stmts);
    }
}

} // verus!
