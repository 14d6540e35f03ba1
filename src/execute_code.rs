use vstd::prelude::*;

use crate::functions::{
    call_native, native_named, native_of, native_output, native_result, native_uses_float, Builtin,
    FunctionContainer,
};
use crate::math_functions::{agrees, arg_texts, needs_float, text_of, views, FloatArith};
use crate::syntax::{Expr, FuncCall, Statement};
use crate::type_string::{make_string, string_literal};
use crate::value::{null_value, ErrorKind, ValueView, VariableContent, VariableTypes};
use crate::variables::{assign_in, declare_in, dump_frame, lemma_assign_len, lookup_in, VariableContainer};

verus! {

/// A scope stack, as the mappings of its frames, outermost first.
pub type Frames = Seq<Map<Seq<char>, ValueView>>;

/// The answers of a `FloatArith`, in the order they are asked for.
pub type Tape = Seq<Option<Seq<char>>>;

/// How deeply user-defined calls may nest in one program run.
pub const MAX_CALL_DEPTH: usize = 200;

/// The value of an expression, with the stack, output and remaining float
/// answers after evaluating it. Arguments are evaluated left to right before
/// the call runs. A user-defined function runs its body in a fresh frame on
/// top of the caller's stack, which is dropped afterwards, and returns
/// `Null`; `fuel` bounds how deeply such calls nest.
pub open spec fn eval_expr(
    reg: FunctionContainer,
    frames: Frames,
    out: Seq<char>,
    tape: Tape,
    e: Expr,
    fuel: nat,
) -> (Result<ValueView, ErrorKind>, Frames, Seq<char>, Tape)
    decreases fuel, 1nat, e,
{
    match e {
        Expr::IntLit(t) => (Ok((VariableTypes::INT, t@)), frames, out, tape),
        Expr::FloatLit(t) => (Ok((VariableTypes::FLOAT, t@)), frames, out, tape),
        Expr::BoolLit(t) => (Ok((VariableTypes::BOOL, t@)), frames, out, tape),
        Expr::StrLit(t) => (Ok((VariableTypes::STRING, string_literal(t@))), frames, out, tape),
        Expr::Var(n) => match lookup_in(frames, n@) {
            Some(v) => (Ok(v), frames, out, tape),
            None => (Err(ErrorKind::NameError), frames, out, tape),
        },
        Expr::Call(c) => eval_call(reg, frames, out, tape, c, fuel),
    }
}

/// The values of argument expressions, evaluated left to right; the first
/// error stops the evaluation.
pub open spec fn eval_args(
    reg: FunctionContainer,
    frames: Frames,
    out: Seq<char>,
    tape: Tape,
    args: Seq<Expr>,
    fuel: nat,
) -> (Result<Seq<ValueView>, ErrorKind>, Frames, Seq<char>, Tape)
    decreases fuel, 1nat, args,
{
    if args.len() == 0 {
        (Ok(Seq::empty()), frames, out, tape)
    } else {
        let (r, f1, o1, t1) = eval_args(reg, frames, out, tape, args.drop_last(), fuel);
        match r {
            Err(e) => (Err(e), f1, o1, t1),
            Ok(vs) => {
                let (r2, f2, o2, t2) = eval_expr(reg, f1, o1, t1, args.last(), fuel);
                match r2 {
                    Err(e) => (Err(e), f2, o2, t2),
                    Ok(v) => (Ok(vs.push(v)), f2, o2, t2),
                }
            },
        }
    }
}

/// A call: its arguments, then the function that the name denotes.
pub open spec fn eval_call(
    reg: FunctionContainer,
    frames: Frames,
    out: Seq<char>,
    tape: Tape,
    c: FuncCall,
    fuel: nat,
) -> (Result<ValueView, ErrorKind>, Frames, Seq<char>, Tape)
    decreases fuel, 1nat, c,
{
    let (r, f1, o1, t1) = eval_args(reg, frames, out, tape, c.args@, fuel);
    match r {
        Err(e) => (Err(e), f1, o1, t1),
        Ok(vs) => apply_function(reg, f1, o1, t1, c.name@, vs, fuel),
    }
}

/// A call of `name` on evaluated arguments: the native function of that
/// name, else the user-defined one, whose body runs in a fresh frame on top
/// of the caller's stack (dropped afterwards) and which returns `Null`. A
/// native call on the floating-point path takes the next float answer.
pub open spec fn apply_function(
    reg: FunctionContainer,
    frames: Frames,
    out: Seq<char>,
    tape: Tape,
    name: Seq<char>,
    vs: Seq<ValueView>,
    fuel: nat,
) -> (Result<ValueView, ErrorKind>, Frames, Seq<char>, Tape)
    decreases fuel, 0nat, name,
{
    match native_of(name) {
        Some(b) => if native_uses_float(b, vs) {
            if tape.len() > 0 {
                (native_result(b, vs, tape[0]), frames, out, tape.drop_first())
            } else {
                (native_result(b, vs, None), frames, out, tape)
            }
        } else {
            (native_result(b, vs, None), frames, out + native_output(b, vs), tape)
        },
        None => match reg.user_function(name) {
            None => (Err(ErrorKind::UnknownFunctionError), frames, out, tape),
            Some(body) => if fuel == 0 {
                (Err(ErrorKind::CallDepthExceeded), frames, out, tape)
            } else {
                let (r2, f2, o2, t2) = exec_block(
                    reg,
                    frames.push(Map::empty()),
                    out,
                    tape,
                    body@,
                    (fuel - 1) as nat,
                );
                (
                    match r2 {
                        Ok(_) => Ok(null_value()),
                        Err(e) => Err(e),
                    },
                    if f2.len() > 0 {
                        f2.drop_last()
                    } else {
                        f2
                    },
                    o2,
                    t2,
                )
            },
        },
    }
}

/// A statement sequence, run in order in the current scope; the first error
/// stops it.
pub open spec fn exec_block(
    reg: FunctionContainer,
    frames: Frames,
    out: Seq<char>,
    tape: Tape,
    ss: Seq<Statement>,
    fuel: nat,
) -> (Result<(), ErrorKind>, Frames, Seq<char>, Tape)
    decreases fuel, 2nat, ss,
{
    if ss.len() == 0 {
        (Ok(()), frames, out, tape)
    } else {
        let (r, f1, o1, t1) = exec_block(reg, frames, out, tape, ss.drop_last(), fuel);
        match r {
            Err(e) => (Err(e), f1, o1, t1),
            Ok(_) => exec_stmt(reg, f1, o1, t1, ss.last(), fuel),
        }
    }
}

/// One statement.
pub open spec fn exec_stmt(
    reg: FunctionContainer,
    frames: Frames,
    out: Seq<char>,
    tape: Tape,
    s: Statement,
    fuel: nat,
) -> (Result<(), ErrorKind>, Frames, Seq<char>, Tape)
    decreases fuel, 2nat, s,
{
    match s {
        Statement::Declare(n, e) => {
            let (r, f1, o1, t1) = eval_expr(reg, frames, out, tape, e, fuel);
            match r {
                Err(er) => (Err(er), f1, o1, t1),
                Ok(v) => (Ok(()), declare_in(f1, n@, v), o1, t1),
            }
        },
        Statement::DeclareEmpty(n) => (Ok(()), declare_in(frames, n@, null_value()), out, tape),
        Statement::Reassign(n, e) => {
            let (r, f1, o1, t1) = eval_expr(reg, frames, out, tape, e, fuel);
            match r {
                Err(er) => (Err(er), f1, o1, t1),
                Ok(v) => if lookup_in(f1, n@) is Some {
                    (Ok(()), assign_in(f1, n@, v), o1, t1)
                } else {
                    (Err(ErrorKind::NameError), f1, o1, t1)
                },
            }
        },
        Statement::Call(c) => {
            let (r, f1, o1, t1) = eval_call(reg, frames, out, tape, c, fuel);
            match r {
                Err(er) => (Err(er), f1, o1, t1),
                Ok(_) => (Ok(()), f1, o1, t1),
            }
        },
        Statement::If(g, body) => {
            let (r, f1, o1, t1) = eval_expr(reg, frames, out, tape, g, fuel);
            match r {
                Err(er) => (Err(er), f1, o1, t1),
                Ok(v) => if v.0 != VariableTypes::BOOL {
                    (Err(ErrorKind::TypeError), f1, o1, t1)
                } else if v.1 == "true"@ {
                    let (r2, f2, o2, t2) = exec_block(reg, f1.push(Map::empty()), o1, t1, body@, fuel);
                    (
                        r2,
                        if f2.len() > 0 {
                            f2.drop_last()
                        } else {
                            f2
                        },
                        o2,
                        t2,
                    )
                } else {
                    (Ok(()), f1, o1, t1)
                },
            }
        },
        Statement::DebugVars => (Ok(()), frames, out, tape),
    }
}

/// A statement outcome agrees with its meaning.
pub open spec fn same_outcome(r: Result<(), ErrorKind>, m: Result<(), ErrorKind>) -> bool {
    match m {
        Ok(_) => r is Ok,
        Err(e) => r == Err::<(), ErrorKind>(e),
    }
}

/// `after` is `before` with answers appended.
pub open spec fn extends(before: Tape, after: Tape) -> bool {
    before.len() <= after.len() && after.take(before.len() as int) == before
}

/// The answers appended to `before` to give `after`.
pub open spec fn consumed(before: Tape, after: Tape) -> Tape {
    after.skip(before.len() as int)
}

/// An evaluation ended with `r`, stack `f` and output `o`, and left the
/// float answers `rest` unused.
pub open spec fn expr_done(
    m: (Result<ValueView, ErrorKind>, Frames, Seq<char>, Tape),
    r: Result<VariableContent, ErrorKind>,
    f: Frames,
    o: Seq<char>,
    rest: Tape,
) -> bool {
    agrees(r, m.0) && m.1 == f && m.2 == o && m.3 == rest
}

/// A statement run ended with `r`, stack `f` and output `o`, and left the
/// float answers `rest` unused.
pub open spec fn stmt_done(
    m: (Result<(), ErrorKind>, Frames, Seq<char>, Tape),
    r: Result<(), ErrorKind>,
    f: Frames,
    o: Seq<char>,
    rest: Tape,
) -> bool {
    same_outcome(r, m.0) && m.1 == f && m.2 == o && m.3 == rest
}

proof fn lemma_consumed_split(l0: Tape, l1: Tape, l2: Tape)
    requires
        extends(l0, l1),
        extends(l1, l2),
    ensures
        extends(l0, l2),
        forall|rest: Tape|
            consumed(l0, l2) + rest == consumed(l0, l1) + (#[trigger] (consumed(l1, l2) + rest)),
{
    assert(l2.take(l0.len() as int) =~= l1.take(l0.len() as int));
    assert forall|rest: Tape|
        consumed(l0, l2) + rest == consumed(l0, l1) + (#[trigger] (consumed(l1, l2) + rest)) by {
        assert(consumed(l0, l2) + rest =~= consumed(l0, l1) + (consumed(l1, l2) + rest));
    }
}

proof fn lemma_consumed_none(l: Tape)
    ensures
        extends(l, l),
        forall|rest: Tape| #[trigger] (consumed(l, l) + rest) == rest,
{
    assert(l.take(l.len() as int) =~= l);
    assert forall|rest: Tape| #[trigger] (consumed(l, l) + rest) == rest by {
        assert(consumed(l, l) + rest =~= rest);
    }
}

proof fn lemma_args_error(
    reg: FunctionContainer,
    frames: Frames,
    out: Seq<char>,
    tape: Tape,
    args: Seq<Expr>,
    i: int,
    fuel: nat,
)
    requires
        0 <= i <= args.len(),
        eval_args(reg, frames, out, tape, args.take(i), fuel).0 is Err,
    ensures
        eval_args(reg, frames, out, tape, args, fuel) == eval_args(
            reg,
            frames,
            out,
            tape,
            args.take(i),
            fuel,
        ),
    decreases args.len(),
{
    if i < args.len() {
        assert(args.drop_last().take(i) =~= args.take(i));
        lemma_args_error(reg, frames, out, tape, args.drop_last(), i, fuel);
    } else {
        assert(args.take(i) =~= args);
    }
}

proof fn lemma_block_error(
    reg: FunctionContainer,
    frames: Frames,
    out: Seq<char>,
    tape: Tape,
    ss: Seq<Statement>,
    i: int,
    fuel: nat,
)
    requires
        0 <= i <= ss.len(),
        exec_block(reg, frames, out, tape, ss.take(i), fuel).0 is Err,
    ensures
        exec_block(reg, frames, out, tape, ss, fuel) == exec_block(
            reg,
            frames,
            out,
            tape,
            ss.take(i),
            fuel,
        ),
    decreases ss.len(),
{
    if i < ss.len() {
        assert(ss.drop_last().take(i) =~= ss.take(i));
        lemma_block_error(reg, frames, out, tape, ss.drop_last(), i, fuel);
    } else {
        assert(ss.take(i) =~= ss);
    }
}

/// Evaluates an expression. Prints of nested calls go to `out`, debug
/// listings of user-defined bodies to `diag`; floating-point arithmetic is
/// asked of `fl`, and each answer is appended to `log`.
pub fn eval_expression<F: FloatArith>(
    funcs: &FunctionContainer,
    vars: &mut VariableContainer,
    out: &mut String,
    diag: &mut String,
    e: &Expr,
    fuel: usize,
    fl: &F,
    log: &mut Ghost<Tape>,
) -> (r: Result<VariableContent, ErrorKind>)
    requires
        old(vars).wf(),
    ensures
        final(vars).wf(),
        final(vars).depth() == old(vars).depth(),
        extends(old(log)@, final(log)@),
        forall|rest: Tape|
            expr_done(
                #[trigger] eval_expr(
                    *funcs,
                    old(vars).frames(),
                    old(out)@,
                    consumed(old(log)@, final(log)@) + rest,
                    *e,
                    fuel as nat,
                ),
                r,
                final(vars).frames(),
                final(out)@,
                rest,
            ),
    decreases fuel, 1nat, e, 0nat,
{
    let ghost l0 = log@;
    let ghost f0 = vars.frames();
    let ghost o0 = out@;
    proof {
        lemma_consumed_none(log@);
    }
    if let Expr::Call(c) = e {
        let r = match_rule_func_call_decl(funcs, vars, out, diag, c, fuel, fl, log);
        proof {
            assert forall|rest: Tape|
                expr_done(
                    #[trigger] eval_expr(*funcs, f0, o0, consumed(l0, log@) + rest, *e, fuel as nat),
                    r,
                    vars.frames(),
                    out@,
                    rest,
                ) by {
                assert(expr_done(
                    eval_call(*funcs, f0, o0, consumed(l0, log@) + rest, *c, fuel as nat),
                    r,
                    vars.frames(),
                    out@,
                    rest,
                ));
            }
        }
        return r;
    }
    let r = match e {
        Expr::IntLit(t) => Ok(VariableContent { value: t.clone(), data_type: VariableTypes::INT }),
        Expr::FloatLit(t) => Ok(VariableContent { value: t.clone(), data_type: VariableTypes::FLOAT }),
        Expr::BoolLit(t) => Ok(VariableContent { value: t.clone(), data_type: VariableTypes::BOOL }),
        Expr::StrLit(t) => Ok(
            VariableContent { value: make_string(t.as_str()), data_type: VariableTypes::STRING },
        ),
        Expr::Var(n) => vars.get_variable(n.as_str()),
        Expr::Call(_) => Err(ErrorKind::NameError),
    };
    proof {
        assert forall|rest: Tape|
            expr_done(
                #[trigger] eval_expr(*funcs, f0, o0, consumed(l0, log@) + rest, *e, fuel as nat),
                r,
                vars.frames(),
                out@,
                rest,
            ) by {
            assert(consumed(l0, l0) + rest == rest);
        }
    }
    r
}

/// Evaluates a call: its arguments left to right, then the native function
/// of that name, or else the user-defined one, in a fresh frame.
pub fn match_rule_func_call_decl<F: FloatArith>(
    funcs: &FunctionContainer,
    vars: &mut VariableContainer,
    out: &mut String,
    diag: &mut String,
    c: &FuncCall,
    fuel: usize,
    fl: &F,
    log: &mut Ghost<Tape>,
) -> (r: Result<VariableContent, ErrorKind>)
    requires
        old(vars).wf(),
    ensures
        final(vars).wf(),
        final(vars).depth() == old(vars).depth(),
        extends(old(log)@, final(log)@),
        forall|rest: Tape|
            expr_done(
                #[trigger] eval_call(
                    *funcs,
                    old(vars).frames(),
                    old(out)@,
                    consumed(old(log)@, final(log)@) + rest,
                    *c,
                    fuel as nat,
                ),
                r,
                final(vars).frames(),
                final(out)@,
                rest,
            ),
    decreases fuel, 1nat, c, 0nat,
{
    let ghost reg = *funcs;
    let ghost a = c.args@;
    let ghost l0 = log@;
    let ghost f0 = vars.frames();
    let ghost o0 = out@;
    let mut args: Vec<VariableContent> = Vec::new();
    let mut i: usize = 0;
    proof {
        lemma_consumed_none(log@);
        assert(a.take(0) =~= Seq::<Expr>::empty());
        assert(views(args@) =~= Seq::<ValueView>::empty());
    }
    while i < c.args.len()
        invariant
            i <= a.len(),
            a == c.args@,
            reg == *funcs,
            l0 == old(log)@,
            f0 == old(vars).frames(),
            o0 == old(out)@,
            vars.wf(),
            vars.depth() == old(vars).depth(),
            extends(l0, log@),
            forall|rest: Tape|
                #[trigger] eval_args(reg, f0, o0, consumed(l0, log@) + rest, a.take(i as int), fuel as nat)
                    == (Ok::<Seq<ValueView>, ErrorKind>(views(args@)), vars.frames(), out@, rest),
        decreases a.len() - i,
    {
        let ghost l1 = log@;
        let ghost f1 = vars.frames();
        let ghost o1 = out@;
        let ghost vs1 = views(args@);
        proof {
            assert(a.take(i + 1).drop_last() =~= a.take(i as int));
            assert(a.take(i + 1).last() == a[i as int]);
        }
        let arg = &c.args[i];
        let v = eval_expression(funcs, vars, out, diag, arg, fuel, fl, log);
        proof {
            lemma_consumed_split(l0, l1, log@);
        }
        match v {
            Ok(v) => {
                let ghost before = args@;
                args.push(v);
                proof {
                    assert(views(args@) =~= views(before).push(v@));
                    assert forall|rest: Tape|
                        #[trigger] eval_args(
                            reg,
                            f0,
                            o0,
                            consumed(l0, log@) + rest,
                            a.take(i + 1),
                            fuel as nat,
                        ) == (Ok::<Seq<ValueView>, ErrorKind>(views(args@)), vars.frames(), out@, rest) by {
                        let mid = consumed(l1, log@) + rest;
                        assert(consumed(l0, log@) + rest == consumed(l0, l1) + mid);
                        assert(eval_args(reg, f0, o0, consumed(l0, l1) + mid, a.take(i as int), fuel as nat)
                            == (Ok::<Seq<ValueView>, ErrorKind>(vs1), f1, o1, mid));
                        assert(expr_done(eval_expr(reg, f1, o1, mid, *arg, fuel as nat), Ok(v), vars.frames(), out@, rest));
                    }
                }
            },
            Err(e) => {
                proof {
                    assert forall|rest: Tape|
                        expr_done(
                            #[trigger] eval_call(
                                *funcs,
                                f0,
                                o0,
                                consumed(l0, log@) + rest,
                                *c,
                                fuel as nat,
                            ),
                            Err(e),
                            vars.frames(),
                            out@,
                            rest,
                        ) by {
                        let mid = consumed(l1, log@) + rest;
                        assert(consumed(l0, log@) + rest == consumed(l0, l1) + mid);
                        assert(eval_args(reg, f0, o0, consumed(l0, l1) + mid, a.take(i as int), fuel as nat)
                            == (Ok::<Seq<ValueView>, ErrorKind>(vs1), f1, o1, mid));
                        assert(expr_done(eval_expr(reg, f1, o1, mid, *arg, fuel as nat), Err(e), vars.frames(), out@, rest));
                        lemma_args_error(reg, f0, o0, consumed(l0, log@) + rest, a, i + 1, fuel as nat);
                    }
                }
                return Err(e);
            },
        }
        i = i + 1;
    }
    let ghost l1 = log@;
    let ghost f1 = vars.frames();
    let ghost o1 = out@;
    let ghost vs = views(args@);
    proof {
        assert(a.take(a.len() as int) =~= a);
    }
    let r = funcs.call_function(&c.name, args, vars, out, diag, fuel, fl, log);
    proof {
        lemma_consumed_split(l0, l1, log@);
        assert forall|rest: Tape|
            expr_done(
                #[trigger] eval_call(*funcs, f0, o0, consumed(l0, log@) + rest, *c, fuel as nat),
                r,
                vars.frames(),
                out@,
                rest,
            ) by {
            let mid = consumed(l1, log@) + rest;
            assert(consumed(l0, log@) + rest == consumed(l0, l1) + mid);
            assert(eval_args(reg, f0, o0, consumed(l0, l1) + mid, a, fuel as nat)
                == (Ok::<Seq<ValueView>, ErrorKind>(vs), f1, o1, mid));
            assert(expr_done(apply_function(reg, f1, o1, mid, c.name@, vs, fuel as nat), r, vars.frames(), out@, rest));
        }
    }
    r
}

impl FunctionContainer {
    /// Calls `func_name` on evaluated arguments: the native function of
    /// that name, else the user-defined one, run in a fresh frame that is
    /// dropped afterwards; a user-defined call returns `Null`. A native
    /// call on the floating-point path asks `fl`, and its answer is
    /// appended to `log`.
    pub fn call_function<F: FloatArith>(
        &self,
        func_name: &String,
        args: Vec<VariableContent>,
        vars: &mut VariableContainer,
        out: &mut String,
        diag: &mut String,
        fuel: usize,
        fl: &F,
        log: &mut Ghost<Tape>,
    ) -> (r: Result<VariableContent, ErrorKind>)
        requires
            old(vars).wf(),
        ensures
            final(vars).wf(),
            final(vars).depth() == old(vars).depth(),
            extends(old(log)@, final(log)@),
            forall|rest: Tape|
                expr_done(
                    #[trigger] apply_function(
                        *self,
                        old(vars).frames(),
                        old(out)@,
                        consumed(old(log)@, final(log)@) + rest,
                        func_name@,
                        views(args@),
                        fuel as nat,
                    ),
                    r,
                    final(vars).frames(),
                    final(out)@,
                    rest,
                ),
        decreases fuel, 0nat, args, 0nat,
    {
        let ghost l0 = log@;
        let ghost vs = views(args@);
        proof {
            lemma_consumed_none(log@);
        }
        match native_named(func_name) {
            Some(b) => {
                let float_path = (b == Builtin::Add || b == Builtin::Sub) && needs_float(&args);
                if float_path {
                    let answer = fl.float_fold(&arg_texts(&args), b == Builtin::Sub);
                    *log = Ghost(log@.push(text_of(answer)));
                    let r = call_native(b, args, out, answer);
                    proof {
                        assert(log@.take(l0.len() as int) =~= l0);
                        assert forall|rest: Tape|
                            expr_done(
                                #[trigger] apply_function(
                                    *self,
                                    vars.frames(),
                                    old(out)@,
                                    consumed(l0, log@) + rest,
                                    func_name@,
                                    vs,
                                    fuel as nat,
                                ),
                                r,
                                vars.frames(),
                                out@,
                                rest,
                            ) by {
                            let t = consumed(l0, log@) + rest;
                            assert(t =~= seq![text_of(answer)] + rest);
                            assert(t[0] == text_of(answer));
                            assert(t.drop_first() =~= rest);
                            assert(native_output(b, vs) =~= Seq::<char>::empty());
                            assert(out@ =~= old(out)@);
                        }
                    }
                    r
                } else {
                    let r = call_native(b, args, out, None);
                    proof {
                        assert forall|rest: Tape|
                            expr_done(
                                #[trigger] apply_function(
                                    *self,
                                    vars.frames(),
                                    old(out)@,
                                    consumed(l0, log@) + rest,
                                    func_name@,
                                    vs,
                                    fuel as nat,
                                ),
                                r,
                                vars.frames(),
                                out@,
                                rest,
                            ) by {
                            assert(consumed(l0, l0) + rest == rest);
                        }
                    }
                    r
                }
            },
            None => match self.find_own(func_name) {
                None => {
                    proof {
                        assert forall|rest: Tape|
                            #![trigger apply_function(*self, vars.frames(), out@, consumed(l0, log@) + rest, func_name@, vs, fuel as nat)]
                            expr_done(
                                apply_function(*self, vars.frames(), out@, consumed(l0, log@) + rest, func_name@, vs, fuel as nat),
                                Err(ErrorKind::UnknownFunctionError),
                                vars.frames(),
                                out@,
                                rest,
                            ) by {
                            assert(consumed(l0, l0) + rest == rest);
                        }
                    }
                    Err(ErrorKind::UnknownFunctionError)
                },
                Some(body) => {
                    if fuel == 0 {
                        proof {
                            assert forall|rest: Tape|
                                #![trigger apply_function(*self, vars.frames(), out@, consumed(l0, log@) + rest, func_name@, vs, fuel as nat)]
                                expr_done(
                                    apply_function(*self, vars.frames(), out@, consumed(l0, log@) + rest, func_name@, vs, fuel as nat),
                                    Err(ErrorKind::CallDepthExceeded),
                                    vars.frames(),
                                    out@,
                                    rest,
                                ) by {
                                assert(consumed(l0, l0) + rest == rest);
                            }
                        }
                        return Err(ErrorKind::CallDepthExceeded);
                    }
                    let ghost f0 = vars.frames();
                    let ghost o0 = out@;
                    vars.scope_in();
                    let rb = run_block(self, vars, out, diag, body, fuel - 1, fl, log);
                    let ghost f2 = vars.frames();
                    vars.scope_out();
                    let r = match rb {
                        Ok(()) => Ok(VariableContent::null()),
                        Err(e) => Err(e),
                    };
                    proof {
                        assert forall|rest: Tape|
                            #![trigger apply_function(*self, f0, o0, consumed(l0, log@) + rest, func_name@, vs, fuel as nat)]
                            expr_done(
                                apply_function(*self, f0, o0, consumed(l0, log@) + rest, func_name@, vs, fuel as nat),
                                r,
                                vars.frames(),
                                out@,
                                rest,
                            ) by {
                            assert(stmt_done(
                                exec_block(*self, f0.push(Map::empty()), o0, consumed(l0, log@) + rest, body@, (fuel - 1) as nat),
                                rb,
                                f2,
                                out@,
                                rest,
                            ));
                        }
                    }
                    r
                },
            },
        }
    }
}

/// Runs a statement sequence in the current scope, stopping at the first error.
pub fn run_block<F: FloatArith>(
    funcs: &FunctionContainer,
    vars: &mut VariableContainer,
    out: &mut String,
    diag: &mut String,
    ss: &Vec<Statement>,
    fuel: usize,
    fl: &F,
    log: &mut Ghost<Tape>,
) -> (r: Result<(), ErrorKind>)
    requires
        old(vars).wf(),
    ensures
        final(vars).wf(),
        final(vars).depth() == old(vars).depth(),
        extends(old(log)@, final(log)@),
        forall|rest: Tape|
            stmt_done(
                #[trigger] exec_block(
                    *funcs,
                    old(vars).frames(),
                    old(out)@,
                    consumed(old(log)@, final(log)@) + rest,
                    ss@,
                    fuel as nat,
                ),
                r,
                final(vars).frames(),
                final(out)@,
                rest,
            ),
    decreases fuel, 2nat, ss, 0nat,
{
    let ghost reg = *funcs;
    let ghost a = ss@;
    let ghost l0 = log@;
    let ghost f0 = vars.frames();
    let ghost o0 = out@;
    let mut i: usize = 0;
    proof {
        lemma_consumed_none(log@);
        assert(a.take(0) =~= Seq::<Statement>::empty());
    }
    while i < ss.len()
        invariant
            i <= a.len(),
            a == ss@,
            reg == *funcs,
            l0 == old(log)@,
            f0 == old(vars).frames(),
            o0 == old(out)@,
            vars.wf(),
            vars.depth() == old(vars).depth(),
            extends(l0, log@),
            forall|rest: Tape|
                stmt_done(
                    #[trigger] exec_block(reg, f0, o0, consumed(l0, log@) + rest, a.take(i as int), fuel as nat),
                    Ok(()),
                    vars.frames(),
                    out@,
                    rest,
                ),
        decreases a.len() - i,
    {
        let ghost l1 = log@;
        let ghost f1 = vars.frames();
        let ghost o1 = out@;
        proof {
            assert(a.take(i + 1).drop_last() =~= a.take(i as int));
            assert(a.take(i + 1).last() == a[i as int]);
        }
        let st = &ss[i];
        let r = run_statement(funcs, vars, out, diag, st, fuel, fl, log);
        proof {
            lemma_consumed_split(l0, l1, log@);
        }
        match r {
            Ok(()) => {
                proof {
                    assert forall|rest: Tape|
                        stmt_done(
                            #[trigger] exec_block(
                                reg,
                                f0,
                                o0,
                                consumed(l0, log@) + rest,
                                a.take(i + 1),
                                fuel as nat,
                            ),
                            Ok(()),
                            vars.frames(),
                            out@,
                            rest,
                        ) by {
                        let mid = consumed(l1, log@) + rest;
                        assert(consumed(l0, log@) + rest == consumed(l0, l1) + mid);
                        assert(stmt_done(exec_block(reg, f0, o0, consumed(l0, l1) + mid, a.take(i as int), fuel as nat),
                            Ok(()), f1, o1, mid));
                        let m = exec_stmt(reg, f1, o1, mid, *st, fuel as nat);
                        assert(stmt_done(m, r, vars.frames(), out@, rest));
                    }
                }
            },
            Err(e) => {
                proof {
                    assert forall|rest: Tape|
                        stmt_done(
                            #[trigger] exec_block(
                                *funcs,
                                f0,
                                o0,
                                consumed(l0, log@) + rest,
                                ss@,
                                fuel as nat,
                            ),
                            Err(e),
                            vars.frames(),
                            out@,
                            rest,
                        ) by {
                        let mid = consumed(l1, log@) + rest;
                        assert(consumed(l0, log@) + rest == consumed(l0, l1) + mid);
                        assert(stmt_done(exec_block(reg, f0, o0, consumed(l0, l1) + mid, a.take(i as int), fuel as nat),
                            Ok(()), f1, o1, mid));
                        assert(stmt_done(exec_stmt(reg, f1, o1, mid, *st, fuel as nat), Err(e), vars.frames(), out@, rest));
                        lemma_block_error(reg, f0, o0, consumed(l0, log@) + rest, a, i + 1, fuel as nat);
                    }
                }
                return Err(e);
            },
        }
        i = i + 1;
    }
    proof {
        assert(a.take(a.len() as int) =~= a);
    }
    Ok(())
}

/// Runs one statement. A debug directive appends the listing of the
/// innermost scope to `diag`.
pub fn run_statement<F: FloatArith>(
    funcs: &FunctionContainer,
    vars: &mut VariableContainer,
    out: &mut String,
    diag: &mut String,
    s: &Statement,
    fuel: usize,
    fl: &F,
    log: &mut Ghost<Tape>,
) -> (r: Result<(), ErrorKind>)
    requires
        old(vars).wf(),
    ensures
        final(vars).wf(),
        final(vars).depth() == old(vars).depth(),
        extends(old(log)@, final(log)@),
        forall|rest: Tape|
            stmt_done(
                #[trigger] exec_stmt(
                    *funcs,
                    old(vars).frames(),
                    old(out)@,
                    consumed(old(log)@, final(log)@) + rest,
                    *s,
                    fuel as nat,
                ),
                r,
                final(vars).frames(),
                final(out)@,
                rest,
            ),
        (*s matches Statement::DebugVars) ==> final(diag)@ == old(diag)@ + dump_frame(old(vars).innermost()),
    decreases fuel, 2nat, s, 0nat,
{
    let ghost l0 = log@;
    let ghost f0 = vars.frames();
    let ghost o0 = out@;
    proof {
        lemma_consumed_none(log@);
    }
    if let Statement::Call(c) = s {
        let ev = match_rule_func_call_decl(funcs, vars, out, diag, c, fuel, fl, log);
        let r = match ev {
            Ok(_) => Ok(()),
            Err(er) => Err(er),
        };
        proof {
            assert forall|rest: Tape|
                stmt_done(
                    #[trigger] exec_stmt(*funcs, f0, o0, consumed(l0, log@) + rest, *s, fuel as nat),
                    r,
                    vars.frames(),
                    out@,
                    rest,
                ) by {
                assert(expr_done(eval_call(*funcs, f0, o0, consumed(l0, log@) + rest, *c, fuel as nat), ev, vars.frames(), out@, rest));
            }
        }
        return r;
    }
    if let Statement::DeclareEmpty(n) = s {
        match_rule_empty_var(vars, n);
        proof {
            assert forall|rest: Tape|
                stmt_done(
                    #[trigger] exec_stmt(*funcs, f0, o0, consumed(l0, log@) + rest, *s, fuel as nat),
                    Ok(()),
                    vars.frames(),
                    out@,
                    rest,
                ) by {
                assert(consumed(l0, l0) + rest == rest);
            }
        }
        return Ok(());
    }
    if let Statement::DebugVars = s {
        let text = vars.debug_print_vars();
        diag.append(text.as_str());
        proof {
            assert forall|rest: Tape|
                stmt_done(
                    #[trigger] exec_stmt(*funcs, f0, o0, consumed(l0, log@) + rest, *s, fuel as nat),
                    Ok(()),
                    vars.frames(),
                    out@,
                    rest,
                ) by {
                assert(consumed(l0, l0) + rest == rest);
            }
        }
        return Ok(());
    }
    match s {
        Statement::Declare(n, e) => match_rule_vardecl(funcs, vars, out, diag, n, e, fuel, fl, log),
        Statement::Reassign(n, e) => match_rule_reassign_variable(funcs, vars, out, diag, n, e, fuel, fl, log),
        Statement::If(g, body) => match_rule_if(funcs, vars, out, diag, g, body, fuel, fl, log),
        _ => Ok(()),
    }
}

/// A declaration with a value: evaluates `e`, then binds `var_name` in the
/// innermost scope.
pub fn match_rule_vardecl<F: FloatArith>(
    funcs: &FunctionContainer,
    vars: &mut VariableContainer,
    out: &mut String,
    diag: &mut String,
    var_name: &String,
    e: &Expr,
    fuel: usize,
    fl: &F,
    log: &mut Ghost<Tape>,
) -> (r: Result<(), ErrorKind>)
    requires
        old(vars).wf(),
    ensures
        final(vars).wf(),
        final(vars).depth() == old(vars).depth(),
        extends(old(log)@, final(log)@),
        forall|rest: Tape|
            stmt_done(
                #[trigger] exec_stmt(
                    *funcs,
                    old(vars).frames(),
                    old(out)@,
                    consumed(old(log)@, final(log)@) + rest,
                    Statement::Declare(*var_name, *e),
                    fuel as nat,
                ),
                r,
                final(vars).frames(),
                final(out)@,
                rest,
            ),
    decreases fuel, 1nat, e, 1nat,
{
    let ghost l0 = log@;
    let ghost f0 = vars.frames();
    let ghost o0 = out@;
    let ev = eval_expression(funcs, vars, out, diag, e, fuel, fl, log);
    let ghost f1 = vars.frames();
    let ghost ev_ghost = ev;
    let r = match ev {
        Ok(v) => {
            vars.add_variable(var_name.as_str(), v);
            Ok(())
        },
        Err(er) => Err(er),
    };
    proof {
        assert forall|rest: Tape|
            stmt_done(
                #[trigger] exec_stmt(
                    *funcs,
                    f0,
                    o0,
                    consumed(l0, log@) + rest,
                    Statement::Declare(*var_name, *e),
                    fuel as nat,
                ),
                r,
                vars.frames(),
                out@,
                rest,
            ) by {
            assert(expr_done(eval_expr(*funcs, f0, o0, consumed(l0, log@) + rest, *e, fuel as nat), ev_ghost, f1, out@, rest));
        }
    }
    r
}

/// An assignment: evaluates `e`, then overwrites `var_name` in the innermost
/// scope that declares it; a name that no scope declares is a `NameError`.
pub fn match_rule_reassign_variable<F: FloatArith>(
    funcs: &FunctionContainer,
    vars: &mut VariableContainer,
    out: &mut String,
    diag: &mut String,
    var_name: &String,
    e: &Expr,
    fuel: usize,
    fl: &F,
    log: &mut Ghost<Tape>,
) -> (r: Result<(), ErrorKind>)
    requires
        old(vars).wf(),
    ensures
        final(vars).wf(),
        final(vars).depth() == old(vars).depth(),
        extends(old(log)@, final(log)@),
        forall|rest: Tape|
            stmt_done(
                #[trigger] exec_stmt(
                    *funcs,
                    old(vars).frames(),
                    old(out)@,
                    consumed(old(log)@, final(log)@) + rest,
                    Statement::Reassign(*var_name, *e),
                    fuel as nat,
                ),
                r,
                final(vars).frames(),
                final(out)@,
                rest,
            ),
    decreases fuel, 1nat, e, 1nat,
{
    let ghost l0 = log@;
    let ghost f0 = vars.frames();
    let ghost o0 = out@;
    let ev = eval_expression(funcs, vars, out, diag, e, fuel, fl, log);
    let ghost f1 = vars.frames();
    let ghost ev_ghost = ev;
    let r = match ev {
        Ok(v) => {
            proof {
                lemma_assign_len(vars.frames(), var_name@, v@);
            }
            vars.set_variable(var_name.as_str(), v)
        },
        Err(er) => Err(er),
    };
    proof {
        assert forall|rest: Tape|
            stmt_done(
                #[trigger] exec_stmt(
                    *funcs,
                    f0,
                    o0,
                    consumed(l0, log@) + rest,
                    Statement::Reassign(*var_name, *e),
                    fuel as nat,
                ),
                r,
                vars.frames(),
                out@,
                rest,
            ) by {
            assert(expr_done(eval_expr(*funcs, f0, o0, consumed(l0, log@) + rest, *e, fuel as nat), ev_ghost, f1, out@, rest));
        }
    }
    r
}

/// A declaration without a value: binds `var_name` to `Null`.
pub fn match_rule_empty_var(vars: &mut VariableContainer, var_name: &String)
    requires
        old(vars).wf(),
    ensures
        final(vars).wf(),
        final(vars).frames() == declare_in(old(vars).frames(), var_name@, null_value()),
{
    vars.add_variable(var_name.as_str(), VariableContent::null());
}

/// A conditional: the guard must be a `Bool`; where it is `true` the body
/// runs in a frame of its own, which is dropped afterwards whatever the
/// outcome.
pub fn match_rule_if<F: FloatArith>(
    funcs: &FunctionContainer,
    vars: &mut VariableContainer,
    out: &mut String,
    diag: &mut String,
    g: &Expr,
    body: &Vec<Statement>,
    fuel: usize,
    fl: &F,
    log: &mut Ghost<Tape>,
) -> (r: Result<(), ErrorKind>)
    requires
        old(vars).wf(),
    ensures
        final(vars).wf(),
        final(vars).depth() == old(vars).depth(),
        extends(old(log)@, final(log)@),
        forall|rest: Tape|
            stmt_done(
                #[trigger] exec_stmt(
                    *funcs,
                    old(vars).frames(),
                    old(out)@,
                    consumed(old(log)@, final(log)@) + rest,
                    Statement::If(*g, *body),
                    fuel as nat,
                ),
                r,
                final(vars).frames(),
                final(out)@,
                rest,
            ),
    decreases fuel, 2nat, body, 1nat,
{
    let ghost l0 = log@;
    let ghost f0 = vars.frames();
    let ghost o0 = out@;
    let ev = eval_expression(funcs, vars, out, diag, g, fuel, fl, log);
    let ghost l1 = log@;
    let ghost f1 = vars.frames();
    let ghost o1 = out@;
    let ghost ev_g = ev;
    let mut run_body = false;
    let mut r: Result<(), ErrorKind> = Ok(());
    match ev {
        Err(er) => {
            r = Err(er);
        },
        Ok(v) => {
            if v.data_type != VariableTypes::BOOL {
                r = Err(ErrorKind::TypeError);
            } else if v.value == "true".to_string() {
                run_body = true;
            }
        },
    }
    if !run_body {
        proof {
            lemma_consumed_none(l1);
            assert forall|rest: Tape|
                stmt_done(
                    #[trigger] exec_stmt(
                        *funcs,
                        f0,
                        o0,
                        consumed(l0, log@) + rest,
                        Statement::If(*g, *body),
                        fuel as nat,
                    ),
                    r,
                    vars.frames(),
                    out@,
                    rest,
                ) by {
                assert(expr_done(eval_expr(*funcs, f0, o0, consumed(l0, l1) + rest, *g, fuel as nat), ev_g, f1, o1, rest));
            }
        }
        return r;
    }
    vars.scope_in();
    let r = run_block(funcs, vars, out, diag, body, fuel, fl, log);
    let ghost f2 = vars.frames();
    vars.scope_out();
    proof {
        lemma_consumed_split(l0, l1, log@);
        assert forall|rest: Tape|
            stmt_done(
                #[trigger] exec_stmt(
                    *funcs,
                    f0,
                    o0,
                    consumed(l0, log@) + rest,
                    Statement::If(*g, *body),
                    fuel as nat,
                ),
                r,
                vars.frames(),
                out@,
                rest,
            ) by {
            let mid = consumed(l1, log@) + rest;
            assert(consumed(l0, log@) + rest == consumed(l0, l1) + mid);
            assert(expr_done(eval_expr(*funcs, f0, o0, consumed(l0, l1) + mid, *g, fuel as nat), ev_g, f1, o1, mid));
            assert(stmt_done(exec_block(*funcs, f1.push(Map::empty()), o1, mid, body@, fuel as nat), r, f2, out@, rest));
        }
    }
    r
}

/// The evaluator's state for one program run: the scope stack and the
/// function registry.
pub struct CodeExecutor {
    pub var_container: VariableContainer,
    pub function_container: FunctionContainer,
}

impl CodeExecutor {
    pub open spec fn wf(&self) -> bool {
        self.var_container.wf()
    }

    /// A fresh state: an empty root scope and no user-defined function.
    pub fn new() -> (r: CodeExecutor)
        ensures
            r.wf(),
            r.var_container.frames() == seq![Map::<Seq<char>, ValueView>::empty()],
            forall|n: Seq<char>| r.function_container.user_function(n) is None,
    {
        CodeExecutor { function_container: FunctionContainer::new(), var_container: VariableContainer::new() }
    }

    /// Runs a statement sequence in the current scope. Printed lines go to
    /// `out`, debug listings to `diag`, floating-point arithmetic to `fl`.
    /// The first error stops the run; what was printed before it stays in
    /// `out`. The outcome is the one the language defines, given the answers
    /// that `fl` gave.
    pub fn execute_code<F: FloatArith>(
        &mut self,
        lines: &Vec<Statement>,
        out: &mut String,
        diag: &mut String,
        fl: &F,
    ) -> (r: Result<(), ErrorKind>)
        requires
            old(self).wf(),
        ensures
            final(self).wf(),
            final(self).var_container.depth() == old(self).var_container.depth(),
            final(self).function_container == old(self).function_container,
            exists|answers: Tape|
                stmt_done(
                    #[trigger] exec_block(
                        old(self).function_container,
                        old(self).var_container.frames(),
                        old(out)@,
                        answers,
                        lines@,
                        MAX_CALL_DEPTH as nat,
                    ),
                    r,
                    final(self).var_container.frames(),
                    final(out)@,
                    Seq::empty(),
                ),
    {
        let mut log: Ghost<Tape> = Ghost(Seq::empty());
        let r = run_block(
            &self.function_container,
            &mut self.var_container,
            out,
            diag,
            lines,
            MAX_CALL_DEPTH,
            fl,
            &mut log,
        );
        proof {
            let used = consumed(Seq::empty(), log@);
            assert(used + Seq::<Option<Seq<char>>>::empty() =~= used);
            assert(stmt_done(
                exec_block(
                    self.function_container,
                    old(self).var_container.frames(),
                    old(out)@,
                    used + Seq::<Option<Seq<char>>>::empty(),
                    lines@,
                    MAX_CALL_DEPTH as nat,
                ),
                r,
                self.var_container.frames(),
                out@,
                Seq::empty(),
            ));
        }
        r
    }
}

/// A conditional whose guard evaluates to a `Bool` other than `true` runs
/// none of its body: the stack, its depth included, the output and the
/// float answers are as the guard's evaluation left them.
pub proof fn lemma_false_guard_skips(
    reg: FunctionContainer,
    frames: Frames,
    out: Seq<char>,
    tape: Tape,
    g: Expr,
    body: Vec<Statement>,
    fuel: nat,
)
    requires
        eval_expr(reg, frames, out, tape, g, fuel).0 matches Ok(v) && v.0 == VariableTypes::BOOL
            && v.1 != "true"@,
    ensures
        ({
            let m = eval_expr(reg, frames, out, tape, g, fuel);
            exec_stmt(reg, frames, out, tape, Statement::If(g, body), fuel) == (
                Ok::<(), ErrorKind>(()),
                m.1,
                m.2,
                m.3,
            )
        }),
{
}

/// The literal `false` as a guard: the stack, its depth included, and the
/// output are unchanged.
pub proof fn lemma_false_literal_skips(
    reg: FunctionContainer,
    frames: Frames,
    out: Seq<char>,
    tape: Tape,
    guard: String,
    body: Vec<Statement>,
    fuel: nat,
)
    requires
        guard@ == "false"@,
    ensures
        exec_stmt(reg, frames, out, tape, Statement::If(Expr::BoolLit(guard), body), fuel) == (
            Ok::<(), ErrorKind>(()),
            frames,
            out,
            tape,
        ),
{
    reveal_strlit("false");
    reveal_strlit("true");
    assert(guard@.len() != "true"@.len());
}

/// Assigning a name that no scope declares fails with `NameError` once the
/// right-hand side has been evaluated without error, and changes no binding:
/// the stack is as that evaluation left it.
pub proof fn lemma_assign_undeclared(
    reg: FunctionContainer,
    frames: Frames,
    out: Seq<char>,
    tape: Tape,
    name: String,
    e: Expr,
    fuel: nat,
)
    requires
        eval_expr(reg, frames, out, tape, e, fuel).0 is Ok,
        lookup_in(eval_expr(reg, frames, out, tape, e, fuel).1, name@) is None,
    ensures
        ({
            let m = eval_expr(reg, frames, out, tape, e, fuel);
            exec_stmt(reg, frames, out, tape, Statement::Reassign(name, e), fuel) == (
                Err::<(), ErrorKind>(ErrorKind::NameError),
                m.1,
                m.2,
                m.3,
            )
        }),
{
}

} // verus!
