use vstd::prelude::*;

use crate::math_functions::{agrees, arith_result, arith_with, text_of, uses_float, views};
use crate::syntax::Statement;
use crate::value::{null_value, ErrorKind, ValueView, VariableContent, VariableTypes};

verus! {

/// The native functions.
#[derive(Debug, Clone, Copy, PartialEq, Eq, Structural)]
pub enum Builtin {
    Print,
    Eq,
    Add,
    Sub,
}

/// The native function that a name denotes, if any.
pub open spec fn native_of(name: Seq<char>) -> Option<Builtin> {
    if name == "print"@ {
        Some(Builtin::Print)
    } else if name == "eq"@ {
        Some(Builtin::Eq)
    } else if name == "add"@ {
        Some(Builtin::Add)
    } else if name == "sub"@ {
        Some(Builtin::Sub)
    } else {
        None
    }
}

pub open spec fn bool_text(b: bool) -> Seq<char> {
    if b {
        "true"@
    } else {
        "false"@
    }
}

/// The result of `eq`: whether every argument has the first one's kind and
/// text.
pub open spec fn eq_result(args: Seq<ValueView>) -> Result<ValueView, ErrorKind> {
    if args.len() < 2 {
        Err(ErrorKind::ArityError)
    } else {
        Ok(
            (
                VariableTypes::BOOL,
                bool_text(forall|i: int| 0 <= i < args.len() ==> #[trigger] args[i] == args[0]),
            ),
        )
    }
}

/// The texts of the arguments, concatenated in order with no separator.
pub open spec fn print_text(args: Seq<ValueView>) -> Seq<char>
    decreases args.len(),
{
    if args.len() == 0 {
        Seq::empty()
    } else {
        print_text(args.drop_last()) + args.last().1
    }
}

/// Whether the native function takes the floating-point path on `args`.
pub open spec fn native_uses_float(b: Builtin, args: Seq<ValueView>) -> bool {
    (b == Builtin::Add || b == Builtin::Sub) && uses_float(args)
}

/// What a native function returns; `answer` is what the `FloatArith` gave,
/// read only on the floating-point path.
pub open spec fn native_result(b: Builtin, args: Seq<ValueView>, answer: Option<Seq<char>>) -> Result<
    ValueView,
    ErrorKind,
> {
    match b {
        Builtin::Print => Ok(null_value()),
        Builtin::Eq => eq_result(args),
        Builtin::Add => arith_result(args, false, answer),
        Builtin::Sub => arith_result(args, true, answer),
    }
}

/// What a native function writes to the output: one line for `print`.
pub open spec fn native_output(b: Builtin, args: Seq<ValueView>) -> Seq<char> {
    match b {
        Builtin::Print => print_text(args).push('\n'),
        _ => Seq::empty(),
    }
}

/// `eq`: `true` where every argument equals the first in kind and text.
pub fn simple_eq(args: Vec<VariableContent>) -> (r: Result<VariableContent, ErrorKind>)
    ensures
        match eq_result(views(args@)) {
            Ok(v) => (r matches Ok(c) && c@ == v),
            Err(e) => r == Err::<VariableContent, ErrorKind>(e),
        },
{
    let ghost a = views(args@);
    if args.len() < 2 {
        return Err(ErrorKind::ArityError);
    }
    let mut i: usize = 1;
    while i < args.len()
        invariant
            1 <= i <= args@.len(),
            a == views(args@),
            a.len() == args@.len(),
            forall|j: int| 0 <= j < i ==> #[trigger] a[j] == a[0],
        decreases args@.len() - i,
    {
        assert(a[i as int] == args@[i as int]@ && a[0] == args@[0]@);
        if !args[i].same_as(&args[0]) {
            return Ok(VariableContent { value: "false".to_string(), data_type: VariableTypes::BOOL });
        }
        i = i + 1;
    }
    Ok(VariableContent { value: "true".to_string(), data_type: VariableTypes::BOOL })
}

/// `print`: appends the arguments' texts and a newline to `out`; returns `Null`.
pub fn simple_print(args: Vec<VariableContent>, out: &mut String) -> (r: VariableContent)
    ensures
        r@ == null_value(),
        final(out)@ == old(out)@ + print_text(views(args@)).push('\n'),
{
    let ghost a = views(args@);
    let mut i: usize = 0;
    while i < args.len()
        invariant
            i <= args@.len(),
            a == views(args@),
            a.len() == args@.len(),
            out@ == old(out)@ + print_text(a.take(i as int)),
        decreases args@.len() - i,
    {
        assert(a.take(i + 1).drop_last() =~= a.take(i as int));
        assert(a[i as int] == args@[i as int]@);
        out.append(args[i].value.as_str());
        assert(out@ =~= old(out)@ + print_text(a.take(i + 1)));
        i = i + 1;
    }
    assert(a.take(args@.len() as int) =~= a);
    out.push('\n');
    VariableContent::null()
}

/// Runs a native function on evaluated arguments, given what the
/// `FloatArith` answered where the floating-point path is taken.
pub fn call_native(b: Builtin, args: Vec<VariableContent>, out: &mut String, answer: Option<String>) -> (r:
    Result<VariableContent, ErrorKind>)
    ensures
        agrees(r, native_result(b, views(args@), text_of(answer))),
        final(out)@ == old(out)@ + native_output(b, views(args@)),
{
    match b {
        Builtin::Print => Ok(simple_print(args, out)),
        Builtin::Eq => {
            assert(old(out)@ + Seq::<char>::empty() =~= old(out)@);
            simple_eq(args)
        },
        Builtin::Add => {
            assert(old(out)@ + Seq::<char>::empty() =~= old(out)@);
            arith_with(&args, false, answer)
        },
        Builtin::Sub => {
            assert(old(out)@ + Seq::<char>::empty() =~= old(out)@);
            arith_with(&args, true, answer)
        },
    }
}

/// The native function that `name` denotes.
pub fn native_named(name: &String) -> (r: Option<Builtin>)
    ensures
        r == native_of(name@),
{
    if *name == "print".to_string() {
        Some(Builtin::Print)
    } else if *name == "eq".to_string() {
        Some(Builtin::Eq)
    } else if *name == "add".to_string() {
        Some(Builtin::Add)
    } else if *name == "sub".to_string() {
        Some(Builtin::Sub)
    } else {
        None
    }
}

} // verus!

verus! {

/// A user-defined function: a name and the statements of its body.
pub struct UserFunction {
    pub name: String,
    pub body: Vec<Statement>,
}

/// The body that the latest definition of `name` holds.
pub open spec fn find_user(fs: Seq<UserFunction>, name: Seq<char>) -> Option<Vec<Statement>>
    decreases fs.len(),
{
    if fs.len() == 0 {
        None
    } else if fs.last().name@ == name {
        Some(fs.last().body)
    } else {
        find_user(fs.drop_last(), name)
    }
}

/// The function registry: the native functions, which are fixed, and the
/// user-defined ones. A native name takes precedence over a user-defined
/// function of the same name.
pub struct FunctionContainer {
    own_functions: Vec<UserFunction>,
}

impl FunctionContainer {
    /// The body that `name` is defined with by the user, if any.
    pub closed spec fn user_function(&self, name: Seq<char>) -> Option<Vec<Statement>> {
        find_user(self.own_functions@, name)
    }

    /// A registry with the native functions and no user-defined one.
    pub fn new() -> (r: FunctionContainer)
        ensures
            forall|n: Seq<char>| r.user_function(n) is None,
    {
        FunctionContainer { own_functions: Vec::new() }
    }

    /// Whether the user has defined a function called `func_name`.
    pub fn is_own_function(&self, func_name: &str) -> (r: bool)
        ensures
            r == self.user_function(func_name@) is Some,
    {
        let key = func_name.to_string();
        self.find_own(&key).is_some()
    }

    /// The body of the latest user definition of `name`.
    pub fn find_own(&self, name: &String) -> (r: Option<&Vec<Statement>>)
        ensures
            match self.user_function(name@) {
                Some(b) => r == Some(&b),
                None => r is None,
            },
    {
        let mut i: usize = self.own_functions.len();
        assert(self.own_functions@.take(i as int) =~= self.own_functions@);
        while i > 0
            invariant
                i <= self.own_functions@.len(),
                find_user(self.own_functions@, name@) == find_user(
                    self.own_functions@.take(i as int),
                    name@,
                ),
            decreases i,
        {
            let ghost pre = self.own_functions@.take(i as int);
            assert(pre.drop_last() =~= self.own_functions@.take(i - 1));
            if self.own_functions[i - 1].name == *name {
                return Some(&self.own_functions[i - 1].body);
            }
            i = i - 1;
        }
        assert(self.own_functions@.take(0) =~= Seq::<UserFunction>::empty());
        None
    }

    /// Defines (or redefines: the latest definition wins) a user function.
    pub fn add_own_function(&mut self, func_name: &str, code: Vec<Statement>)
        ensures
            final(self).user_function(func_name@) == Some(code),
            forall|n: Seq<char>| n != func_name@ ==> final(self).user_function(n) == old(self).user_function(n),
    {
        let f = UserFunction { name: func_name.to_string(), body: code };
        self.own_functions.push(f);
        assert(self.own_functions@.drop_last() =~= old(self).own_functions@);
    }
}

} // verus!
