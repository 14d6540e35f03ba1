use vstd::prelude::*;

use crate::number::{
    canonical_string, canonical_text, decimal_views, digits_value, fold_checked, fold_fits,
    fold_numbers, number_digits, number_value, parse_number, valid_number, Decimal,
};
use crate::value::{ErrorKind, ValueView, VariableContent, VariableTypes};

verus! {

pub open spec fn is_numeric_kind(k: VariableTypes) -> bool {
    k == VariableTypes::INT || k == VariableTypes::FLOAT
}

/// What one numeric argument reads as: its exact value, or why it cannot be read.
pub open spec fn read_number(v: ValueView) -> Result<(int, nat), ErrorKind> {
    if !valid_number(v.1, v.0 == VariableTypes::FLOAT) {
        Err(ErrorKind::MalformedNumber)
    } else if digits_value(number_digits(v.1)) > i128::MAX {
        Err(ErrorKind::Overflow)
    } else {
        Ok(number_value(v.1))
    }
}

/// Reads the `Int` arguments left to right; the first that cannot be read
/// decides the error. `Float` arguments are not read here: floating-point
/// arithmetic is left to a `FloatArith`.
pub open spec fn read_ints(args: Seq<ValueView>) -> Result<Seq<(int, nat)>, ErrorKind>
    decreases args.len(),
{
    if args.len() == 0 {
        Ok(Seq::empty())
    } else {
        match read_ints(args.drop_last()) {
            Err(e) => Err(e),
            Ok(nums) => if args.last().0 == VariableTypes::INT {
                match read_number(args.last()) {
                    Err(e) => Err(e),
                    Ok(n) => Ok(nums.push(n)),
                }
            } else {
                Ok(nums)
            },
        }
    }
}

pub open spec fn has_float(args: Seq<ValueView>) -> bool {
    exists|i: int| 0 <= i < args.len() && (#[trigger] args[i].0) == VariableTypes::FLOAT
}

/// The checks that come before any arithmetic: at least two arguments, all
/// numeric, every `Int` readable.
pub open spec fn arith_checks(args: Seq<ValueView>) -> Result<Seq<(int, nat)>, ErrorKind> {
    if args.len() < 2 {
        Err(ErrorKind::ArityError)
    } else if exists|i: int| 0 <= i < args.len() && !is_numeric_kind(#[trigger] args[i].0) {
        Err(ErrorKind::TypeError)
    } else {
        read_ints(args)
    }
}

/// The checks pass and some argument is a `Float`: the computation is then
/// done in floating point, by a `FloatArith`.
pub open spec fn uses_float(args: Seq<ValueView>) -> bool {
    arith_checks(args) is Ok && has_float(args)
}

/// The result of `add` (or, where `subtract`, of `sub`) on `args`. Where
/// every argument is an `Int`: the exact running sum (difference) left to
/// right, first argument as the seed, as an `Int`. Where the floating-point
/// path is taken: a `Float` with the text `answer` that the `FloatArith`
/// gave, or `MalformedNumber` where it read no number.
pub open spec fn arith_result(args: Seq<ValueView>, subtract: bool, answer: Option<Seq<char>>) -> Result<
    ValueView,
    ErrorKind,
> {
    match arith_checks(args) {
        Err(e) => Err(e),
        Ok(nums) => if has_float(args) {
            match answer {
                Some(t) => Ok((VariableTypes::FLOAT, t)),
                None => Err(ErrorKind::MalformedNumber),
            }
        } else if !fold_fits(nums, subtract) {
            Err(ErrorKind::Overflow)
        } else {
            let r = fold_numbers(nums, subtract);
            Ok((VariableTypes::INT, canonical_text(r.0, r.1)))
        },
    }
}

/// An evaluation result agrees with its meaning.
pub open spec fn agrees(r: Result<VariableContent, ErrorKind>, m: Result<ValueView, ErrorKind>) -> bool {
    match m {
        Ok(v) => (r matches Ok(c) && c@ == v),
        Err(e) => r == Err::<VariableContent, ErrorKind>(e),
    }
}

pub open spec fn text_of(a: Option<String>) -> Option<Seq<char>> {
    match a {
        Some(t) => Some(t@),
        None => None,
    }
}

/// Floating-point arithmetic, which this library leaves to its user.
pub trait FloatArith {
    /// The text of `t0 + t1 + ...` (or `t0 - t1 - ...` where `subtract`),
    /// each text read as a 64-bit float and the operations done left to
    /// right in floating point; `None` where a text reads as no float.
    fn float_fold(&self, texts: &Vec<String>, subtract: bool) -> Option<String>;
}

pub open spec fn views(args: Seq<VariableContent>) -> Seq<ValueView> {
    args.map_values(|a: VariableContent| a@)
}

fn arith_check(args: &Vec<VariableContent>) -> (r: Result<(Vec<Decimal>, bool), ErrorKind>)
    ensures
        match arith_checks(views(args@)) {
            Ok(nums) => (r matches Ok(p) && decimal_views(p.0@) == nums && p.1 == !has_float(views(args@))),
            Err(e) => r == Err::<(Vec<Decimal>, bool), ErrorKind>(e),
        },
{
    let ghost a = views(args@);
    if args.len() < 2 {
        return Err(ErrorKind::ArityError);
    }
    let mut all_int = true;
    let mut i: usize = 0;
    while i < args.len()
        invariant
            i <= args@.len(),
            a == views(args@),
            a.len() == args@.len(),
            args@.len() >= 2,
            forall|j: int| 0 <= j < i ==> is_numeric_kind(#[trigger] a[j].0),
            all_int == forall|j: int| 0 <= j < i ==> (#[trigger] a[j].0) == VariableTypes::INT,
        decreases args@.len() - i,
    {
        let k = args[i].data_type;
        assert(a[i as int] == args@[i as int]@);
        assert(a[i as int].0 == k);
        if k != VariableTypes::INT && k != VariableTypes::FLOAT {
            assert(!is_numeric_kind(a[i as int].0));
            return Err(ErrorKind::TypeError);
        }
        if k != VariableTypes::INT {
            all_int = false;
        }
        i = i + 1;
    }
    let mut nums: Vec<Decimal> = Vec::new();
    let mut i: usize = 0;
    assert(a.take(0) =~= Seq::<ValueView>::empty());
    assert(decimal_views(nums@) =~= Seq::<(int, nat)>::empty());
    while i < args.len()
        invariant
            i <= args@.len(),
            a == views(args@),
            a.len() == args@.len(),
            args@.len() >= 2,
            read_ints(a.take(i as int)) == Ok::<Seq<(int, nat)>, ErrorKind>(decimal_views(nums@)),
            forall|j: int| 0 <= j < a.len() ==> is_numeric_kind(#[trigger] a[j].0),
            all_int == forall|j: int| 0 <= j < a.len() ==> (#[trigger] a[j].0) == VariableTypes::INT,
        decreases args@.len() - i,
    {
        assert(a.take(i + 1).drop_last() =~= a.take(i as int));
        assert(a.take(i + 1).last() == a[i as int]);
        assert(a[i as int] == args@[i as int]@);
        if args[i].data_type == VariableTypes::INT {
            let d = parse_number(args[i].value.as_str(), false);
            match d {
                Ok(d) => {
                    let ghost before = nums@;
                    nums.push(d);
                    assert(decimal_views(nums@) =~= decimal_views(before).push(d@));
                },
                Err(e) => {
                    proof {
                        lemma_read_prefix_error(a, i as int + 1);
                    }
                    return Err(e);
                },
            }
        }
        i = i + 1;
    }
    assert(a.take(args@.len() as int) =~= a);
    Ok((nums, all_int))
}

proof fn lemma_read_prefix_error(a: Seq<ValueView>, i: int)
    requires
        0 <= i <= a.len(),
        read_ints(a.take(i)) is Err,
    ensures
        read_ints(a) == read_ints(a.take(i)),
    decreases a.len(),
{
    if i < a.len() {
        assert(a.drop_last().take(i) =~= a.take(i));
        lemma_read_prefix_error(a.drop_last(), i);
    } else {
        assert(a.take(i) =~= a);
    }
}

/// Whether `add` or `sub` on `args` takes the floating-point path.
pub fn needs_float(args: &Vec<VariableContent>) -> (r: bool)
    ensures
        r == uses_float(views(args@)),
{
    match arith_check(args) {
        Ok((_, all_int)) => !all_int,
        Err(_) => false,
    }
}

/// `add` (or, where `subtract`, `sub`) given what the `FloatArith` answered;
/// `answer` is read only on the floating-point path.
pub fn arith_with(args: &Vec<VariableContent>, subtract: bool, answer: Option<String>) -> (r: Result<
    VariableContent,
    ErrorKind,
>)
    ensures
        agrees(r, arith_result(views(args@), subtract, text_of(answer))),
{
    match arith_check(args) {
        Err(e) => Err(e),
        Ok((nums, all_int)) => {
            if !all_int {
                match answer {
                    Some(t) => Ok(VariableContent { value: t, data_type: VariableTypes::FLOAT }),
                    None => Err(ErrorKind::MalformedNumber),
                }
            } else {
                match fold_checked(&nums, subtract) {
                    None => Err(ErrorKind::Overflow),
                    Some(r) => Ok(
                        VariableContent {
                            value: canonical_string(r.mantissa, r.scale),
                            data_type: VariableTypes::INT,
                        },
                    ),
                }
            }
        },
    }
}

/// The texts of the arguments, in order.
pub fn arg_texts(args: &Vec<VariableContent>) -> (r: Vec<String>)
    ensures
        r@.len() == args@.len(),
        forall|i: int| 0 <= i < r@.len() ==> (#[trigger] r@[i])@ == args@[i].value@,
{
    let mut r: Vec<String> = Vec::new();
    let mut i: usize = 0;
    while i < args.len()
        invariant
            i <= args@.len(),
            r@.len() == i,
            forall|j: int| 0 <= j < i ==> (#[trigger] r@[j])@ == args@[j].value@,
        decreases args@.len() - i,
    {
        r.push(args[i].value.clone());
        i = i + 1;
    }
    r
}

fn arith_float<F: FloatArith>(args: &Vec<VariableContent>, subtract: bool, fl: &F) -> (r: Result<
    VariableContent,
    ErrorKind,
>)
    ensures
        uses_float(views(args@)) ==> exists|a: Option<Seq<char>>|
            agrees(r, #[trigger] arith_result(views(args@), subtract, a)),
        !uses_float(views(args@)) ==> agrees(r, arith_result(views(args@), subtract, None)),
{
    if needs_float(args) {
        let answer = fl.float_fold(&arg_texts(args), subtract);
        let r = arith_with(args, subtract, answer);
        assert(agrees(r, arith_result(views(args@), subtract, text_of(answer))));
        r
    } else {
        arith_with(args, subtract, None)
    }
}

/// `add`: the sum of at least two numeric arguments, in floating point by
/// `fl` where one of them is a `Float`.
pub fn simple_add<F: FloatArith>(args: Vec<VariableContent>, fl: &F) -> (r: Result<VariableContent, ErrorKind>)
    ensures
        uses_float(views(args@)) ==> exists|a: Option<Seq<char>>|
            agrees(r, #[trigger] arith_result(views(args@), false, a)),
        !uses_float(views(args@)) ==> agrees(r, arith_result(views(args@), false, None)),
{
    arith_float(&args, false, fl)
}

/// `sub`: the first of at least two numeric arguments minus each of the
/// others, in floating point by `fl` where one of them is a `Float`.
pub fn simple_sub<F: FloatArith>(args: Vec<VariableContent>, fl: &F) -> (r: Result<VariableContent, ErrorKind>)
    ensures
        uses_float(views(args@)) ==> exists|a: Option<Seq<char>>|
            agrees(r, #[trigger] arith_result(views(args@), true, a)),
        !uses_float(views(args@)) ==> agrees(r, arith_result(views(args@), true, None)),
{
    arith_float(&args, true, fl)
}

} // verus!
