use vstd::prelude::*;
use crate::error::MathError;

verus! {

/// The functions that a call can name.
#[derive(Debug, Clone, Copy, PartialEq, Eq, Structural)]
pub enum MathFunction {
    /// `sqrt`: the square root.
    Sqrt,
    /// `ln`: the natural logarithm.
    Ln,
    /// `log`: the logarithm to base ten.
    Log,
    /// `exp`: e raised to the argument.
    Exp,
    /// `sin`, in radians.
    Sin,
    /// `cos`, in radians.
    Cos,
    /// `tan`, in radians.
    Tan,
    /// `abs`: the absolute value.
    Abs,
}

/// The function of the table that `name` names, if any.
pub open spec fn function_named(name: Seq<char>) -> Option<MathFunction> {
    if name == "sqrt"@ {
        Some(MathFunction::Sqrt)
    } else if name == "ln"@ {
        Some(MathFunction::Ln)
    } else if name == "log"@ {
        Some(MathFunction::Log)
    } else if name == "exp"@ {
        Some(MathFunction::Exp)
    } else if name == "sin"@ {
        Some(MathFunction::Sin)
    } else if name == "cos"@ {
        Some(MathFunction::Cos)
    } else if name == "tan"@ {
        Some(MathFunction::Tan)
    } else if name == "abs"@ {
        Some(MathFunction::Abs)
    } else {
        None
    }
}

/// Whether `a` and `b` hold the same characters.
fn same_text(a: &str, b: &str) -> (r: bool)
    ensures
        r == (a@ == b@),
{
    let n = a.unicode_len();
    if n != b.unicode_len() {
        return false;
    }
    let mut i: usize = 0;
    while i < n
        invariant
            n == a@.len(),
            n == b@.len(),
            i <= n,
            forall|k: int| 0 <= k < i ==> a@[k] == b@[k],
        decreases n - i,
    {
        if a.get_char(i) != b.get_char(i) {
            return false;
        }
        i = i + 1;
    }
    assert(a@ =~= b@);
    true
}

/// Looks a function up by its name; a name that the table does not hold is
/// an `UnknownFunction` error that carries the name.
pub fn lookup_function(name: &str) -> (r: Result<MathFunction, MathError>)
    ensures
        match r {
            Ok(f) => function_named(name@) == Some(f),
            Err(e) => function_named(name@) is None && (match e {
                MathError::UnknownFunction(n) => n@ == name@,
                _ => false,
            }),
        },
{
    if same_text(name, "sqrt") {
        Ok(MathFunction::Sqrt)
    } else if same_text(name, "ln") {
        Ok(MathFunction::Ln)
    } else if same_text(name, "log") {
        Ok(MathFunction::Log)
    } else if same_text(name, "exp") {
        Ok(MathFunction::Exp)
    } else if same_text(name, "sin") {
        Ok(MathFunction::Sin)
    } else if same_text(name, "cos") {
        Ok(MathFunction::Cos)
    } else if same_text(name, "tan") {
        Ok(MathFunction::Tan)
    } else if same_text(name, "abs") {
        Ok(MathFunction::Abs)
    } else {
        Err(MathError::UnknownFunction(name.to_owned()))
    }
}

} // verus!
