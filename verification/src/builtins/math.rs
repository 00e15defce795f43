//! Integer arithmetic and bit shifts of the language.

use crate::atom::{Atom, AtomV};
use crate::exception::{DivideByZeroError, Exception, OverflowError, ArgumentError};
use crate::span::Span;
use crate::text::{push_str, string_from_chars};
use vstd::prelude::*;

verus! {

/// The operator symbol of an arithmetic mode: `+ - * / % ^` for modes 0 to 5.
pub open spec fn math_op_name(mode: u8) -> Seq<char> {
    if mode == 0 {
        "+"@
    } else if mode == 1 {
        "-"@
    } else if mode == 2 {
        "*"@
    } else if mode == 3 {
        "/"@
    } else if mode == 4 {
        "%"@
    } else {
        "^"@
    }
}

/// Division rounding towards zero, as `i64::checked_div` computes it.
pub open spec fn trunc_div(x: int, d: int) -> int {
    if x >= 0 && d > 0 {
        x / d
    } else if x < 0 && d < 0 {
        (-x) / (-d)
    } else if x < 0 {
        -((-x) / d)
    } else {
        -(x / (-d))
    }
}

/// The remainder that goes with [`trunc_div`]: it has the sign of `x`.
pub open spec fn trunc_rem(x: int, d: int) -> int {
    x - d * trunc_div(x, d)
}

/// Whether `v` fits in an `i64`.
pub open spec fn fits_i64(v: int) -> bool {
    i64::MIN <= v <= i64::MAX
}

/// The result of an arithmetic mode on two integers, `None` where the
/// operation overflows or divides by zero. The remainder is defined exactly
/// where the quotient is.
pub open spec fn int_math_spec(mode: u8, l: i64, r: i64) -> Option<i64> {
    if mode == 5 {
        Some(l ^ r)
    } else if mode == 3 || mode == 4 {
        if r == 0 || !fits_i64(trunc_div(l as int, r as int)) {
            None
        } else if mode == 3 {
            Some(trunc_div(l as int, r as int) as i64)
        } else {
            Some(trunc_rem(l as int, r as int) as i64)
        }
    } else {
        let exact: int = if mode == 0 {
            l + r
        } else if mode == 1 {
            l - r
        } else {
            l * r
        };
        if fits_i64(exact) {
            Some(exact as i64)
        } else {
            None
        }
    }
}

/// Builds the text `prefix` followed by `name` and `suffix`.
fn message3(prefix: &str, name: &str, suffix: &str) -> (s: String)
    ensures
        s@ == prefix@ + name@ + suffix@,
{
    let mut v: Vec<char> = Vec::new();
    push_str(&mut v, prefix);
    push_str(&mut v, name);
    push_str(&mut v, suffix);
    string_from_chars(&v)
}

/// The operator symbol of an arithmetic mode.
fn math_op_str(mode: u8) -> (s: &'static str)
    requires
        mode <= 5,
    ensures
        s@ == math_op_name(mode),
{
    if mode == 0 {
        "+"
    } else if mode == 1 {
        "-"
    } else if mode == 2 {
        "*"
    } else if mode == 3 {
        "/"
    } else if mode == 4 {
        "%"
    } else {
        "^"
    }
}

/// Integer arithmetic: mode 0 adds, 1 subtracts, 2 multiplies, 3 divides
/// (rounding towards zero), 4 takes the remainder and 5 computes the bitwise
/// xor. Division and remainder by zero raise a `DivideByZero` error; a result
/// that does not fit in 64 bits raises an `Overflow` error naming the operator.
pub fn builtin_int_math(mode: u8, lhs: i64, rhs: i64, backtrace: &[Span]) -> (r: Result<
    Atom,
    Exception,
>)
    requires
        mode <= 5,
    ensures
        match int_math_spec(mode, lhs, rhs) {
            Some(v) => r == Ok::<Atom, Exception>(Atom::Int(v)),
            None => r.is_err(),
        },
        r matches Err(e) ==> {
            &&& e.backtrace.is_some()
            &&& e.backtrace.unwrap()@ == backtrace@
            &&& if (mode == 3 || mode == 4) && rhs == 0 {
                &&& e.error@ == DivideByZeroError@
                &&& e.msg@ == "attempted to divide by zero"@
            } else {
                &&& e.error@ == OverflowError@
                &&& e.msg@ == "overflow occured during "@ + math_op_name(mode)
            }
        },
{
    let res: Option<i64> = if mode == 0 {
        lhs.checked_add(rhs)
    } else if mode == 1 {
        lhs.checked_sub(rhs)
    } else if mode == 2 {
        lhs.checked_mul(rhs)
    } else if mode == 3 {
        lhs.checked_div(rhs)
    } else if mode == 4 {
        lhs.checked_rem(rhs)
    } else {
        Some(lhs ^ rhs)
    };
    proof {
        if mode == 3 && rhs != 0 {
            lemma_trunc_div_matches(lhs as int, rhs as int);
        }
        if mode == 4 && rhs != 0 {
            lemma_trunc_rem_matches(lhs as int, rhs as int);
            lemma_trunc_div_overflow(lhs, rhs);
            lemma_trunc_rem_bounds(lhs as int, rhs as int);
        }
    }
    match res {
        Some(i) => Ok(Atom::Int(i)),
        None => {
            if (mode == 3 || mode == 4) && rhs == 0 {
                Err(Exception::with_trace(DivideByZeroError, "attempted to divide by zero", backtrace))
            } else {
                let msg = message3("overflow occured during ", math_op_str(mode), "");
                proof {
                    reveal_strlit("");
                    assert(msg@ =~= "overflow occured during "@ + math_op_name(mode));
                }
                Err(Exception::with_trace(OverflowError, msg.as_str(), backtrace))
            }
        },
    }
}

/// The quotient that `i64::checked_div` computes agrees with [`trunc_div`].
proof fn lemma_trunc_div_matches(x: int, d: int)
    requires
        d != 0,
    ensures
        trunc_div(x, d) == (if x == 0 {
            0
        } else if x > 0 && d > 0 {
            x / d
        } else if x < 0 && d < 0 {
            ((x * -1) / (d * -1))
        } else if x < 0 {
            ((x * -1) / d) * -1
        } else {
            (x / (d * -1)) * -1
        }),
{
    if x == 0 {
        if d > 0 {
            assert(0int / d == 0) by (nonlinear_arith)
                requires
                    d > 0,
            ;
        } else {
            assert(0int / (-d) == 0) by (nonlinear_arith)
                requires
                    d < 0,
            ;
        }
    }
}

/// The quotient overflows exactly for `i64::MIN / -1`.
proof fn lemma_trunc_div_overflow(x: i64, d: i64)
    requires
        d != 0,
    ensures
        fits_i64(trunc_div(x as int, d as int)) <==> !(x == i64::MIN && d == -1),
{
    let xi = x as int;
    let di = d as int;
    if xi >= 0 && di > 0 {
        assert(0 <= xi / di <= xi) by (nonlinear_arith)
            requires
                xi >= 0,
                di > 0,
        ;
    } else if xi < 0 && di < 0 {
        assert(0 <= (-xi) / (-di) <= -xi) by (nonlinear_arith)
            requires
                xi < 0,
                di < 0,
        ;
        if di == -1 {
            assert((-xi) / 1 == -xi);
        } else {
            assert((-xi) / (-di) <= (-xi) / 2) by (nonlinear_arith)
                requires
                    xi < 0,
                    di <= -2,
            ;
        }
    } else if xi < 0 {
        assert(0 <= (-xi) / di <= -xi) by (nonlinear_arith)
            requires
                xi < 0,
                di > 0,
        ;
    } else {
        assert(0 <= xi / (-di) <= xi) by (nonlinear_arith)
            requires
                xi >= 0,
                di < 0,
        ;
    }
}

/// The remainder is smaller in size than the divisor and has the sign of `x`.
proof fn lemma_trunc_rem_bounds(x: int, d: int)
    requires
        d != 0,
        i64::MIN <= x <= i64::MAX,
        i64::MIN <= d <= i64::MAX,
    ensures
        fits_i64(trunc_rem(x, d)),
{
    if x >= 0 && d > 0 {
        assert(0 <= x - d * (x / d) < d) by (nonlinear_arith)
            requires
                d > 0,
        ;
    } else if x < 0 && d < 0 {
        assert(d < x - d * ((-x) / (-d)) <= 0) by (nonlinear_arith)
            requires
                d < 0,
                x < 0,
        ;
    } else if x < 0 {
        assert(-d < x - d * (-((-x) / d)) <= 0) by (nonlinear_arith)
            requires
                d > 0,
                x < 0,
        ;
    } else {
        assert(0 <= x - d * (-(x / (-d))) < -d) by (nonlinear_arith)
            requires
                d < 0,
                x >= 0,
        ;
    }
}

/// The remainder that `i64::checked_rem` computes agrees with [`trunc_rem`].
proof fn lemma_trunc_rem_matches(x: int, d: int)
    requires
        d != 0,
    ensures
        trunc_rem(x, d) == (if x == 0 {
            0
        } else if x > 0 && d > 0 {
            x % d
        } else if x < 0 && d < 0 {
            ((x * -1) % (d * -1)) * -1
        } else if x < 0 {
            ((x * -1) % d) * -1
        } else {
            x % (d * -1)
        }),
{
    lemma_trunc_div_matches(x, d);
    if x == 0 {
    } else if x > 0 && d > 0 {
        assert(x - d * (x / d) == x % d) by (nonlinear_arith)
            requires
                d > 0,
        ;
    } else if x < 0 && d < 0 {
        assert(x - d * ((-x) / (-d)) == -((-x) % (-d))) by (nonlinear_arith)
            requires
                d < 0,
        ;
    } else if x < 0 {
        assert(x - d * (-((-x) / d)) == -((-x) % d)) by (nonlinear_arith)
            requires
                d > 0,
        ;
    } else {
        assert(x - d * (-(x / (-d))) == x % (-d)) by (nonlinear_arith)
            requires
                d < 0,
        ;
    }
}

/// The result of a shift mode: 0 shifts left, 1 shifts right (keeping the
/// sign); `None` where the amount is 64 or more.
pub open spec fn int_shift_spec(mode: u8, l: i64, amount: u32) -> Option<i64> {
    if amount >= 64 {
        None
    } else if mode == 0 {
        Some(l << amount)
    } else {
        Some(l >> amount)
    }
}

/// The operator symbol of a shift mode.
pub open spec fn shift_op_name(mode: u8) -> Seq<char> {
    if mode == 0 {
        "<<"@
    } else {
        ">>"@
    }
}

/// Integer bit shifts: mode 0 shifts left, mode 1 shifts right. An amount
/// outside the range of `u32` raises an `Argument` error; an amount of 64 or
/// more raises an `Overflow` error.
pub fn builtin_int_shift(mode: u8, lhs: i64, rhs: i64, backtrace: &[Span]) -> (r: Result<
    Atom,
    Exception,
>)
    requires
        mode <= 1,
    ensures
        0 <= rhs <= u32::MAX ==> match int_shift_spec(mode, lhs, rhs as u32) {
            Some(v) => r == Ok::<Atom, Exception>(Atom::Int(v)),
            None => r.is_err(),
        },
        !(0 <= rhs <= u32::MAX) ==> r.is_err(),
        r matches Err(e) ==> {
            &&& e.backtrace.is_some()
            &&& e.backtrace.unwrap()@ == backtrace@
            &&& if 0 <= rhs <= u32::MAX {
                &&& e.error@ == OverflowError@
                &&& e.msg@ == shift_op_name(mode) + " operation failed"@
            } else {
                &&& e.error@ == ArgumentError@
                &&& e.msg@ == "shift amount too big for `"@ + shift_op_name(mode)
                    + "`: `out of range integral type conversion attempted`"@
            }
        },
{
    let name: &str = if mode == 0 {
        "<<"
    } else {
        ">>"
    };
    if rhs < 0 || rhs > 0xffff_ffff {
        let msg = message3(
            "shift amount too big for `",
            name,
            "`: `out of range integral type conversion attempted`",
        );
        return Err(Exception::with_trace(ArgumentError, msg.as_str(), backtrace));
    }
    let amount: u32 = rhs as u32;
    if amount >= 64 {
        let msg = message3("", name, " operation failed");
        proof {
            reveal_strlit("");
            assert(msg@ =~= shift_op_name(mode) + " operation failed"@);
        }
        return Err(Exception::with_trace(OverflowError, msg.as_str(), backtrace));
    }
    if mode == 0 {
        Ok(Atom::Int(lhs << amount))
    } else {
        Ok(Atom::Int(lhs >> amount))
    }
}

} // verus!
