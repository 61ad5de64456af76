//! Lowering of operations whose target entry holds a fixed-point float.
//!
//! A float value `x` is stored as `round(x * 1000)`; the operand of the
//! lowered commands carries that encoding already.
use vstd::prelude::*;
use vstd::string::*;

use crate::compile_task::evaluater::{cmd_res_view, pair_res_view, EvalErrV, EvaluateError};
use crate::compile_task::scoreboard::{
    calcv_type, get_temp_score, spec_const_score, spec_pure_assign_score, spec_pure_assign_value,
    spec_pure_calc_num, spec_pure_calc_score, spec_pure_compare_score, spec_pure_compare_value,
    spec_temp_score, CalcV, Calcable, Scoreboard, ScorebV, Types,
};
use crate::compile_task::int_ops::spec_is_compare_op;
use crate::text::{push_char, str_eq};

verus! {

/// The fixed-point magnification, `10` to the power of the accuration `3`.
pub fn get_magnif() -> (r: i32)
    ensures
        r == 1000,
{
    1000
}

/// Float-target lowering of `<target> <op>= <source scoreboard>`: an integer
/// source is first copied into the temporary and scaled up.
pub open spec fn spec_calc_score(s: ScorebV, op: Seq<char>, src: ScorebV) -> Result<
    Seq<char>,
    EvalErrV,
> {
    match src.data_type {
        Types::Int => Ok(
            spec_pure_assign_score(spec_temp_score(), src) + seq!['\n'] + spec_pure_calc_num(
                spec_temp_score(),
                "*".view(),
                1000,
            ) + seq!['\n'] + spec_pure_calc_score(s, op, spec_temp_score()),
        ),
        Types::Flt => Ok(spec_pure_calc_score(s, op, src)),
        _ => Err(EvalErrV::OperationOccuredBetweenUnsupportedTypes(s.data_type, src.data_type)),
    }
}

/// Float-target lowering against an integer literal: `+`/`-` scale the
/// literal up, multiplication and division keep it as it is.
pub open spec fn spec_calc_int(s: ScorebV, op: Seq<char>, num: int) -> Seq<char> {
    if op == "+".view() || op == "-".view() {
        spec_pure_calc_num(s, op, num * 1000)
    } else {
        spec_pure_calc_num(s, op, num)
    }
}

/// Float-target lowering against a float literal: multiplication corrects by
/// a post-divide with the squared magnification, division pre-multiplies.
pub open spec fn spec_calc_flt(s: ScorebV, op: Seq<char>, f: int) -> Result<Seq<char>, EvalErrV> {
    if op == "+".view() || op == "-".view() {
        Ok(spec_pure_calc_num(s, op, f))
    } else if op == "*".view() {
        Ok(
            spec_pure_calc_num(s, op, f) + seq!['\n'] + spec_pure_calc_num(
                s,
                "/".view(),
                1000000,
            ),
        )
    } else if op == "/".view() {
        Ok(
            spec_pure_calc_num(s, "*".view(), 1000) + seq!['\n'] + spec_pure_calc_num(
                s,
                "/".view(),
                f,
            ),
        )
    } else {
        Err(EvalErrV::OperationOccuredBetweenUnsupportedTypes(s.data_type, Types::Flt))
    }
}

/// Float-target lowering of an operation against any operand.
pub open spec fn spec_calc(s: ScorebV, op: Seq<char>, v: CalcV) -> Result<Seq<char>, EvalErrV> {
    match v {
        CalcV::Int(i) => Ok(spec_calc_int(s, op, i)),
        CalcV::Flt(f) => spec_calc_flt(s, op, f),
        CalcV::Scr(src) => spec_calc_score(s, op, src),
        CalcV::Mcf(m) => spec_calc_score(s, op, m.ret_container),
        CalcV::Bln(_) => Err(
            EvalErrV::OperationOccuredBetweenUnsupportedTypes(s.data_type, Types::Bln),
        ),
    }
}

/// Float-target lowering of an assignment from a scoreboard source.
pub open spec fn spec_assign_score(s: ScorebV, src: ScorebV) -> Result<Seq<char>, EvalErrV> {
    match src.data_type {
        Types::Int => Ok(
            spec_pure_assign_score(spec_temp_score(), src) + seq!['\n'] + spec_pure_calc_num(
                spec_temp_score(),
                "*".view(),
                1000,
            ) + seq!['\n'] + spec_pure_assign_score(s, spec_temp_score()),
        ),
        Types::Flt => Ok(spec_pure_assign_score(s, src)),
        _ => Err(EvalErrV::AssignOccuredBetweenUnsupportedTypes(Types::Flt, src.data_type)),
    }
}

/// Float-target lowering of an assignment: literals are stored scaled.
pub open spec fn spec_assign(s: ScorebV, v: CalcV) -> Result<Seq<char>, EvalErrV> {
    match v {
        CalcV::Int(i) => Ok(spec_pure_assign_value(s, i * 1000)),
        CalcV::Flt(f) => Ok(spec_pure_assign_value(s, f)),
        CalcV::Scr(src) => spec_assign_score(s, src),
        CalcV::Mcf(m) => spec_assign_score(s, m.ret_container),
        CalcV::Bln(_) => Err(
            EvalErrV::AssignOccuredBetweenUnsupportedTypes(Types::Bln, s.data_type),
        ),
    }
}

/// Float-target comparison lowering, returning preamble commands and the
/// predicate fragment.
pub open spec fn spec_compare(s: ScorebV, op: Seq<char>, v: CalcV) -> Result<
    (Seq<char>, Seq<char>),
    EvalErrV,
> {
    if spec_is_compare_op(op) {
        match v {
            CalcV::Int(i) => {
                if op == "<".view() || op == ">".view() {
                    Ok(
                        (
                            spec_pure_assign_value(spec_const_score(i * 1000), i * 1000),
                            spec_pure_compare_score(s, op, spec_const_score(i * 1000)),
                        ),
                    )
                } else {
                    match spec_pure_compare_value(s, op, i * 1000) {
                        Ok(c) => Ok((Seq::empty(), c)),
                        Err(e) => Err(e),
                    }
                }
            },
            CalcV::Flt(f) => {
                if op == "<".view() || op == ">".view() {
                    Ok(
                        (
                            spec_pure_assign_value(spec_const_score(f), f),
                            spec_pure_compare_score(s, op, spec_const_score(f)),
                        ),
                    )
                } else {
                    match spec_pure_compare_value(s, op, f) {
                        Ok(c) => Ok((Seq::empty(), c)),
                        Err(e) => Err(e),
                    }
                }
            },
            CalcV::Scr(src) => match src.data_type {
                Types::Flt => Ok((Seq::empty(), spec_pure_compare_score(s, op, src))),
                Types::Int => Ok(
                    (
                        spec_pure_assign_score(spec_temp_score(), src) + seq!['\n']
                            + spec_pure_calc_num(spec_temp_score(), "*".view(), 1000),
                        spec_pure_compare_score(s, op, spec_temp_score()),
                    ),
                ),
                _ => Err(
                    EvalErrV::ComparementOccuredBetweenUnsupportedTypes(
                        s.data_type,
                        calcv_type(v),
                    ),
                ),
            },
            _ => Err(
                EvalErrV::ComparementOccuredBetweenUnsupportedTypes(s.data_type, calcv_type(v)),
            ),
        }
    } else {
        Err(EvalErrV::UnknownOperatorGiven(op))
    }
}

fn unwrap_calc_num(r: Result<String, EvaluateError>) -> (out: String)
    requires
        r is Ok,
    ensures
        out@ == (match r {
            Ok(c) => c@,
            Err(_) => Seq::<char>::empty(),
        }),
{
    match r {
        Ok(c) => c,
        Err(_) => {
            proof {
                assert(false);
            }
            String::new()
        },
    }
}

fn calc_score(score: &Scoreboard, operator: &str, source: &Scoreboard) -> (r: Result<
    String,
    EvaluateError,
>)
    ensures
        cmd_res_view(r) == spec_calc_score(score@, operator@, source@),
{
    match source.data_type {
        Types::Int => {
            let temp = get_temp_score();
            let mut r = temp.pure_assign_score(source);
            push_char(&mut r, '\n');
            let c1 = unwrap_calc_num(temp.pure_calc_num("*", 1000));
            r.append(c1.as_str());
            push_char(&mut r, '\n');
            let c2 = score.pure_calc_score(operator, &temp);
            r.append(c2.as_str());
            proof {
                assert(r@ =~= (spec_pure_assign_score(spec_temp_score(), source@) + seq!['\n']
                    + spec_pure_calc_num(spec_temp_score(), "*".view(), 1000) + seq!['\n']
                    + spec_pure_calc_score(score@, operator@, spec_temp_score())));
            }
            Ok(r)
        },
        Types::Flt => Ok(score.pure_calc_score(operator, source)),
        _ => Err(
            EvaluateError::OperationOccuredBetweenUnsupportedTypes(
                score.data_type,
                source.data_type,
            ),
        ),
    }
}

/// Float-target operation lowering.
pub fn calc(score: &Scoreboard, operator: &str, target: &Calcable) -> (r: Result<
    String,
    EvaluateError,
>)
    ensures
        cmd_res_view(r) == spec_calc(score@, operator@, target@),
{
    match target {
        Calcable::Int(i) => {
            let wide: i64 = *i as i64;
            if str_eq(operator, "+") || str_eq(operator, "-") {
                Ok(unwrap_calc_num(score.pure_calc_num(operator, wide * 1000)))
            } else {
                Ok(unwrap_calc_num(score.pure_calc_num(operator, wide)))
            }
        },
        Calcable::Flt(f) => {
            if str_eq(operator, "+") || str_eq(operator, "-") {
                Ok(unwrap_calc_num(score.pure_calc_num(operator, *f)))
            } else if str_eq(operator, "*") {
                let mut r = unwrap_calc_num(score.pure_calc_num(operator, *f));
                push_char(&mut r, '\n');
                let c1 = unwrap_calc_num(score.pure_calc_num("/", 1000000));
                r.append(c1.as_str());
                proof {
                    assert(r@ =~= (spec_pure_calc_num(score@, operator@, *f as int) + seq!['\n']
                        + spec_pure_calc_num(score@, "/".view(), 1000000)));
                }
                Ok(r)
            } else if str_eq(operator, "/") {
                let mut r = unwrap_calc_num(score.pure_calc_num("*", 1000));
                push_char(&mut r, '\n');
                let c1 = unwrap_calc_num(score.pure_calc_num("/", *f));
                r.append(c1.as_str());
                proof {
                    assert(r@ =~= (spec_pure_calc_num(score@, "*".view(), 1000) + seq!['\n']
                        + spec_pure_calc_num(score@, "/".view(), *f as int)));
                }
                Ok(r)
            } else {
                Err(
                    EvaluateError::OperationOccuredBetweenUnsupportedTypes(
                        score.data_type,
                        Types::Flt,
                    ),
                )
            }
        },
        Calcable::Scr(s) => calc_score(score, operator, s),
        Calcable::Mcf(m) => calc_score(score, operator, &m.ret_container),
        Calcable::Bln(_) => Err(
            EvaluateError::OperationOccuredBetweenUnsupportedTypes(score.data_type, Types::Bln),
        ),
    }
}

fn assign_score(score: &Scoreboard, src: &Scoreboard) -> (r: Result<String, EvaluateError>)
    ensures
        cmd_res_view(r) == spec_assign_score(score@, src@),
{
    match src.data_type {
        Types::Int => {
            let temp = get_temp_score();
            let mut r = temp.pure_assign_score(src);
            push_char(&mut r, '\n');
            let c1 = unwrap_calc_num(temp.pure_calc_num("*", 1000));
            r.append(c1.as_str());
            push_char(&mut r, '\n');
            let c2 = score.pure_assign_score(&temp);
            r.append(c2.as_str());
            proof {
                assert(r@ =~= (spec_pure_assign_score(spec_temp_score(), src@) + seq!['\n']
                    + spec_pure_calc_num(spec_temp_score(), "*".view(), 1000) + seq!['\n']
                    + spec_pure_assign_score(score@, spec_temp_score())));
            }
            Ok(r)
        },
        Types::Flt => Ok(score.pure_assign_score(src)),
        _ => Err(EvaluateError::AssignOccuredBetweenUnsupportedTypes(Types::Flt, src.data_type)),
    }
}

/// Float-target assignment lowering.
pub fn assign(score: &Scoreboard, value: &Calcable) -> (r: Result<String, EvaluateError>)
    ensures
        cmd_res_view(r) == spec_assign(score@, value@),
{
    match value {
        Calcable::Int(i) => {
            let wide: i64 = *i as i64;
            Ok(score.pure_assign_value(wide * 1000))
        },
        Calcable::Flt(f) => Ok(score.pure_assign_value(*f)),
        Calcable::Scr(s) => assign_score(score, s),
        Calcable::Mcf(m) => assign_score(score, &m.ret_container),
        Calcable::Bln(_) => Err(
            EvaluateError::AssignOccuredBetweenUnsupportedTypes(Types::Bln, score.data_type),
        ),
    }
}

/// Float-target comparison lowering.
pub fn compare(score: &Scoreboard, operator: &str, value: &Calcable) -> (r: Result<
    (String, String),
    EvaluateError,
>)
    ensures
        pair_res_view(r) == spec_compare(score@, operator@, value@),
{
    let is_cmp = str_eq(operator, "<") || str_eq(operator, "<=") || str_eq(operator, "==")
        || str_eq(operator, ">=") || str_eq(operator, ">");
    if !is_cmp {
        return Err(EvaluateError::UnknownOperatorGiven(String::from_str(operator)));
    }
    match value {
        Calcable::Int(i) => {
            let wide: i64 = (*i as i64) * 1000;
            if str_eq(operator, "<") || str_eq(operator, ">") {
                Ok(score.pure_compare_value_not_equal(operator, wide))
            } else {
                match score.pure_compare_value(operator, wide) {
                    Ok(c) => Ok((String::new(), c)),
                    Err(e) => Err(e),
                }
            }
        },
        Calcable::Flt(f) => {
            if str_eq(operator, "<") || str_eq(operator, ">") {
                Ok(score.pure_compare_value_not_equal(operator, *f))
            } else {
                match score.pure_compare_value(operator, *f) {
                    Ok(c) => Ok((String::new(), c)),
                    Err(e) => Err(e),
                }
            }
        },
        Calcable::Scr(s) => {
            match s.data_type {
                Types::Flt => Ok((String::new(), score.pure_compare_score(operator, s))),
                Types::Int => {
                    let temp = get_temp_score();
                    let mut pre = temp.pure_assign_score(s);
                    push_char(&mut pre, '\n');
                    let c1 = unwrap_calc_num(temp.pure_calc_num("*", 1000));
                    pre.append(c1.as_str());
                    let pred = score.pure_compare_score(operator, &temp);
                    proof {
                        assert(pre@ =~= (spec_pure_assign_score(spec_temp_score(), s@)
                            + seq!['\n'] + spec_pure_calc_num(spec_temp_score(), "*".view(), 1000)));
                    }
                    Ok((pre, pred))
                },
                _ => Err(
                    EvaluateError::ComparementOccuredBetweenUnsupportedTypes(
                        score.data_type,
                        value.get_type(),
                    ),
                ),
            }
        },
        _ => Err(
            EvaluateError::ComparementOccuredBetweenUnsupportedTypes(
                score.data_type,
                value.get_type(),
            ),
        ),
    }
}

} // verus!
