//! Lowering of operations whose target entry holds an integer.
use vstd::prelude::*;
use vstd::string::*;

use crate::compile_task::evaluater::{cmd_res_view, pair_res_view, EvalErrV, EvaluateError};
use crate::compile_task::scoreboard::{
    calcv_type, get_temp_score, spec_const_score, spec_pure_assign_score, spec_pure_assign_value,
    spec_pure_calc_num, spec_pure_calc_score, spec_pure_compare_score, spec_pure_compare_value,
    spec_temp_score, CalcV, Calcable, Scoreboard, ScorebV, Types,
};
use crate::text::{push_char, str_eq};

verus! {

/// Truncated division by the float magnification: the integer part of a
/// fixed-point value.
pub open spec fn spec_div_mag(f: int) -> int {
    if f >= 0 {
        f / 1000
    } else {
        -((-f) / 1000)
    }
}

/// Integer-target lowering of `<target> <op>= <source scoreboard>`: a float
/// source is first copied into the temporary and scaled down.
pub open spec fn spec_calc_score(s: ScorebV, op: Seq<char>, src: ScorebV) -> Result<
    Seq<char>,
    EvalErrV,
> {
    match src.data_type {
        Types::Int => Ok(spec_pure_calc_score(s, op, src)),
        Types::Flt => Ok(
            spec_pure_assign_score(spec_temp_score(), src) + seq!['\n'] + spec_pure_calc_num(
                spec_temp_score(),
                "/".view(),
                1000,
            ) + seq!['\n'] + spec_pure_calc_score(s, op, spec_temp_score()),
        ),
        _ => Err(EvalErrV::OperationOccuredBetweenUnsupportedTypes(Types::Int, src.data_type)),
    }
}

/// Integer-target lowering of an operation against any operand.
pub open spec fn spec_calc(s: ScorebV, op: Seq<char>, v: CalcV) -> Result<Seq<char>, EvalErrV> {
    match v {
        CalcV::Int(i) => Ok(spec_pure_calc_num(s, op, i)),
        CalcV::Flt(f) => Ok(spec_pure_calc_num(s, op, f)),
        CalcV::Scr(src) => spec_calc_score(s, op, src),
        CalcV::Mcf(m) => spec_calc_score(s, op, m.ret_container),
        CalcV::Bln(_) => Err(
            EvalErrV::OperationOccuredBetweenUnsupportedTypes(s.data_type, Types::Bln),
        ),
    }
}

/// Integer-target lowering of an assignment from a scoreboard source.
pub open spec fn spec_assign_score(s: ScorebV, src: ScorebV) -> Result<Seq<char>, EvalErrV> {
    match src.data_type {
        Types::Int => Ok(spec_pure_assign_score(s, src)),
        Types::Flt => Ok(
            spec_pure_assign_score(spec_temp_score(), src) + seq!['\n'] + spec_pure_calc_num(
                spec_temp_score(),
                "/".view(),
                1000,
            ) + seq!['\n'] + spec_pure_assign_score(s, spec_temp_score()),
        ),
        _ => Err(EvalErrV::AssignOccuredBetweenUnsupportedTypes(Types::Int, src.data_type)),
    }
}

/// Integer-target lowering of an assignment: a float literal stores its
/// truncated integer part.
pub open spec fn spec_assign(s: ScorebV, v: CalcV) -> Result<Seq<char>, EvalErrV> {
    match v {
        CalcV::Int(i) => Ok(spec_pure_assign_value(s, i)),
        CalcV::Flt(f) => Ok(spec_pure_assign_value(s, spec_div_mag(f))),
        CalcV::Scr(src) => spec_assign_score(s, src),
        CalcV::Mcf(m) => spec_assign_score(s, m.ret_container),
        CalcV::Bln(_) => Err(
            EvalErrV::AssignOccuredBetweenUnsupportedTypes(Types::Bln, s.data_type),
        ),
    }
}

pub open spec fn spec_is_compare_op(op: Seq<char>) -> bool {
    op == "<".view() || op == "<=".view() || op == "==".view() || op == ">=".view() || op
        == ">".view()
}

/// Integer-target comparison lowering, returning preamble commands and the
/// predicate fragment.
pub open spec fn spec_compare(s: ScorebV, op: Seq<char>, v: CalcV) -> Result<
    (Seq<char>, Seq<char>),
    EvalErrV,
> {
    if spec_is_compare_op(op) {
        match v {
            CalcV::Int(i) => {
                if op == "<".view() || op == ">".view() {
                    Ok(
                        (
                            spec_pure_assign_value(spec_const_score(i), i),
                            spec_pure_compare_score(s, op, spec_const_score(i)),
                        ),
                    )
                } else {
                    match spec_pure_compare_value(s, op, i) {
                        Ok(c) => Ok((Seq::empty(), c)),
                        Err(e) => Err(e),
                    }
                }
            },
            CalcV::Flt(f) => {
                if op == "<".view() || op == ">".view() {
                    Ok(
                        (
                            spec_pure_assign_value(spec_const_score(f), f),
                            spec_pure_compare_score(s, op, spec_const_score(f)),
                        ),
                    )
                } else {
                    match spec_pure_compare_value(s, op, f) {
                        Ok(c) => Ok((Seq::empty(), c)),
                        Err(e) => Err(e),
                    }
                }
            },
            CalcV::Scr(src) => match src.data_type {
                Types::Int => Ok((Seq::empty(), spec_pure_compare_score(s, op, src))),
                Types::Flt => Ok(
                    (
                        spec_pure_assign_score(spec_temp_score(), src) + seq!['\n']
                            + spec_pure_calc_num(spec_temp_score(), "/".view(), 1000),
                        spec_pure_compare_score(s, op, spec_temp_score()),
                    ),
                ),
                _ => Err(
                    EvalErrV::ComparementOccuredBetweenUnsupportedTypes(
                        s.data_type,
                        src.data_type,
                    ),
                ),
            },
            _ => Err(
                EvalErrV::ComparementOccuredBetweenUnsupportedTypes(s.data_type, calcv_type(v)),
            ),
        }
    } else {
        Err(EvalErrV::UnknownOperatorGiven(op))
    }
}

/// The integer part of a fixed-point encoded value.
pub fn div_mag(f: i64) -> (r: i64)
    ensures
        r as int == spec_div_mag(f as int),
{
    if f >= 0 {
        f / 1000
    } else {
        let m: i64 = -(f + 1);
        let mag: u64 = (m as u64) + 1;
        let q: u64 = mag / 1000;
        -(q as i64)
    }
}

fn calc_score(score: &Scoreboard, operator: &str, source: &Scoreboard) -> (r: Result<
    String,
    EvaluateError,
>)
    ensures
        cmd_res_view(r) == spec_calc_score(score@, operator@, source@),
{
    match source.data_type {
        Types::Int => Ok(score.pure_calc_score(operator, source)),
        Types::Flt => {
            let temp = get_temp_score();
            let mut r = temp.pure_assign_score(source);
            push_char(&mut r, '\n');
            let c1 = match temp.pure_calc_num("/", 1000) {
                Ok(c) => c,
                Err(e) => {
                    proof {
                        assert(false);
                    }
                    return Err(e);
                },
            };
            r.append(c1.as_str());
            push_char(&mut r, '\n');
            let c2 = score.pure_calc_score(operator, &temp);
            r.append(c2.as_str());
            proof {
                assert(r@ =~= (spec_pure_assign_score(spec_temp_score(), source@) + seq!['\n']
                    + spec_pure_calc_num(spec_temp_score(), "/".view(), 1000) + seq!['\n']
                    + spec_pure_calc_score(score@, operator@, spec_temp_score())));
            }
            Ok(r)
        },
        _ => Err(
            EvaluateError::OperationOccuredBetweenUnsupportedTypes(Types::Int, source.data_type),
        ),
    }
}

/// Integer-target operation lowering.
pub fn calc(score: &Scoreboard, operator: &str, target: &Calcable) -> (r: Result<
    String,
    EvaluateError,
>)
    ensures
        cmd_res_view(r) == spec_calc(score@, operator@, target@),
{
    match target {
        Calcable::Int(i) => {
            match score.pure_calc_num(operator, *i as i64) {
                Ok(c) => Ok(c),
                Err(e) => {
                    proof {
                        assert(false);
                    }
                    Err(e)
                },
            }
        },
        Calcable::Flt(f) => {
            match score.pure_calc_num(operator, *f) {
                Ok(c) => Ok(c),
                Err(e) => {
                    proof {
                        assert(false);
                    }
                    Err(e)
                },
            }
        },
        Calcable::Scr(s) => calc_score(score, operator, s),
        Calcable::Mcf(m) => calc_score(score, operator, &m.ret_container),
        Calcable::Bln(_) => Err(
            EvaluateError::OperationOccuredBetweenUnsupportedTypes(score.data_type, Types::Bln),
        ),
    }
}

fn assign_score(scoreboard: &Scoreboard, src: &Scoreboard) -> (r: Result<String, EvaluateError>)
    ensures
        cmd_res_view(r) == spec_assign_score(scoreboard@, src@),
{
    match src.data_type {
        Types::Int => Ok(scoreboard.pure_assign_score(src)),
        Types::Flt => {
            let temp = get_temp_score();
            let mut r = temp.pure_assign_score(src);
            push_char(&mut r, '\n');
            let c1 = match temp.pure_calc_num("/", 1000) {
                Ok(c) => c,
                Err(e) => {
                    proof {
                        assert(false);
                    }
                    return Err(e);
                },
            };
            r.append(c1.as_str());
            push_char(&mut r, '\n');
            let c2 = scoreboard.pure_assign_score(&temp);
            r.append(c2.as_str());
            proof {
                assert(r@ =~= (spec_pure_assign_score(spec_temp_score(), src@) + seq!['\n']
                    + spec_pure_calc_num(spec_temp_score(), "/".view(), 1000) + seq!['\n']
                    + spec_pure_assign_score(scoreboard@, spec_temp_score())));
            }
            Ok(r)
        },
        _ => Err(EvaluateError::AssignOccuredBetweenUnsupportedTypes(Types::Int, src.data_type)),
    }
}

/// Integer-target assignment lowering.
pub fn assign(scoreboard: &Scoreboard, value: &Calcable) -> (r: Result<String, EvaluateError>)
    ensures
        cmd_res_view(r) == spec_assign(scoreboard@, value@),
{
    match value {
        Calcable::Int(i) => Ok(scoreboard.pure_assign_value(*i as i64)),
        Calcable::Flt(f) => Ok(scoreboard.pure_assign_value(div_mag(*f))),
        Calcable::Scr(s) => assign_score(scoreboard, s),
        Calcable::Mcf(m) => assign_score(scoreboard, &m.ret_container),
        Calcable::Bln(_) => Err(
            EvaluateError::AssignOccuredBetweenUnsupportedTypes(Types::Bln, scoreboard.data_type),
        ),
    }
}

/// Integer-target comparison lowering.
pub fn compare(score: &Scoreboard, operator: &str, value: &Calcable) -> (r: Result<
    (String, String),
    EvaluateError,
>)
    ensures
        pair_res_view(r) == spec_compare(score@, operator@, value@),
{
    let is_cmp = str_eq(operator, "<") || str_eq(operator, "<=") || str_eq(operator, "==")
        || str_eq(operator, ">=") || str_eq(operator, ">");
    if !is_cmp {
        return Err(EvaluateError::UnknownOperatorGiven(String::from_str(operator)));
    }
    match value {
        Calcable::Int(i) => {
            if str_eq(operator, "<") || str_eq(operator, ">") {
                Ok(score.pure_compare_value_not_equal(operator, *i as i64))
            } else {
                match score.pure_compare_value(operator, *i as i64) {
                    Ok(c) => Ok((String::new(), c)),
                    Err(e) => Err(e),
                }
            }
        },
        Calcable::Flt(f) => {
            if str_eq(operator, "<") || str_eq(operator, ">") {
                Ok(score.pure_compare_value_not_equal(operator, *f))
            } else {
                match score.pure_compare_value(operator, *f) {
                    Ok(c) => Ok((String::new(), c)),
                    Err(e) => Err(e),
                }
            }
        },
        Calcable::Scr(s) => {
            match s.data_type {
                Types::Int => Ok((String::new(), score.pure_compare_score(operator, s))),
                Types::Flt => {
                    let temp = get_temp_score();
                    let mut pre = temp.pure_assign_score(s);
                    push_char(&mut pre, '\n');
                    let c1 = match temp.pure_calc_num("/", 1000) {
                        Ok(c) => c,
                        Err(e) => {
                            proof {
                                assert(false);
                            }
                            return Err(e);
                        },
                    };
                    pre.append(c1.as_str());
                    let pred = score.pure_compare_score(operator, &temp);
                    proof {
                        assert(pre@ =~= (spec_pure_assign_score(spec_temp_score(), s@)
                            + seq!['\n'] + spec_pure_calc_num(spec_temp_score(), "/".view(), 1000)));
                    }
                    Ok((pre, pred))
                },
                _ => Err(
                    EvaluateError::ComparementOccuredBetweenUnsupportedTypes(
                        score.data_type,
                        s.data_type,
                    ),
                ),
            }
        },
        _ => Err(
            EvaluateError::ComparementOccuredBetweenUnsupportedTypes(
                score.data_type,
                value.get_type(),
            ),
        ),
    }
}

} // verus!
