//! Lowering of operations whose target entry holds a boolean.
//!
//! Booleans live in scoreboards as 0 or 1; `&` and `|` are lowered through
//! conditional `execute` commands.
use vstd::prelude::*;
use vstd::string::*;

use crate::compile_task::evaluater::{cmd_res_view, EvalErrV, EvaluateError};
use crate::compile_task::scoreboard::{
    calcv_type, spec_mcname, spec_pure_assign_score, spec_pure_assign_value,
    spec_pure_compare_score, CalcV, Calcable, Scoreboard, ScorebV, Types,
};
use crate::text::{spec_i64_str, str_eq};

verus! {

/// The `matches` fragment testing an entry for the exact value `v`.
pub open spec fn spec_cmp_eq(s: ScorebV, v: int) -> Seq<char> {
    "score ".view() + spec_mcname(s) + " MCPP.var matches ".view() + spec_i64_str(v)
}

/// Boolean-target lowering against a boolean literal: `& true` and
/// `| false` keep the target, `& false` clears it, `| true` sets it.
pub open spec fn spec_calc_bln(s: ScorebV, op: Seq<char>, b: bool) -> Result<Seq<char>, EvalErrV> {
    if op == "&".view() {
        if b {
            Ok(
                "execute unless ".view() + spec_cmp_eq(s, 0) + " run ".view()
                    + spec_pure_assign_value(s, 1),
            )
        } else {
            Ok(
                "execute unless ".view() + spec_cmp_eq(s, 0) + " run ".view()
                    + spec_pure_assign_value(s, 0),
            )
        }
    } else if op == "|".view() {
        if b {
            Ok(spec_pure_assign_value(s, 1))
        } else {
            Ok(Seq::empty())
        }
    } else {
        Err(EvalErrV::UnknownOperatorGiven(op))
    }
}

/// Boolean-target lowering against a boolean scoreboard source: `&` clears
/// the target when the source is zero, `|` sets it when the source is not.
pub open spec fn spec_calc_score(s: ScorebV, op: Seq<char>, src: ScorebV) -> Result<
    Seq<char>,
    EvalErrV,
> {
    match src.data_type {
        Types::Bln => {
            if op == "&".view() {
                Ok(
                    "execute if ".view() + spec_cmp_eq(src, 0) + " run ".view()
                        + spec_pure_assign_value(s, 0),
                )
            } else if op == "|".view() {
                Ok(
                    "execute unless ".view() + spec_cmp_eq(src, 0) + " run ".view()
                        + spec_pure_assign_value(s, 1),
                )
            } else {
                Err(EvalErrV::UnknownOperatorGiven(op))
            }
        },
        _ => Err(EvalErrV::OperationOccuredBetweenUnsupportedTypes(src.data_type, s.data_type)),
    }
}

/// Boolean-target lowering of an operation against any operand.
pub open spec fn spec_calc(s: ScorebV, op: Seq<char>, v: CalcV) -> Result<Seq<char>, EvalErrV> {
    match v {
        CalcV::Scr(src) => spec_calc_score(s, op, src),
        CalcV::Bln(b) => spec_calc_bln(s, op, b),
        _ => Err(EvalErrV::OperationOccuredBetweenUnsupportedTypes(s.data_type, calcv_type(v))),
    }
}

/// Boolean-target lowering of an assignment.
pub open spec fn spec_assign(s: ScorebV, v: CalcV) -> Result<Seq<char>, EvalErrV> {
    match v {
        CalcV::Bln(b) => Ok(
            spec_pure_assign_value(
                s,
                if b {
                    1
                } else {
                    0
                },
            ),
        ),
        CalcV::Scr(src) => match src.data_type {
            Types::Bln => Ok(spec_pure_assign_score(s, src)),
            _ => Err(EvalErrV::AssignOccuredBetweenUnsupportedTypes(src.data_type, s.data_type)),
        },
        _ => Err(EvalErrV::AssignOccuredBetweenUnsupportedTypes(calcv_type(v), s.data_type)),
    }
}

/// Boolean-target comparison lowering: only `==` is defined.
pub open spec fn spec_compare(s: ScorebV, op: Seq<char>, v: CalcV) -> Result<Seq<char>, EvalErrV> {
    if op == "==".view() {
        match v {
            CalcV::Scr(src) => match src.data_type {
                Types::Bln => Ok(spec_pure_compare_score(s, op, src)),
                _ => Err(
                    EvalErrV::ComparementOccuredBetweenUnsupportedTypes(
                        s.data_type,
                        calcv_type(v),
                    ),
                ),
            },
            CalcV::Bln(b) => Ok(
                spec_cmp_eq(
                    s,
                    if b {
                        1
                    } else {
                        0
                    },
                ),
            ),
            _ => Err(
                EvalErrV::ComparementOccuredBetweenUnsupportedTypes(s.data_type, calcv_type(v)),
            ),
        }
    } else {
        Err(EvalErrV::UnknownOperatorGiven(op))
    }
}

/// The `matches` fragment testing this entry for exactly `v`.
fn cmp_eq(score: &Scoreboard, v: i64) -> (r: String)
    ensures
        r@ == spec_cmp_eq(score@, v as int),
{
    let c = match score.pure_compare_value("==", v) {
        Ok(c) => c,
        Err(_) => {
            proof {
                assert(false);
            }
            String::new()
        },
    };
    proof {
        assert(c@ =~= spec_cmp_eq(score@, v as int));
    }
    c
}

fn calc_score(score: &Scoreboard, operator: &str, source: &Scoreboard) -> (r: Result<
    String,
    EvaluateError,
>)
    ensures
        cmd_res_view(r) == spec_calc_score(score@, operator@, source@),
{
    match source.data_type {
        Types::Bln => {
            if str_eq(operator, "&") {
                let mut r = String::from_str("execute if ");
                let c0 = cmp_eq(source, 0);
                r.append(c0.as_str());
                r.append(" run ");
                let a0 = score.pure_assign_value(0);
                r.append(a0.as_str());
                proof {
                    assert(r@ =~= ("execute if ".view() + spec_cmp_eq(source@, 0) + " run ".view()
                        + spec_pure_assign_value(score@, 0)));
                }
                Ok(r)
            } else if str_eq(operator, "|") {
                let mut r = String::from_str("execute unless ");
                let c0 = cmp_eq(source, 0);
                r.append(c0.as_str());
                r.append(" run ");
                let a1 = score.pure_assign_value(1);
                r.append(a1.as_str());
                proof {
                    assert(r@ =~= ("execute unless ".view() + spec_cmp_eq(source@, 0)
                        + " run ".view() + spec_pure_assign_value(score@, 1)));
                }
                Ok(r)
            } else {
                Err(EvaluateError::UnknownOperatorGiven(String::from_str(operator)))
            }
        },
        _ => Err(
            EvaluateError::OperationOccuredBetweenUnsupportedTypes(
                source.data_type,
                score.data_type,
            ),
        ),
    }
}

fn calc_bool(score: &Scoreboard, operator: &str, source: bool) -> (r: Result<
    String,
    EvaluateError,
>)
    ensures
        cmd_res_view(r) == spec_calc_bln(score@, operator@, source),
{
    if str_eq(operator, "&") {
        let mut r = String::from_str("execute unless ");
        if source {
            let c0 = cmp_eq(score, 0);
            r.append(c0.as_str());
            r.append(" run ");
            let a1 = score.pure_assign_value(1);
            r.append(a1.as_str());
            proof {
                assert(r@ =~= ("execute unless ".view() + spec_cmp_eq(score@, 0) + " run ".view()
                    + spec_pure_assign_value(score@, 1)));
            }
        } else {
            let c0 = cmp_eq(score, 0);
            r.append(c0.as_str());
            r.append(" run ");
            let a0 = score.pure_assign_value(0);
            r.append(a0.as_str());
            proof {
                assert(r@ =~= ("execute unless ".view() + spec_cmp_eq(score@, 0) + " run ".view()
                    + spec_pure_assign_value(score@, 0)));
            }
        }
        Ok(r)
    } else if str_eq(operator, "|") {
        if source {
            Ok(score.pure_assign_value(1))
        } else {
            let r = String::new();
            Ok(r)
        }
    } else {
        Err(EvaluateError::UnknownOperatorGiven(String::from_str(operator)))
    }
}

/// Boolean-target operation lowering.
pub fn calc(score: &Scoreboard, operator: &str, value: &Calcable) -> (r: Result<
    String,
    EvaluateError,
>)
    ensures
        cmd_res_view(r) == spec_calc(score@, operator@, value@),
{
    match value {
        Calcable::Scr(s) => calc_score(score, operator, s),
        Calcable::Bln(b) => calc_bool(score, operator, *b),
        _ => Err(
            EvaluateError::OperationOccuredBetweenUnsupportedTypes(
                score.data_type,
                value.get_type(),
            ),
        ),
    }
}

/// Boolean-target assignment lowering.
pub fn assign(score: &Scoreboard, value: &Calcable) -> (r: Result<String, EvaluateError>)
    ensures
        cmd_res_view(r) == spec_assign(score@, value@),
{
    match value {
        Calcable::Bln(b) => {
            if *b {
                Ok(score.pure_assign_value(1))
            } else {
                Ok(score.pure_assign_value(0))
            }
        },
        Calcable::Scr(s) => {
            match s.data_type {
                Types::Bln => Ok(score.pure_assign_score(s)),
                _ => Err(
                    EvaluateError::AssignOccuredBetweenUnsupportedTypes(
                        value.get_type(),
                        score.data_type,
                    ),
                ),
            }
        },
        _ => Err(
            EvaluateError::AssignOccuredBetweenUnsupportedTypes(
                value.get_type(),
                score.data_type,
            ),
        ),
    }
}

/// Boolean-target comparison lowering.
pub fn compare(score: &Scoreboard, operator: &str, value: &Calcable) -> (r: Result<
    String,
    EvaluateError,
>)
    ensures
        cmd_res_view(r) == spec_compare(score@, operator@, value@),
{
    if str_eq(operator, "==") {
        match value {
            Calcable::Scr(s) => {
                match s.data_type {
                    Types::Bln => Ok(score.pure_compare_score(operator, s)),
                    _ => Err(
                        EvaluateError::ComparementOccuredBetweenUnsupportedTypes(
                            score.data_type,
                            value.get_type(),
                        ),
                    ),
                }
            },
            Calcable::Bln(b) => {
                if *b {
                    Ok(cmp_eq(score, 1))
                } else {
                    Ok(cmp_eq(score, 0))
                }
            },
            _ => Err(
                EvaluateError::ComparementOccuredBetweenUnsupportedTypes(
                    score.data_type,
                    value.get_type(),
                ),
            ),
        }
    } else {
        Err(EvaluateError::UnknownOperatorGiven(String::from_str(operator)))
    }
}

} // verus!
