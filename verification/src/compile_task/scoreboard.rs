//! Typed scoreboard descriptors and the command strings that operate on them.
use vstd::prelude::*;
use vstd::string::*;

use crate::compile_task::evaluater::{cmd_res_view, pair_res_view, EvalErrV, EvaluateError};
use crate::compile_task::mcfunction::MCFunction;
use crate::compile_task::mcfunction::McfV;
use crate::text::{
    dup_string_vec, i64_to_string, join_strings, push_char, spec_i64_str, spec_join, str_eq,
};

verus! {

/// The scalar types of the source language; `Non` marks an untyped slot.
#[derive(Debug, Clone, Copy, PartialEq, Eq, Structural)]
pub enum Types {
    Int,
    Flt,
    Bln,
    Non,
}

/// Descriptor of one scoreboard entry: a named, typed storage slot.
#[derive(Debug, Clone)]
pub struct Scoreboard {
    pub name: String,
    pub data_type: Types,
    pub scope: Vec<String>,
}

/// `Scoreboard` with its texts abstracted to character sequences.
#[verifier::ext_equal]
pub struct ScorebV {
    pub name: Seq<char>,
    pub data_type: Types,
    pub scope: Seq<Seq<char>>,
}

impl View for Scoreboard {
    type V = ScorebV;

    open spec fn view(&self) -> ScorebV {
        ScorebV {
            name: self.name@,
            data_type: self.data_type,
            scope: self.scope@.map_values(|s: String| s@),
        }
    }
}

/// An operand of a lowered operation: a literal, a scoreboard or a function
/// whose return slot stands for its value.  A float literal is carried as its
/// fixed-point encoding, `round(value * 1000)`.
pub enum Calcable {
    Int(i32),
    Flt(i64),
    Bln(bool),
    Scr(Scoreboard),
    Mcf(MCFunction),
}

/// `Calcable` over views.
pub enum CalcV {
    Int(int),
    Flt(int),
    Bln(bool),
    Scr(ScorebV),
    Mcf(McfV),
}

impl View for Calcable {
    type V = CalcV;

    open spec fn view(&self) -> CalcV {
        match self {
            Calcable::Int(i) => CalcV::Int(*i as int),
            Calcable::Flt(f) => CalcV::Flt(*f as int),
            Calcable::Bln(b) => CalcV::Bln(*b),
            Calcable::Scr(s) => CalcV::Scr(s@),
            Calcable::Mcf(f) => CalcV::Mcf(f@),
        }
    }
}

/// The type an operand contributes to inference and dispatch.
pub open spec fn calcv_type(v: CalcV) -> Types {
    match v {
        CalcV::Int(_) => Types::Int,
        CalcV::Flt(_) => Types::Flt,
        CalcV::Bln(_) => Types::Bln,
        CalcV::Scr(s) => s.data_type,
        CalcV::Mcf(f) => f.ret_container.data_type,
    }
}

impl Calcable {
    pub fn get_type(&self) -> (r: Types)
        ensures
            r == calcv_type(self@),
    {
        match self {
            Calcable::Int(_) => Types::Int,
            Calcable::Flt(_) => Types::Flt,
            Calcable::Bln(_) => Types::Bln,
            Calcable::Scr(s) => s.data_type,
            Calcable::Mcf(f) => f.ret_container.data_type,
        }
    }
}

/// The name an entry carries in emitted commands: `#` then the scope segments
/// and the name, all joined with dots.
pub open spec fn spec_mcname(s: ScorebV) -> Seq<char> {
    seq!['#'] + spec_join(s.scope.push(s.name), ".".view())
}

/// `scoreboard players reset <entry> MCPP.var`
pub open spec fn spec_free(s: ScorebV) -> Seq<char> {
    "scoreboard players reset ".view() + spec_mcname(s) + " MCPP.var".view()
}

/// The scoreboard that a numeric literal `n` is seeded into.
pub open spec fn spec_const_score(n: int) -> ScorebV {
    ScorebV { name: spec_i64_str(n), data_type: Types::Int, scope: seq!["CONSTANT".view()] }
}

/// `scoreboard players set <entry> MCPP.var <v>`
pub open spec fn spec_pure_assign_value(s: ScorebV, v: int) -> Seq<char> {
    "scoreboard players set ".view() + spec_mcname(s) + " MCPP.var ".view() + spec_i64_str(v)
}

/// `scoreboard players operation <entry> MCPP.var = <src> MCPP.var`
pub open spec fn spec_pure_assign_score(s: ScorebV, src: ScorebV) -> Seq<char> {
    "scoreboard players operation ".view() + spec_mcname(s) + " MCPP.var = ".view() + spec_mcname(
        src,
    ) + " MCPP.var".view()
}

/// `scoreboard players operation <entry> MCPP.var <op>= <src> MCPP.var`
pub open spec fn spec_pure_calc_score(s: ScorebV, op: Seq<char>, src: ScorebV) -> Seq<char> {
    "scoreboard players operation ".view() + spec_mcname(s) + " MCPP.var ".view() + op
        + "= ".view() + spec_mcname(src) + " MCPP.var".view()
}

/// `+`/`-` lower to direct add/remove; any other operator seeds a constant
/// entry and applies the operation form against it.
pub open spec fn spec_pure_calc_num(s: ScorebV, op: Seq<char>, num: int) -> Seq<char> {
    if op == "+".view() {
        "scoreboard players add ".view() + spec_mcname(s) + " MCPP.var ".view() + spec_i64_str(num)
    } else if op == "-".view() {
        "scoreboard players remove ".view() + spec_mcname(s) + " MCPP.var ".view()
            + spec_i64_str(num)
    } else {
        spec_pure_assign_value(spec_const_score(num), num) + seq!['\n'] + spec_pure_calc_score(
            s,
            op,
            spec_const_score(num),
        )
    }
}

/// `score <entry> MCPP.var <op> <src> MCPP.var`
pub open spec fn spec_pure_compare_score(s: ScorebV, op: Seq<char>, src: ScorebV) -> Seq<char> {
    "score ".view() + spec_mcname(s) + " MCPP.var ".view() + op + " ".view() + spec_mcname(src)
        + " MCPP.var".view()
}

/// `score <entry> MCPP.var matches <range>` for `==`, `>=` and `<=`.
pub open spec fn spec_pure_compare_value(s: ScorebV, op: Seq<char>, v: int) -> Result<
    Seq<char>,
    EvalErrV,
> {
    if op == "==".view() || op == ">=".view() || op == "<=".view() {
        Ok(
            "score ".view() + spec_mcname(s) + " MCPP.var matches ".view()
                + (if op == "==".view() {
                spec_i64_str(v)
            } else if op == ">=".view() {
                spec_i64_str(v) + "..".view()
            } else {
                "..".view() + spec_i64_str(v)
            }),
        )
    } else {
        Err(EvalErrV::UnknownOperatorGiven(op))
    }
}

/// The `#Calc.TEMP` slot the lowering scratches in.
pub open spec fn spec_temp_score() -> ScorebV {
    ScorebV { name: "TEMP".view(), data_type: Types::Int, scope: seq!["Calc".view()] }
}

/// The shared temporary the evaluator accumulates into.
pub fn get_temp_score() -> (r: Scoreboard)
    ensures
        r@ == spec_temp_score(),
{
    let mut scope: Vec<String> = Vec::new();
    scope.push(String::from_str("Calc"));
    let r = Scoreboard { name: String::from_str("TEMP"), data_type: Types::Int, scope };
    proof {
        assert(r@ =~= spec_temp_score());
    }
    r
}

/// The `#CONSTANT.<n>` entry that seeds the literal `n`.
fn const_score(n: i64) -> (r: Scoreboard)
    ensures
        r@ == spec_const_score(n as int),
{
    let mut scope: Vec<String> = Vec::new();
    scope.push(String::from_str("CONSTANT"));
    let r = Scoreboard { name: i64_to_string(n), data_type: Types::Int, scope };
    proof {
        assert(r@.scope =~= spec_const_score(n as int).scope);
    }
    r
}

/// Operation lowering dispatched on the target's type.
pub open spec fn spec_calc(s: ScorebV, op: Seq<char>, v: CalcV) -> Result<Seq<char>, EvalErrV> {
    match s.data_type {
        Types::Int => crate::compile_task::int_ops::spec_calc(s, op, v),
        Types::Flt => crate::compile_task::float_ops::spec_calc(s, op, v),
        Types::Bln => crate::compile_task::bool_ops::spec_calc(s, op, v),
        Types::Non => Err(
            EvalErrV::OperationOccuredBetweenUnsupportedTypes(Types::Non, calcv_type(v)),
        ),
    }
}

/// Assignment lowering dispatched on the target's type.
pub open spec fn spec_assign(s: ScorebV, v: CalcV) -> Result<Seq<char>, EvalErrV> {
    match s.data_type {
        Types::Int => crate::compile_task::int_ops::spec_assign(s, v),
        Types::Flt => crate::compile_task::float_ops::spec_assign(s, v),
        Types::Bln => crate::compile_task::bool_ops::spec_assign(s, v),
        Types::Non => Err(
            EvalErrV::AssignOccuredBetweenUnsupportedTypes(calcv_type(v), Types::Non),
        ),
    }
}

/// Comparison lowering: `!=` is reduced to `==` and the predicate prefixed
/// with `unless` instead of `if`.
pub open spec fn spec_compare(s: ScorebV, op: Seq<char>, v: CalcV) -> Result<
    (Seq<char>, Seq<char>),
    EvalErrV,
> {
    let inverted = op == "!=".view();
    let inner = if inverted {
        "==".view()
    } else {
        op
    };
    let lowered = match s.data_type {
        Types::Int => crate::compile_task::int_ops::spec_compare(s, inner, v),
        Types::Flt => crate::compile_task::float_ops::spec_compare(s, inner, v),
        Types::Bln => match crate::compile_task::bool_ops::spec_compare(s, inner, v) {
            Ok(p) => Ok((Seq::<char>::empty(), p)),
            Err(e) => Err(e),
        },
        Types::Non => Err(
            EvalErrV::ComparementOccuredBetweenUnsupportedTypes(s.data_type, calcv_type(v)),
        ),
    };
    match lowered {
        Ok(p) => Ok(
            (
                p.0,
                (if inverted {
                    "unless ".view()
                } else {
                    "if ".view()
                }) + p.1,
            ),
        ),
        Err(e) => Err(e),
    }
}

impl PartialEq for Scoreboard {
    /// Two scoreboards are equal exactly when their mangled names are equal.
    fn eq(&self, other: &Scoreboard) -> (r: bool) {
        let a = self.mcname();
        let b = other.mcname();
        a == b
    }
}

impl vstd::std_specs::cmp::PartialEqSpecImpl for Scoreboard {
    open spec fn obeys_eq_spec() -> bool {
        true
    }

    open spec fn eq_spec(&self, other: &Scoreboard) -> bool {
        spec_mcname(self@) == spec_mcname(other@)
    }
}

impl Scoreboard {
    /// Lowers `<self> <operator>= <source>` according to this entry's type.
    pub fn calc(&self, operator: &str, source: &Calcable) -> (r: Result<String, EvaluateError>)
        ensures
            cmd_res_view(r) == spec_calc(self@, operator@, source@),
    {
        match self.data_type {
            Types::Int => crate::compile_task::int_ops::calc(self, operator, source),
            Types::Flt => crate::compile_task::float_ops::calc(self, operator, source),
            Types::Bln => crate::compile_task::bool_ops::calc(self, operator, source),
            Types::Non => Err(
                EvaluateError::OperationOccuredBetweenUnsupportedTypes(
                    Types::Non,
                    source.get_type(),
                ),
            ),
        }
    }

    /// Lowers an assignment into this entry according to its type.
    pub fn assign(&self, source: &Calcable) -> (r: Result<String, EvaluateError>)
        ensures
            cmd_res_view(r) == spec_assign(self@, source@),
    {
        match self.data_type {
            Types::Int => crate::compile_task::int_ops::assign(self, source),
            Types::Flt => crate::compile_task::float_ops::assign(self, source),
            Types::Bln => crate::compile_task::bool_ops::assign(self, source),
            Types::Non => Err(
                EvaluateError::AssignOccuredBetweenUnsupportedTypes(
                    source.get_type(),
                    Types::Non,
                ),
            ),
        }
    }

    /// Lowers a comparison of this entry with an operand into preamble
    /// commands and an `if`/`unless` predicate fragment.
    pub fn compare(&self, operator: &str, source: &Calcable) -> (r: Result<
        (String, String),
        EvaluateError,
    >)
        ensures
            pair_res_view(r) == spec_compare(self@, operator@, source@),
    {
        let do_invert = str_eq(operator, "!=");
        let inner: &str = if do_invert {
            "=="
        } else {
            operator
        };
        let lowered = match self.data_type {
            Types::Int => crate::compile_task::int_ops::compare(self, inner, source),
            Types::Flt => crate::compile_task::float_ops::compare(self, inner, source),
            Types::Bln => {
                match crate::compile_task::bool_ops::compare(self, inner, source) {
                    Ok(p) => Ok((String::new(), p)),
                    Err(e) => Err(e),
                }
            },
            Types::Non => Err(
                EvaluateError::ComparementOccuredBetweenUnsupportedTypes(
                    self.data_type,
                    source.get_type(),
                ),
            ),
        };
        match lowered {
            Ok(p) => {
                let mut pred = if do_invert {
                    String::from_str("unless ")
                } else {
                    String::from_str("if ")
                };
                pred.append(p.1.as_str());
                Ok((p.0, pred))
            },
            Err(e) => Err(e),
        }
    }

    /// A copy whose view equals this one's.
    pub fn duplicate(&self) -> (r: Scoreboard)
        ensures
            r@ == self@,
    {
        let r = Scoreboard {
            name: self.name.clone(),
            data_type: self.data_type,
            scope: dup_string_vec(&self.scope),
        };
        r
    }

    /// The name this entry carries in emitted commands.
    pub fn mcname(&self) -> (r: String)
        ensures
            r@ == spec_mcname(self@),
    {
        let mut last = dup_string_vec(&self.scope);
        last.push(self.name.clone());
        let joined = join_strings(&last, ".");
        let mut r = String::new();
        push_char(&mut r, '#');
        r.append(joined.as_str());
        proof {
            assert(last@.map_values(|s: String| s@) =~= self@.scope.push(self@.name));
            assert(r@ =~= spec_mcname(self@));
        }
        r
    }

    /// The command releasing this entry.
    pub fn free(&self) -> (r: String)
        ensures
            r@ == spec_free(self@),
    {
        let mut r = String::from_str("scoreboard players reset ");
        let mc = self.mcname();
        r.append(mc.as_str());
        r.append(" MCPP.var");
        proof {
            assert(r@ =~= spec_free(self@));
        }
        r
    }

    /// Direct add/remove for `+`/`-`; otherwise seeds a constant entry and
    /// applies the operation form.
    pub fn pure_calc_num(&self, operator: &str, num: i64) -> (r: Result<String, EvaluateError>)
        ensures
            r is Ok,
            cmd_res_view(r) == Ok::<Seq<char>, EvalErrV>(
                spec_pure_calc_num(self@, operator@, num as int),
            ),
    {
        if str_eq(operator, "+") || str_eq(operator, "-") {
            let mut r = if str_eq(operator, "+") {
                String::from_str("scoreboard players add ")
            } else {
                String::from_str("scoreboard players remove ")
            };
            let mc = self.mcname();
            r.append(mc.as_str());
            r.append(" MCPP.var ");
            let n = i64_to_string(num);
            r.append(n.as_str());
            proof {
                assert(r@ =~= spec_pure_calc_num(self@, operator@, num as int));
            }
            Ok(r)
        } else {
            let source = const_score(num);
            let mut r = source.pure_assign_value_exec(num);
            push_char(&mut r, '\n');
            let op_cmd = self.pure_calc_score(operator, &source);
            r.append(op_cmd.as_str());
            proof {
                assert(r@ =~= spec_pure_calc_num(self@, operator@, num as int));
            }
            Ok(r)
        }
    }

    /// The operation form `<self> <op>= <source>`.
    pub fn pure_calc_score(&self, operator: &str, source: &Scoreboard) -> (r: String)
        ensures
            r@ == spec_pure_calc_score(self@, operator@, source@),
    {
        let mut r = String::from_str("scoreboard players operation ");
        let mc = self.mcname();
        r.append(mc.as_str());
        r.append(" MCPP.var ");
        r.append(operator);
        r.append("= ");
        let src = source.mcname();
        r.append(src.as_str());
        r.append(" MCPP.var");
        proof {
            assert(r@ =~= spec_pure_calc_score(self@, operator@, source@));
        }
        r
    }

    /// Sets this entry to the literal value.
    pub fn pure_assign_value(&self, value: i64) -> (r: String)
        ensures
            r@ == spec_pure_assign_value(self@, value as int),
    {
        self.pure_assign_value_exec(value)
    }

    fn pure_assign_value_exec(&self, value: i64) -> (r: String)
        ensures
            r@ == spec_pure_assign_value(self@, value as int),
    {
        let mut r = String::from_str("scoreboard players set ");
        let mc = self.mcname();
        r.append(mc.as_str());
        r.append(" MCPP.var ");
        let n = i64_to_string(value);
        r.append(n.as_str());
        proof {
            assert(r@ =~= spec_pure_assign_value(self@, value as int));
        }
        r
    }

    /// Copies another entry into this one.
    pub fn pure_assign_score(&self, value: &Scoreboard) -> (r: String)
        ensures
            r@ == spec_pure_assign_score(self@, value@),
    {
        let mut r = String::from_str("scoreboard players operation ");
        let mc = self.mcname();
        r.append(mc.as_str());
        r.append(" MCPP.var = ");
        let src = value.mcname();
        r.append(src.as_str());
        r.append(" MCPP.var");
        proof {
            assert(r@ =~= spec_pure_assign_score(self@, value@));
        }
        r
    }

    /// The score-to-score predicate fragment.
    pub fn pure_compare_score(&self, operator: &str, value: &Scoreboard) -> (r: String)
        ensures
            r@ == spec_pure_compare_score(self@, operator@, value@),
    {
        let mut r = String::from_str("score ");
        let mc = self.mcname();
        r.append(mc.as_str());
        r.append(" MCPP.var ");
        r.append(operator);
        r.append(" ");
        let src = value.mcname();
        r.append(src.as_str());
        r.append(" MCPP.var");
        proof {
            assert(r@ =~= spec_pure_compare_score(self@, operator@, value@));
        }
        r
    }

    /// The `matches` predicate fragment for `==`, `>=` and `<=`; any other
    /// operator is refused.
    pub fn pure_compare_value(&self, operator: &str, value: i64) -> (r: Result<
        String,
        EvaluateError,
    >)
        ensures
            cmd_res_view(r) == spec_pure_compare_value(self@, operator@, value as int),
    {
        if str_eq(operator, "==") || str_eq(operator, ">=") || str_eq(operator, "<=") {
            let mut r = String::from_str("score ");
            let mc = self.mcname();
            r.append(mc.as_str());
            r.append(" MCPP.var matches ");
            let n = i64_to_string(value);
            if str_eq(operator, "==") {
                r.append(n.as_str());
            } else if str_eq(operator, ">=") {
                r.append(n.as_str());
                r.append("..");
            } else {
                r.append("..");
                r.append(n.as_str());
            }
            proof {
                assert(r@ =~= ("score ".view() + spec_mcname(self@) + " MCPP.var matches ".view()
                    + (if operator@ == "==".view() {
                    spec_i64_str(value as int)
                } else if operator@ == ">=".view() {
                    spec_i64_str(value as int) + "..".view()
                } else {
                    "..".view() + spec_i64_str(value as int)
                })));
            }
            Ok(r)
        } else {
            Err(EvaluateError::UnknownOperatorGiven(String::from_str(operator)))
        }
    }

    /// Seeds the literal into a constant entry and compares this entry
    /// against it score to score; `<` and `>` are lowered this way.
    pub fn pure_compare_value_not_equal(&self, operator: &str, value: i64) -> (r: (String, String))
        ensures
            r.0@ == spec_pure_assign_value(spec_const_score(value as int), value as int),
            r.1@ == spec_pure_compare_score(
                self@,
                operator@,
                spec_const_score(value as int),
            ),
    {
        let constant = const_score(value);
        let seed = constant.pure_assign_value_exec(value);
        let cmp = self.pure_compare_score(operator, &constant);
        (seed, cmp)
    }
}

} // verus!
