//! Formula evaluation: lexing, infix-to-RPN reordering and command lowering.
use vstd::prelude::*;
use vstd::string::*;

use crate::compile_task::mcfunction::{mcf_view, MCFunction, McfV};
use crate::compile_task::scoreboard::{CalcV, Calcable, Scoreboard, ScorebV, Types};

verus! {

/// The failures that can arise while a formula is evaluated.
#[derive(Debug, Clone)]
pub enum EvaluateError {
    OperationOccuredBetweenUnsupportedTypes(Types, Types),
    AssignOccuredBetweenUnsupportedTypes(Types, Types),
    ComparementOccuredBetweenUnsupportedTypes(Types, Types),
    UndefinedFunctionCalled(String),
    UndefinedVariableReferenced(String),
    CouldntParseANumber(String),
    UnknownOperatorGiven(String),
    UnknownTypeAnnotation(String),
    UnbalancedBrackets,
    InvalidFormula,
}

/// `EvaluateError` with its text payloads abstracted to character sequences.
pub enum EvalErrV {
    OperationOccuredBetweenUnsupportedTypes(Types, Types),
    AssignOccuredBetweenUnsupportedTypes(Types, Types),
    ComparementOccuredBetweenUnsupportedTypes(Types, Types),
    UndefinedFunctionCalled(Seq<char>),
    UndefinedVariableReferenced(Seq<char>),
    CouldntParseANumber(Seq<char>),
    UnknownOperatorGiven(Seq<char>),
    UnknownTypeAnnotation(Seq<char>),
    UnbalancedBrackets,
    InvalidFormula,
}

impl View for EvaluateError {
    type V = EvalErrV;

    open spec fn view(&self) -> EvalErrV {
        match self {
            EvaluateError::OperationOccuredBetweenUnsupportedTypes(l, r) =>
                EvalErrV::OperationOccuredBetweenUnsupportedTypes(*l, *r),
            EvaluateError::AssignOccuredBetweenUnsupportedTypes(l, r) =>
                EvalErrV::AssignOccuredBetweenUnsupportedTypes(*l, *r),
            EvaluateError::ComparementOccuredBetweenUnsupportedTypes(l, r) =>
                EvalErrV::ComparementOccuredBetweenUnsupportedTypes(*l, *r),
            EvaluateError::UndefinedFunctionCalled(n) => EvalErrV::UndefinedFunctionCalled(n@),
            EvaluateError::UndefinedVariableReferenced(n) =>
                EvalErrV::UndefinedVariableReferenced(n@),
            EvaluateError::CouldntParseANumber(n) => EvalErrV::CouldntParseANumber(n@),
            EvaluateError::UnknownOperatorGiven(n) => EvalErrV::UnknownOperatorGiven(n@),
            EvaluateError::UnknownTypeAnnotation(n) => EvalErrV::UnknownTypeAnnotation(n@),
            EvaluateError::UnbalancedBrackets => EvalErrV::UnbalancedBrackets,
            EvaluateError::InvalidFormula => EvalErrV::InvalidFormula,
        }
    }
}

/// The source spelling of a type.
pub open spec fn spec_types_str(t: Types) -> Seq<char> {
    match t {
        Types::Int => "int".view(),
        Types::Flt => "float".view(),
        Types::Bln => "bool".view(),
        Types::Non => "none".view(),
    }
}

/// The diagnostic text of an evaluation failure.
pub open spec fn spec_err_msg(e: EvalErrV) -> Seq<char> {
    match e {
        EvalErrV::AssignOccuredBetweenUnsupportedTypes(value, onto) => "Assigning ".view()
            + spec_types_str(value) + " type value onto ".view() + spec_types_str(onto)
            + " type variable is undefined operation.".view(),
        EvalErrV::OperationOccuredBetweenUnsupportedTypes(l, r) => "Calclation between ".view()
            + spec_types_str(l) + " and ".view() + spec_types_str(r)
            + " is undefined operation.".view(),
        EvalErrV::ComparementOccuredBetweenUnsupportedTypes(l, r) => "Comparement between ".view()
            + spec_types_str(l) + " and ".view() + spec_types_str(r)
            + " is undefined operation.".view(),
        EvalErrV::UndefinedFunctionCalled(n) => "An undefined function, ".view() + n
            + "(...) called.".view(),
        EvalErrV::UndefinedVariableReferenced(n) => "An undefined variable, ".view() + n
            + " referenced.".view(),
        EvalErrV::CouldntParseANumber(n) => n + " couldn't be solved as number.".view(),
        EvalErrV::UnknownOperatorGiven(n) => n + " couldn't be solved as operator.".view(),
        EvalErrV::UnknownTypeAnnotation(n) => "The variable was annotated as ".view() + n
            + ", But ".view() + n + " is unknown".view(),
        EvalErrV::UnbalancedBrackets =>
            "Amount of right parenthese(s) and left parenthese(s) must be equal.".view(),
        EvalErrV::InvalidFormula => "Invalid formula given.".view(),
    }
}

impl Types {
    /// The source spelling of this type.
    pub fn as_str(&self) -> (r: &'static str)
        ensures
            r@ == spec_types_str(*self),
    {
        match self {
            Types::Int => "int",
            Types::Flt => "float",
            Types::Bln => "bool",
            Types::Non => "none",
        }
    }
}

impl EvaluateError {
    /// The diagnostic text of this failure.
    pub fn message(&self) -> (r: String)
        ensures
            r@ == spec_err_msg(self@),
    {
        match self {
            EvaluateError::AssignOccuredBetweenUnsupportedTypes(value, onto) => {
                let mut r = String::from_str("Assigning ");
                r.append(value.as_str());
                r.append(" type value onto ");
                r.append(onto.as_str());
                r.append(" type variable is undefined operation.");
                proof {
                    assert(r@ =~= spec_err_msg(self@));
                }
                r
            },
            EvaluateError::OperationOccuredBetweenUnsupportedTypes(l, rt) => {
                let mut r = String::from_str("Calclation between ");
                r.append(l.as_str());
                r.append(" and ");
                r.append(rt.as_str());
                r.append(" is undefined operation.");
                proof {
                    assert(r@ =~= spec_err_msg(self@));
                }
                r
            },
            EvaluateError::ComparementOccuredBetweenUnsupportedTypes(l, rt) => {
                let mut r = String::from_str("Comparement between ");
                r.append(l.as_str());
                r.append(" and ");
                r.append(rt.as_str());
                r.append(" is undefined operation.");
                proof {
                    assert(r@ =~= spec_err_msg(self@));
                }
                r
            },
            EvaluateError::UndefinedFunctionCalled(n) => {
                let mut r = String::from_str("An undefined function, ");
                r.append(n.as_str());
                r.append("(...) called.");
                proof {
                    assert(r@ =~= spec_err_msg(self@));
                }
                r
            },
            EvaluateError::UndefinedVariableReferenced(n) => {
                let mut r = String::from_str("An undefined variable, ");
                r.append(n.as_str());
                r.append(" referenced.");
                proof {
                    assert(r@ =~= spec_err_msg(self@));
                }
                r
            },
            EvaluateError::CouldntParseANumber(n) => {
                let mut r = String::from_str(n.as_str());
                r.append(" couldn't be solved as number.");
                proof {
                    assert(r@ =~= spec_err_msg(self@));
                }
                r
            },
            EvaluateError::UnknownOperatorGiven(n) => {
                let mut r = String::from_str(n.as_str());
                r.append(" couldn't be solved as operator.");
                proof {
                    assert(r@ =~= spec_err_msg(self@));
                }
                r
            },
            EvaluateError::UnknownTypeAnnotation(n) => {
                let mut r = String::from_str("The variable was annotated as ");
                r.append(n.as_str());
                r.append(", But ");
                r.append(n.as_str());
                r.append(" is unknown");
                proof {
                    assert(r@ =~= spec_err_msg(self@));
                }
                r
            },
            EvaluateError::UnbalancedBrackets => {
                String::from_str(
                    "Amount of right parenthese(s) and left parenthese(s) must be equal.",
                )
            },
            EvaluateError::InvalidFormula => { String::from_str("Invalid formula given.") },
        }
    }
}

/// A command result with the command text abstracted to its characters.
pub open spec fn cmd_res_view(r: Result<String, EvaluateError>) -> Result<Seq<char>, EvalErrV> {
    match r {
        Ok(s) => Ok(s@),
        Err(e) => Err(e@),
    }
}

/// A command-pair result with both texts abstracted to their characters.
pub open spec fn pair_res_view(r: Result<(String, String), EvaluateError>) -> Result<
    (Seq<char>, Seq<char>),
    EvalErrV,
> {
    match r {
        Ok(p) => Ok((p.0@, p.1@)),
        Err(e) => Err(e@),
    }
}

/// The arithmetic operators, parentheses included.
#[derive(Debug, Clone, Copy, PartialEq, Eq, Structural)]
pub enum Operator {
    Add,
    Rem,
    Mul,
    Div,
    Sur,
    Pow,
    LPt,
    RPt,
}

/// Binding strength: addition lowest, exponentiation highest; parentheses
/// are handled specially by the reorderer.
pub open spec fn spec_priority(o: Operator) -> int {
    match o {
        Operator::Add | Operator::Rem => 0,
        Operator::Mul | Operator::Div | Operator::Sur => 1,
        Operator::Pow => 2,
        Operator::LPt | Operator::RPt => 3,
    }
}

/// The character an operator was lexed from.
pub open spec fn spec_op_str(o: Operator) -> Seq<char> {
    match o {
        Operator::Add => "+".view(),
        Operator::Rem => "-".view(),
        Operator::Mul => "*".view(),
        Operator::Div => "/".view(),
        Operator::Sur => "%".view(),
        Operator::Pow => "^".view(),
        Operator::LPt => "(".view(),
        Operator::RPt => ")".view(),
    }
}

impl Operator {
    pub fn get_priority(&self) -> (r: i32)
        ensures
            r as int == spec_priority(*self),
    {
        match self {
            Operator::Add | Operator::Rem => 0,
            Operator::Mul | Operator::Div | Operator::Sur => 1,
            Operator::Pow => 2,
            Operator::LPt | Operator::RPt => 3,
        }
    }

    /// The operator's source text.
    pub fn as_str(&self) -> (r: &'static str)
        ensures
            r@ == spec_op_str(*self),
    {
        match self {
            Operator::Add => "+",
            Operator::Rem => "-",
            Operator::Mul => "*",
            Operator::Div => "/",
            Operator::Sur => "%",
            Operator::Pow => "^",
            Operator::LPt => "(",
            Operator::RPt => ")",
        }
    }
}

/// Maps an operator's source text back to the operator.
pub open spec fn spec_to_operator(s: Seq<char>) -> Result<Operator, EvalErrV> {
    if s == "+".view() {
        Ok(Operator::Add)
    } else if s == "-".view() {
        Ok(Operator::Rem)
    } else if s == "*".view() {
        Ok(Operator::Mul)
    } else if s == "/".view() {
        Ok(Operator::Div)
    } else if s == "%".view() {
        Ok(Operator::Sur)
    } else if s == "^".view() {
        Ok(Operator::Pow)
    } else if s == "(".view() {
        Ok(Operator::LPt)
    } else if s == ")".view() {
        Ok(Operator::RPt)
    } else {
        Err(EvalErrV::UnknownOperatorGiven(s))
    }
}

/// Converts an operator's source text to the `Operator` enum.
pub fn to_operator(input: &str) -> (r: Result<Operator, EvaluateError>)
    ensures
        (match r {
            Ok(o) => Ok::<Operator, EvalErrV>(o),
            Err(e) => Err(e@),
        }) == spec_to_operator(input@),
{
    if crate::text::str_eq(input, "+") {
        Ok(Operator::Add)
    } else if crate::text::str_eq(input, "-") {
        Ok(Operator::Rem)
    } else if crate::text::str_eq(input, "*") {
        Ok(Operator::Mul)
    } else if crate::text::str_eq(input, "/") {
        Ok(Operator::Div)
    } else if crate::text::str_eq(input, "%") {
        Ok(Operator::Sur)
    } else if crate::text::str_eq(input, "^") {
        Ok(Operator::Pow)
    } else if crate::text::str_eq(input, "(") {
        Ok(Operator::LPt)
    } else if crate::text::str_eq(input, ")") {
        Ok(Operator::RPt)
    } else {
        Err(EvaluateError::UnknownOperatorGiven(String::from_str(input)))
    }
}

/// One token of a formula.  A float literal carries its fixed-point
/// encoding, `round(value * 1000)`.
pub enum FormulaToken {
    Int(i32),
    Float(i64),
    Scoreboard(Scoreboard),
    Operator(Operator),
    MCFunction(MCFunction),
}

/// `FormulaToken` over views.
pub enum TokV {
    Int(int),
    Float(int),
    Scoreboard(ScorebV),
    Operator(Operator),
    MCFunction(McfV),
}

impl View for FormulaToken {
    type V = TokV;

    open spec fn view(&self) -> TokV {
        match self {
            FormulaToken::Int(i) => TokV::Int(*i as int),
            FormulaToken::Float(f) => TokV::Float(*f as int),
            FormulaToken::Scoreboard(s) => TokV::Scoreboard(s@),
            FormulaToken::Operator(o) => TokV::Operator(*o),
            FormulaToken::MCFunction(m) => TokV::MCFunction(mcf_view(*m)),
        }
    }
}

/// The views of a token list.
pub open spec fn toks_view(v: Seq<FormulaToken>) -> Seq<TokV> {
    v.map_values(|t: FormulaToken| t@)
}

/// The type a token contributes to inference; operators contribute none.
pub open spec fn tokv_type(t: TokV) -> Types {
    match t {
        TokV::Int(_) => Types::Int,
        TokV::Float(_) => Types::Flt,
        TokV::Scoreboard(s) => s.data_type,
        TokV::MCFunction(m) => m.ret_container.data_type,
        TokV::Operator(_) => Types::Non,
    }
}

impl FormulaToken {
    pub fn get_type(&self) -> (r: Types)
        ensures
            r == tokv_type(self@),
    {
        match self {
            FormulaToken::Int(_) => Types::Int,
            FormulaToken::Float(_) => Types::Flt,
            FormulaToken::Scoreboard(s) => s.data_type,
            FormulaToken::MCFunction(m) => m.ret_container.data_type,
            FormulaToken::Operator(_) => Types::Non,
        }
    }
}

/// The non-operator tokens of a formula, in order.
pub open spec fn spec_operands(toks: Seq<TokV>) -> Seq<TokV> {
    toks.filter(|t: TokV| !(t is Operator))
}

/// The inferred type of a formula: the type of its first non-operator token.
pub open spec fn spec_guess_type(toks: Seq<TokV>) -> Types {
    tokv_type(spec_operands(toks)[0])
}

proof fn lemma_operands_skip(toks: Seq<TokV>, i: int)
    requires
        0 <= i <= toks.len(),
        forall|j: int| 0 <= j < i ==> toks[j] is Operator,
    ensures
        spec_operands(toks) == spec_operands(toks.skip(i)),
    decreases i,
{
    if i > 0 {
        lemma_filter_head_op(toks);
        assert forall|j: int| 0 <= j < i - 1 implies toks.skip(1)[j] is Operator by {
            assert(toks.skip(1)[j] == toks[j + 1]);
        }
        lemma_operands_skip(toks.skip(1), i - 1);
        assert(toks.skip(1).skip(i - 1) =~= toks.skip(i));
    } else {
        assert(toks.skip(0) =~= toks);
    }
}

proof fn lemma_filter_head_op(toks: Seq<TokV>)
    requires
        toks.len() > 0,
        toks[0] is Operator,
    ensures
        spec_operands(toks) == spec_operands(toks.skip(1)),
    decreases toks.len(),
{
    reveal_with_fuel(Seq::filter, 3);
    if toks.len() == 1 {
        assert(toks.drop_last() =~= Seq::<TokV>::empty());
        assert(spec_operands(toks) =~= spec_operands(toks.skip(1)));
    } else {
        lemma_filter_head_op(toks.drop_last());
        assert(toks.drop_last().skip(1) =~= toks.skip(1).drop_last());
        if !(toks.last() is Operator) {
            assert(toks.skip(1).last() == toks.last());
            assert(spec_operands(toks) =~= spec_operands(toks.skip(1)));
        } else {
            assert(spec_operands(toks) =~= spec_operands(toks.skip(1)));
        }
    }
}

proof fn lemma_filter_head_operand(toks: Seq<TokV>)
    requires
        toks.len() > 0,
        !(toks[0] is Operator),
    ensures
        spec_operands(toks).len() > 0,
        spec_operands(toks)[0] == toks[0],
    decreases toks.len(),
{
    reveal_with_fuel(Seq::filter, 3);
    if toks.len() == 1 {
        assert(toks.drop_last() =~= Seq::<TokV>::empty());
    } else {
        lemma_filter_head_operand(toks.drop_last());
    }
}

/// An operator character the lexer recognises.  `%` and `^` are understood
/// by `to_operator` but are not produced by the lexer.
pub open spec fn is_op_char(c: char) -> bool {
    c == '+' || c == '-' || c == '*' || c == '/' || c == '(' || c == ')'
}

/// Length of the digit run at the head of `s`.
pub open spec fn run_digits(s: Seq<char>) -> nat
    decreases s.len(),
{
    if s.len() > 0 && crate::text::is_digit(s[0]) {
        1 + run_digits(s.skip(1))
    } else {
        0
    }
}

/// Length of the identifier-character run at the head of `s`.
pub open spec fn run_ident(s: Seq<char>) -> nat
    decreases s.len(),
{
    if s.len() > 0 && crate::text::is_ident_char(s[0]) {
        1 + run_ident(s.skip(1))
    } else {
        0
    }
}

/// Index of the first occurrence of `c` in `s`, or `s.len()` when absent.
pub open spec fn spec_find_char(s: Seq<char>, c: char) -> nat
    decreases s.len(),
{
    if s.len() == 0 {
        0
    } else if s[0] == c {
        0
    } else {
        1 + spec_find_char(s.skip(1), c)
    }
}

proof fn lemma_run_digits_le(s: Seq<char>)
    ensures
        run_digits(s) <= s.len(),
    decreases s.len(),
{
    if s.len() > 0 && crate::text::is_digit(s[0]) {
        lemma_run_digits_le(s.skip(1));
    }
}

proof fn lemma_run_ident_le(s: Seq<char>)
    ensures
        run_ident(s) <= s.len(),
    decreases s.len(),
{
    if s.len() > 0 && crate::text::is_ident_char(s[0]) {
        lemma_run_ident_le(s.skip(1));
    }
}

pub proof fn lemma_find_char_le(s: Seq<char>, c: char)
    ensures
        spec_find_char(s, c) <= s.len(),
    decreases s.len(),
{
    if s.len() > 0 && s[0] != c {
        lemma_find_char_le(s.skip(1), c);
    }
}

proof fn lemma_run_digits_at(s: Seq<char>, n: int)
    requires
        0 <= n <= s.len(),
        forall|j: int| 0 <= j < n ==> crate::text::is_digit(s[j]),
        n == s.len() || !crate::text::is_digit(s[n]),
    ensures
        run_digits(s) == n,
    decreases n,
{
    if n > 0 {
        lemma_run_digits_at(s.skip(1), n - 1);
    }
}

proof fn lemma_run_ident_at(s: Seq<char>, n: int)
    requires
        0 <= n <= s.len(),
        forall|j: int| 0 <= j < n ==> crate::text::is_ident_char(s[j]),
        n == s.len() || !crate::text::is_ident_char(s[n]),
    ensures
        run_ident(s) == n,
    decreases n,
{
    if n > 0 {
        lemma_run_ident_at(s.skip(1), n - 1);
    }
}

pub proof fn lemma_find_char_at(s: Seq<char>, c: char, n: int)
    requires
        0 <= n <= s.len(),
        forall|j: int| 0 <= j < n ==> s[j] != c,
        n == s.len() || s[n] == c,
    ensures
        spec_find_char(s, c) == n,
    decreases n,
{
    if n > 0 {
        lemma_find_char_at(s.skip(1), c, n - 1);
    }
}

/// One lexeme of a formula: a number, a function reference, an identifier
/// or an operator character.
pub enum LexV {
    Num(Seq<char>),
    Fnc(Seq<char>),
    Idn(Seq<char>),
    Op(char),
}

/// Partitions the formula text into lexemes: a float (`digits.digits`, the
/// integer part possibly empty), an integer, an identifier — extended
/// through the next `)` into a function reference when a `(` follows — or a
/// single operator character.  Any other character separates lexemes and is
/// dropped.
pub open spec fn spec_scan(s: Seq<char>) -> Seq<LexV>
    decreases s.len(),
    via spec_scan_decreases
{
    if s.len() == 0 {
        seq![]
    } else {
        let c = s[0];
        if crate::text::is_digit(c) {
            let d1 = run_digits(s) as int;
            if d1 < s.len() && s[d1] == '.' && d1 + 1 < s.len() && crate::text::is_digit(
                s[d1 + 1],
            ) {
                let k = d1 + 1 + run_digits(s.skip(d1 + 1));
                seq![LexV::Num(s.take(k))] + spec_scan(s.skip(k))
            } else {
                seq![LexV::Num(s.take(d1))] + spec_scan(s.skip(d1))
            }
        } else if c == '.' && s.len() > 1 && crate::text::is_digit(s[1]) {
            let k = 1 + run_digits(s.skip(1)) as int;
            seq![LexV::Num(s.take(k))] + spec_scan(s.skip(k))
        } else if crate::text::is_ident_char(c) {
            let j = run_ident(s) as int;
            if j < s.len() && s[j] == '(' {
                let p = j + spec_find_char(s.skip(j), ')') as int;
                if p < s.len() {
                    seq![LexV::Fnc(s.take(p + 1))] + spec_scan(s.skip(p + 1))
                } else {
                    seq![LexV::Idn(s.take(j))] + spec_scan(s.skip(j))
                }
            } else {
                seq![LexV::Idn(s.take(j))] + spec_scan(s.skip(j))
            }
        } else if is_op_char(c) {
            seq![LexV::Op(c)] + spec_scan(s.skip(1))
        } else {
            spec_scan(s.skip(1))
        }
    }
}

#[via_fn]
proof fn spec_scan_decreases(s: Seq<char>) {
    if s.len() > 0 {
        lemma_run_digits_le(s);
        lemma_run_ident_le(s);
        let d1 = run_digits(s) as int;
        if d1 + 1 <= s.len() {
            lemma_run_digits_le(s.skip(d1 + 1));
        }
        if s.len() > 1 {
            lemma_run_digits_le(s.skip(1));
        }
        let j = run_ident(s) as int;
        if 0 <= j <= s.len() {
            lemma_find_char_le(s.skip(j), ')');
        }
    }
}

/// One lexeme, carried as its characters.
pub enum Lexeme {
    Num(Vec<char>),
    Fnc(Vec<char>),
    Idn(Vec<char>),
    Op(char),
}

impl View for Lexeme {
    type V = LexV;

    open spec fn view(&self) -> LexV {
        match self {
            Lexeme::Num(v) => LexV::Num(v@),
            Lexeme::Fnc(v) => LexV::Fnc(v@),
            Lexeme::Idn(v) => LexV::Idn(v@),
            Lexeme::Op(c) => LexV::Op(*c),
        }
    }
}

pub open spec fn lexs_view(v: Seq<Lexeme>) -> Seq<LexV> {
    v.map_values(|l: Lexeme| l@)
}

fn is_digit_char(c: char) -> (r: bool)
    ensures
        r == crate::text::is_digit(c),
{
    let u = c as u32;
    48 <= u && u <= 57
}

fn is_ident_char_exec(c: char) -> (r: bool)
    ensures
        r == crate::text::is_ident_char(c),
{
    let u = c as u32;
    (65 <= u && u <= 90) || (97 <= u && u <= 122) || u == 95
}

fn is_op_char_exec(c: char) -> (r: bool)
    ensures
        r == is_op_char(c),
{
    c == '+' || c == '-' || c == '*' || c == '/' || c == '(' || c == ')'
}

/// A number lexeme is digits, or digits around a single dot with at least
/// one digit after it.
pub open spec fn num_wf(t: Seq<char>) -> bool {
    let dp = spec_find_char(t, '.') as int;
    &&& t.len() > 0
    &&& forall|j: int| 0 <= j < dp ==> crate::text::is_digit(t[j])
    &&& (dp == t.len() || (dp < t.len() && t[dp] == '.' && dp + 1 < t.len() && forall|j: int|
        dp < j < t.len() ==> crate::text::is_digit(t[j])))
}

/// Lexemes as the scanner produces them: number lexemes are well formed.
pub open spec fn lex_wf(l: LexV) -> bool {
    match l {
        LexV::Num(t) => num_wf(t),
        LexV::Op(c) => is_op_char(c),
        _ => true,
    }
}

/// Partitions the formula characters into lexemes.
#[verifier::rlimit(100)]
fn scan_lexemes(v: &Vec<char>) -> (r: Vec<Lexeme>)
    ensures
        lexs_view(r@) == spec_scan(v@),
        forall|k: int| 0 <= k < r@.len() ==> lex_wf(#[trigger] lexs_view(r@)[k]),
{
    let mut r: Vec<Lexeme> = Vec::new();
    let mut i: usize = 0;
    let n = v.len();
    proof {
        assert(v@.skip(0) =~= v@);
        assert(lexs_view(r@) + spec_scan(v@) =~= spec_scan(v@));
    }
    loop
        invariant
            n == v@.len(),
            i <= n,
            spec_scan(v@) == lexs_view(r@) + spec_scan(v@.skip(i as int)),
            forall|k: int| 0 <= k < r@.len() ==> lex_wf(#[trigger] lexs_view(r@)[k]),
        decreases n - i,
    {
        if i == n {
            proof {
                assert(spec_scan(v@.skip(i as int)) =~= Seq::<LexV>::empty());
                assert(lexs_view(r@) + Seq::<LexV>::empty() =~= lexs_view(r@));
            }
            return r;
        }
        let ghost s1 = v@.skip(i as int);
        let ghost done = lexs_view(r@);
        let c = v[i];
        proof {
            assert(s1[0] == v@[i as int]);
        }
        if is_digit_char(c) {
            let mut j: usize = i;
            while j < n && is_digit_char(v[j])
                invariant
                    i <= j <= n,
                    n == v@.len(),
                    forall|t: int| i <= t < j ==> crate::text::is_digit(v@[t]),
                decreases n - j,
            {
                j = j + 1;
            }
            proof {
                assert forall|t: int| 0 <= t < j - i implies crate::text::is_digit(s1[t]) by {
                    assert(s1[t] == v@[t + i]);
                }
                if j < n {
                    assert(s1[j - i] == v@[j as int]);
                }
                lemma_run_digits_at(s1, j - i);
            }
            let is_float = j < n && v[j] == '.' && j + 1 < n && is_digit_char(v[j + 1]);
            if is_float {
                let mut k: usize = j + 1;
                while k < n && is_digit_char(v[k])
                    invariant
                        j + 1 <= k <= n,
                        n == v@.len(),
                        forall|t: int| j + 1 <= t < k ==> crate::text::is_digit(v@[t]),
                    decreases n - k,
                {
                    k = k + 1;
                }
                proof {
                    let s2 = s1.skip(j - i + 1);
                    assert(s2 =~= v@.skip(j + 1));
                    assert forall|t: int| 0 <= t < k - j - 1 implies crate::text::is_digit(
                        s2[t],
                    ) by {
                        assert(s2[t] == v@[t + j + 1]);
                    }
                    if k < n {
                        assert(s2[k - j - 1] == v@[k as int]);
                    }
                    lemma_run_digits_at(s2, k - j - 1);
                    assert(s1[j - i] == v@[j as int]);
                    assert(s1[j - i + 1] == v@[j + 1]);
                }
                let lex = Lexeme::Num(crate::text::vec_range(v, i, k));
                r.push(lex);
                proof {
                    let t = v@.subrange(i as int, k as int);
                    assert forall|x: int| 0 <= x < j - i implies t[x] != '.' by {
                        assert(crate::text::is_digit(t[x]));
                    }
                    assert(t[j - i] == v@[j as int]);
                    lemma_find_char_at(t, '.', j - i);
                    assert(num_wf(t));
                    assert(s1.take(k - i) =~= v@.subrange(i as int, k as int));
                    assert(s1.skip(k - i) =~= v@.skip(k as int));
                    assert(lexs_view(r@) =~= done + seq![LexV::Num(v@.subrange(
                        i as int,
                        k as int,
                    ))]);
                    assert(spec_scan(s1) == seq![LexV::Num(s1.take(k - i))] + spec_scan(
                        s1.skip(k - i),
                    ));
                    assert(done + (seq![LexV::Num(s1.take(k - i))] + spec_scan(v@.skip(k as int)))
                        =~= (done + seq![LexV::Num(s1.take(k - i))]) + spec_scan(
                        v@.skip(k as int),
                    ));
                }
                i = k;
            } else {
                let lex = Lexeme::Num(crate::text::vec_range(v, i, j));
                r.push(lex);
                proof {
                    let t = v@.subrange(i as int, j as int);
                    assert forall|x: int| 0 <= x < t.len() implies t[x] != '.' by {
                        assert(crate::text::is_digit(t[x]));
                    }
                    lemma_find_char_at(t, '.', t.len() as int);
                    assert(num_wf(t));
                    if j < n {
                        assert(s1[j - i] == v@[j as int]);
                    }
                    if j + 1 < n {
                        assert(s1[j - i + 1] == v@[j + 1]);
                    }
                    assert(s1.take(j - i) =~= v@.subrange(i as int, j as int));
                    assert(s1.skip(j - i) =~= v@.skip(j as int));
                    assert(lexs_view(r@) =~= done + seq![LexV::Num(v@.subrange(
                        i as int,
                        j as int,
                    ))]);
                    assert(spec_scan(s1) == seq![LexV::Num(s1.take(j - i))] + spec_scan(
                        s1.skip(j - i),
                    ));
                    assert(done + (seq![LexV::Num(s1.take(j - i))] + spec_scan(v@.skip(j as int)))
                        =~= (done + seq![LexV::Num(s1.take(j - i))]) + spec_scan(
                        v@.skip(j as int),
                    ));
                }
                i = j;
            }
        } else if c == '.' && i + 1 < n && is_digit_char(v[i + 1]) {
            let mut k: usize = i + 1;
            while k < n && is_digit_char(v[k])
                invariant
                    i + 1 <= k <= n,
                    n == v@.len(),
                    forall|t: int| i + 1 <= t < k ==> crate::text::is_digit(v@[t]),
                decreases n - k,
            {
                k = k + 1;
            }
            proof {
                let s2 = s1.skip(1);
                assert(s2 =~= v@.skip(i + 1));
                assert forall|t: int| 0 <= t < k - i - 1 implies crate::text::is_digit(s2[t]) by {
                    assert(s2[t] == v@[t + i + 1]);
                }
                if k < n {
                    assert(s2[k - i - 1] == v@[k as int]);
                }
                lemma_run_digits_at(s2, k - i - 1);
                assert(s1[1] == v@[i + 1]);
            }
            let lex = Lexeme::Num(crate::text::vec_range(v, i, k));
            r.push(lex);
            proof {
                let t = v@.subrange(i as int, k as int);
                assert(t[0] == '.');
                lemma_find_char_at(t, '.', 0);
                assert(num_wf(t));
                assert(s1.take(k - i) =~= v@.subrange(i as int, k as int));
                assert(s1.skip(k - i) =~= v@.skip(k as int));
                assert(lexs_view(r@) =~= done + seq![LexV::Num(v@.subrange(i as int, k as int))]);
                assert(spec_scan(s1) == seq![LexV::Num(s1.take(k - i))] + spec_scan(
                    s1.skip(k - i),
                ));
                assert(done + (seq![LexV::Num(s1.take(k - i))] + spec_scan(v@.skip(k as int)))
                    =~= (done + seq![LexV::Num(s1.take(k - i))]) + spec_scan(v@.skip(k as int)));
            }
            i = k;
        } else if is_ident_char_exec(c) {
            let mut j: usize = i;
            while j < n && is_ident_char_exec(v[j])
                invariant
                    i <= j <= n,
                    n == v@.len(),
                    forall|t: int| i <= t < j ==> crate::text::is_ident_char(v@[t]),
                decreases n - j,
            {
                j = j + 1;
            }
            proof {
                assert forall|t: int| 0 <= t < j - i implies crate::text::is_ident_char(
                    s1[t],
                ) by {
                    assert(s1[t] == v@[t + i]);
                }
                if j < n {
                    assert(s1[j - i] == v@[j as int]);
                }
                lemma_run_ident_at(s1, j - i);
            }
            let mut fnc_end: Option<usize> = None;
            if j < n && v[j] == '(' {
                match crate::text::find_char(v, ')', j) {
                    Some(p) => {
                        fnc_end = Some(p);
                        proof {
                            let s3 = s1.skip(j - i);
                            assert(s3 =~= v@.skip(j as int));
                            assert forall|t: int| 0 <= t < p - j implies s3[t] != ')' by {
                                assert(s3[t] == v@[t + j]);
                            }
                            assert(s3[p - j] == v@[p as int]);
                            lemma_find_char_at(s3, ')', p - j);
                        }
                    },
                    None => {
                        proof {
                            let s3 = s1.skip(j - i);
                            assert(s3 =~= v@.skip(j as int));
                            assert forall|t: int| 0 <= t < s3.len() implies s3[t] != ')' by {
                                assert(s3[t] == v@[t + j]);
                            }
                            lemma_find_char_at(s3, ')', s3.len() as int);
                        }
                    },
                }
            }
            match fnc_end {
                Some(p) => {
                    let lex = Lexeme::Fnc(crate::text::vec_range(v, i, p + 1));
                    r.push(lex);
                    proof {
                        assert(s1.take(p + 1 - i) =~= v@.subrange(i as int, p + 1));
                        assert(s1.skip(p + 1 - i) =~= v@.skip(p + 1));
                        assert(lexs_view(r@) =~= done + seq![LexV::Fnc(v@.subrange(
                            i as int,
                            p + 1,
                        ))]);
                        assert(spec_scan(s1) == seq![LexV::Fnc(s1.take(p + 1 - i))] + spec_scan(
                            s1.skip(p + 1 - i),
                        ));
                        assert(done + (seq![LexV::Fnc(s1.take(p + 1 - i))] + spec_scan(
                            v@.skip(p + 1),
                        )) =~= (done + seq![LexV::Fnc(s1.take(p + 1 - i))]) + spec_scan(
                            v@.skip(p + 1),
                        ));
                    }
                    i = p + 1;
                },
                None => {
                    let lex = Lexeme::Idn(crate::text::vec_range(v, i, j));
                    r.push(lex);
                    proof {
                        if j < n {
                            assert(s1[j - i] == v@[j as int]);
                        }
                        assert(s1.take(j - i) =~= v@.subrange(i as int, j as int));
                        assert(s1.skip(j - i) =~= v@.skip(j as int));
                        assert(lexs_view(r@) =~= done + seq![LexV::Idn(v@.subrange(
                            i as int,
                            j as int,
                        ))]);
                        assert(spec_scan(s1) == seq![LexV::Idn(s1.take(j - i))] + spec_scan(
                            s1.skip(j - i),
                        ));
                        assert(done + (seq![LexV::Idn(s1.take(j - i))] + spec_scan(
                            v@.skip(j as int),
                        )) =~= (done + seq![LexV::Idn(s1.take(j - i))]) + spec_scan(
                            v@.skip(j as int),
                        ));
                    }
                    i = j;
                },
            }
        } else if is_op_char_exec(c) {
            r.push(Lexeme::Op(c));
            proof {
                assert(s1.skip(1) =~= v@.skip(i + 1));
                assert(lexs_view(r@) =~= done + seq![LexV::Op(v@[i as int])]);
                assert(spec_scan(s1) == seq![LexV::Op(s1[0])] + spec_scan(s1.skip(1)));
                assert(done + (seq![LexV::Op(s1[0])] + spec_scan(v@.skip(i + 1))) =~= (done
                    + seq![LexV::Op(s1[0])]) + spec_scan(v@.skip(i + 1)));
            }
            i = i + 1;
        } else {
            proof {
                assert(s1.skip(1) =~= v@.skip(i + 1));
                assert(spec_scan(s1) == spec_scan(s1.skip(1)));
            }
            i = i + 1;
        }
    }
}

/// The largest integer-literal value: `i32::MAX`.
pub open spec fn spec_int_limit() -> int {
    2147483647
}

/// The largest float integer part whose scaled encoding fits an `i64`.
pub open spec fn spec_float_limit() -> int {
    9223372036854774
}

/// The fixed-point encoding of the fractional digits: the first three form
/// the thousandths, the fourth rounds half up.
pub open spec fn spec_frac_scaled(frac: Seq<char>) -> int {
    let d0 = if frac.len() > 0 {
        crate::text::digit_val(frac[0])
    } else {
        0
    };
    let d1 = if frac.len() > 1 {
        crate::text::digit_val(frac[1])
    } else {
        0
    };
    let d2 = if frac.len() > 2 {
        crate::text::digit_val(frac[2])
    } else {
        0
    };
    let carry: int = if frac.len() > 3 && crate::text::digit_val(frac[3]) >= 5 {
        1
    } else {
        0
    };
    d0 * 100 + d1 * 10 + d2 + carry
}

/// The fixed-point encoding of a float lexeme `intpart.frac`:
/// `round(value * 1000)`, rounding half up.
pub open spec fn spec_float_scaled(text: Seq<char>) -> int {
    let dp = spec_find_char(text, '.') as int;
    spec_digits_val_text(text.take(dp)) * 1000 + spec_frac_scaled(text.skip(dp + 1))
}

/// The value of a digit string.
pub open spec fn spec_digits_val_text(s: Seq<char>) -> int {
    crate::text::spec_digits_val(s)
}

proof fn lemma_digits_val_bounds(s: Seq<char>)
    requires
        forall|j: int| 0 <= j < s.len() ==> crate::text::is_digit(s[j]),
    ensures
        crate::text::spec_digits_val(s) >= 0,
    decreases s.len(),
{
    if s.len() > 0 {
        lemma_digits_val_bounds(s.drop_last());
    }
}

proof fn lemma_digits_val_mono(s: Seq<char>, a: int, b: int)
    requires
        0 <= a <= b <= s.len(),
        forall|j: int| 0 <= j < s.len() ==> crate::text::is_digit(s[j]),
    ensures
        crate::text::spec_digits_val(s.take(a)) <= crate::text::spec_digits_val(s.take(b)),
    decreases b - a,
{
    if a < b {
        lemma_digits_val_mono(s, a, b - 1);
        assert(s.take(b).drop_last() =~= s.take(b - 1));
        assert forall|j: int| 0 <= j < b - 1 implies crate::text::is_digit(
            #[trigger] s.take(b - 1)[j],
        ) by {
            assert(s.take(b - 1)[j] == s[j]);
        }
        lemma_digits_val_bounds(s.take(b - 1));
        assert(crate::text::is_digit(s[b - 1]));
        assert(crate::text::digit_val(s.take(b).last()) >= 0);
        assert(crate::text::spec_digits_val(s.take(b)) == crate::text::spec_digits_val(
            s.take(b - 1),
        ) * 10 + crate::text::digit_val(s.take(b).last()));
    }
}

/// Parses the digits `v[from..to]`; `None` when the value exceeds `limit`.
fn digits_value(v: &Vec<char>, from: usize, to: usize, limit: u64) -> (r: Option<u64>)
    requires
        from <= to <= v@.len(),
        forall|j: int| from <= j < to ==> crate::text::is_digit(v@[j]),
        limit <= 1844674407370955160,
    ensures
        match r {
            Some(x) => x as int == crate::text::spec_digits_val(
                v@.subrange(from as int, to as int),
            ) && x <= limit,
            None => crate::text::spec_digits_val(v@.subrange(from as int, to as int)) > limit,
        },
{
    let ghost s = v@.subrange(from as int, to as int);
    proof {
        assert forall|j: int| 0 <= j < s.len() implies crate::text::is_digit(s[j]) by {
            assert(s[j] == v@[j + from]);
        }
    }
    let mut acc: u64 = 0;
    let mut k: usize = from;
    proof {
        assert(s.take(0) =~= Seq::<char>::empty());
    }
    while k < to
        invariant
            from <= k <= to <= v@.len(),
            s == v@.subrange(from as int, to as int),
            forall|j: int| 0 <= j < s.len() ==> crate::text::is_digit(s[j]),
            forall|j: int| from <= j < to ==> crate::text::is_digit(v@[j]),
            acc as int == crate::text::spec_digits_val(s.take(k - from)),
            acc <= limit,
            limit <= 1844674407370955160,
        decreases to - k,
    {
        let c = v[k];
        proof {
            assert(s[k - from] == v@[k as int]);
        }
        let d: u64 = (c as u32 - 48) as u64;
        acc = acc * 10 + d;
        proof {
            assert(s.take(k - from + 1).drop_last() =~= s.take(k - from));
            assert(s.take(k - from + 1).last() == s[k - from]);
        }
        k = k + 1;
        if acc > limit {
            proof {
                lemma_digits_val_mono(s, k - from, s.len() as int);
                assert(s.take(s.len() as int) =~= s);
            }
            return None;
        }
    }
    proof {
        assert(s.take(s.len() as int) =~= s);
    }
    Some(acc)
}

/// Ten to the `k`-th power.
pub open spec fn pow10(k: nat) -> int
    decreases k,
{
    if k == 0 {
        1
    } else {
        10 * pow10((k - 1) as nat)
    }
}

proof fn lemma_pow10_pos(k: nat)
    ensures
        pow10(k) >= 1,
    decreases k,
{
    if k > 0 {
        lemma_pow10_pos((k - 1) as nat);
    }
}

proof fn lemma_digits_val_range(s: Seq<char>)
    requires
        forall|j: int| 0 <= j < s.len() ==> crate::text::is_digit(s[j]),
    ensures
        0 <= crate::text::spec_digits_val(s) < pow10(s.len()),
    decreases s.len(),
{
    if s.len() == 0 {
    } else {
        lemma_digits_val_range(s.drop_last());
        let v = crate::text::spec_digits_val(s.drop_last());
        let d = crate::text::digit_val(s.last());
        assert(0 <= d <= 9);
        assert(v < pow10((s.len() - 1) as nat));
        assert(v * 10 + d < pow10(s.len() as nat)) by (nonlinear_arith)
            requires
                v < pow10((s.len() - 1) as nat),
                d <= 9,
                pow10(s.len() as nat) == 10 * pow10((s.len() - 1) as nat),
        ;
        assert(v * 10 + d >= 0) by (nonlinear_arith)
            requires
                v >= 0,
                d >= 0,
        ;
    }
}

proof fn lemma_digits_val_split(s: Seq<char>, m: int)
    requires
        0 <= m <= s.len(),
    ensures
        crate::text::spec_digits_val(s) == crate::text::spec_digits_val(s.take(m)) * pow10(
            (s.len() - m) as nat,
        ) + crate::text::spec_digits_val(s.skip(m)),
    decreases s.len() - m,
{
    if m == s.len() {
        assert(s.take(m) =~= s);
        assert(s.skip(m) =~= Seq::<char>::empty());
        assert(crate::text::spec_digits_val(s) == crate::text::spec_digits_val(s.take(m)) * 1 + 0);
    } else {
        lemma_digits_val_split(s.drop_last(), m);
        let a = crate::text::spec_digits_val(s.take(m));
        let p = pow10((s.len() - 1 - m) as nat);
        let b = crate::text::spec_digits_val(s.drop_last().skip(m));
        let d = crate::text::digit_val(s.last());
        assert(s.drop_last().take(m) =~= s.take(m));
        assert(s.skip(m).drop_last() =~= s.drop_last().skip(m));
        assert(s.skip(m).last() == s.last());
        assert(crate::text::spec_digits_val(s.skip(m)) == b * 10 + d);
        assert(crate::text::spec_digits_val(s) == (a * p + b) * 10 + d);
        assert((a * p + b) * 10 + d == a * (10 * p) + (b * 10 + d)) by (nonlinear_arith);
        assert(pow10((s.len() - m) as nat) == 10 * p);
    }
}

/// Fixed-point invariant: the encoding of a float lexeme `intpart.frac` is
/// the integer nearest to its value times 1000, ties rounding up.  With `n`
/// the value of all the digits and `k` the number of fractional digits, the
/// value is `n / 10^k`, and the encoding `s` satisfies
/// `s - 1/2 <= n * 1000 / 10^k < s + 1/2`.
pub proof fn lemma_fixed_point_round(text: Seq<char>)
    requires
        num_wf(text),
        (spec_find_char(text, '.') as int) < text.len(),
    ensures
        ({
            let dp = spec_find_char(text, '.') as int;
            let k = (text.len() - dp - 1) as nat;
            let n = spec_digits_val_text(text.take(dp)) * pow10(k) + spec_digits_val_text(
                text.skip(dp + 1),
            );
            let scaled = spec_float_scaled(text);
            (2 * scaled - 1) * pow10(k) <= 2 * n * 1000 < (2 * scaled + 1) * pow10(k)
        }),
{
    let dp = spec_find_char(text, '.') as int;
    let k = (text.len() - dp - 1) as nat;
    let frac = text.skip(dp + 1);
    assert(frac.len() == k);
    assert(k >= 1);
    assert(forall|j: int| 0 <= j < frac.len() ==> crate::text::is_digit(#[trigger] frac[j]));
    let ip = text.take(dp);
    let i_val = spec_digits_val_text(ip);
    let f_val = spec_digits_val_text(frac);
    let n = i_val * pow10(k) + f_val;
    let fs = spec_frac_scaled(frac);
    let scaled = spec_float_scaled(text);
    assert(scaled == i_val * 1000 + fs);
    lemma_digits_val_range(frac);
    lemma_pow10_pos(k);
    // the whole-number part cancels on both sides
    assert(2 * n * 1000 == (2 * i_val * 1000) * pow10(k) + 2000 * f_val) by (nonlinear_arith)
        requires
            n == i_val * pow10(k) + f_val,
    ;
    assert((2 * scaled - 1) * pow10(k) == (2 * i_val * 1000) * pow10(k) + (2 * fs - 1) * pow10(k))
        by (nonlinear_arith)
        requires
            scaled == i_val * 1000 + fs,
    ;
    assert((2 * scaled + 1) * pow10(k) == (2 * i_val * 1000) * pow10(k) + (2 * fs + 1) * pow10(k))
        by (nonlinear_arith)
        requires
            scaled == i_val * 1000 + fs,
    ;
    let d0: int = if frac.len() > 0 {
        crate::text::digit_val(frac[0])
    } else {
        0
    };
    let d1: int = if frac.len() > 1 {
        crate::text::digit_val(frac[1])
    } else {
        0
    };
    let d2: int = if frac.len() > 2 {
        crate::text::digit_val(frac[2])
    } else {
        0
    };
    if k == 1 {
        reveal_with_fuel(crate::text::spec_digits_val, 2);
        assert(frac.drop_last() =~= Seq::<char>::empty());
        assert(f_val == d0);
        assert(fs == d0 * 100);
        assert(pow10(1) == 10);
        assert((2 * fs - 1) * pow10(1) <= 2000 * f_val < (2 * fs + 1) * pow10(1))
            by (nonlinear_arith)
            requires
                fs == d0 * 100,
                f_val == d0,
                pow10(1) == 10,
        ;
    } else if k == 2 {
        reveal_with_fuel(crate::text::spec_digits_val, 3);
        assert(frac.drop_last().drop_last() =~= Seq::<char>::empty());
        assert(frac.drop_last()[0] == frac[0]);
        assert(f_val == d0 * 10 + d1);
        assert(fs == d0 * 100 + d1 * 10);
        reveal_with_fuel(pow10, 5);
        assert(pow10(2) == 100);
        assert((2 * fs - 1) * pow10(2) <= 2000 * f_val < (2 * fs + 1) * pow10(2))
            by (nonlinear_arith)
            requires
                fs == d0 * 100 + d1 * 10,
                f_val == d0 * 10 + d1,
                pow10(2) == 100,
        ;
    } else if k == 3 {
        reveal_with_fuel(crate::text::spec_digits_val, 4);
        assert(frac.drop_last().drop_last().drop_last() =~= Seq::<char>::empty());
        assert(frac.drop_last().drop_last()[0] == frac[0]);
        assert(frac.drop_last()[0] == frac[0]);
        assert(frac.drop_last()[1] == frac[1]);
        assert(f_val == (d0 * 10 + d1) * 10 + d2);
        assert(fs == d0 * 100 + d1 * 10 + d2);
        reveal_with_fuel(pow10, 5);
        assert(pow10(3) == 1000);
        assert((2 * fs - 1) * pow10(3) <= 2000 * f_val < (2 * fs + 1) * pow10(3))
            by (nonlinear_arith)
            requires
                fs == d0 * 100 + d1 * 10 + d2,
                f_val == (d0 * 10 + d1) * 10 + d2,
                pow10(3) == 1000,
        ;
    } else {
        let d3: int = crate::text::digit_val(frac[3]);
        let carry: int = if d3 >= 5 {
            1
        } else {
            0
        };
        let g = d0 * 100 + d1 * 10 + d2;
        assert(fs == g + carry);
        // split the fraction after its first three digits
        lemma_digits_val_split(frac, 3);
        let r = crate::text::spec_digits_val(frac.skip(3));
        reveal_with_fuel(crate::text::spec_digits_val, 4);
        assert(frac.take(3).drop_last().drop_last().drop_last() =~= Seq::<char>::empty());
        assert(frac.take(3)[0] == frac[0]);
        assert(frac.take(3)[1] == frac[1]);
        assert(frac.take(3)[2] == frac[2]);
        assert(crate::text::spec_digits_val(frac.take(3)) == (d0 * 10 + d1) * 10 + d2);
        assert(f_val == g * pow10((k - 3) as nat) + r);
        // split the remainder after its first digit
        lemma_digits_val_split(frac.skip(3), 1);
        assert(frac.skip(3).take(1).drop_last() =~= Seq::<char>::empty());
        assert(frac.skip(3)[0] == frac[3]);
        assert(crate::text::spec_digits_val(frac.skip(3).take(1)) == d3);
        let r2 = crate::text::spec_digits_val(frac.skip(3).skip(1));
        assert(r == d3 * pow10((k - 4) as nat) + r2);
        assert(forall|j: int|
            0 <= j < frac.skip(3).skip(1).len() ==> crate::text::is_digit(
                #[trigger] frac.skip(3).skip(1)[j],
            ));
        lemma_digits_val_range(frac.skip(3).skip(1));
        assert(0 <= r2 < pow10((k - 4) as nat));
        let p3 = pow10((k - 3) as nat);
        let p4 = pow10((k - 4) as nat);
        assert(p3 == 10 * p4);
        lemma_pow10_pos((k - 4) as nat);
        assert(pow10(k) == 1000 * p3) by {
            assert(pow10(k) == 10 * pow10((k - 1) as nat));
            assert(pow10((k - 1) as nat) == 10 * pow10((k - 2) as nat));
            assert(pow10((k - 2) as nat) == 10 * pow10((k - 3) as nat));
        }
        if d3 >= 5 {
            assert(p3 <= 2 * r) by (nonlinear_arith)
                requires
                    r == d3 * p4 + r2,
                    d3 >= 5,
                    r2 >= 0,
                    p3 == 10 * p4,
                    p4 >= 1,
            ;
            assert(2 * r < 3 * p3) by (nonlinear_arith)
                requires
                    r == d3 * p4 + r2,
                    d3 <= 9,
                    r2 < p4,
                    p3 == 10 * p4,
                    p4 >= 1,
            ;
            assert((2 * fs - 1) * pow10(k) <= 2000 * f_val < (2 * fs + 1) * pow10(k))
                by (nonlinear_arith)
                requires
                    fs == g + 1,
                    f_val == g * p3 + r,
                    pow10(k) == 1000 * p3,
                    p3 <= 2 * r,
                    2 * r < 3 * p3,
                    p3 >= 1,
            ;
        } else {
            assert(2 * r < p3) by (nonlinear_arith)
                requires
                    r == d3 * p4 + r2,
                    d3 <= 4,
                    r2 < p4,
                    p3 == 10 * p4,
                    p4 >= 1,
            ;
            assert(r >= 0) by (nonlinear_arith)
                requires
                    r == d3 * p4 + r2,
                    d3 >= 0,
                    r2 >= 0,
                    p4 >= 1,
            ;
            assert((2 * fs - 1) * pow10(k) <= 2000 * f_val < (2 * fs + 1) * pow10(k))
                by (nonlinear_arith)
                requires
                    fs == g,
                    f_val == g * p3 + r,
                    pow10(k) == 1000 * p3,
                    0 <= 2 * r < p3,
                    p3 >= 1,
            ;
        }
    }
}

/// Maps one lexeme to a token against the symbol tables: numbers parse,
/// identifiers resolve as variables, function references resolve as
/// functions; failures carry the offending text.
pub open spec fn spec_map_lexeme(t: crate::compile_task::TaskV, l: LexV) -> Result<
    TokV,
    EvalErrV,
> {
    match l {
        LexV::Op(c) => match spec_to_operator(seq![c]) {
            Ok(o) => Ok(TokV::Operator(o)),
            Err(e) => Err(e),
        },
        LexV::Num(text) => {
            if (spec_find_char(text, '.') as int) < text.len() {
                let dp = spec_find_char(text, '.') as int;
                if spec_digits_val_text(text.take(dp)) > spec_float_limit() {
                    Err(EvalErrV::CouldntParseANumber(text))
                } else {
                    Ok(TokV::Float(spec_float_scaled(text)))
                }
            } else {
                if spec_digits_val_text(text) > spec_int_limit() {
                    Err(EvalErrV::CouldntParseANumber(text))
                } else {
                    Ok(TokV::Int(spec_digits_val_text(text)))
                }
            }
        },
        LexV::Idn(text) => match crate::compile_task::spec_get_variable(t, text) {
            Some(s) => Ok(TokV::Scoreboard(s)),
            None => Err(EvalErrV::UndefinedVariableReferenced(text)),
        },
        LexV::Fnc(text) => {
            let name = text.take(spec_find_char(text, '(') as int);
            match crate::compile_task::spec_get_function(t, name) {
                Some(f) => Ok(TokV::MCFunction(f)),
                None => Err(EvalErrV::UndefinedFunctionCalled(name)),
            }
        },
    }
}

/// Maps lexemes to tokens left to right; the first failure wins.
pub open spec fn spec_map_lexemes(t: crate::compile_task::TaskV, ls: Seq<LexV>) -> Result<
    Seq<TokV>,
    EvalErrV,
>
    decreases ls.len(),
{
    if ls.len() == 0 {
        Ok(seq![])
    } else {
        match spec_map_lexeme(t, ls[0]) {
            Ok(tok) => match spec_map_lexemes(t, ls.skip(1)) {
                Ok(rest) => Ok(seq![tok] + rest),
                Err(e) => Err(e),
            },
            Err(e) => Err(e),
        }
    }
}

/// The tokens of a formula under the symbol tables of `t`.
pub open spec fn spec_tokenize(t: crate::compile_task::TaskV, s: Seq<char>) -> Result<
    Seq<TokV>,
    EvalErrV,
> {
    spec_map_lexemes(t, spec_scan(s))
}

/// The operator literals, spelled out and pairwise distinct.
proof fn lemma_op_lits()
    ensures
        "+".view() == seq!['+'],
        "-".view() == seq!['-'],
        "*".view() == seq!['*'],
        "/".view() == seq!['/'],
        "%".view() == seq!['%'],
        "^".view() == seq!['^'],
        "(".view() == seq!['('],
        ")".view() == seq![')'],
        "-".view() != "+".view(),
        "*".view() != "+".view(),
        "*".view() != "-".view(),
        "/".view() != "+".view(),
        "/".view() != "-".view(),
        "/".view() != "*".view(),
        "%".view() != "+".view(),
        "%".view() != "-".view(),
        "%".view() != "*".view(),
        "%".view() != "/".view(),
        "^".view() != "+".view(),
        "^".view() != "-".view(),
        "^".view() != "*".view(),
        "^".view() != "/".view(),
        "^".view() != "%".view(),
        "(".view() != "+".view(),
        "(".view() != "-".view(),
        "(".view() != "*".view(),
        "(".view() != "/".view(),
        "(".view() != "%".view(),
        "(".view() != "^".view(),
        ")".view() != "+".view(),
        ")".view() != "-".view(),
        ")".view() != "*".view(),
        ")".view() != "/".view(),
        ")".view() != "%".view(),
        ")".view() != "^".view(),
        ")".view() != "(".view(),
{
    reveal_strlit("+");
    reveal_strlit("-");
    reveal_strlit("*");
    reveal_strlit("/");
    reveal_strlit("%");
    reveal_strlit("^");
    reveal_strlit("(");
    reveal_strlit(")");
    assert("+".view() =~= seq!['+']);
    assert("-".view() =~= seq!['-']);
    assert("*".view() =~= seq!['*']);
    assert("/".view() =~= seq!['/']);
    assert("%".view() =~= seq!['%']);
    assert("^".view() =~= seq!['^']);
    assert("(".view() =~= seq!['(']);
    assert(")".view() =~= seq![')']);
    assert("+".view()[0] == '+');
    assert("-".view()[0] == '-');
    assert("*".view()[0] == '*');
    assert("/".view()[0] == '/');
    assert("%".view()[0] == '%');
    assert("^".view()[0] == '^');
    assert("(".view()[0] == '(');
    assert(")".view()[0] == ')');
}

/// Maps one lexeme to a token against the symbol tables of `compiler`.
#[verifier::rlimit(50)]
fn lex_to_token(compiler: &crate::compile_task::CompileTask, l: &Lexeme) -> (r: Result<
    FormulaToken,
    EvaluateError,
>)
    requires
        lex_wf(l@),
    ensures
        (match r {
            Ok(t) => Ok::<TokV, EvalErrV>(t@),
            Err(e) => Err(e@),
        }) == spec_map_lexeme(compiler@, l@),
{
    match l {
        Lexeme::Op(c) => {
            match c {
                '+' => {
                    proof {
                        lemma_op_lits();
                        assert(seq![*c] == "+".view());
                    }
                    Ok(FormulaToken::Operator(Operator::Add))
                },
                '-' => {
                    proof {
                        lemma_op_lits();
                        assert(seq![*c] == "-".view());
                    }
                    Ok(FormulaToken::Operator(Operator::Rem))
                },
                '*' => {
                    proof {
                        lemma_op_lits();
                        assert(seq![*c] == "*".view());
                    }
                    Ok(FormulaToken::Operator(Operator::Mul))
                },
                '/' => {
                    proof {
                        lemma_op_lits();
                        assert(seq![*c] == "/".view());
                    }
                    Ok(FormulaToken::Operator(Operator::Div))
                },
                '(' => {
                    proof {
                        lemma_op_lits();
                        assert(seq![*c] == "(".view());
                    }
                    Ok(FormulaToken::Operator(Operator::LPt))
                },
                ')' => {
                    proof {
                        lemma_op_lits();
                        assert(seq![*c] == ")".view());
                    }
                    Ok(FormulaToken::Operator(Operator::RPt))
                },
                _ => {
                    proof {
                        assert(false);
                    }
                    Err(EvaluateError::InvalidFormula)
                },
            }
        },
        Lexeme::Num(t) => {
            match crate::text::find_char(t, '.', 0) {
                Some(dp) => {
                    proof {
                        lemma_find_char_at(t@, '.', dp as int);
                        assert(t@.subrange(0, dp as int) =~= t@.take(dp as int));
                    }
                    match digits_value(t, 0, dp, 9223372036854774) {
                        None => Err(EvaluateError::CouldntParseANumber(crate::text::from_chars(t))),
                        Some(ip) => {
                            let n = t.len();
                            let ghost frac = t@.skip(dp + 1);
                            let d0: u64 = if n - dp > 1 {
                                proof {
                                    assert(frac[0] == t@[dp + 1]);
                                    assert(crate::text::is_digit(t@[dp + 1]));
                                }
                                (t[dp + 1] as u32 - 48) as u64
                            } else {
                                0
                            };
                            let d1: u64 = if n - dp > 2 {
                                proof {
                                    assert(frac[1] == t@[dp + 2]);
                                    assert(crate::text::is_digit(t@[dp + 2]));
                                }
                                (t[dp + 2] as u32 - 48) as u64
                            } else {
                                0
                            };
                            let d2: u64 = if n - dp > 3 {
                                proof {
                                    assert(frac[2] == t@[dp + 3]);
                                    assert(crate::text::is_digit(t@[dp + 3]));
                                }
                                (t[dp + 3] as u32 - 48) as u64
                            } else {
                                0
                            };
                            let d3: u64 = if n - dp > 4 {
                                proof {
                                    assert(frac[3] == t@[dp + 4]);
                                    assert(crate::text::is_digit(t@[dp + 4]));
                                }
                                (t[dp + 4] as u32 - 48) as u64
                            } else {
                                0
                            };
                            let carry: u64 = if d3 >= 5 {
                                1
                            } else {
                                0
                            };
                            let f3: u64 = d0 * 100 + d1 * 10 + d2 + carry;
                            let scaled: u64 = ip * 1000 + f3;
                            proof {
                                assert(spec_frac_scaled(frac) == f3 as int);
                                assert(spec_float_scaled(t@) == scaled as int);
                                assert(spec_map_lexeme(compiler@, l@) == Ok::<TokV, EvalErrV>(
                                    TokV::Float(spec_float_scaled(t@)),
                                ));
                            }
                            Ok(FormulaToken::Float(scaled as i64))
                        },
                    }
                },
                None => {
                    proof {
                        lemma_find_char_at(t@, '.', t@.len() as int);
                        assert(t@.subrange(0, t@.len() as int) =~= t@);
                    }
                    match digits_value(t, 0, t.len(), 2147483647) {
                        None => Err(EvaluateError::CouldntParseANumber(crate::text::from_chars(t))),
                        Some(x) => {
                            proof {
                                assert(spec_map_lexeme(compiler@, l@) == Ok::<TokV, EvalErrV>(
                                    TokV::Int(spec_digits_val_text(t@)),
                                ));
                            }
                            Ok(FormulaToken::Int(x as i32))
                        },
                    }
                },
            }
        },
        Lexeme::Idn(t) => {
            let name = crate::text::from_chars(t);
            match compiler.get_variable(&name) {
                Some(s) => {
                    let dup = s.duplicate();
                    proof {
                        assert(spec_map_lexeme(compiler@, l@) == Ok::<TokV, EvalErrV>(
                            TokV::Scoreboard(dup@),
                        ));
                    }
                    Ok(FormulaToken::Scoreboard(dup))
                },
                None => Err(EvaluateError::UndefinedVariableReferenced(name)),
            }
        },
        Lexeme::Fnc(t) => {
            let fp = match crate::text::find_char(t, '(', 0) {
                Some(fp) => {
                    proof {
                        lemma_find_char_at(t@, '(', fp as int);
                    }
                    fp
                },
                None => {
                    proof {
                        lemma_find_char_at(t@, '(', t@.len() as int);
                    }
                    t.len()
                },
            };
            let name = crate::text::string_range(t, 0, fp);
            proof {
                assert(t@.subrange(0, fp as int) =~= t@.take(fp as int));
            }
            match compiler.get_function(&name) {
                Some(f) => {
                    let dup = f.duplicate();
                    proof {
                        assert(spec_map_lexeme(compiler@, l@) == Ok::<TokV, EvalErrV>(
                            TokV::MCFunction(mcf_view(dup)),
                        ));
                    }
                    Ok(FormulaToken::MCFunction(dup))
                },
                None => Err(EvaluateError::UndefinedFunctionCalled(name)),
            }
        },
    }
}

/// The tokens of a formula: lexed, then resolved against the symbol tables.
pub fn to_formula_tokens(compiler: &crate::compile_task::CompileTask, input: &str) -> (r: Result<
    Vec<FormulaToken>,
    EvaluateError,
>)
    ensures
        (match r {
            Ok(v) => Ok::<Seq<TokV>, EvalErrV>(toks_view(v@)),
            Err(e) => Err(e@),
        }) == spec_tokenize(compiler@, input@),
{
    let chars = crate::text::to_char_vec(input);
    let lexs = scan_lexemes(&chars);
    let ghost lvs = lexs_view(lexs@);
    let ghost t = compiler@;
    let mut out: Vec<FormulaToken> = Vec::new();
    let mut i: usize = 0;
    proof {
        assert(lvs.skip(0) =~= lvs);
        assert(toks_view(out@) =~= Seq::<TokV>::empty());
        if spec_map_lexemes(t, lvs) is Ok {
            assert(toks_view(out@) + spec_map_lexemes(t, lvs)->Ok_0 =~= spec_map_lexemes(
                t,
                lvs,
            )->Ok_0);
        }
    }
    while i < lexs.len()
        invariant
            i <= lexs@.len(),
            lvs == lexs_view(lexs@),
            lvs == spec_scan(input@),
            t == compiler@,
            forall|k: int| 0 <= k < lexs@.len() ==> lex_wf(#[trigger] lexs_view(lexs@)[k]),
            spec_map_lexemes(t, lvs) == (match spec_map_lexemes(t, lvs.skip(i as int)) {
                Ok(rest) => Ok::<Seq<TokV>, EvalErrV>(toks_view(out@) + rest),
                Err(e) => Err(e),
            }),
        decreases lexs@.len() - i,
    {
        let ghost done = toks_view(out@);
        proof {
            assert(lvs.skip(i as int)[0] == lvs[i as int]);
            assert(lvs.skip(i as int).skip(1) =~= lvs.skip(i + 1));
        }
        match lex_to_token(compiler, &lexs[i]) {
            Ok(tok) => {
                out.push(tok);
                proof {
                    assert(toks_view(out@) =~= done + seq![tok@]);
                    let rest_r = spec_map_lexemes(t, lvs.skip(i + 1));
                    if rest_r is Ok {
                        assert(done + (seq![tok@] + rest_r->Ok_0) =~= (done + seq![tok@])
                            + rest_r->Ok_0);
                    }
                }
                i = i + 1;
            },
            Err(e) => {
                proof {
                    assert(lvs[i as int] == lexs@[i as int]@);
                    assert(spec_map_lexeme(t, lvs[i as int]) == Err::<TokV, EvalErrV>(e@));
                    assert(spec_map_lexemes(t, lvs.skip(i as int)) == Err::<Seq<TokV>, EvalErrV>(
                        e@,
                    ));
                    assert(lvs == spec_scan(input@));
                    assert(spec_tokenize(t, input@) == spec_map_lexemes(t, lvs));
                }
                return Err(e);
            },
        }
    }
    proof {
        assert(lvs.skip(lvs.len() as int) =~= Seq::<LexV>::empty());
        if spec_map_lexemes(t, lvs) is Ok {
            assert(toks_view(out@) + Seq::<TokV>::empty() =~= toks_view(out@));
        }
    }
    Ok(out)
}

/// Pops operators whose priority is at least `op`'s onto the output,
/// stopping at an opening parenthesis.
pub open spec fn spec_pop_ge(stack: Seq<Operator>, op: Operator, out: Seq<TokV>) -> (
    Seq<Operator>,
    Seq<TokV>,
)
    decreases stack.len(),
{
    if stack.len() == 0 {
        (stack, out)
    } else {
        let top = stack.last();
        if top == Operator::LPt || spec_priority(top) < spec_priority(op) {
            (stack, out)
        } else {
            spec_pop_ge(stack.drop_last(), op, out.push(TokV::Operator(top)))
        }
    }
}

/// Pops operators onto the output until an opening parenthesis is removed.
pub open spec fn spec_pop_until_lpt(stack: Seq<Operator>, out: Seq<TokV>) -> (
    Seq<Operator>,
    Seq<TokV>,
)
    decreases stack.len(),
{
    if stack.len() == 0 {
        (stack, out)
    } else {
        let top = stack.last();
        if top == Operator::LPt {
            (stack.drop_last(), out)
        } else {
            spec_pop_until_lpt(stack.drop_last(), out.push(TokV::Operator(top)))
        }
    }
}

/// Pops all remaining operators onto the output, dropping parentheses.
pub open spec fn spec_drain(stack: Seq<Operator>, out: Seq<TokV>) -> Seq<TokV>
    decreases stack.len(),
{
    if stack.len() == 0 {
        out
    } else {
        let top = stack.last();
        if top == Operator::LPt || top == Operator::RPt {
            spec_drain(stack.drop_last(), out)
        } else {
            spec_drain(stack.drop_last(), out.push(TokV::Operator(top)))
        }
    }
}

/// The shunting-yard loop: operands pass through, operators are reordered
/// through the stack by priority.
pub open spec fn spec_rpn_loop(input: Seq<TokV>, stack: Seq<Operator>, out: Seq<TokV>) -> Seq<
    TokV,
>
    decreases input.len(),
{
    if input.len() == 0 {
        spec_drain(stack, out)
    } else {
        match input[0] {
            TokV::Operator(op) => {
                if op == Operator::LPt {
                    spec_rpn_loop(input.skip(1), stack.push(op), out)
                } else if op == Operator::RPt {
                    let popped = spec_pop_until_lpt(stack, out);
                    spec_rpn_loop(input.skip(1), popped.0, popped.1)
                } else {
                    let popped = spec_pop_ge(stack, op, out);
                    spec_rpn_loop(input.skip(1), popped.0.push(op), popped.1)
                }
            },
            _ => spec_rpn_loop(input.skip(1), stack, out.push(input[0])),
        }
    }
}

/// How many tokens are the operator `o`.
pub open spec fn spec_count_op(toks: Seq<TokV>, o: Operator) -> int
    decreases toks.len(),
{
    if toks.len() == 0 {
        0int
    } else {
        (if toks[0] == TokV::Operator(o) {
            1int
        } else {
            0int
        }) + spec_count_op(toks.skip(1), o)
    }
}

/// Reordering to reverse Polish notation: with balanced parentheses the
/// shunting-yard result, otherwise `UnbalancedBrackets`.
pub open spec fn spec_to_rpn(input: Seq<TokV>) -> Result<Seq<TokV>, EvalErrV> {
    if spec_count_op(input, Operator::LPt) != spec_count_op(input, Operator::RPt) {
        Err(EvalErrV::UnbalancedBrackets)
    } else {
        Ok(spec_rpn_loop(input, Seq::empty(), Seq::empty()))
    }
}

/// No parenthesis token stands in a sequence.
pub open spec fn no_parens(toks: Seq<TokV>) -> bool {
    forall|j: int|
        0 <= j < toks.len() ==> #[trigger] toks[j] != TokV::Operator(Operator::LPt) && toks[j]
            != TokV::Operator(Operator::RPt)
}

proof fn lemma_pop_ge_props(stack: Seq<Operator>, op: Operator, out: Seq<TokV>)
    requires
        no_parens(out),
        forall|j: int| 0 <= j < stack.len() ==> stack[j] != Operator::RPt,
    ensures
        no_parens(spec_pop_ge(stack, op, out).1),
        spec_operands(spec_pop_ge(stack, op, out).1) == spec_operands(out),
        forall|j: int|
            0 <= j < spec_pop_ge(stack, op, out).0.len() ==> spec_pop_ge(stack, op, out).0[j]
                != Operator::RPt,
        spec_pop_ge(stack, op, out).0.len() <= stack.len(),
    decreases stack.len(),
{
    reveal_with_fuel(Seq::filter, 2);
    if stack.len() > 0 {
        let top = stack.last();
        if !(top == Operator::LPt || spec_priority(top) < spec_priority(op)) {
            assert(top != Operator::RPt);
            let out2 = out.push(TokV::Operator(top));
            assert(no_parens(out2));
            assert(out2.drop_last() =~= out);
            assert(spec_operands(out2) == spec_operands(out));
            lemma_pop_ge_props(stack.drop_last(), op, out2);
        }
    }
}

proof fn lemma_pop_until_props(stack: Seq<Operator>, out: Seq<TokV>)
    requires
        no_parens(out),
        forall|j: int| 0 <= j < stack.len() ==> stack[j] != Operator::RPt,
    ensures
        no_parens(spec_pop_until_lpt(stack, out).1),
        spec_operands(spec_pop_until_lpt(stack, out).1) == spec_operands(out),
        forall|j: int|
            0 <= j < spec_pop_until_lpt(stack, out).0.len() ==> spec_pop_until_lpt(stack, out).0[j]
                != Operator::RPt,
        spec_pop_until_lpt(stack, out).0.len() <= stack.len(),
    decreases stack.len(),
{
    reveal_with_fuel(Seq::filter, 2);
    if stack.len() > 0 {
        let top = stack.last();
        if top != Operator::LPt {
            let out2 = out.push(TokV::Operator(top));
            assert(out2.drop_last() =~= out);
            assert(spec_operands(out2) == spec_operands(out));
            lemma_pop_until_props(stack.drop_last(), out2);
        }
    }
}

proof fn lemma_drain_props(stack: Seq<Operator>, out: Seq<TokV>)
    requires
        no_parens(out),
    ensures
        no_parens(spec_drain(stack, out)),
        spec_operands(spec_drain(stack, out)) == spec_operands(out),
    decreases stack.len(),
{
    reveal_with_fuel(Seq::filter, 2);
    if stack.len() > 0 {
        let top = stack.last();
        if top == Operator::LPt || top == Operator::RPt {
            lemma_drain_props(stack.drop_last(), out);
        } else {
            let out2 = out.push(TokV::Operator(top));
            assert(out2.drop_last() =~= out);
            assert(spec_operands(out2) == spec_operands(out));
            lemma_drain_props(stack.drop_last(), out2);
        }
    }
}

proof fn lemma_filter_head_keep(toks: Seq<TokV>)
    requires
        toks.len() > 0,
        !(toks[0] is Operator),
    ensures
        spec_operands(toks) == seq![toks[0]] + spec_operands(toks.skip(1)),
    decreases toks.len(),
{
    reveal_with_fuel(Seq::filter, 3);
    if toks.len() == 1 {
        assert(toks.drop_last() =~= Seq::<TokV>::empty());
        assert(toks.skip(1) =~= Seq::<TokV>::empty());
        assert(spec_operands(toks) =~= seq![toks[0]] + spec_operands(toks.skip(1)));
    } else {
        lemma_filter_head_keep(toks.drop_last());
        assert(toks.drop_last().skip(1) =~= toks.skip(1).drop_last());
        if !(toks.last() is Operator) {
            assert(toks.skip(1).last() == toks.last());
            assert(spec_operands(toks) =~= seq![toks[0]] + spec_operands(toks.skip(1)));
        } else {
            assert(spec_operands(toks) =~= seq![toks[0]] + spec_operands(toks.skip(1)));
        }
    }
}

proof fn lemma_operands_snoc(toks: Seq<TokV>, t: TokV)
    requires
        !(t is Operator),
    ensures
        spec_operands(toks.push(t)) == spec_operands(toks).push(t),
{
    reveal_with_fuel(Seq::filter, 2);
    assert(toks.push(t).drop_last() =~= toks);
}

/// The shunting-yard loop emits no parenthesis token, and carries the
/// operand tokens through in order.
proof fn lemma_rpn_loop_props(input: Seq<TokV>, stack: Seq<Operator>, out: Seq<TokV>)
    requires
        no_parens(out),
        forall|j: int| 0 <= j < stack.len() ==> stack[j] != Operator::RPt,
    ensures
        no_parens(spec_rpn_loop(input, stack, out)),
        spec_operands(spec_rpn_loop(input, stack, out)) == spec_operands(out) + spec_operands(
            input,
        ),
    decreases input.len(),
{
    reveal_with_fuel(Seq::filter, 2);
    if input.len() == 0 {
        lemma_drain_props(stack, out);
        assert(spec_operands(input) =~= Seq::<TokV>::empty());
        assert(spec_operands(out) + Seq::<TokV>::empty() =~= spec_operands(out));
    } else {
        let head = input[0];
        match head {
            TokV::Operator(op) => {
                lemma_filter_head_op(input);
                if op == Operator::LPt {
                    let stack2 = stack.push(op);
                    assert(forall|j: int|
                        0 <= j < stack2.len() ==> stack2[j] != Operator::RPt);
                    lemma_rpn_loop_props(input.skip(1), stack2, out);
                } else if op == Operator::RPt {
                    lemma_pop_until_props(stack, out);
                    let popped = spec_pop_until_lpt(stack, out);
                    lemma_rpn_loop_props(input.skip(1), popped.0, popped.1);
                } else {
                    lemma_pop_ge_props(stack, op, out);
                    let popped = spec_pop_ge(stack, op, out);
                    let stack2 = popped.0.push(op);
                    assert(forall|j: int|
                        0 <= j < stack2.len() ==> stack2[j] != Operator::RPt);
                    lemma_rpn_loop_props(input.skip(1), stack2, popped.1);
                }
            },
            _ => {
                lemma_filter_head_keep(input);
                let out2 = out.push(head);
                lemma_operands_snoc(out, head);
                lemma_rpn_loop_props(input.skip(1), stack, out2);
                assert(spec_operands(out).push(head) + spec_operands(input.skip(1))
                    =~= spec_operands(out) + (seq![head] + spec_operands(input.skip(1))));
            },
        }
    }
}

/// Bracket conservation: with equal counts of `(` and `)` the reordering
/// succeeds and its output holds no parenthesis token; any imbalance is
/// refused with `UnbalancedBrackets`.
pub proof fn lemma_bracket_conservation(toks: Seq<TokV>)
    ensures
        spec_count_op(toks, Operator::LPt) == spec_count_op(toks, Operator::RPt) ==> (
        spec_to_rpn(toks) is Ok && no_parens(spec_to_rpn(toks)->Ok_0)),
        spec_count_op(toks, Operator::LPt) != spec_count_op(toks, Operator::RPt) ==> spec_to_rpn(
            toks,
        ) == Err::<Seq<TokV>, EvalErrV>(EvalErrV::UnbalancedBrackets),
{
    if spec_count_op(toks, Operator::LPt) == spec_count_op(toks, Operator::RPt) {
        lemma_rpn_loop_props(toks, Seq::empty(), Seq::empty());
    }
}

/// Type-inference determinism: the reordering keeps the operand tokens in
/// order, so the inferred type of the reordered formula is `get_type` of the
/// first non-operator token of the original formula.
pub proof fn lemma_type_inference_deterministic(toks: Seq<TokV>)
    requires
        spec_to_rpn(toks) is Ok,
    ensures
        spec_operands(spec_to_rpn(toks)->Ok_0) == spec_operands(toks),
        spec_operands(toks).len() > 0 ==> spec_guess_type(spec_to_rpn(toks)->Ok_0)
            == spec_guess_type(toks),
{
    lemma_rpn_loop_props(toks, Seq::empty(), Seq::empty());
    reveal_with_fuel(Seq::filter, 2);
    assert(spec_operands(Seq::<TokV>::empty()) =~= Seq::<TokV>::empty());
    assert(Seq::<TokV>::empty() + spec_operands(toks) =~= spec_operands(toks));
}

fn count_op(input: &Vec<FormulaToken>, o: Operator) -> (r: usize)
    ensures
        r as int == spec_count_op(toks_view(input@), o),
{
    let ghost tv = toks_view(input@);
    let mut c: usize = 0;
    let mut i: usize = 0;
    proof {
        assert(tv.skip(0) =~= tv);
    }
    while i < input.len()
        invariant
            i <= input@.len(),
            tv == toks_view(input@),
            c <= i,
            spec_count_op(tv, o) == c + spec_count_op(tv.skip(i as int), o),
        decreases input@.len() - i,
    {
        proof {
            assert(tv.skip(i as int)[0] == tv[i as int]);
            assert(tv.skip(i as int).skip(1) =~= tv.skip(i + 1));
        }
        let hit = match &input[i] {
            FormulaToken::Operator(op) => *op == o,
            _ => false,
        };
        if hit {
            c = c + 1;
        }
        i = i + 1;
    }
    proof {
        assert(tv.skip(tv.len() as int) =~= Seq::<TokV>::empty());
    }
    c
}

/// Reorders an infix token sequence into reverse Polish notation by the
/// shunting-yard algorithm; unequal parenthesis counts are refused.
pub fn to_rpn(input: Vec<FormulaToken>) -> (r: Result<Vec<FormulaToken>, EvaluateError>)
    ensures
        (match r {
            Ok(v) => Ok::<Seq<TokV>, EvalErrV>(toks_view(v@)),
            Err(e) => Err(e@),
        }) == spec_to_rpn(toks_view(input@)),
{
    let ghost tv = toks_view(input@);
    let lcount = count_op(&input, Operator::LPt);
    let rcount = count_op(&input, Operator::RPt);
    if lcount != rcount {
        return Err(EvaluateError::UnbalancedBrackets);
    }
    let mut out: Vec<FormulaToken> = Vec::new();
    let mut stack: Vec<Operator> = Vec::new();
    let mut i: usize = 0;
    proof {
        assert(tv.skip(0) =~= tv);
        assert(toks_view(out@) =~= Seq::<TokV>::empty());
        assert(stack@ =~= Seq::<Operator>::empty());
    }
    while i < input.len()
        invariant
            i <= input@.len(),
            tv == toks_view(input@),
            spec_rpn_loop(tv, Seq::empty(), Seq::empty()) == spec_rpn_loop(
                tv.skip(i as int),
                stack@,
                toks_view(out@),
            ),
        decreases input@.len() - i,
    {
        let ghost s0 = stack@;
        let ghost o0 = toks_view(out@);
        proof {
            assert(tv.skip(i as int)[0] == tv[i as int]);
            assert(tv.skip(i as int).skip(1) =~= tv.skip(i + 1));
        }
        let is_operator = match &input[i] {
            FormulaToken::Operator(_) => true,
            _ => false,
        };
        if !is_operator {
            let tok = dup_token(&input[i]);
            out.push(tok);
            proof {
                assert(toks_view(out@) =~= o0.push(tv[i as int]));
            }
        } else {
            let op = match &input[i] {
                FormulaToken::Operator(op) => *op,
                _ => Operator::Add,
            };
            if op == Operator::LPt {
                stack.push(op);
            } else if op == Operator::RPt {
                loop
                    invariant_except_break
                        spec_pop_until_lpt(s0, o0) == spec_pop_until_lpt(stack@, toks_view(out@)),
                    ensures
                        stack@ == spec_pop_until_lpt(s0, o0).0,
                        toks_view(out@) == spec_pop_until_lpt(s0, o0).1,
                    decreases stack@.len(),
                {
                    let ghost s1 = stack@;
                    let ghost o1 = toks_view(out@);
                    match stack.pop() {
                        None => {
                            break ;
                        },
                        Some(top) => {
                            proof {
                                assert(s1.drop_last() =~= stack@);
                            }
                            if top == Operator::LPt {
                                break ;
                            }
                            out.push(FormulaToken::Operator(top));
                            proof {
                                assert(toks_view(out@) =~= o1.push(TokV::Operator(top)));
                            }
                        },
                    }
                }
            } else {
                loop
                    invariant_except_break
                        spec_pop_ge(s0, op, o0) == spec_pop_ge(stack@, op, toks_view(out@)),
                    ensures
                        stack@ == spec_pop_ge(s0, op, o0).0,
                        toks_view(out@) == spec_pop_ge(s0, op, o0).1,
                    decreases stack@.len(),
                {
                    let ghost s1 = stack@;
                    let ghost o1 = toks_view(out@);
                    let do_pop = match stack.last() {
                        None => false,
                        Some(top) => !(*top == Operator::LPt || top.get_priority()
                            < op.get_priority()),
                    };
                    if !do_pop {
                        break ;
                    }
                    match stack.pop() {
                        Some(top) => {
                            proof {
                                assert(s1.drop_last() =~= stack@);
                            }
                            out.push(FormulaToken::Operator(top));
                            proof {
                                assert(toks_view(out@) =~= o1.push(TokV::Operator(top)));
                            }
                        },
                        None => {
                            break ;
                        },
                    }
                }
                stack.push(op);
            }
        }
        i = i + 1;
    }
    proof {
        assert(tv.skip(tv.len() as int) =~= Seq::<TokV>::empty());
    }
    loop
        invariant_except_break
            spec_rpn_loop(tv, Seq::empty(), Seq::empty()) == spec_drain(stack@, toks_view(out@)),
        ensures
            toks_view(out@) == spec_rpn_loop(tv, Seq::empty(), Seq::empty()),
        decreases stack@.len(),
    {
        let ghost s1 = stack@;
        let ghost o1 = toks_view(out@);
        match stack.pop() {
            None => {
                break ;
            },
            Some(top) => {
                proof {
                    assert(s1.drop_last() =~= stack@);
                }
                if !(top == Operator::LPt || top == Operator::RPt) {
                    out.push(FormulaToken::Operator(top));
                    proof {
                        assert(toks_view(out@) =~= o1.push(TokV::Operator(top)));
                    }
                }
            },
        }
    }
    Ok(out)
}

/// A token whose view equals the given one's.
fn dup_token(t: &FormulaToken) -> (r: FormulaToken)
    ensures
        r@ == t@,
{
    match t {
        FormulaToken::Int(i) => FormulaToken::Int(*i),
        FormulaToken::Float(f) => FormulaToken::Float(*f),
        FormulaToken::Scoreboard(s) => FormulaToken::Scoreboard(s.duplicate()),
        FormulaToken::Operator(o) => FormulaToken::Operator(*o),
        FormulaToken::MCFunction(m) => FormulaToken::MCFunction(m.duplicate()),
    }
}

/// The inferred type of a formula is `get_type` of its first non-operator
/// token.
pub fn guess_formula_type(formula: &Vec<FormulaToken>) -> (r: Types)
    requires
        spec_operands(toks_view(formula@)).len() > 0,
    ensures
        r == spec_guess_type(toks_view(formula@)),
{
    let ghost toks = toks_view(formula@);
    let mut i: usize = 0;
    loop
        invariant
            toks == toks_view(formula@),
            i <= formula@.len(),
            spec_operands(toks).len() > 0,
            forall|j: int| 0 <= j < i ==> toks[j] is Operator,
        decreases formula@.len() - i,
    {
        if i == formula.len() {
            proof {
                lemma_operands_skip(toks, i as int);
                assert(toks.skip(i as int) =~= Seq::<TokV>::empty());
                reveal(Seq::filter);
                assert(false);
            }
        } else {
            match &formula[i] {
                FormulaToken::Operator(_) => {
                    i = i + 1;
                },
                t => {
                    proof {
                        lemma_operands_skip(toks, i as int);
                        lemma_filter_head_operand(toks.skip(i as int));
                        assert(toks.skip(i as int)[0] == toks[i as int]);
                    }
                    return t.get_type();
                },
            }
        }
    }
}

/// The views of a list of operands.
pub open spec fn calcs_view(v: Seq<Calcable>) -> Seq<CalcV> {
    v.map_values(|c: Calcable| c@)
}

/// A line-list result over views.
pub open spec fn lines_res_view(r: Result<Vec<String>, EvaluateError>) -> Result<
    Seq<Seq<char>>,
    EvalErrV,
> {
    match r {
        Ok(v) => Ok(crate::compile_task::strs_view(v@)),
        Err(e) => Err(e@),
    }
}

/// The scratch slot a formula accumulates into: `#Calc.TEMP`, typed by the
/// annotation when one is given, else by the formula's inferred type.
pub open spec fn spec_temp_for(toks: Seq<TokV>, tdt: Option<Types>) -> ScorebV {
    ScorebV {
        name: "TEMP".view(),
        data_type: match tdt {
            Some(t) => t,
            None => spec_guess_type(toks),
        },
        scope: seq!["Calc".view()],
    }
}

/// One step of the RPN stack machine per token: operands push themselves; an
/// operator pops its two operands, picks the accumulator and emits the
/// lowered command.
pub open spec fn spec_rpn_eval(
    rem: Seq<TokV>,
    single: bool,
    temp: ScorebV,
    stack: Seq<CalcV>,
    resp: Seq<Seq<char>>,
) -> Result<(Seq<Seq<char>>, Seq<CalcV>), EvalErrV>
    decreases rem.len(),
{
    if rem.len() == 0 {
        Ok((resp, stack))
    } else {
        match rem[0] {
            TokV::Int(i) => spec_rpn_eval(rem.skip(1), single, temp, stack.push(CalcV::Int(i)), resp),
            TokV::Float(f) => spec_rpn_eval(
                rem.skip(1),
                single,
                temp,
                stack.push(CalcV::Flt(f)),
                resp,
            ),
            TokV::Scoreboard(s) => spec_rpn_eval(
                rem.skip(1),
                single,
                temp,
                stack.push(CalcV::Scr(s)),
                resp,
            ),
            TokV::MCFunction(m) => {
                if single {
                    spec_rpn_eval(rem.skip(1), single, temp, stack, resp.push(m.callment))
                } else {
                    spec_rpn_eval(rem.skip(1), single, temp, stack.push(CalcV::Mcf(m)), resp)
                }
            },
            TokV::Operator(o) => {
                if stack.len() < 2 {
                    Err(EvalErrV::InvalidFormula)
                } else {
                    let rhs = stack.last();
                    let lhs = stack[stack.len() - 2];
                    let rest = stack.take(stack.len() - 2);
                    let picked: Result<(Seq<Seq<char>>, ScorebV), EvalErrV> = match lhs {
                        CalcV::Scr(sv) => Ok((resp, sv)),
                        CalcV::Mcf(m) => Ok((resp.push(m.callment), m.ret_container)),
                        _ => match crate::compile_task::scoreboard::spec_assign(temp, lhs) {
                            Ok(cmd) => Ok((resp.push(cmd), temp)),
                            Err(e) => Err(e),
                        },
                    };
                    match picked {
                        Err(e) => Err(e),
                        Ok(p) => match crate::compile_task::scoreboard::spec_calc(
                            p.1,
                            spec_op_str(o),
                            rhs,
                        ) {
                            Ok(cmd) => spec_rpn_eval(
                                rem.skip(1),
                                single,
                                temp,
                                rest.push(CalcV::Scr(p.1)),
                                p.0.push(cmd),
                            ),
                            Err(e) => Err(e),
                        },
                    }
                }
            },
        }
    }
}

/// Lowers an RPN token sequence to commands computing into `#Calc.TEMP`; a
/// single-token formula is assigned to the temporary so that a result slot
/// always exists.
pub open spec fn spec_calc_rpn(toks: Seq<TokV>, tdt: Option<Types>) -> Result<
    (Seq<Seq<char>>, ScorebV),
    EvalErrV,
> {
    if spec_operands(toks).len() == 0 {
        Err(EvalErrV::InvalidFormula)
    } else {
        let temp = spec_temp_for(toks, tdt);
        match spec_rpn_eval(toks, toks.len() <= 1, temp, Seq::empty(), Seq::empty()) {
            Err(e) => Err(e),
            Ok(p) => {
                if toks.len() == 1 {
                    let first: Result<CalcV, EvalErrV> = match toks[0] {
                        TokV::Int(i) => Ok(CalcV::Int(i)),
                        TokV::Float(f) => Ok(CalcV::Flt(f)),
                        TokV::Scoreboard(s) => Ok(CalcV::Scr(s)),
                        TokV::MCFunction(m) => Ok(CalcV::Mcf(m)),
                        TokV::Operator(_) => Err(EvalErrV::InvalidFormula),
                    };
                    match first {
                        Err(e) => Err(e),
                        Ok(f) => match crate::compile_task::scoreboard::spec_assign(temp, f) {
                            Ok(cmd) => Ok((p.0.push(cmd), temp)),
                            Err(e) => Err(e),
                        },
                    }
                } else {
                    Ok((p.0, temp))
                }
            },
        }
    }
}

/// Lowers an RPN token sequence; the commands land in the first element of
/// the pair, the scoreboard holding the result in the second.
#[verifier::rlimit(100)]
#[verifier::spinoff_prover]
pub fn calc_rpn(formula: Vec<FormulaToken>, temp_score_data_type: Option<Types>) -> (r: Result<
    (Vec<String>, Scoreboard),
    EvaluateError,
>)
    ensures
        (match r {
            Ok(p) => Ok::<(Seq<Seq<char>>, ScorebV), EvalErrV>(
                (crate::compile_task::strs_view(p.0@), p.1@),
            ),
            Err(e) => Err(e@),
        }) == spec_calc_rpn(toks_view(formula@), temp_score_data_type),
{
    let ghost tv = toks_view(formula@);
    let mut has_operand = false;
    let mut j: usize = 0;
    while j < formula.len()
        invariant
            j <= formula@.len(),
            tv == toks_view(formula@),
            has_operand ==> spec_operands(tv).len() > 0,
            !has_operand ==> (forall|k: int| 0 <= k < j ==> tv[k] is Operator),
        decreases formula@.len() - j,
    {
        match &formula[j] {
            FormulaToken::Operator(_) => {},
            _ => {
                proof {
                    if !has_operand {
                        lemma_operands_skip(tv, j as int);
                        lemma_filter_head_operand(tv.skip(j as int));
                    }
                }
                has_operand = true;
            },
        }
        j = j + 1;
    }
    if !has_operand {
        proof {
            lemma_operands_skip(tv, tv.len() as int);
            assert(tv.skip(tv.len() as int) =~= Seq::<TokV>::empty());
            reveal_with_fuel(Seq::filter, 2);
        }
        return Err(EvaluateError::InvalidFormula);
    }
    let data_type = guess_formula_type(&formula);
    let temp_type = match temp_score_data_type {
        Some(t) => t,
        None => data_type,
    };
    let mut scope: Vec<String> = Vec::new();
    scope.push(String::from_str("Calc"));
    let temp = Scoreboard { name: String::from_str("TEMP"), data_type: temp_type, scope };
    let ghost tempv = spec_temp_for(tv, temp_score_data_type);
    proof {
        assert(temp@ =~= tempv);
    }
    let single = formula.len() <= 1;
    let mut responce: Vec<String> = Vec::new();
    let mut stack: Vec<Calcable> = Vec::new();
    let mut i: usize = 0;
    proof {
        assert(tv.skip(0) =~= tv);
        assert(calcs_view(stack@) =~= Seq::<CalcV>::empty());
        assert(crate::compile_task::strs_view(responce@) =~= Seq::<Seq<char>>::empty());
    }
    while i < formula.len()
        invariant
            i <= formula@.len(),
            tv == toks_view(formula@),
            single == (formula@.len() <= 1),
            tempv == temp@,
            tempv == spec_temp_for(tv, temp_score_data_type),
            spec_operands(tv).len() > 0,
            spec_rpn_eval(tv, single, tempv, Seq::empty(), Seq::empty()) == spec_rpn_eval(
                tv.skip(i as int),
                single,
                tempv,
                calcs_view(stack@),
                crate::compile_task::strs_view(responce@),
            ),
        decreases formula@.len() - i,
    {
        let ghost st0 = calcs_view(stack@);
        let ghost rp0 = crate::compile_task::strs_view(responce@);
        proof {
            assert(tv.skip(i as int)[0] == tv[i as int]);
            assert(tv.skip(i as int).skip(1) =~= tv.skip(i + 1));
        }
        match &formula[i] {
            FormulaToken::Int(n) => {
                stack.push(Calcable::Int(*n));
                proof {
                    assert(calcs_view(stack@) =~= st0.push(CalcV::Int(*n as int)));
                }
            },
            FormulaToken::Float(f) => {
                stack.push(Calcable::Flt(*f));
                proof {
                    assert(calcs_view(stack@) =~= st0.push(CalcV::Flt(*f as int)));
                }
            },
            FormulaToken::Scoreboard(s) => {
                stack.push(Calcable::Scr(s.duplicate()));
                proof {
                    assert(calcs_view(stack@) =~= st0.push(CalcV::Scr(s@)));
                }
            },
            FormulaToken::MCFunction(m) => {
                if single {
                    responce.push(m.callment.clone());
                    proof {
                        assert(crate::compile_task::strs_view(responce@) =~= rp0.push(
                            m.callment@,
                        ));
                    }
                } else {
                    stack.push(Calcable::Mcf(m.duplicate()));
                    proof {
                        assert(calcs_view(stack@) =~= st0.push(CalcV::Mcf(mcf_view(*m))));
                    }
                }
            },
            FormulaToken::Operator(o) => {
                if stack.len() < 2 {
                    proof {
                        assert(spec_rpn_eval(
                            tv.skip(i as int),
                            single,
                            tempv,
                            st0,
                            rp0,
                        ) == Err::<(Seq<Seq<char>>, Seq<CalcV>), EvalErrV>(EvalErrV::InvalidFormula));
                    }
                    return Err(EvaluateError::InvalidFormula);
                }
                let rhs = match stack.pop() {
                    Some(x) => x,
                    None => {
                        proof {
                            assert(false);
                        }
                        return Err(EvaluateError::InvalidFormula);
                    },
                };
                let lhs = match stack.pop() {
                    Some(x) => x,
                    None => {
                        proof {
                            assert(false);
                        }
                        return Err(EvaluateError::InvalidFormula);
                    },
                };
                proof {
                    assert(calcs_view(stack@) =~= st0.take(st0.len() - 2));
                    assert(rhs@ == st0.last());
                    assert(lhs@ == st0[st0.len() - 2]);
                }
                let target: Scoreboard = match lhs {
                    Calcable::Scr(sv) => sv,
                    Calcable::Mcf(m) => {
                        responce.push(m.callment.clone());
                        proof {
                            assert(crate::compile_task::strs_view(responce@) =~= rp0.push(
                                m.callment@,
                            ));
                        }
                        m.ret_container
                    },
                    other => {
                        let cmd = match temp.assign(&other) {
                            Ok(c) => c,
                            Err(e) => {
                                proof {
                                    assert(spec_rpn_eval(
                                        tv.skip(i as int),
                                        single,
                                        tempv,
                                        st0,
                                        rp0,
                                    ) == Err::<(Seq<Seq<char>>, Seq<CalcV>), EvalErrV>(e@));
                                }
                                return Err(e);
                            },
                        };
                        responce.push(cmd);
                        proof {
                            assert(crate::compile_task::strs_view(responce@) =~= rp0.push(
                                crate::compile_task::scoreboard::spec_assign(
                                    tempv,
                                    other@,
                                )->Ok_0,
                            ));
                        }
                        temp.duplicate()
                    },
                };
                let ghost rp1 = crate::compile_task::strs_view(responce@);
                let cmd2 = match target.calc(o.as_str(), &rhs) {
                    Ok(c) => c,
                    Err(e) => {
                        proof {
                            assert(spec_rpn_eval(
                                tv.skip(i as int),
                                single,
                                tempv,
                                st0,
                                rp0,
                            ) == Err::<(Seq<Seq<char>>, Seq<CalcV>), EvalErrV>(e@));
                        }
                        return Err(e);
                    },
                };
                responce.push(cmd2);
                stack.push(Calcable::Scr(target));
                proof {
                    assert(crate::compile_task::strs_view(responce@) =~= rp1.push(cmd2@));
                    assert(calcs_view(stack@) =~= st0.take(st0.len() - 2).push(
                        calcs_view(stack@).last(),
                    ));
                }
            },
        }
        i = i + 1;
    }
    proof {
        assert(tv.skip(tv.len() as int) =~= Seq::<TokV>::empty());
        assert(spec_rpn_eval(tv, single, tempv, Seq::empty(), Seq::empty()) == Ok::<
            (Seq<Seq<char>>, Seq<CalcV>),
            EvalErrV,
        >((crate::compile_task::strs_view(responce@), calcs_view(stack@))));
    }
    let ghost rp_end = crate::compile_task::strs_view(responce@);
    if formula.len() == 1 {
        proof {
            assert(tv[0] == formula@[0]@);
        }
        let first = match &formula[0] {
            FormulaToken::Int(n) => Calcable::Int(*n),
            FormulaToken::Float(f) => Calcable::Flt(*f),
            FormulaToken::Scoreboard(s) => Calcable::Scr(s.duplicate()),
            FormulaToken::MCFunction(m) => Calcable::Mcf(m.duplicate()),
            FormulaToken::Operator(_) => {
                return Err(EvaluateError::InvalidFormula);
            },
        };
        let cmd = match temp.assign(&first) {
            Ok(c) => c,
            Err(e) => {
                return Err(e);
            },
        };
        responce.push(cmd);
        proof {
            assert(crate::compile_task::strs_view(responce@) =~= rp_end.push(cmd@));
        }
    }
    Ok((responce, temp))
}

/// Splits an assignment target into its name and optional `int`/`float`/
/// `bool` annotation.
pub open spec fn spec_implicate_lhs(lhs: Seq<char>) -> Result<
    (Seq<char>, Option<Types>),
    EvalErrV,
> {
    let ci = spec_find_char(lhs, ':') as int;
    if ci < lhs.len() {
        let name = lhs.take(ci);
        let ann = lhs.skip(ci + 1);
        if ann == "int".view() {
            Ok((name, Some(Types::Int)))
        } else if ann == "float".view() {
            Ok((name, Some(Types::Flt)))
        } else if ann == "bool".view() {
            Ok((name, Some(Types::Bln)))
        } else {
            Err(EvalErrV::UnknownTypeAnnotation(ann))
        }
    } else {
        Ok((lhs, None))
    }
}

/// Splits an assignment target `name[:type]` into name and annotation.
pub fn implicate_lhs(lhs: &str) -> (r: Result<(String, Option<Types>), EvaluateError>)
    ensures
        (match r {
            Ok(p) => Ok::<(Seq<char>, Option<Types>), EvalErrV>((p.0@, p.1)),
            Err(e) => Err(e@),
        }) == spec_implicate_lhs(lhs@),
{
    let chars = crate::text::to_char_vec(lhs);
    match crate::text::find_char(&chars, ':', 0) {
        Some(ci) => {
            proof {
                lemma_find_char_at(chars@, ':', ci as int);
            }
            let name = crate::text::string_range(&chars, 0, ci);
            let ann = crate::text::string_range(&chars, ci + 1, chars.len());
            proof {
                assert(chars@.subrange(0, ci as int) =~= chars@.take(ci as int));
                assert(chars@.subrange(ci + 1, chars@.len() as int) =~= chars@.skip(ci + 1));
            }
            if crate::text::str_eq(ann.as_str(), "int") {
                Ok((name, Some(Types::Int)))
            } else if crate::text::str_eq(ann.as_str(), "float") {
                Ok((name, Some(Types::Flt)))
            } else if crate::text::str_eq(ann.as_str(), "bool") {
                Ok((name, Some(Types::Bln)))
            } else {
                Err(EvaluateError::UnknownTypeAnnotation(ann))
            }
        },
        None => {
            proof {
                lemma_find_char_at(chars@, ':', chars@.len() as int);
            }
            Ok((String::from_str(lhs), None))
        },
    }
}

/// Commands computing `formula` into `store`: a comment echoing the source,
/// the lowered computation, and the final assignment from `#Calc.TEMP`.
pub open spec fn spec_eval_then_store(
    t: crate::compile_task::TaskV,
    store: ScorebV,
    formula: Seq<char>,
) -> Result<Seq<Seq<char>>, EvalErrV> {
    match spec_tokenize(t, formula) {
        Err(e) => Err(e),
        Ok(toks) => match spec_to_rpn(toks) {
            Err(e) => Err(e),
            Ok(rpn) => match spec_calc_rpn(rpn, Some(store.data_type)) {
                Err(e) => Err(e),
                Ok(p) => match crate::compile_task::scoreboard::spec_assign(
                    store,
                    CalcV::Scr(p.1),
                ) {
                    Err(e) => Err(e),
                    Ok(asg) => Ok(
                        seq![
                            "# ".view() + store.name + " = ".view() + crate::text::spec_trim(
                                formula,
                            )
                        ] + p.0 + seq![asg],
                    ),
                },
            },
        },
    }
}

/// Evaluates `formula` and stores the result into `store_to`.
#[verifier::rlimit(100)]
pub fn eval_then_store(
    compiler: &crate::compile_task::CompileTask,
    store_to: &Scoreboard,
    formula: &str,
) -> (r: Result<Vec<String>, EvaluateError>)
    ensures
        lines_res_view(r) == spec_eval_then_store(compiler@, store_to@, formula@),
{
    let toks = match to_formula_tokens(compiler, formula) {
        Ok(t) => t,
        Err(e) => {
            return Err(e);
        },
    };
    let rpn = match to_rpn(toks) {
        Ok(t) => t,
        Err(e) => {
            return Err(e);
        },
    };
    let calced = match calc_rpn(rpn, Some(store_to.data_type)) {
        Ok(p) => p,
        Err(e) => {
            return Err(e);
        },
    };
    let assignment = match store_to.assign(&Calcable::Scr(calced.1)) {
        Ok(c) => c,
        Err(e) => {
            return Err(e);
        },
    };
    let mut head = String::from_str("# ");
    head.append(store_to.name.as_str());
    head.append(" = ");
    let fchars = crate::text::to_char_vec(formula);
    let trimmed = crate::text::trim_range(&fchars, 0, fchars.len());
    head.append(trimmed.as_str());
    let mut result = calced.0;
    let ghost cmdsv = crate::compile_task::strs_view(result@);
    result.insert(0, head);
    result.push(assignment);
    proof {
        assert(fchars@.subrange(0, fchars@.len() as int) =~= formula@);
        assert(crate::compile_task::strs_view(result@) =~= seq![
            "# ".view() + store_to@.name + " = ".view() + crate::text::spec_trim(formula@)
        ] + cmdsv + seq![assignment@]);
    }
    Ok(result)
}

/// The commands of a bare expression formula, with no storing assignment.
pub open spec fn spec_expr_eval(t: crate::compile_task::TaskV, formula: Seq<char>) -> Result<
    Seq<Seq<char>>,
    EvalErrV,
> {
    match spec_tokenize(t, formula) {
        Err(e) => Err(e),
        Ok(toks) => match spec_to_rpn(toks) {
            Err(e) => Err(e),
            Ok(rpn) => match spec_calc_rpn(rpn, None) {
                Err(e) => Err(e),
                Ok(p) => Ok(p.0),
            },
        },
    }
}

/// The inferred type of the right-hand side, when no annotation names one.
pub open spec fn spec_rhs_type(t: crate::compile_task::TaskV, rhs: Seq<char>) -> Result<
    Types,
    EvalErrV,
> {
    match spec_tokenize(t, rhs) {
        Err(e) => Err(e),
        Ok(toks) => match spec_to_rpn(toks) {
            Err(e) => Err(e),
            Ok(rpn) => if spec_operands(rpn).len() == 0 {
                Err(EvalErrV::InvalidFormula)
            } else {
                Ok(spec_guess_type(rpn))
            },
        },
    }
}

/// What one formula line does to the task and what commands it emits.  An
/// assignment defines its target in the local table before the right-hand
/// side is stored; a bare expression leaves the task unchanged.
pub open spec fn spec_evaluate(t: crate::compile_task::TaskV, formula: Seq<char>) -> (
    crate::compile_task::TaskV,
    Result<Seq<Seq<char>>, EvalErrV>,
) {
    let ei = spec_find_char(formula, '=') as int;
    if ei < formula.len() {
        match spec_implicate_lhs(crate::text::spec_trim(formula.take(ei))) {
            Err(e) => (t, Err(e)),
            Ok(p) => {
                let rhs = formula.skip(ei + 1);
                if p.0.len() > 0 {
                    let dtr = match p.1 {
                        Some(d) => Ok(d),
                        None => spec_rhs_type(t, rhs),
                    };
                    match dtr {
                        Err(e) => (t, Err(e)),
                        Ok(dt) => {
                            let lhs = ScorebV { name: p.0, data_type: dt, scope: t.scope };
                            let t2 = crate::compile_task::TaskV {
                                local_variables: crate::compile_task::spec_insert_var(
                                    t.local_variables,
                                    lhs,
                                ),
                                ..t
                            };
                            match spec_eval_then_store(t2, lhs, rhs) {
                                Ok(lines) => (t2, Ok(lines)),
                                Err(e) => (t, Err(e)),
                            }
                        },
                    }
                } else {
                    (t, spec_expr_eval(t, formula))
                }
            },
        }
    } else {
        (t, spec_expr_eval(t, formula))
    }
}

/// A copy of a scoreboard table whose views equal the original's.
fn dup_scoreboards(v: &Vec<Scoreboard>) -> (r: Vec<Scoreboard>)
    ensures
        crate::compile_task::sbs_view(r@) == crate::compile_task::sbs_view(v@),
{
    let mut r: Vec<Scoreboard> = Vec::new();
    let mut i: usize = 0;
    while i < v.len()
        invariant
            i <= v@.len(),
            crate::compile_task::sbs_view(r@) =~= crate::compile_task::sbs_view(v@).take(i as int),
        decreases v@.len() - i,
    {
        let ghost before = crate::compile_task::sbs_view(r@);
        r.push(v[i].duplicate());
        proof {
            assert(crate::compile_task::sbs_view(r@) =~= before.push(v@[i as int]@));
            assert(crate::compile_task::sbs_view(v@).take(i + 1) =~= crate::compile_task::sbs_view(
                v@,
            ).take(i as int).push(v@[i as int]@));
        }
        i = i + 1;
    }
    proof {
        assert(crate::compile_task::sbs_view(r@) =~= crate::compile_task::sbs_view(v@));
    }
    r
}

/// Evaluates one formula line: an assignment defines a local variable and
/// stores into it; a bare expression only computes.
pub fn evaluate(compiler: &mut crate::compile_task::CompileTask, formula: &str) -> (r: Result<
    Vec<String>,
    EvaluateError,
>)
    ensures
        final(compiler)@ == spec_evaluate(old(compiler)@, formula@).0,
        lines_res_view(r) == spec_evaluate(old(compiler)@, formula@).1,
{
    let chars = crate::text::to_char_vec(formula);
    match crate::text::find_char(&chars, '=', 0) {
        Some(ei) => {
            proof {
                lemma_find_char_at(chars@, '=', ei as int);
            }
            let lhs_raw = crate::text::trim_range(&chars, 0, ei);
            proof {
                assert(chars@.subrange(0, ei as int) =~= chars@.take(ei as int));
            }
            let implicated = match implicate_lhs(lhs_raw.as_str()) {
                Ok(p) => p,
                Err(e) => {
                    return Err(e);
                },
            };
            let clen = chars.len();
            let rhs = crate::text::string_range(&chars, ei + 1, clen);
            proof {
                assert(chars@.subrange(ei + 1, chars@.len() as int) =~= chars@.skip(ei + 1));
            }
            if implicated.0.as_str().unicode_len() > 0 {
                let data_type = match implicated.1 {
                    Some(d) => d,
                    None => {
                        let toks = match to_formula_tokens(compiler, rhs.as_str()) {
                            Ok(t) => t,
                            Err(e) => {
                                return Err(e);
                            },
                        };
                        let rpn = match to_rpn(toks) {
                            Ok(t) => t,
                            Err(e) => {
                                return Err(e);
                            },
                        };
                        let mut has_operand = false;
                        let ghost rv = toks_view(rpn@);
                        let mut j: usize = 0;
                        while j < rpn.len()
                            invariant
                                j <= rpn@.len(),
                                rv == toks_view(rpn@),
                                has_operand ==> spec_operands(rv).len() > 0,
                                !has_operand ==> (forall|k: int| 0 <= k < j ==> rv[k] is Operator),
                            decreases rpn@.len() - j,
                        {
                            match &rpn[j] {
                                FormulaToken::Operator(_) => {},
                                _ => {
                                    proof {
                                        if !has_operand {
                                            lemma_operands_skip(rv, j as int);
                                            lemma_filter_head_operand(rv.skip(j as int));
                                        }
                                    }
                                    has_operand = true;
                                },
                            }
                            j = j + 1;
                        }
                        if !has_operand {
                            proof {
                                lemma_operands_skip(rv, rv.len() as int);
                                assert(rv.skip(rv.len() as int) =~= Seq::<TokV>::empty());
                                reveal_with_fuel(Seq::filter, 2);
                            }
                            return Err(EvaluateError::InvalidFormula);
                        }
                        guess_formula_type(&rpn)
                    },
                };
                let lhs = Scoreboard {
                    name: String::from_str(implicated.0.as_str()),
                    data_type,
                    scope: crate::text::dup_string_vec(&compiler.scope),
                };
                let ghost lhsv = lhs@;
                let ghost t0 = compiler@;
                let saved = dup_scoreboards(&compiler.local_variables);
                let stored = lhs.duplicate();
                crate::compile_task::insert_var(&mut compiler.local_variables, stored);
                let ghost t2 = crate::compile_task::TaskV {
                    local_variables: crate::compile_task::spec_insert_var(
                        t0.local_variables,
                        lhs@,
                    ),
                    ..t0
                };
                proof {
                    assert(compiler@ =~= t2);
                }
                match eval_then_store(compiler, &lhs, rhs.as_str()) {
                    Ok(l) => Ok(l),
                    Err(e) => {
                        compiler.local_variables = saved;
                        proof {
                            assert(compiler@ =~= t0);
                        }
                        Err(e)
                    },
                }
            } else {
                let toks = match to_formula_tokens(compiler, formula) {
                    Ok(t) => t,
                    Err(e) => {
                        return Err(e);
                    },
                };
                let rpn = match to_rpn(toks) {
                    Ok(t) => t,
                    Err(e) => {
                        return Err(e);
                    },
                };
                match calc_rpn(rpn, None) {
                    Ok(p) => Ok(p.0),
                    Err(e) => Err(e),
                }
            }
        },
        None => {
            proof {
                lemma_find_char_at(chars@, '=', chars@.len() as int);
            }
            let toks = match to_formula_tokens(compiler, formula) {
                Ok(t) => t,
                Err(e) => {
                    return Err(e);
                },
            };
            let rpn = match to_rpn(toks) {
                Ok(t) => t,
                Err(e) => {
                    return Err(e);
                },
            };
            match calc_rpn(rpn, None) {
                Ok(p) => Ok(p.0),
                Err(e) => Err(e),
            }
        },
    }
}

/// The commands that conditionally run `command`: the guard expression is
/// evaluated into a temporary boolean holder, the command runs unless the
/// holder is zero, and the holder is released.
pub open spec fn spec_add_execution_condition(
    t: crate::compile_task::TaskV,
    name: Seq<char>,
    command: Seq<char>,
    condition: Seq<char>,
) -> Result<Seq<char>, EvalErrV> {
    match spec_tokenize(t, condition) {
        Err(e) => Err(e),
        Ok(toks) => match spec_to_rpn(toks) {
            Err(e) => Err(e),
            Ok(rpn) => {
                if spec_operands(rpn).len() == 0 {
                    Err(EvalErrV::InvalidFormula)
                } else {
                    let store = ScorebV {
                        name,
                        data_type: spec_guess_type(rpn),
                        scope: seq!["TEMP".view(), "EVAL_CONDITION".view()],
                    };
                    match spec_eval_then_store(t, store, condition) {
                        Err(e) => Err(e),
                        Ok(lines) => Ok(
                            crate::text::spec_join(lines, seq!['\n'])
                                + "\nexecute unless ".view()
                                + crate::compile_task::bool_ops::spec_cmp_eq(store, 0)
                                + " run ".view() + command + seq!['\n']
                                + crate::compile_task::scoreboard::spec_free(store),
                        ),
                    }
                }
            },
        },
    }
}

/// Wraps `command` in the evaluation of `condition`: the evaluation
/// preamble, an `execute unless` of the command, and a release of the
/// holder entry named by `temp_restraint_var_name`.
#[verifier::rlimit(100)]
pub fn add_execution_condition(
    compiler: &crate::compile_task::CompileTask,
    temp_restraint_var_name: &str,
    command: &str,
    condition: &str,
) -> (r: Result<String, EvaluateError>)
    ensures
        cmd_res_view(r) == spec_add_execution_condition(
            compiler@,
            temp_restraint_var_name@,
            command@,
            condition@,
        ),
{
    let toks = match to_formula_tokens(compiler, condition) {
        Ok(t) => t,
        Err(e) => {
            return Err(e);
        },
    };
    let rpn = match to_rpn(toks) {
        Ok(t) => t,
        Err(e) => {
            return Err(e);
        },
    };
    let mut has_operand = false;
    let ghost rv = toks_view(rpn@);
    let mut j: usize = 0;
    while j < rpn.len()
        invariant
            j <= rpn@.len(),
            rv == toks_view(rpn@),
            has_operand ==> spec_operands(rv).len() > 0,
            !has_operand ==> (forall|k: int| 0 <= k < j ==> rv[k] is Operator),
        decreases rpn@.len() - j,
    {
        match &rpn[j] {
            FormulaToken::Operator(_) => {},
            _ => {
                proof {
                    if !has_operand {
                        lemma_operands_skip(rv, j as int);
                        lemma_filter_head_operand(rv.skip(j as int));
                    }
                }
                has_operand = true;
            },
        }
        j = j + 1;
    }
    if !has_operand {
        proof {
            lemma_operands_skip(rv, rv.len() as int);
            assert(rv.skip(rv.len() as int) =~= Seq::<TokV>::empty());
            reveal_with_fuel(Seq::filter, 2);
        }
        return Err(EvaluateError::InvalidFormula);
    }
    let data_type = guess_formula_type(&rpn);
    let mut scope: Vec<String> = Vec::new();
    scope.push(String::from_str("TEMP"));
    scope.push(String::from_str("EVAL_CONDITION"));
    let store_to = Scoreboard {
        name: String::from_str(temp_restraint_var_name),
        data_type,
        scope,
    };
    let ghost storev = ScorebV {
        name: temp_restraint_var_name@,
        data_type,
        scope: seq!["TEMP".view(), "EVAL_CONDITION".view()],
    };
    proof {
        assert(store_to@ =~= storev);
    }
    let evaluation = match eval_then_store(compiler, &store_to, condition) {
        Ok(l) => l,
        Err(e) => {
            return Err(e);
        },
    };
    let cond_cmd = match store_to.pure_compare_value("==", 0) {
        Ok(c) => c,
        Err(_) => {
            proof {
                assert(false);
            }
            return Err(EvaluateError::InvalidFormula);
        },
    };
    let mut r = crate::text::join_strings(&evaluation, "\n");
    r.append("\nexecute unless ");
    r.append(cond_cmd.as_str());
    r.append(" run ");
    r.append(command);
    crate::text::push_char(&mut r, '\n');
    let freed = store_to.free();
    r.append(freed.as_str());
    proof {
        reveal_strlit("\n");
        assert("\n".view() =~= seq!['\n']);
        assert(cond_cmd@ =~= crate::compile_task::bool_ops::spec_cmp_eq(storev, 0));
        assert(r@ =~= (crate::text::spec_join(
            crate::compile_task::strs_view(evaluation@),
            seq!['\n'],
        ) + "\nexecute unless ".view() + crate::compile_task::bool_ops::spec_cmp_eq(storev, 0)
            + " run ".view() + command@ + seq!['\n']
            + crate::compile_task::scoreboard::spec_free(storev)));
    }
    Ok(r)
}

} // verus!
