//! Compilation of brace-delimited sentences into scoreboard command functions.
pub mod bool_ops;
pub mod evaluater;
pub mod float_ops;
pub mod int_ops;
pub mod mcfunction;
pub mod scoreboard;

pub use crate::compile_task::mcfunction::MCFunction;
pub use crate::compile_task::scoreboard::Scoreboard;

use vstd::prelude::*;
use vstd::seq_lib::*;
use vstd::string::*;

use rand::Rng;

use crate::compile_task::evaluater::{spec_err_msg, EvalErrV, EvaluateError};
use crate::compile_task::mcfunction::{mcf_view, McfV};
use crate::compile_task::scoreboard::ScorebV;
use crate::text::{
    dup_string_vec, find_char, is_space, replace_brace, spec_replace_brace, spec_split,
    spec_split_ws, spec_trim, split_on_char, split_whitespace, str_eq, string_range, to_char_vec,
    trim_range, vec_range,
};

verus! {

/// The views of a table of scoreboards.
pub open spec fn sbs_view(v: Seq<Scoreboard>) -> Seq<ScorebV> {
    v.map_values(|s: Scoreboard| s@)
}

/// The views of a table of functions.
pub open spec fn mcfs_view(v: Seq<MCFunction>) -> Seq<McfV> {
    v.map_values(|f: MCFunction| mcf_view(f))
}

/// The views of a list of strings.
pub open spec fn strs_view(v: Seq<String>) -> Seq<Seq<char>> {
    v.map_values(|s: String| s@)
}

/// Compilation context of one scope level: symbols inherited from enclosing
/// blocks, symbols introduced here, and the scope path.
pub struct CompileTask {
    pub inherited_variables: Vec<Scoreboard>,
    pub local_variables: Vec<Scoreboard>,
    pub inherited_functions: Vec<MCFunction>,
    pub local_functions: Vec<MCFunction>,
    pub scope: Vec<String>,
}

/// `CompileTask` over views.
#[verifier::ext_equal]
pub struct TaskV {
    pub inherited_variables: Seq<ScorebV>,
    pub local_variables: Seq<ScorebV>,
    pub inherited_functions: Seq<McfV>,
    pub local_functions: Seq<McfV>,
    pub scope: Seq<Seq<char>>,
}

impl View for CompileTask {
    type V = TaskV;

    open spec fn view(&self) -> TaskV {
        TaskV {
            inherited_variables: sbs_view(self.inherited_variables@),
            local_variables: sbs_view(self.local_variables@),
            inherited_functions: mcfs_view(self.inherited_functions@),
            local_functions: mcfs_view(self.local_functions@),
            scope: strs_view(self.scope@),
        }
    }
}

/// The first table entry carrying `name`, if any.
pub open spec fn spec_find_var(tbl: Seq<ScorebV>, name: Seq<char>) -> Option<ScorebV>
    decreases tbl.len(),
{
    if tbl.len() == 0 {
        None
    } else if tbl[0].name == name {
        Some(tbl[0])
    } else {
        spec_find_var(tbl.skip(1), name)
    }
}

/// The first table entry carrying `name`, if any.
pub open spec fn spec_find_fn(tbl: Seq<McfV>, name: Seq<char>) -> Option<McfV>
    decreases tbl.len(),
{
    if tbl.len() == 0 {
        None
    } else if tbl[0].name == name {
        Some(tbl[0])
    } else {
        spec_find_fn(tbl.skip(1), name)
    }
}

/// The table with `s` replacing its first namesake, or appended.
pub open spec fn spec_insert_var(tbl: Seq<ScorebV>, s: ScorebV) -> Seq<ScorebV>
    decreases tbl.len(),
{
    if tbl.len() == 0 {
        seq![s]
    } else if tbl[0].name == s.name {
        seq![s] + tbl.skip(1)
    } else {
        seq![tbl[0]] + spec_insert_var(tbl.skip(1), s)
    }
}

/// The table with `f` replacing its first namesake, or appended.
pub open spec fn spec_insert_fn(tbl: Seq<McfV>, f: McfV) -> Seq<McfV>
    decreases tbl.len(),
{
    if tbl.len() == 0 {
        seq![f]
    } else if tbl[0].name == f.name {
        seq![f] + tbl.skip(1)
    } else {
        seq![tbl[0]] + spec_insert_fn(tbl.skip(1), f)
    }
}

/// Variable lookup: inherited symbols shadow local ones.
pub open spec fn spec_get_variable(t: TaskV, name: Seq<char>) -> Option<ScorebV> {
    match spec_find_var(t.inherited_variables, name) {
        Some(s) => Some(s),
        None => spec_find_var(t.local_variables, name),
    }
}

/// Function lookup: inherited symbols shadow local ones.
pub open spec fn spec_get_function(t: TaskV, name: Seq<char>) -> Option<McfV> {
    match spec_find_fn(t.inherited_functions, name) {
        Some(f) => Some(f),
        None => spec_find_fn(t.local_functions, name),
    }
}

proof fn lemma_find_var_at(tbl: Seq<ScorebV>, name: Seq<char>, i: int)
    requires
        0 <= i < tbl.len(),
        tbl[i].name == name,
        forall|j: int| 0 <= j < i ==> tbl[j].name != name,
    ensures
        spec_find_var(tbl, name) == Some(tbl[i]),
    decreases i,
{
    if i > 0 {
        lemma_find_var_at(tbl.skip(1), name, i - 1);
    }
}

proof fn lemma_find_var_none(tbl: Seq<ScorebV>, name: Seq<char>)
    requires
        forall|j: int| 0 <= j < tbl.len() ==> tbl[j].name != name,
    ensures
        spec_find_var(tbl, name) is None,
    decreases tbl.len(),
{
    if tbl.len() > 0 {
        lemma_find_var_none(tbl.skip(1), name);
    }
}

proof fn lemma_find_fn_at(tbl: Seq<McfV>, name: Seq<char>, i: int)
    requires
        0 <= i < tbl.len(),
        tbl[i].name == name,
        forall|j: int| 0 <= j < i ==> tbl[j].name != name,
    ensures
        spec_find_fn(tbl, name) == Some(tbl[i]),
    decreases i,
{
    if i > 0 {
        lemma_find_fn_at(tbl.skip(1), name, i - 1);
    }
}

proof fn lemma_find_fn_none(tbl: Seq<McfV>, name: Seq<char>)
    requires
        forall|j: int| 0 <= j < tbl.len() ==> tbl[j].name != name,
    ensures
        spec_find_fn(tbl, name) is None,
    decreases tbl.len(),
{
    if tbl.len() > 0 {
        lemma_find_fn_none(tbl.skip(1), name);
    }
}

proof fn lemma_insert_var_at(tbl: Seq<ScorebV>, s: ScorebV, i: int)
    requires
        0 <= i < tbl.len(),
        tbl[i].name == s.name,
        forall|j: int| 0 <= j < i ==> tbl[j].name != s.name,
    ensures
        spec_insert_var(tbl, s) == tbl.update(i, s),
    decreases i,
{
    if i == 0 {
        assert(seq![s] + tbl.skip(1) =~= tbl.update(0, s));
    } else {
        lemma_insert_var_at(tbl.skip(1), s, i - 1);
        assert(tbl.skip(1).update(i - 1, s) =~= tbl.update(i, s).skip(1));
        assert(seq![tbl[0]] + tbl.update(i, s).skip(1) =~= tbl.update(i, s));
    }
}

proof fn lemma_insert_var_none(tbl: Seq<ScorebV>, s: ScorebV)
    requires
        forall|j: int| 0 <= j < tbl.len() ==> tbl[j].name != s.name,
    ensures
        spec_insert_var(tbl, s) == tbl.push(s),
    decreases tbl.len(),
{
    if tbl.len() == 0 {
        assert(seq![s] =~= tbl.push(s));
    } else {
        lemma_insert_var_none(tbl.skip(1), s);
        assert(seq![tbl[0]] + tbl.skip(1).push(s) =~= tbl.push(s));
    }
}

proof fn lemma_insert_fn_at(tbl: Seq<McfV>, f: McfV, i: int)
    requires
        0 <= i < tbl.len(),
        tbl[i].name == f.name,
        forall|j: int| 0 <= j < i ==> tbl[j].name != f.name,
    ensures
        spec_insert_fn(tbl, f) == tbl.update(i, f),
    decreases i,
{
    if i == 0 {
        assert(seq![f] + tbl.skip(1) =~= tbl.update(0, f));
    } else {
        lemma_insert_fn_at(tbl.skip(1), f, i - 1);
        assert(tbl.skip(1).update(i - 1, f) =~= tbl.update(i, f).skip(1));
        assert(seq![tbl[0]] + tbl.update(i, f).skip(1) =~= tbl.update(i, f));
    }
}

proof fn lemma_insert_fn_none(tbl: Seq<McfV>, f: McfV)
    requires
        forall|j: int| 0 <= j < tbl.len() ==> tbl[j].name != f.name,
    ensures
        spec_insert_fn(tbl, f) == tbl.push(f),
    decreases tbl.len(),
{
    if tbl.len() == 0 {
        assert(seq![f] =~= tbl.push(f));
    } else {
        lemma_insert_fn_none(tbl.skip(1), f);
        assert(seq![tbl[0]] + tbl.skip(1).push(f) =~= tbl.push(f));
    }
}

/// Replaces the first namesake of `s` in `tbl`, or appends `s`.
pub fn insert_var(tbl: &mut Vec<Scoreboard>, s: Scoreboard)
    ensures
        sbs_view(final(tbl)@) == spec_insert_var(sbs_view(old(tbl)@), s@),
{
    proof {
        assert(tbl@ == old(tbl)@);
    }
    let ghost orig = sbs_view(tbl@);
    let mut i: usize = 0;
    while i < tbl.len()
        invariant
            i <= tbl@.len(),
            orig == sbs_view(tbl@),
            orig == sbs_view(old(tbl)@),
            forall|j: int| 0 <= j < i ==> orig[j].name != s@.name,
        decreases tbl@.len() - i,
    {
        if crate::text::str_eq(tbl[i].name.as_str(), s.name.as_str()) {
            proof {
                lemma_insert_var_at(orig, s@, i as int);
            }
            tbl.set(i, s);
            proof {
                assert(sbs_view(tbl@) =~= orig.update(i as int, s@));
                assert(orig == sbs_view(old(tbl)@));
                assert(sbs_view(tbl@) == spec_insert_var(sbs_view(old(tbl)@), s@));
            }
            return ;
        }
        i = i + 1;
    }
    proof {
        lemma_insert_var_none(orig, s@);
    }
    tbl.push(s);
    proof {
        assert(sbs_view(tbl@) =~= orig.push(s@));
    }
}

/// Replaces the first namesake of `f` in `tbl`, or appends `f`.
pub fn insert_fn(tbl: &mut Vec<MCFunction>, f: MCFunction)
    ensures
        mcfs_view(final(tbl)@) == spec_insert_fn(mcfs_view(old(tbl)@), f@),
{
    let ghost orig = mcfs_view(tbl@);
    let mut i: usize = 0;
    while i < tbl.len()
        invariant
            i <= tbl@.len(),
            orig == mcfs_view(tbl@),
            orig == mcfs_view(old(tbl)@),
            forall|j: int| 0 <= j < i ==> orig[j].name != f@.name,
        decreases tbl@.len() - i,
    {
        if crate::text::str_eq(tbl[i].name.as_str(), f.name.as_str()) {
            proof {
                lemma_insert_fn_at(orig, f@, i as int);
            }
            tbl.set(i, f);
            proof {
                assert(mcfs_view(tbl@) =~= orig.update(i as int, f@));
            }
            return ;
        }
        i = i + 1;
    }
    proof {
        lemma_insert_fn_none(orig, f@);
    }
    tbl.push(f);
    proof {
        assert(mcfs_view(tbl@) =~= orig.push(f@));
    }
}

fn find_var<'a>(tbl: &'a Vec<Scoreboard>, name: &String) -> (r: Option<&'a Scoreboard>)
    ensures
        match r {
            Some(s) => spec_find_var(sbs_view(tbl@), name@) == Some(s@),
            None => spec_find_var(sbs_view(tbl@), name@) is None,
        },
{
    let mut i: usize = 0;
    while i < tbl.len()
        invariant
            i <= tbl@.len(),
            forall|j: int| 0 <= j < i ==> sbs_view(tbl@)[j].name != name@,
        decreases tbl@.len() - i,
    {
        if crate::text::str_eq(tbl[i].name.as_str(), name.as_str()) {
            proof {
                lemma_find_var_at(sbs_view(tbl@), name@, i as int);
            }
            return Some(&tbl[i]);
        }
        i = i + 1;
    }
    proof {
        lemma_find_var_none(sbs_view(tbl@), name@);
    }
    None
}

fn find_fn<'a>(tbl: &'a Vec<MCFunction>, name: &String) -> (r: Option<&'a MCFunction>)
    ensures
        match r {
            Some(f) => spec_find_fn(mcfs_view(tbl@), name@) == Some(f@),
            None => spec_find_fn(mcfs_view(tbl@), name@) is None,
        },
{
    let mut i: usize = 0;
    while i < tbl.len()
        invariant
            i <= tbl@.len(),
            forall|j: int| 0 <= j < i ==> mcfs_view(tbl@)[j].name != name@,
        decreases tbl@.len() - i,
    {
        if crate::text::str_eq(tbl[i].name.as_str(), name.as_str()) {
            proof {
                lemma_find_fn_at(mcfs_view(tbl@), name@, i as int);
            }
            return Some(&tbl[i]);
        }
        i = i + 1;
    }
    proof {
        lemma_find_fn_none(mcfs_view(tbl@), name@);
    }
    None
}

/// How a segment of a block is read: a comment, a nested sentence, or a
/// formula.
#[derive(Debug, PartialEq, Eq, Structural)]
pub enum SyntaxType {
    Comment,
    Sentence,
    Formula,
}

/// One line of a parsed sentence.
pub enum Line {
    Comment(String),
    Formula(String),
    Sentence(Sentence),
}

/// A brace-delimited block: its specifier tokens, its name and its parsed
/// lines.
pub struct Sentence {
    pub name: String,
    pub specifiers: Vec<String>,
    pub parsed_lines: Vec<Line>,
}

/// `Line` over views.
pub enum LineV {
    Comment(Seq<char>),
    Formula(Seq<char>),
    Sentence(SentV),
}

/// `Sentence` over views.
#[verifier::ext_equal]
pub struct SentV {
    pub name: Seq<char>,
    pub specifiers: Seq<Seq<char>>,
    pub parsed_lines: Seq<LineV>,
}

pub open spec fn line_view(l: Line) -> LineV
    decreases l,
{
    match l {
        Line::Comment(s) => LineV::Comment(s@),
        Line::Formula(s) => LineV::Formula(s@),
        Line::Sentence(sub) => LineV::Sentence(sent_view(sub)),
    }
}

pub open spec fn sent_view(s: Sentence) -> SentV
    decreases s,
{
    SentV {
        name: s.name@,
        specifiers: strs_view(s.specifiers@),
        parsed_lines: Seq::new(
            s.parsed_lines@.len(),
            |i: int|
                if 0 <= i < s.parsed_lines@.len() {
                    line_view(s.parsed_lines@[i])
                } else {
                    arbitrary()
                },
        ),
    }
}

impl View for Line {
    type V = LineV;

    open spec fn view(&self) -> LineV {
        line_view(*self)
    }
}

impl View for Sentence {
    type V = SentV;

    open spec fn view(&self) -> SentV {
        sent_view(*self)
    }
}

/// The failures of sentence parsing and compilation.
#[derive(Debug, Clone)]
pub enum SentenceError {
    UnnamedFunction,
    SentenceHasNoStartIdentifier,
    SentenceDoesntEndWithEndSpecifier,
    InvalidFormula(EvaluateError),
}

/// `SentenceError` over views.
pub enum SentErrV {
    UnnamedFunction,
    SentenceHasNoStartIdentifier,
    SentenceDoesntEndWithEndSpecifier,
    InvalidFormula(EvalErrV),
}

impl View for SentenceError {
    type V = SentErrV;

    open spec fn view(&self) -> SentErrV {
        match self {
            SentenceError::UnnamedFunction => SentErrV::UnnamedFunction,
            SentenceError::SentenceHasNoStartIdentifier => SentErrV::SentenceHasNoStartIdentifier,
            SentenceError::SentenceDoesntEndWithEndSpecifier =>
                SentErrV::SentenceDoesntEndWithEndSpecifier,
            SentenceError::InvalidFormula(e) => SentErrV::InvalidFormula(e@),
        }
    }
}

/// The diagnostic text of a sentence failure.
pub open spec fn spec_sent_msg(e: SentErrV) -> Seq<char> {
    match e {
        SentErrV::UnnamedFunction => "A function must has a name.".view(),
        SentErrV::SentenceHasNoStartIdentifier => "A sentence must has a {.".view(),
        SentErrV::SentenceDoesntEndWithEndSpecifier => "A sentence must ends with }.".view(),
        SentErrV::InvalidFormula(ev) => "Error(s) occured while evaluating a formula. Detail => ".view()
            + spec_err_msg(ev),
    }
}

impl SentenceError {
    /// The diagnostic text of this failure.
    pub fn message(&self) -> (r: String)
        ensures
            r@ == spec_sent_msg(self@),
    {
        match self {
            SentenceError::UnnamedFunction => String::from_str("A function must has a name."),
            SentenceError::SentenceHasNoStartIdentifier => String::from_str(
                "A sentence must has a {.",
            ),
            SentenceError::SentenceDoesntEndWithEndSpecifier => String::from_str(
                "A sentence must ends with }.",
            ),
            SentenceError::InvalidFormula(e) => {
                let mut r = String::from_str(
                    "Error(s) occured while evaluating a formula. Detail => ",
                );
                let m = e.message();
                r.append(m.as_str());
                proof {
                    assert(r@ =~= spec_sent_msg(self@));
                }
                r
            },
        }
    }
}

/// Splits a raw sentence at its first `{` into the trimmed specifier and
/// the inside, which must end with `}`.
pub open spec fn spec_split_sentence(raw: Seq<char>) -> Result<(Seq<char>, Seq<char>), SentErrV> {
    let bi = crate::compile_task::evaluater::spec_find_char(raw, '{') as int;
    if bi == raw.len() {
        Err(SentErrV::SentenceHasNoStartIdentifier)
    } else {
        let after = raw.skip(bi + 1);
        if after.len() == 0 || after.last() != '}' {
            Err(SentErrV::SentenceDoesntEndWithEndSpecifier)
        } else {
            Ok((spec_trim(raw.take(bi)), after.drop_last()))
        }
    }
}

/// The trimmed, non-empty statements of a block's inside, after each `}` is
/// turned into a terminator.
pub open spec fn spec_segments(inside: Seq<char>) -> Seq<Seq<char>> {
    spec_split(spec_replace_brace(inside), ';').map_values(|p: Seq<char>| spec_trim(p)).filter(
        |p: Seq<char>| p.len() > 0,
    )
}

/// A generated identifier: alphanumeric of the given length.
pub open spec fn is_random_ident(name: Seq<char>, n: int) -> bool {
    name.len() == n && forall|j: int| 0 <= j < name.len() ==> is_alnum(#[trigger] name[j])
}

pub open spec fn is_alnum(c: char) -> bool {
    (48 <= c as u32 <= 57) || (65 <= c as u32 <= 90) || (97 <= c as u32 <= 122)
}

/// The name a sentence gets: the second specifier token for `fn`, else a
/// generated identifier, 30 characters long when the specifier is empty and
/// 32 otherwise.
pub open spec fn spec_name_matches(tokens: Seq<Seq<char>>, name: Seq<char>) -> bool {
    if tokens.len() == 0 {
        is_random_ident(name, 30)
    } else if tokens[0] == "fn".view() {
        tokens.len() >= 2 && name == tokens[1]
    } else {
        is_random_ident(name, 32)
    }
}

/// Whether the parse of `raw` could produce the tree `s`: everything but
/// the generated names is determined by `raw`.
pub open spec fn spec_sentence_matches(raw: Seq<char>, s: SentV) -> bool
    decreases s, 2int,
{
    match spec_split_sentence(raw) {
        Err(_) => false,
        Ok(p) => {
            let tokens = spec_split_ws(p.0);
            &&& s.specifiers == tokens
            &&& spec_name_matches(tokens, s.name)
            &&& spec_lines_match(spec_segments(p.1), s.parsed_lines)
        },
    }
}

pub open spec fn spec_lines_match(segs: Seq<Seq<char>>, ls: Seq<LineV>) -> bool
    decreases ls, 1int,
{
    &&& segs.len() == ls.len()
    &&& (ls.len() == 0 || (spec_line_matches(segs[0], ls[0]) && spec_lines_match(
        segs.skip(1),
        ls.skip(1),
    )))
}

pub open spec fn spec_line_matches(seg: Seq<char>, l: LineV) -> bool
    decreases l, 2int,
{
    if seg.len() > 0 && seg[0] == '#' {
        l == LineV::Comment(seg)
    } else if seg.len() > 0 && seg.last() == '}' {
        match l {
            LineV::Sentence(sub) => spec_sentence_matches(seg, sub),
            _ => false,
        }
    } else {
        l == LineV::Formula(seg)
    }
}

/// A statement read back as a nested sentence: non-empty, not a comment,
/// ending with a closing brace.
pub open spec fn is_sentence_seg(seg: Seq<char>) -> bool {
    seg.len() > 0 && seg[0] != '#' && seg.last() == '}'
}

/// The failure a sentence's own header can raise: a failed brace split, or
/// a `fn` specifier without a name.
pub open spec fn spec_parse_err_head(raw: Seq<char>) -> Option<SentErrV> {
    match spec_split_sentence(raw) {
        Err(e) => Some(e),
        Ok(p) => {
            let tokens = spec_split_ws(p.0);
            if tokens.len() > 0 && tokens[0] == "fn".view() && tokens.len() < 2 {
                Some(SentErrV::UnnamedFunction)
            } else {
                None
            }
        },
    }
}

/// The first failure a parse meets, if any: the sentence's own header's,
/// else the first failing nested sentence's, in line order.  A nested
/// sentence's inside holds no terminator and no closing brace, so no deeper
/// sentence exists and its header alone decides.
pub open spec fn spec_parse_err(raw: Seq<char>) -> Option<SentErrV> {
    match spec_split_sentence(raw) {
        Err(e) => Some(e),
        Ok(p) => {
            let tokens = spec_split_ws(p.0);
            if tokens.len() > 0 && tokens[0] == "fn".view() && tokens.len() < 2 {
                Some(SentErrV::UnnamedFunction)
            } else {
                spec_parse_err_segs(spec_segments(p.1))
            }
        },
    }
}

pub open spec fn spec_parse_err_segs(segs: Seq<Seq<char>>) -> Option<SentErrV>
    decreases segs.len(),
{
    if segs.len() == 0 {
        None
    } else if is_sentence_seg(segs[0]) {
        match spec_parse_err_head(segs[0]) {
            Some(e) => Some(e),
            None => spec_parse_err_segs(segs.skip(1)),
        }
    } else {
        spec_parse_err_segs(segs.skip(1))
    }
}

/// For a statement-shaped text, the nested parse fails exactly when its
/// header does.
proof fn lemma_parse_err_nested(seg: Seq<char>)
    requires
        segment_shaped(seg),
    ensures
        spec_parse_err(seg) == spec_parse_err_head(seg),
{
    match spec_split_sentence(seg) {
        Err(_) => {},
        Ok(p) => {
            let sbi = crate::compile_task::evaluater::spec_find_char(seg, '{') as int;
            let subinside = seg.skip(sbi + 1).drop_last();
            crate::compile_task::evaluater::lemma_find_char_le(seg, '{');
            assert(p.1 == subinside);
            assert(forall|j: int| 0 <= j < subinside.len() ==> #[trigger] subinside[j] == seg[
                j + sbi + 1]);
            assert(forall|j: int| 0 <= j < subinside.len() ==> subinside[j] != ';');
            assert(forall|j: int| 0 <= j < subinside.len() ==> subinside[j] != '}');
            lemma_replace_id(subinside);
            crate::text::lemma_split_whole(subinside, ';');
            reveal_with_fuel(Seq::filter, 3);
            assert(seq![subinside].map_values(|q: Seq<char>| spec_trim(q)) =~= seq![
                spec_trim(subinside),
            ]);
            assert(seq![spec_trim(subinside)].drop_last() =~= Seq::<Seq<char>>::empty());
            let segs2 = spec_segments(subinside);
            if spec_trim(subinside).len() > 0 {
                let s1 = spec_trim(subinside);
                assert(segs2 =~= seq![s1]);
                lemma_trim_subrange(subinside);
                let a = choose|a: int|
                    0 <= a && a + s1.len() <= subinside.len() && s1 == #[trigger] subinside
                        .subrange(a, a + s1.len());
                assert(s1.last() == subinside[a + s1.len() - 1]);
                assert(s1.last() != '}');
                assert(!is_sentence_seg(segs2[0]));
                assert(segs2.skip(1) =~= Seq::<Seq<char>>::empty());
                assert(spec_parse_err_segs(Seq::<Seq<char>>::empty()) is None);
                assert(spec_parse_err_segs(segs2) is None);
            } else {
                assert(segs2 =~= Seq::<Seq<char>>::empty());
                assert(spec_parse_err_segs(Seq::<Seq<char>>::empty()) is None);
                assert(spec_parse_err_segs(segs2) is None);
            }
        },
    }
}

/// Relies on rand's `thread_rng` and `Rng::gen_range`: a uniformly drawn
/// value below `bound`; `gen_range` panics only on an empty range.
#[verifier::external_body]
fn random_below(bound: usize) -> (r: usize)
    requires
        bound > 0,
    ensures
        r < bound,
{
    rand::thread_rng().gen_range(0..bound)
}

/// A freshly generated alphanumeric identifier of the given length.
pub fn generate_random_string(length: usize) -> (r: String)
    ensures
        is_random_ident(r@, length as int),
{
    let charset = "abcdefghijklmnopqrstuvwxyzABCDEFGHIJKLMNOPQRSTUVWXYZ0123456789";
    proof {
        reveal_strlit("abcdefghijklmnopqrstuvwxyzABCDEFGHIJKLMNOPQRSTUVWXYZ0123456789");
        assert(charset@.len() == 62);
        assert(forall|j: int| 0 <= j < 62 ==> is_alnum(#[trigger] charset@[j]));
    }
    let mut r = String::new();
    let mut i: usize = 0;
    while i < length
        invariant
            i <= length,
            r@.len() == i,
            charset@.len() == 62,
            forall|j: int| 0 <= j < 62 ==> is_alnum(#[trigger] charset@[j]),
            forall|j: int| 0 <= j < i ==> is_alnum(#[trigger] r@[j]),
        decreases length - i,
    {
        let idx = random_below(62);
        let c = charset.get_char(idx);
        crate::text::push_char(&mut r, c);
        i = i + 1;
    }
    r
}

proof fn lemma_trim_le(s: Seq<char>)
    ensures
        spec_trim(s).len() <= s.len(),
{
    lemma_trim_start_le_aux(s);
}

proof fn lemma_trim_start_le_aux(s: Seq<char>)
    ensures
        crate::text::spec_trim_start(s).len() <= s.len(),
        spec_trim(s).len() <= s.len(),
    decreases s.len(),
{
    if s.len() > 0 && is_space(s[0]) {
        lemma_trim_start_le_aux(s.skip(1));
        lemma_trim_end_le(crate::text::spec_trim_start(s));
    } else {
        lemma_trim_end_le(s);
    }
}

proof fn lemma_trim_end_le(s: Seq<char>)
    ensures
        crate::text::spec_trim_end(s).len() <= s.len(),
    decreases s.len(),
{
    if s.len() > 0 && is_space(s.last()) {
        lemma_trim_end_le(s.drop_last());
    }
}

/// Every statement of a block's inside is no longer than the inside.
proof fn lemma_split_replace_parts(s: Seq<char>)
    ensures
        forall|i: int|
            0 <= i < spec_split(spec_replace_brace(s), ';').len() ==> (#[trigger] spec_split(
                spec_replace_brace(s),
                ';',
            )[i]).len() <= s.len(),
    decreases s.len(),
{
    if s.len() == 0 {
    } else {
        lemma_split_replace_parts(s.skip(1));
        let rep = spec_replace_brace(s);
        let inner = spec_split(spec_replace_brace(s.skip(1)), ';');
        crate::text::lemma_split_len(spec_replace_brace(s.skip(1)), ';');
        if s[0] == '}' {
            assert(rep == seq!['}', ';'] + spec_replace_brace(s.skip(1)));
            assert(rep[0] == '}');
            assert(rep.len() >= 2);
            assert(rep[1] == ';');
            assert(rep.skip(1)[0] == ';');
            assert(spec_split(rep.skip(1), ';') == seq![Seq::<char>::empty()] + spec_split(
                rep.skip(1).skip(1),
                ';',
            ));
            assert(rep.skip(1).skip(1) =~= spec_replace_brace(s.skip(1)));
            let r1 = spec_split(rep.skip(1), ';');
            assert(spec_split(rep, ';') == seq![seq![rep[0]] + r1[0]] + r1.skip(1));
            assert(r1[0] =~= Seq::<char>::empty());
            assert(seq![rep[0]] + r1[0] =~= seq!['}']);
            assert(r1.skip(1) =~= inner);
            assert forall|i: int| 0 <= i < spec_split(rep, ';').len() implies (
            #[trigger] spec_split(rep, ';')[i]).len() <= s.len() by {
                if i > 0 {
                    assert(spec_split(rep, ';')[i] == inner[i - 1]);
                }
            }
        } else if s[0] == ';' {
            assert(rep == seq![s[0]] + spec_replace_brace(s.skip(1)));
            assert(rep[0] == ';');
            assert(rep.skip(1) =~= spec_replace_brace(s.skip(1)));
            assert(spec_split(rep, ';') == seq![Seq::<char>::empty()] + inner);
            assert forall|i: int| 0 <= i < spec_split(rep, ';').len() implies (
            #[trigger] spec_split(rep, ';')[i]).len() <= s.len() by {
                if i > 0 {
                    assert(spec_split(rep, ';')[i] == inner[i - 1]);
                }
            }
        } else {
            assert(rep == seq![s[0]] + spec_replace_brace(s.skip(1)));
            assert(rep[0] == s[0]);
            assert(rep.skip(1) =~= spec_replace_brace(s.skip(1)));
            assert(spec_split(rep, ';') == seq![seq![rep[0]] + inner[0]] + inner.skip(1));
            assert forall|i: int| 0 <= i < spec_split(rep, ';').len() implies (
            #[trigger] spec_split(rep, ';')[i]).len() <= s.len() by {
                if i == 0 {
                    assert(spec_split(rep, ';')[0] == seq![rep[0]] + inner[0]);
                    assert(inner[0].len() <= s.skip(1).len());
                } else {
                    assert(spec_split(rep, ';')[i] == inner.skip(1)[i - 1]);
                    assert(inner.skip(1)[i - 1] == inner[i]);
                }
            }
        }
    }
}

/// Every segment of a block's inside is no longer than the inside.
proof fn lemma_segments_bound(inside: Seq<char>)
    ensures
        forall|i: int|
            0 <= i < spec_segments(inside).len() ==> (#[trigger] spec_segments(inside)[i]).len()
                <= inside.len(),
{
    let parts = spec_split(spec_replace_brace(inside), ';');
    let trimmed = parts.map_values(|p: Seq<char>| spec_trim(p));
    lemma_split_replace_parts(inside);
    assert forall|i: int| 0 <= i < trimmed.len() implies (#[trigger] trimmed[i]).len()
        <= inside.len() by {
        lemma_trim_le(parts[i]);
    }
    let segs = spec_segments(inside);
    trimmed.filter_lemma(|p: Seq<char>| p.len() > 0);
    assert forall|i: int| 0 <= i < segs.len() implies (#[trigger] segs[i]).len()
        <= inside.len() by {
        lemma_filter_from(trimmed, |p: Seq<char>| p.len() > 0, i);
        let j = choose|j: int|
            0 <= j < trimmed.len() && trimmed[j] == segs[i];
        assert(trimmed[j].len() <= inside.len());
    }
}

/// Every element of a filtered sequence comes from the source.
proof fn lemma_filter_from(s: Seq<Seq<char>>, pred: spec_fn(Seq<char>) -> bool, i: int)
    requires
        0 <= i < s.filter(pred).len(),
    ensures
        exists|j: int| 0 <= j < s.len() && s[j] == s.filter(pred)[i],
    decreases s.len(),
{
    reveal_with_fuel(Seq::filter, 2);
    if s.len() > 0 {
        let out = s.filter(pred);
        let sub = s.drop_last().filter(pred);
        if pred(s.last()) {
            if i < sub.len() {
                lemma_filter_from(s.drop_last(), pred, i);
                let j = choose|j: int| 0 <= j < s.drop_last().len() && s.drop_last()[j] == sub[i];
                assert(s[j] == out[i]);
            } else {
                assert(out[i] == s.last());
                assert(s[s.len() - 1] == out[i]);
            }
        } else {
            lemma_filter_from(s.drop_last(), pred, i);
            let j = choose|j: int| 0 <= j < s.drop_last().len() && s.drop_last()[j] == sub[i];
            assert(s[j] == out[i]);
        }
    }
}

/// How a trimmed segment is classified: `#` opens a comment, a trailing
/// `}` closes a nested sentence, anything else is a formula.
pub open spec fn spec_line_syntax(s: Seq<char>) -> SyntaxType {
    if s.len() > 0 && s[0] == '#' {
        SyntaxType::Comment
    } else if s.len() > 0 && s.last() == '}' {
        SyntaxType::Sentence
    } else {
        SyntaxType::Formula
    }
}

proof fn lemma_lines_match_push(segs: Seq<Seq<char>>, ls: Seq<LineV>, seg: Seq<char>, l: LineV)
    requires
        spec_lines_match(segs, ls),
        spec_line_matches(seg, l),
    ensures
        spec_lines_match(segs.push(seg), ls.push(l)),
    decreases ls.len(),
{
    if ls.len() == 0 {
        assert(segs.push(seg)[0] == seg);
        assert(ls.push(l)[0] == l);
        assert(segs.push(seg).skip(1) =~= Seq::<Seq<char>>::empty());
        assert(ls.push(l).skip(1) =~= Seq::<LineV>::empty());
        assert(spec_lines_match(Seq::<Seq<char>>::empty(), Seq::<LineV>::empty()));
    } else {
        lemma_lines_match_push(segs.skip(1), ls.skip(1), seg, l);
        assert(segs.push(seg).skip(1) =~= segs.skip(1).push(seg));
        assert(ls.push(l).skip(1) =~= ls.skip(1).push(l));
        assert(segs.push(seg)[0] == segs[0]);
        assert(ls.push(l)[0] == ls[0]);
    }
}

impl Sentence {
    /// Classifies one trimmed line of a block.
    pub fn guess_line_syntax(input: &str) -> (r: SyntaxType)
        ensures
            r == spec_line_syntax(spec_trim(input@)),
    {
        let chars = to_char_vec(input);
        let trimmed = trim_range(&chars, 0, chars.len());
        let tc = to_char_vec(trimmed.as_str());
        proof {
            assert(chars@.subrange(0, chars@.len() as int) =~= input@);
        }
        if tc.len() > 0 && tc[0] == '#' {
            SyntaxType::Comment
        } else if tc.len() > 0 && tc[tc.len() - 1] == '}' {
            SyntaxType::Sentence
        } else {
            SyntaxType::Formula
        }
    }

    /// Parses a raw brace-delimited sentence into its tree.  The result is
    /// determined by the text except for the generated names of sentences
    /// that are not `fn` definitions.
    #[verifier::rlimit(100)]
    #[verifier::spinoff_prover]
    pub fn onto_sentence(raw: &str) -> (r: Result<Sentence, SentenceError>)
        ensures
            (match r {
                Ok(s) => spec_parse_err(raw@) is None && spec_sentence_matches(raw@, s@),
                Err(e) => spec_parse_err(raw@) == Some(e@),
            }),
        decreases raw@.len(),
    {
        let chars = to_char_vec(raw);
        let n = chars.len();
        let bi = match find_char(&chars, '{', 0) {
            Some(b) => {
                proof {
                    crate::compile_task::evaluater::lemma_find_char_at(chars@, '{', b as int);
                }
                b
            },
            None => {
                proof {
                    crate::compile_task::evaluater::lemma_find_char_at(
                        chars@,
                        '{',
                        chars@.len() as int,
                    );
                    assert(spec_parse_err(raw@) == Some(SentErrV::SentenceHasNoStartIdentifier));
                }
                return Err(SentenceError::SentenceHasNoStartIdentifier);
            },
        };
        if bi + 1 >= n || chars[n - 1] != '}' {
            proof {
                let after = raw@.skip(bi + 1);
                if bi + 1 < n {
                    assert(after.last() == raw@[n - 1]);
                }
                assert(spec_parse_err(raw@) == Some(
                    SentErrV::SentenceDoesntEndWithEndSpecifier,
                ));
            }
            return Err(SentenceError::SentenceDoesntEndWithEndSpecifier);
        }
        let ghost after = raw@.skip(bi + 1);
        let ghost insidev = after.drop_last();
        let ghost spv = spec_trim(raw@.take(bi as int));
        let spec_part = trim_range(&chars, 0, bi);
        proof {
            assert(chars@.subrange(0, bi as int) =~= raw@.take(bi as int));
            assert(after.last() == raw@[n - 1]);
        }
        let spc = to_char_vec(spec_part.as_str());
        let tokens = split_whitespace(&spc);
        let ghost tokensv = strs_view(tokens@);
        let inside_vec = vec_range(&chars, bi + 1, n - 1);
        proof {
            assert(inside_vec@ =~= insidev);
        }
        let name: String = if tokens.len() == 0 {
            generate_random_string(30)
        } else if str_eq(tokens[0].as_str(), "fn") {
            if tokens.len() >= 2 {
                tokens[1].clone()
            } else {
                proof {
                    assert(spec_split_sentence(raw@) == Ok::<(Seq<char>, Seq<char>), SentErrV>(
                        (spv, insidev),
                    ));
                    assert(tokensv == spec_split_ws(spv));
                    assert(spec_parse_err(raw@) == Some(SentErrV::UnnamedFunction));
                }
                return Err(SentenceError::UnnamedFunction);
            }
        } else {
            generate_random_string(32)
        };
        let ghost namev = name@;
        proof {
            assert(spec_name_matches(tokensv, namev));
        }
        let replaced = replace_brace(&inside_vec);
        let parts = split_on_char(&replaced, ';');
        let ghost mapped = spec_split(spec_replace_brace(insidev), ';').map_values(
            |p: Seq<char>| spec_trim(p),
        );
        let mut segments: Vec<String> = Vec::new();
        let mut k: usize = 0;
        proof {
            assert(strs_view(segments@) =~= mapped.take(0).filter(|p: Seq<char>| p.len() > 0));
        }
        while k < parts.len()
            invariant
                k <= parts@.len(),
                strs_view(parts@) == spec_split(spec_replace_brace(insidev), ';'),
                mapped == spec_split(spec_replace_brace(insidev), ';').map_values(
                    |p: Seq<char>| spec_trim(p),
                ),
                mapped.len() == parts@.len(),
                strs_view(segments@) == mapped.take(k as int).filter(
                    |p: Seq<char>| p.len() > 0,
                ),
            decreases parts@.len() - k,
        {
            let ghost done = strs_view(segments@);
            let pv = to_char_vec(parts[k].as_str());
            let trimmed = trim_range(&pv, 0, pv.len());
            proof {
                assert(pv@.subrange(0, pv@.len() as int) =~= parts@[k as int]@);
                assert(trimmed@ == mapped[k as int]);
            }
            if trimmed.as_str().unicode_len() > 0 {
                segments.push(trimmed);
            }
            proof {
                let pred = |p: Seq<char>| p.len() > 0;
                assert(mapped.take(k + 1) =~= mapped.take(k as int).push(mapped[k as int]));
                Seq::filter_distributes_over_add(
                    mapped.take(k as int),
                    seq![mapped[k as int]],
                    pred,
                );
                reveal_with_fuel(Seq::filter, 2);
                assert(seq![mapped[k as int]].drop_last() =~= Seq::<Seq<char>>::empty());
                assert(mapped.take(k as int) + seq![mapped[k as int]] =~= mapped.take(k + 1));
                if pred(mapped[k as int]) {
                    assert(seq![mapped[k as int]].filter(pred) =~= seq![mapped[k as int]]);
                    assert(strs_view(segments@) =~= done + seq![mapped[k as int]]);
                } else {
                    assert(seq![mapped[k as int]].filter(pred) =~= Seq::<Seq<char>>::empty());
                    assert(strs_view(segments@) =~= done);
                    assert(done + Seq::<Seq<char>>::empty() =~= done);
                }
            }
            k = k + 1;
        }
        proof {
            assert(mapped.take(mapped.len() as int) =~= mapped);
            assert(strs_view(segments@) == spec_segments(insidev));
            lemma_segments_bound(insidev);
        }
        let ghost segsv = strs_view(segments@);
        let mut lines: Vec<Line> = Vec::new();
        let mut li: usize = 0;
        proof {
            assert(segsv.take(0) =~= Seq::<Seq<char>>::empty());
            assert(lines@.map_values(|l: Line| line_view(l)) =~= Seq::<LineV>::empty());
            assert(spec_split_sentence(raw@) == Ok::<(Seq<char>, Seq<char>), SentErrV>(
                (spv, insidev),
            ));
            assert(spec_parse_err(raw@) == spec_parse_err_segs(segsv));
            assert(segsv.skip(0) =~= segsv);
        }
        while li < segments.len()
            invariant
                li <= segments@.len(),
                segsv == strs_view(segments@),
                segsv == spec_segments(insidev),
                insidev.len() < raw@.len(),
                spec_split_sentence(raw@) == Ok::<(Seq<char>, Seq<char>), SentErrV>(
                    (spv, insidev),
                ),
                tokensv == spec_split_ws(spv),
                !(tokensv.len() > 0 && tokensv[0] == "fn".view() && tokensv.len() < 2),
                spec_parse_err(raw@) == spec_parse_err_segs(segsv.skip(li as int)),
                forall|i: int| 0 <= i < segsv.len() ==> (#[trigger] segsv[i]).len()
                    <= insidev.len(),
                lines@.len() == li,
                spec_lines_match(
                    segsv.take(li as int),
                    lines@.map_values(|l: Line| line_view(l)),
                ),
            decreases segments@.len() - li,
        {
            let ghost lsv = lines@.map_values(|l: Line| line_view(l));
            let seg = &segments[li];
            proof {
                assert(seg@ == segsv[li as int]);
            }
            let sc = to_char_vec(seg.as_str());
            proof {
                lemma_segments_shaped(insidev);
                assert(segment_shaped(segsv[li as int]));
                assert(segsv.skip(li as int)[0] == segsv[li as int]);
                assert(segsv.skip(li as int).skip(1) =~= segsv.skip(li + 1));
            }
            let line: Line = if sc.len() > 0 && sc[0] == '#' {
                proof {
                    assert(!is_sentence_seg(segsv[li as int]));
                    assert(spec_parse_err_segs(segsv.skip(li as int)) == spec_parse_err_segs(
                        segsv.skip(li + 1),
                    ));
                }
                Line::Comment(seg.clone())
            } else if sc.len() > 0 && sc[sc.len() - 1] == '}' {
                proof {
                    assert(seg@.len() <= insidev.len());
                    assert(is_sentence_seg(segsv[li as int]));
                }
                match Self::onto_sentence(seg.as_str()) {
                    Ok(sub) => {
                        proof {
                            lemma_parse_err_nested(seg@);
                            assert(spec_parse_err_segs(segsv.skip(li as int))
                                == spec_parse_err_segs(segsv.skip(li + 1)));
                        }
                        Line::Sentence(sub)
                    },
                    Err(e) => {
                        proof {
                            lemma_parse_err_nested(seg@);
                            assert(spec_parse_err_segs(segsv.skip(li as int)) == Some(e@));
                            assert(spec_parse_err(raw@) == Some(e@));
                        }
                        return Err(e);
                    },
                }
            } else {
                proof {
                    assert(segsv[li as int].len() > 0);
                    assert(!is_sentence_seg(segsv[li as int]));
                    assert(spec_parse_err_segs(segsv.skip(li as int)) == spec_parse_err_segs(
                        segsv.skip(li + 1),
                    ));
                }
                Line::Formula(seg.clone())
            };
            proof {
                assert(spec_line_matches(segsv[li as int], line_view(line)));
            }
            lines.push(line);
            proof {
                lemma_lines_match_push(segsv.take(li as int), lsv, segsv[li as int], line_view(
                    lines@.last(),
                ));
                assert(segsv.take(li + 1) =~= segsv.take(li as int).push(segsv[li as int]));
                assert(lines@.map_values(|l: Line| line_view(l)) =~= lsv.push(
                    line_view(lines@.last()),
                ));
            }
            li = li + 1;
        }
        let s = Sentence { name, specifiers: tokens, parsed_lines: lines };
        proof {
            assert(segsv.take(segsv.len() as int) =~= segsv);
            assert(s@.parsed_lines =~= lines@.map_values(|l: Line| line_view(l)));
            assert(s@.specifiers == tokensv);
            assert(spec_sentence_matches(raw@, s@));
            assert(segsv.skip(segsv.len() as int) =~= Seq::<Seq<char>>::empty());
            assert(spec_parse_err(raw@) is None);
        }
        Ok(s)
    }
}

proof fn lemma_join_head(parts: Seq<Seq<char>>, sep: Seq<char>)
    requires
        parts.len() >= 2,
    ensures
        crate::text::spec_join(parts, sep) == parts[0] + sep + crate::text::spec_join(
            parts.skip(1),
            sep,
        ),
    decreases parts.len(),
{
    if parts.len() == 2 {
        assert(parts.drop_last() =~= seq![parts[0]]);
        assert(parts.skip(1) =~= seq![parts[1]]);
        assert(crate::text::spec_join(parts, sep) == crate::text::spec_join(
            parts.drop_last(),
            sep,
        ) + sep + parts[1]);
    } else {
        lemma_join_head(parts.drop_last(), sep);
        assert(parts.drop_last()[0] == parts[0]);
        assert(parts.drop_last().skip(1) =~= parts.skip(1).drop_last());
        assert(parts.skip(1).last() == parts.last());
        assert(crate::text::spec_join(parts.skip(1), sep) == crate::text::spec_join(
            parts.skip(1).drop_last(),
            sep,
        ) + sep + parts.last());
        assert((parts[0] + sep + crate::text::spec_join(parts.skip(1).drop_last(), sep)) + sep
            + parts.last() =~= parts[0] + sep + (crate::text::spec_join(
            parts.skip(1).drop_last(),
            sep,
        ) + sep + parts.last()));
    }
}

/// The tokens of a specifier are non-empty and hold no whitespace.
pub proof fn lemma_ws_tokens_shape(s: Seq<char>)
    ensures
        forall|i: int|
            0 <= i < spec_split_ws(s).len() ==> ((#[trigger] spec_split_ws(s)[i]).len() > 0
                && (forall|x: int|
                0 <= x < spec_split_ws(s)[i].len() ==> !is_space(spec_split_ws(s)[i][x]))),
    decreases s.len(),
{
    if s.len() == 0 {
    } else if is_space(s[0]) {
        lemma_ws_tokens_shape(s.skip(1));
    } else if s.len() == 1 || is_space(s[1]) {
        lemma_ws_tokens_shape(s.skip(1));
        assert forall|i: int| 0 <= i < spec_split_ws(s).len() implies ((#[trigger] spec_split_ws(
            s,
        )[i]).len() > 0 && (forall|x: int|
            0 <= x < spec_split_ws(s)[i].len() ==> !is_space(spec_split_ws(s)[i][x]))) by {
            if i == 0 {
                assert(spec_split_ws(s)[0] =~= seq![s[0]]);
            } else {
                assert(spec_split_ws(s)[i] == spec_split_ws(s.skip(1))[i - 1]);
            }
        }
    } else {
        lemma_ws_tokens_shape(s.skip(1));
        let rest = spec_split_ws(s.skip(1));
        assert(rest.len() > 0);
        assert forall|i: int| 0 <= i < spec_split_ws(s).len() implies ((#[trigger] spec_split_ws(
            s,
        )[i]).len() > 0 && (forall|x: int|
            0 <= x < spec_split_ws(s)[i].len() ==> !is_space(spec_split_ws(s)[i][x]))) by {
            if i == 0 {
                assert(spec_split_ws(s)[0] == seq![s[0]] + rest[0]);
                assert(forall|x: int| 0 <= x < rest[0].len() ==> !is_space(rest[0][x]));
                assert forall|x: int|
                    0 <= x < spec_split_ws(s)[0].len() implies !is_space(
                    spec_split_ws(s)[0][x],
                ) by {
                    if x > 0 {
                        assert(spec_split_ws(s)[0][x] == rest[0][x - 1]);
                    }
                }
            } else {
                assert(spec_split_ws(s)[i] == rest.skip(1)[i - 1]);
                assert(rest.skip(1)[i - 1] == rest[i]);
            }
        }
    }
}

/// Specifier round trip: tokens joined with single spaces split back into
/// exactly the same tokens.
pub proof fn lemma_ws_round_trip(tokens: Seq<Seq<char>>)
    requires
        forall|i: int|
            0 <= i < tokens.len() ==> ((#[trigger] tokens[i]).len() > 0 && (forall|x: int|
                0 <= x < tokens[i].len() ==> !is_space(tokens[i][x]))),
    ensures
        spec_split_ws(crate::text::spec_join(tokens, seq![' '])) == tokens,
    decreases tokens.len(),
{
    if tokens.len() == 0 {
        assert(spec_split_ws(Seq::<char>::empty()) =~= Seq::<Seq<char>>::empty());
    } else if tokens.len() == 1 {
        let t0 = tokens[0];
        assert(crate::text::spec_join(tokens, seq![' ']) == t0);
        crate::text::lemma_ws_take_token(t0, t0.len() as int);
        assert(t0.take(t0.len() as int) =~= t0);
        assert(t0.skip(t0.len() as int) =~= Seq::<char>::empty());
        assert(spec_split_ws(Seq::<char>::empty()) =~= Seq::<Seq<char>>::empty());
        assert(seq![t0] + Seq::<Seq<char>>::empty() =~= tokens);
    } else {
        lemma_join_head(tokens, seq![' ']);
        let t0 = tokens[0];
        let rest = crate::text::spec_join(tokens.skip(1), seq![' ']);
        let whole = t0 + seq![' '] + rest;
        assert forall|x: int| 0 <= x < t0.len() implies !is_space(#[trigger] whole[x]) by {
            assert(whole[x] == t0[x]);
        }
        assert(whole[t0.len() as int] == ' ');
        crate::text::lemma_ws_take_token(whole, t0.len() as int);
        assert(whole.take(t0.len() as int) =~= t0);
        assert(whole.skip(t0.len() as int) =~= seq![' '] + rest);
        crate::text::lemma_ws_skip_spaces(seq![' '] + rest, 1);
        assert((seq![' '] + rest).skip(1) =~= rest);
        assert forall|i: int| 0 <= i < tokens.skip(1).len() implies ((#[trigger] tokens.skip(1)[
        i]).len() > 0 && (forall|x: int|
            0 <= x < tokens.skip(1)[i].len() ==> !is_space(tokens.skip(1)[i][x]))) by {
            assert(tokens.skip(1)[i] == tokens[i + 1]);
        }
        lemma_ws_round_trip(tokens.skip(1));
        assert(seq![t0] + tokens.skip(1) =~= tokens);
    }
}

proof fn lemma_replace_concat(a: Seq<char>, b: Seq<char>)
    ensures
        spec_replace_brace(a + b) == spec_replace_brace(a) + spec_replace_brace(b),
    decreases a.len(),
{
    if a.len() == 0 {
        assert(a + b =~= b);
        assert(spec_replace_brace(a) =~= Seq::<char>::empty());
        assert(spec_replace_brace(a) + spec_replace_brace(b) =~= spec_replace_brace(b));
    } else {
        lemma_replace_concat(a.skip(1), b);
        let w = a + b;
        assert(w[0] == a[0]);
        assert(w.skip(1) =~= a.skip(1) + b);
        let unit: Seq<char> = if a[0] == '}' {
            seq!['}', ';']
        } else {
            seq![a[0]]
        };
        assert(spec_replace_brace(w) == unit + (spec_replace_brace(a.skip(1))
            + spec_replace_brace(b)));
        assert(spec_replace_brace(a) == unit + spec_replace_brace(a.skip(1)));
        assert(unit + (spec_replace_brace(a.skip(1)) + spec_replace_brace(b)) =~= (unit
            + spec_replace_brace(a.skip(1))) + spec_replace_brace(b));
    }
}

proof fn lemma_replace_id(s: Seq<char>)
    requires
        forall|j: int| 0 <= j < s.len() ==> s[j] != '}',
    ensures
        spec_replace_brace(s) == s,
    decreases s.len(),
{
    if s.len() > 0 {
        lemma_replace_id(s.skip(1));
        assert(spec_replace_brace(s) =~= s);
    }
}

/// A trimmed, non-empty string trims to itself.
proof fn lemma_trim_fixed(s: Seq<char>)
    requires
        s.len() > 0,
        !is_space(s[0]),
        !is_space(s.last()),
    ensures
        spec_trim(s) == s,
{
    crate::text::lemma_trim_start_at(s, 0);
    assert(s.skip(0) =~= s);
    crate::text::lemma_trim_end_at(s, s.len() as int);
    assert(s.take(s.len() as int) =~= s);
}

/// A statement of a block behaves as one segment: it is non-empty and
/// trimmed, it holds no terminator, and a closing brace can stand only at
/// its end.
pub open spec fn segment_shaped(z: Seq<char>) -> bool {
    &&& z.len() > 0
    &&& !is_space(z[0])
    &&& !is_space(z.last())
    &&& (forall|j: int| 0 <= j < z.len() ==> z[j] != ';')
    &&& (forall|j: int| 0 <= j < z.len() - 1 ==> z[j] != '}')
}

proof fn lemma_one_segment(z: Seq<char>)
    requires
        segment_shaped(z),
    ensures
        spec_segments_of_parts(spec_split(spec_replace_brace(z), ';')) == seq![z],
{
    if z.last() == '}' {
        let z2 = z.drop_last();
        assert(z =~= z2 + seq!['}']);
        lemma_replace_concat(z2, seq!['}']);
        lemma_replace_id(z2);
        assert(seq!['}'].skip(1) =~= Seq::<char>::empty());
        assert(spec_replace_brace(Seq::<char>::empty()) =~= Seq::<char>::empty());
        assert(spec_replace_brace(seq!['}']) =~= seq!['}', ';']);
        assert(spec_replace_brace(z) =~= z + seq![';']);
        assert(z + seq![';'] =~= z + seq![';'] + Seq::<char>::empty());
        crate::text::lemma_split_concat(z, Seq::<char>::empty(), ';');
        crate::text::lemma_split_whole(z, ';');
        assert(spec_split(Seq::<char>::empty(), ';') =~= seq![Seq::<char>::empty()]);
        assert(spec_split(spec_replace_brace(z), ';') == seq![z, Seq::<char>::empty()]);
        lemma_trim_fixed(z);
        reveal_with_fuel(Seq::filter, 3);
        assert(seq![z, Seq::<char>::empty()].map_values(|p: Seq<char>| spec_trim(p)) =~= seq![
            z,
            Seq::<char>::empty(),
        ]);
        assert(seq![z, Seq::<char>::empty()].drop_last() =~= seq![z]);
        assert(seq![z].drop_last() =~= Seq::<Seq<char>>::empty());
        assert(spec_segments_of_parts(spec_split(spec_replace_brace(z), ';')) =~= seq![z]);
    } else {
        assert(forall|j: int| 0 <= j < z.len() ==> z[j] != '}');
        lemma_replace_id(z);
        crate::text::lemma_split_whole(z, ';');
        lemma_trim_fixed(z);
        reveal_with_fuel(Seq::filter, 2);
        assert(seq![z].map_values(|p: Seq<char>| spec_trim(p)) =~= seq![z]);
        assert(seq![z].drop_last() =~= Seq::<Seq<char>>::empty());
        assert(spec_segments_of_parts(spec_split(spec_replace_brace(z), ';')) =~= seq![z]);
    }
}

/// The segments a list of raw parts gives after trimming and filtering.
pub open spec fn spec_segments_of_parts(parts: Seq<Seq<char>>) -> Seq<Seq<char>> {
    parts.map_values(|p: Seq<char>| spec_trim(p)).filter(|p: Seq<char>| p.len() > 0)
}

/// Body round trip: statements joined with `;` partition back into exactly
/// the same statements.
pub proof fn lemma_segments_round_trip(lines: Seq<Seq<char>>)
    requires
        forall|i: int| 0 <= i < lines.len() ==> segment_shaped(#[trigger] lines[i]),
    ensures
        spec_segments(crate::text::spec_join(lines, seq![';'])) == lines,
    decreases lines.len(),
{
    reveal_with_fuel(Seq::filter, 3);
    if lines.len() == 0 {
        assert(spec_replace_brace(Seq::<char>::empty()) =~= Seq::<char>::empty());
        assert(spec_split(Seq::<char>::empty(), ';') =~= seq![Seq::<char>::empty()]);
        assert(seq![Seq::<char>::empty()].map_values(|p: Seq<char>| spec_trim(p)) =~= seq![
            Seq::<char>::empty(),
        ]);
        assert(seq![Seq::<char>::empty()].drop_last() =~= Seq::<Seq<char>>::empty());
        assert(spec_segments(crate::text::spec_join(lines, seq![';'])) =~= lines);
    } else if lines.len() == 1 {
        lemma_one_segment(lines[0]);
        assert(crate::text::spec_join(lines, seq![';']) == lines[0]);
        assert(spec_segments(lines[0]) == spec_segments_of_parts(
            spec_split(spec_replace_brace(lines[0]), ';'),
        ));
        assert(seq![lines[0]] =~= lines);
    } else {
        let ls = lines.drop_last();
        let z = lines.last();
        assert(forall|i: int| 0 <= i < ls.len() ==> segment_shaped(#[trigger] ls[i]));
        lemma_segments_round_trip(ls);
        crate::text::lemma_join_snoc(ls, z, seq![';']);
        assert(lines =~= ls.push(z));
        let x = crate::text::spec_join(ls, seq![';']);
        assert(crate::text::spec_join(lines, seq![';']) == x + seq![';'] + z);
        lemma_replace_concat(x + seq![';'], z);
        lemma_replace_concat(x, seq![';']);
        assert(seq![';'].skip(1) =~= Seq::<char>::empty());
        assert(spec_replace_brace(Seq::<char>::empty()) =~= Seq::<char>::empty());
        assert(spec_replace_brace(seq![';']) =~= seq![';']);
        assert(x + seq![';'] + z =~= (x + seq![';']) + z);
        assert(spec_replace_brace((x + seq![';']) + z) == (spec_replace_brace(x) + seq![';'])
            + spec_replace_brace(z));
        assert((spec_replace_brace(x) + seq![';']) + spec_replace_brace(z) =~= spec_replace_brace(
            x,
        ) + seq![';'] + spec_replace_brace(z));
        crate::text::lemma_split_concat(spec_replace_brace(x), spec_replace_brace(z), ';');
        let px = spec_split(spec_replace_brace(x), ';');
        let pz = spec_split(spec_replace_brace(z), ';');
        assert(spec_split(spec_replace_brace(crate::text::spec_join(lines, seq![';'])), ';') == px
            + pz);
        let trimmer = |p: Seq<char>| spec_trim(p);
        let pred = |p: Seq<char>| p.len() > 0;
        assert((px + pz).map_values(trimmer) =~= px.map_values(trimmer) + pz.map_values(trimmer));
        Seq::filter_distributes_over_add(px.map_values(trimmer), pz.map_values(trimmer), pred);
        lemma_one_segment(z);
        assert(spec_segments(crate::text::spec_join(lines, seq![';'])) == spec_segments(x)
            + seq![z]);
        assert(ls + seq![z] =~= lines);
    }
}

proof fn lemma_find_char_found(s: Seq<char>, c: char)
    requires
        (crate::compile_task::evaluater::spec_find_char(s, c) as int) < s.len(),
    ensures
        s[crate::compile_task::evaluater::spec_find_char(s, c) as int] == c,
    decreases s.len(),
{
    if s.len() > 0 && s[0] != c {
        lemma_find_char_found(s.skip(1), c);
        assert(s.skip(1)[crate::compile_task::evaluater::spec_find_char(s.skip(1), c) as int]
            == s[crate::compile_task::evaluater::spec_find_char(s, c) as int]);
    }
}

proof fn lemma_find_char_prefix(s: Seq<char>, c: char)
    ensures
        forall|j: int|
            0 <= j < crate::compile_task::evaluater::spec_find_char(s, c) ==> s[j] != c,
    decreases s.len(),
{
    if s.len() > 0 && s[0] != c {
        lemma_find_char_prefix(s.skip(1), c);
        crate::compile_task::evaluater::lemma_find_char_le(s.skip(1), c);
        assert forall|j: int|
            0 <= j < crate::compile_task::evaluater::spec_find_char(s, c) implies s[j] != c by {
            if j > 0 {
                assert(s.skip(1)[j - 1] == s[j]);
            }
        }
    }
}

proof fn lemma_trim_start_suffix(s: Seq<char>)
    ensures
        exists|a: int|
            0 <= a <= s.len() && crate::text::spec_trim_start(s) == #[trigger] s.skip(a),
    decreases s.len(),
{
    if s.len() > 0 && is_space(s[0]) {
        lemma_trim_start_suffix(s.skip(1));
        let a = choose|a: int|
            0 <= a <= s.skip(1).len() && crate::text::spec_trim_start(s.skip(1)) == #[trigger] s
                .skip(1).skip(a);
        assert(s.skip(1).skip(a) =~= s.skip(a + 1));
        assert(crate::text::spec_trim_start(s) == s.skip(a + 1));
    } else {
        assert(s.skip(0) =~= s);
        assert(crate::text::spec_trim_start(s) == s.skip(0));
    }
}

proof fn lemma_trim_end_prefix(s: Seq<char>)
    ensures
        crate::text::spec_trim_end(s) == s.take(crate::text::spec_trim_end(s).len() as int),
    decreases s.len(),
{
    if s.len() > 0 && is_space(s.last()) {
        lemma_trim_end_prefix(s.drop_last());
        lemma_trim_end_le(s.drop_last());
        let n = crate::text::spec_trim_end(s).len() as int;
        assert(s.drop_last().take(n) =~= s.take(n));
    } else {
        assert(s.take(s.len() as int) =~= s);
    }
}

/// The trimmed string is a contiguous piece of the original.
proof fn lemma_trim_subrange(s: Seq<char>)
    ensures
        exists|a: int|
            0 <= a && a + spec_trim(s).len() <= s.len() && spec_trim(s) == #[trigger] s.subrange(
                a,
                a + spec_trim(s).len(),
            ),
{
    lemma_trim_start_suffix(s);
    let a = choose|a: int|
        0 <= a <= s.len() && crate::text::spec_trim_start(s) == #[trigger] s.skip(a);
    lemma_trim_end_prefix(s.skip(a));
    lemma_trim_end_le(s.skip(a));
    let n = spec_trim(s).len() as int;
    assert(spec_trim(s) == s.skip(a).take(n));
    assert(s.skip(a).take(n) =~= s.subrange(a, a + n));
}

proof fn lemma_trim_ends(s: Seq<char>)
    ensures
        spec_trim(s).len() > 0 ==> !is_space(spec_trim(s)[0]) && !is_space(spec_trim(s).last()),
{
    lemma_trim_start_nonspace(s);
    lemma_trim_end_keeps_head(crate::text::spec_trim_start(s));
    lemma_trim_end_nonspace(crate::text::spec_trim_start(s));
}

proof fn lemma_trim_start_nonspace(s: Seq<char>)
    ensures
        crate::text::spec_trim_start(s).len() > 0 ==> !is_space(crate::text::spec_trim_start(s)[0]),
    decreases s.len(),
{
    if s.len() > 0 && is_space(s[0]) {
        lemma_trim_start_nonspace(s.skip(1));
    }
}

proof fn lemma_trim_end_nonspace(s: Seq<char>)
    ensures
        crate::text::spec_trim_end(s).len() > 0 ==> !is_space(crate::text::spec_trim_end(s).last()),
    decreases s.len(),
{
    if s.len() > 0 && is_space(s.last()) {
        lemma_trim_end_nonspace(s.drop_last());
    }
}

proof fn lemma_trim_end_keeps_head(s: Seq<char>)
    ensures
        crate::text::spec_trim_end(s).len() > 0 ==> (s.len() > 0 && crate::text::spec_trim_end(
            s,
        )[0] == s[0] && (is_space(s[0]) ==> is_space(crate::text::spec_trim_end(s)[0]))),
    decreases s.len(),
{
    if s.len() > 0 && is_space(s.last()) {
        lemma_trim_end_keeps_head(s.drop_last());
    }
}

proof fn lemma_split_parts_no_sep(s: Seq<char>, sep: char)
    ensures
        forall|i: int, j: int|
            0 <= i < spec_split(s, sep).len() && 0 <= j < spec_split(s, sep)[i].len()
                ==> #[trigger] spec_split(s, sep)[i][j] != sep,
    decreases s.len(),
{
    if s.len() == 0 {
    } else if s[0] == sep {
        lemma_split_parts_no_sep(s.skip(1), sep);
        let inner = spec_split(s.skip(1), sep);
        assert forall|i: int, j: int|
            0 <= i < spec_split(s, sep).len() && 0 <= j < spec_split(s, sep)[i].len()
                implies #[trigger] spec_split(s, sep)[i][j] != sep by {
            if i > 0 {
                assert(spec_split(s, sep)[i] == inner[i - 1]);
            }
        }
    } else {
        lemma_split_parts_no_sep(s.skip(1), sep);
        let inner = spec_split(s.skip(1), sep);
        crate::text::lemma_split_len(s.skip(1), sep);
        assert forall|i: int, j: int|
            0 <= i < spec_split(s, sep).len() && 0 <= j < spec_split(s, sep)[i].len()
                implies #[trigger] spec_split(s, sep)[i][j] != sep by {
            if i == 0 {
                assert(spec_split(s, sep)[0] == seq![s[0]] + inner[0]);
                if j > 0 {
                    assert((seq![s[0]] + inner[0])[j] == inner[0][j - 1]);
                }
            } else {
                assert(spec_split(s, sep)[i] == inner.skip(1)[i - 1]);
                assert(inner.skip(1)[i - 1] == inner[i]);
            }
        }
    }
}

/// In the statements of a block, a closing brace stands only at the end.
proof fn lemma_split_replace_brace_pos(s: Seq<char>)
    ensures
        forall|i: int, j: int|
            0 <= i < spec_split(spec_replace_brace(s), ';').len() && 0 <= j < spec_split(
                spec_replace_brace(s),
                ';',
            )[i].len() - 1 ==> #[trigger] spec_split(spec_replace_brace(s), ';')[i][j] != '}',
    decreases s.len(),
{
    if s.len() == 0 {
    } else {
        lemma_split_replace_brace_pos(s.skip(1));
        let rep = spec_replace_brace(s);
        let inner = spec_split(spec_replace_brace(s.skip(1)), ';');
        crate::text::lemma_split_len(spec_replace_brace(s.skip(1)), ';');
        let out = spec_split(rep, ';');
        if s[0] == '}' {
            assert(rep == seq!['}', ';'] + spec_replace_brace(s.skip(1)));
            assert(rep[0] == '}');
            assert(rep.skip(1)[0] == ';');
            assert(rep.skip(1).skip(1) =~= spec_replace_brace(s.skip(1)));
            let r1 = spec_split(rep.skip(1), ';');
            assert(r1 == seq![Seq::<char>::empty()] + inner);
            assert(out == seq![seq![rep[0]] + r1[0]] + r1.skip(1));
            assert(r1[0] =~= Seq::<char>::empty());
            assert(seq![rep[0]] + r1[0] =~= seq!['}']);
            assert(r1.skip(1) =~= inner);
            assert forall|i: int, j: int|
                0 <= i < out.len() && 0 <= j < out[i].len() - 1 implies #[trigger] out[i][j]
                != '}' by {
                if i > 0 {
                    assert(out[i] == inner[i - 1]);
                }
            }
        } else if s[0] == ';' {
            assert(rep == seq![s[0]] + spec_replace_brace(s.skip(1)));
            assert(rep[0] == ';');
            assert(rep.skip(1) =~= spec_replace_brace(s.skip(1)));
            assert(out == seq![Seq::<char>::empty()] + inner);
            assert forall|i: int, j: int|
                0 <= i < out.len() && 0 <= j < out[i].len() - 1 implies #[trigger] out[i][j]
                != '}' by {
                if i > 0 {
                    assert(out[i] == inner[i - 1]);
                }
            }
        } else {
            assert(rep == seq![s[0]] + spec_replace_brace(s.skip(1)));
            assert(rep[0] == s[0]);
            assert(rep.skip(1) =~= spec_replace_brace(s.skip(1)));
            assert(out == seq![seq![rep[0]] + inner[0]] + inner.skip(1));
            assert forall|i: int, j: int|
                0 <= i < out.len() && 0 <= j < out[i].len() - 1 implies #[trigger] out[i][j]
                != '}' by {
                if i == 0 {
                    assert(out[0] == seq![s[0]] + inner[0]);
                    if j > 0 {
                        assert(out[0][j] == inner[0][j - 1]);
                        assert(inner[0][j - 1] != '}');
                    }
                } else {
                    assert(out[i] == inner.skip(1)[i - 1]);
                    assert(inner.skip(1)[i - 1] == inner[i]);
                }
            }
        }
    }
}

/// Every segment of a block's inside behaves as one statement.
pub proof fn lemma_segments_shaped(inside: Seq<char>)
    ensures
        forall|i: int|
            0 <= i < spec_segments(inside).len() ==> segment_shaped(
                #[trigger] spec_segments(inside)[i],
            ),
{
    let parts = spec_split(spec_replace_brace(inside), ';');
    let trimmed = parts.map_values(|p: Seq<char>| spec_trim(p));
    let segs = spec_segments(inside);
    lemma_split_parts_no_sep(spec_replace_brace(inside), ';');
    lemma_split_replace_brace_pos(inside);
    trimmed.filter_lemma(|p: Seq<char>| p.len() > 0);
    assert forall|i: int| 0 <= i < segs.len() implies segment_shaped(#[trigger] segs[i]) by {
        lemma_filter_from(trimmed, |p: Seq<char>| p.len() > 0, i);
        let k = choose|k: int| 0 <= k < trimmed.len() && trimmed[k] == segs[i];
        let p = parts[k];
        assert(segs[i] == spec_trim(p));
        assert(segs[i].len() > 0);
        lemma_trim_ends(p);
        lemma_trim_subrange(p);
        let a = choose|a: int|
            0 <= a && a + spec_trim(p).len() <= p.len() && spec_trim(p) == #[trigger] p.subrange(
                a,
                a + spec_trim(p).len(),
            );
        assert forall|j: int| 0 <= j < segs[i].len() implies segs[i][j] != ';' by {
            assert(segs[i][j] == p[a + j]);
        }
        assert forall|j: int| 0 <= j < segs[i].len() - 1 implies segs[i][j] != '}' by {
            assert(segs[i][j] == p[a + j]);
            assert(segs[i].last() == p[a + segs[i].len() - 1]);
            assert(a + j < p.len() - 1 || segs[i][j] != '}') by {
                if a + j == p.len() - 1 {
                    assert(a + segs[i].len() - 1 > a + j);
                    assert(a + segs[i].len() - 1 <= p.len() - 1);
                    assert(false);
                }
            }
        }
    }
}

proof fn lemma_ws_chars_free(s: Seq<char>, c: char)
    requires
        forall|j: int| 0 <= j < s.len() ==> s[j] != c,
    ensures
        forall|i: int, x: int|
            0 <= i < spec_split_ws(s).len() && 0 <= x < spec_split_ws(s)[i].len()
                ==> #[trigger] spec_split_ws(s)[i][x] != c,
    decreases s.len(),
{
    if s.len() == 0 {
    } else {
        assert(forall|j: int| 0 <= j < s.skip(1).len() ==> #[trigger] s.skip(1)[j] != c);
        lemma_ws_chars_free(s.skip(1), c);
        let rest = spec_split_ws(s.skip(1));
        let out = spec_split_ws(s);
        if is_space(s[0]) {
        } else if s.len() == 1 || is_space(s[1]) {
            assert forall|i: int, x: int|
                0 <= i < out.len() && 0 <= x < out[i].len() implies #[trigger] out[i][x]
                != c by {
                if i == 0 {
                    assert(out[0] =~= seq![s[0]]);
                } else {
                    assert(out[i] == rest[i - 1]);
                }
            }
        } else {
            assert(rest.len() > 0);
            assert forall|i: int, x: int|
                0 <= i < out.len() && 0 <= x < out[i].len() implies #[trigger] out[i][x]
                != c by {
                if i == 0 {
                    assert(out[0] == seq![s[0]] + rest[0]);
                    if x > 0 {
                        assert(out[0][x] == rest[0][x - 1]);
                    }
                } else {
                    assert(out[i] == rest.skip(1)[i - 1]);
                    assert(rest.skip(1)[i - 1] == rest[i]);
                }
            }
        }
    }
}

proof fn lemma_join_chars_free(parts: Seq<Seq<char>>, sep: Seq<char>, c: char)
    requires
        forall|i: int, x: int|
            0 <= i < parts.len() && 0 <= x < parts[i].len() ==> #[trigger] parts[i][x] != c,
        forall|x: int| 0 <= x < sep.len() ==> sep[x] != c,
    ensures
        forall|x: int|
            0 <= x < crate::text::spec_join(parts, sep).len() ==> #[trigger] crate::text::spec_join(
                parts,
                sep,
            )[x] != c,
    decreases parts.len(),
{
    if parts.len() <= 1 {
    } else {
        assert(forall|i: int, x: int|
            0 <= i < parts.drop_last().len() && 0 <= x < parts.drop_last()[i].len()
                ==> #[trigger] parts.drop_last()[i][x] != c);
        lemma_join_chars_free(parts.drop_last(), sep, c);
        let j = crate::text::spec_join(parts, sep);
        let h = crate::text::spec_join(parts.drop_last(), sep);
        assert(j == h + sep + parts.last());
        assert forall|x: int| 0 <= x < j.len() implies #[trigger] j[x] != c by {
            if x < h.len() {
                assert(j[x] == h[x]);
            } else if x < h.len() + sep.len() {
                assert(j[x] == sep[x - h.len()]);
            } else {
                assert(j[x] == parts.last()[x - h.len() - sep.len()]);
            }
        }
    }
}

proof fn lemma_lines_match_index(segs: Seq<Seq<char>>, ls: Seq<LineV>, i: int)
    requires
        spec_lines_match(segs, ls),
        0 <= i < ls.len(),
    ensures
        spec_line_matches(segs[i], ls[i]),
    decreases i,
{
    if i > 0 {
        lemma_lines_match_index(segs.skip(1), ls.skip(1), i - 1);
        assert(segs.skip(1)[i - 1] == segs[i]);
        assert(ls.skip(1)[i - 1] == ls[i]);
    }
}

/// The text a parsed sentence reconstructs to: its specifier tokens joined
/// with spaces, then its lines joined with terminators between braces.
pub open spec fn spec_reconstruct(s: SentV) -> Seq<char>
    decreases s, 2int,
{
    crate::text::spec_join(s.specifiers, seq![' ']) + seq!['{'] + crate::text::spec_join(
        spec_line_texts(s.parsed_lines),
        seq![';'],
    ) + seq!['}']
}

pub open spec fn spec_line_texts(ls: Seq<LineV>) -> Seq<Seq<char>>
    decreases ls, 1int,
{
    if ls.len() == 0 {
        seq![]
    } else {
        seq![spec_line_text(ls[0])] + spec_line_texts(ls.skip(1))
    }
}

pub open spec fn spec_line_text(l: LineV) -> Seq<char>
    decreases l, 0int,
{
    match l {
        LineV::Comment(c) => c,
        LineV::Formula(f) => f,
        LineV::Sentence(sub) => spec_reconstruct(sub),
    }
}

proof fn lemma_line_texts_flat(segs: Seq<Seq<char>>, ls: Seq<LineV>)
    requires
        spec_lines_match(segs, ls),
        forall|i: int| 0 <= i < ls.len() ==> !((#[trigger] ls[i]) is Sentence),
    ensures
        spec_line_texts(ls) == segs,
    decreases ls.len(),
{
    if ls.len() == 0 {
        assert(spec_line_texts(ls) =~= segs);
    } else {
        assert(!(ls[0] is Sentence));
        assert(spec_line_matches(segs[0], ls[0]));
        assert(spec_line_text(ls[0]) == segs[0]);
        assert(forall|i: int| 0 <= i < ls.skip(1).len() ==> !((#[trigger] ls.skip(1)[i])
            is Sentence));
        lemma_line_texts_flat(segs.skip(1), ls.skip(1));
        assert(spec_line_texts(ls) =~= segs);
    }
}

/// Parse round trip for a block of comments and formulas: the
/// reconstruction of its parse reparses to the same specifiers and lines,
/// and to the same name when the sentence is a named function.
pub proof fn lemma_parse_round_trip_flat(raw: Seq<char>, t: SentV, t2: SentV)
    requires
        spec_sentence_matches(raw, t),
        forall|i: int| 0 <= i < t.parsed_lines.len() ==> !((#[trigger] t.parsed_lines[i])
            is Sentence),
        spec_sentence_matches(spec_reconstruct(t), t2),
    ensures
        t2.specifiers == t.specifiers,
        t2.parsed_lines == t.parsed_lines,
        t.specifiers.len() > 0 && t.specifiers[0] == "fn".view() ==> t2.name == t.name,
{
    let bi = crate::compile_task::evaluater::spec_find_char(raw, '{') as int;
    let sp = spec_trim(raw.take(bi));
    let inside = raw.skip(bi + 1).drop_last();
    assert(spec_split_sentence(raw) == Ok::<(Seq<char>, Seq<char>), SentErrV>((sp, inside)));
    let tokens = spec_split_ws(sp);
    assert(t.specifiers == tokens);
    let segs = spec_segments(inside);
    assert(spec_lines_match(segs, t.parsed_lines));
    lemma_segments_shaped(inside);
    lemma_ws_tokens_shape(sp);
    lemma_line_texts_flat(segs, t.parsed_lines);
    // the specifier tokens hold no opening brace
    crate::compile_task::evaluater::lemma_find_char_le(raw, '{');
    lemma_find_char_prefix(raw, '{');
    lemma_trim_subrange(raw.take(bi));
    let a = choose|a: int|
        0 <= a && a + sp.len() <= raw.take(bi).len() && sp == #[trigger] raw.take(bi).subrange(
            a,
            a + sp.len(),
        );
    assert forall|x: int| 0 <= x < sp.len() implies sp[x] != '{' by {
        assert(sp[x] == raw.take(bi)[a + x]);
        assert(raw.take(bi)[a + x] == raw[a + x]);
    }
    lemma_ws_chars_free(sp, '{');
    let j = crate::text::spec_join(tokens, seq![' ']);
    lemma_join_chars_free(tokens, seq![' '], '{');
    let b = crate::text::spec_join(segs, seq![';']);
    let w = spec_reconstruct(t);
    assert(w == j + seq!['{'] + b + seq!['}']);
    assert(w.len() == j.len() + 1 + b.len() + 1);
    assert forall|x: int| 0 <= x < j.len() implies #[trigger] w[x] != '{' by {
        assert(w[x] == j[x]);
    }
    assert(w[j.len() as int] == '{');
    crate::compile_task::evaluater::lemma_find_char_at(w, '{', j.len() as int);
    let after = w.skip(j.len() as int + 1);
    assert(after =~= b + seq!['}']);
    assert(after.last() == '}');
    assert(after.drop_last() =~= b);
    assert(w.take(j.len() as int) =~= j);
    // the joined specifier is already trimmed
    if tokens.len() == 0 {
        assert(j =~= Seq::<char>::empty());
        assert(spec_trim(j) =~= Seq::<char>::empty());
        assert(spec_trim(j) == j);
    } else {
        if tokens.len() == 1 {
            assert(j == tokens[0]);
        } else {
            lemma_join_head(tokens, seq![' ']);
            assert(j[0] == (tokens[0] + seq![' '] + crate::text::spec_join(
                tokens.skip(1),
                seq![' '],
            ))[0]);
            assert(j[0] == tokens[0][0]);
            assert(j == crate::text::spec_join(tokens.drop_last(), seq![' ']) + seq![' ']
                + tokens.last());
            assert(j.last() == tokens.last().last());
        }
        lemma_trim_fixed(j);
    }
    assert(spec_split_sentence(w) == Ok::<(Seq<char>, Seq<char>), SentErrV>((j, b)));
    lemma_ws_round_trip(tokens);
    assert(t2.specifiers == tokens);
    assert forall|i: int| 0 <= i < segs.len() implies segment_shaped(#[trigger] segs[i]) by {}
    lemma_segments_round_trip(segs);
    assert(spec_segments(b) == segs);
    assert(spec_lines_match(segs, t2.parsed_lines));
    assert(t2.parsed_lines.len() == t.parsed_lines.len());
    assert forall|i: int| 0 <= i < t.parsed_lines.len() implies #[trigger] t2.parsed_lines[i]
        == t.parsed_lines[i] by {
        lemma_lines_match_index(segs, t.parsed_lines, i);
        lemma_lines_match_index(segs, t2.parsed_lines, i);
        assert(!(t.parsed_lines[i] is Sentence));
        let seg = segs[i];
        if seg.len() > 0 && seg[0] == '#' {
        } else if seg.len() > 0 && seg.last() == '}' {
            assert(false);
        } else {
        }
    }
    assert(t2.parsed_lines =~= t.parsed_lines);
    if tokens.len() > 0 && tokens[0] == "fn".view() {
        assert(spec_name_matches(tokens, t.name));
        assert(spec_name_matches(tokens, t2.name));
    }
}

/// Two parse trees that agree on everything but the generated names: the
/// specifiers and the comment and formula texts are equal, a named
/// function keeps its name, and nested sentences agree in the same way.
pub open spec fn spec_tree_sim(a: SentV, b: SentV) -> bool
    decreases a, 1int,
{
    &&& b.specifiers == a.specifiers
    &&& (if a.specifiers.len() > 0 && a.specifiers[0] == "fn".view() {
        b.name == a.name
    } else {
        b.name.len() == a.name.len()
    })
    &&& spec_lines_sim(a.parsed_lines, b.parsed_lines)
}

pub open spec fn spec_lines_sim(xs: Seq<LineV>, ys: Seq<LineV>) -> bool
    decreases xs, 0int,
{
    &&& xs.len() == ys.len()
    &&& (xs.len() == 0 || (spec_line_sim(xs[0], ys[0]) && spec_lines_sim(xs.skip(1), ys.skip(1))))
}

pub open spec fn spec_line_sim(x: LineV, y: LineV) -> bool
    decreases x, 2int,
{
    match (x, y) {
        (LineV::Comment(c), LineV::Comment(d)) => c == d,
        (LineV::Formula(c), LineV::Formula(d)) => c == d,
        (LineV::Sentence(a), LineV::Sentence(b)) => spec_tree_sim(a, b),
        _ => false,
    }
}

proof fn lemma_ws_first(s: Seq<char>)
    requires
        s.len() > 0,
        !is_space(s[0]),
    ensures
        spec_split_ws(s).len() > 0,
        spec_split_ws(s)[0].len() > 0,
        spec_split_ws(s)[0][0] == s[0],
{
    if s.len() == 1 || is_space(s[1]) {
        assert(spec_split_ws(s)[0] == seq![s[0]]);
    } else {
        let rest = spec_split_ws(s.skip(1));
        assert(spec_split_ws(s)[0] == seq![s[0]] + rest[0]);
    }
}

proof fn lemma_lines_sim_build(xs: Seq<LineV>, ys: Seq<LineV>)
    requires
        xs.len() == ys.len(),
        forall|i: int| 0 <= i < xs.len() ==> spec_line_sim(#[trigger] xs[i], ys[i]),
    ensures
        spec_lines_sim(xs, ys),
    decreases xs.len(),
{
    if xs.len() > 0 {
        assert(forall|i: int|
            0 <= i < xs.skip(1).len() ==> spec_line_sim(#[trigger] xs.skip(1)[i], ys.skip(1)[i])
                || (xs.skip(1)[i] == xs[i + 1] && ys.skip(1)[i] == ys[i + 1]));
        assert forall|i: int| 0 <= i < xs.skip(1).len() implies spec_line_sim(
            #[trigger] xs.skip(1)[i],
            ys.skip(1)[i],
        ) by {
            assert(xs.skip(1)[i] == xs[i + 1]);
            assert(ys.skip(1)[i] == ys[i + 1]);
        }
        lemma_lines_sim_build(xs.skip(1), ys.skip(1));
    }
}

/// A nested sentence parsed from one statement holds at most one line, and
/// that line is a comment or a formula.
proof fn lemma_sub_is_flat(seg: Seq<char>, sub: SentV)
    requires
        segment_shaped(seg),
        spec_sentence_matches(seg, sub),
    ensures
        forall|i: int| 0 <= i < sub.parsed_lines.len() ==> !((#[trigger] sub.parsed_lines[i])
            is Sentence),
        sub.parsed_lines.len() <= 1,
{
    let sbi = crate::compile_task::evaluater::spec_find_char(seg, '{') as int;
    let subinside = seg.skip(sbi + 1).drop_last();
    crate::compile_task::evaluater::lemma_find_char_le(seg, '{');
    assert(forall|j: int| 0 <= j < subinside.len() ==> #[trigger] subinside[j] == seg[
        j + sbi + 1]);
    assert(forall|j: int| 0 <= j < subinside.len() ==> subinside[j] != ';');
    assert(forall|j: int| 0 <= j < subinside.len() ==> subinside[j] != '}');
    lemma_replace_id(subinside);
    crate::text::lemma_split_whole(subinside, ';');
    let segs2 = spec_segments(subinside);
    reveal_with_fuel(Seq::filter, 3);
    assert(seq![subinside].map_values(|p: Seq<char>| spec_trim(p)) =~= seq![spec_trim(subinside)]);
    assert(seq![spec_trim(subinside)].drop_last() =~= Seq::<Seq<char>>::empty());
    lemma_trim_subrange(subinside);
    assert(spec_lines_match(segs2, sub.parsed_lines));
    if spec_trim(subinside).len() > 0 {
        assert(segs2 =~= seq![spec_trim(subinside)]);
        let s1 = spec_trim(subinside);
        let a = choose|a: int|
            0 <= a && a + s1.len() <= subinside.len() && s1 == #[trigger] subinside.subrange(
                a,
                a + s1.len(),
            );
        assert(s1.last() == subinside[a + s1.len() - 1]);
        assert(s1.last() != '}');
        assert(sub.parsed_lines.len() == 1);
        lemma_lines_match_index(segs2, sub.parsed_lines, 0);
        assert(!(sub.parsed_lines[0] is Sentence));
        assert(forall|i: int| 0 <= i < sub.parsed_lines.len() ==> !((#[trigger] sub.parsed_lines[
        i]) is Sentence));
    } else {
        assert(segs2 =~= Seq::<Seq<char>>::empty());
        assert(sub.parsed_lines.len() == 0);
    }
}

/// The reconstruction of a nested sentence behaves as one statement of its
/// enclosing block, and is itself read back as a sentence.
proof fn lemma_sub_reconstruct_shaped(seg: Seq<char>, sub: SentV)
    requires
        segment_shaped(seg),
        seg[0] != '#',
        spec_sentence_matches(seg, sub),
    ensures
        segment_shaped(spec_reconstruct(sub)),
        spec_reconstruct(sub)[0] != '#',
        spec_reconstruct(sub).last() == '}',
{
    let sbi = crate::compile_task::evaluater::spec_find_char(seg, '{') as int;
    let subsp = spec_trim(seg.take(sbi));
    let subinside = seg.skip(sbi + 1).drop_last();
    crate::compile_task::evaluater::lemma_find_char_le(seg, '{');
    lemma_find_char_prefix(seg, '{');
    let tokens = spec_split_ws(subsp);
    assert(sub.specifiers == tokens);
    lemma_ws_tokens_shape(subsp);
    lemma_trim_subrange(seg.take(sbi));
    let a = choose|a: int|
        0 <= a && a + subsp.len() <= seg.take(sbi).len() && subsp == #[trigger] seg.take(
            sbi,
        ).subrange(a, a + subsp.len());
    assert(seg.last() == '}');
    assert(sbi < seg.len());
    lemma_find_char_found(seg, '{');
    assert(seg[sbi] == '{');
    assert(sbi != seg.len() - 1);
    assert forall|x: int| 0 <= x < subsp.len() implies subsp[x] != ';' && subsp[x] != '}' by {
        assert(subsp[x] == seg.take(sbi)[a + x]);
        assert(seg.take(sbi)[a + x] == seg[a + x]);
        assert(a + x < sbi);
    }
    lemma_ws_chars_free(subsp, ';');
    lemma_ws_chars_free(subsp, '}');
    let sj = crate::text::spec_join(tokens, seq![' ']);
    lemma_join_chars_free(tokens, seq![' '], ';');
    lemma_join_chars_free(tokens, seq![' '], '}');
    lemma_sub_is_flat(seg, sub);
    let segs2 = spec_segments(subinside);
    lemma_segments_shaped(subinside);
    lemma_line_texts_flat(segs2, sub.parsed_lines);
    let sb = crate::text::spec_join(spec_line_texts(sub.parsed_lines), seq![';']);
    assert(forall|j: int| 0 <= j < subinside.len() ==> #[trigger] subinside[j] == seg[
        j + sbi + 1]);
    assert(forall|j: int| 0 <= j < subinside.len() ==> subinside[j] != ';');
    assert(forall|j: int| 0 <= j < subinside.len() ==> subinside[j] != '}');
    lemma_replace_id(subinside);
    crate::text::lemma_split_whole(subinside, ';');
    reveal_with_fuel(Seq::filter, 3);
    assert(seq![subinside].map_values(|p: Seq<char>| spec_trim(p)) =~= seq![spec_trim(subinside)]);
    assert(seq![spec_trim(subinside)].drop_last() =~= Seq::<Seq<char>>::empty());
    assert forall|x: int| 0 <= x < sb.len() implies sb[x] != ';' && sb[x] != '}' by {
        assert(sub.parsed_lines.len() <= 1);
        if sub.parsed_lines.len() == 1 {
            let s1 = spec_trim(subinside);
            assert(s1.len() > 0);
            assert(segs2 =~= seq![s1]);
            assert(segs2 == spec_line_texts(sub.parsed_lines));
            assert(segs2.len() == 1);
            assert(sb == segs2[0]);
            lemma_trim_subrange(subinside);
            let a2 = choose|a2: int|
                0 <= a2 && a2 + s1.len() <= subinside.len() && s1 == #[trigger] subinside.subrange(
                    a2,
                    a2 + s1.len(),
                );
            assert(segs2[0] == s1);
            assert(s1[x] == subinside[a2 + x]);
        } else {
            assert(spec_line_texts(sub.parsed_lines) =~= Seq::<Seq<char>>::empty());
        }
    }
    let w = spec_reconstruct(sub);
    assert(w == sj + seq!['{'] + sb + seq!['}']);
    assert(w.len() == sj.len() + 1 + sb.len() + 1);
    assert(w.last() == '}');
    assert forall|x: int| 0 <= x < w.len() implies w[x] != ';' by {
        if x < sj.len() {
            assert(w[x] == sj[x]);
        } else if x == sj.len() {
            assert(w[x] == '{');
        } else if x < sj.len() + 1 + sb.len() {
            assert(w[x] == sb[x - sj.len() - 1]);
        } else {
            assert(w[x] == '}');
        }
    }
    assert forall|x: int| 0 <= x < w.len() - 1 implies w[x] != '}' by {
        if x < sj.len() {
            assert(w[x] == sj[x]);
        } else if x == sj.len() {
            assert(w[x] == '{');
        } else {
            assert(w[x] == sb[x - sj.len() - 1]);
        }
    }
    if tokens.len() == 0 {
        assert(sj =~= Seq::<char>::empty());
        assert(w[0] == '{');
    } else {
        if tokens.len() == 1 {
            assert(sj == tokens[0]);
        } else {
            lemma_join_head(tokens, seq![' ']);
        }
        assert(sj[0] == tokens[0][0]);
        assert(w[0] == sj[0]);
        // the first token starts where the statement starts
        if sbi == 0 {
            assert(seg.take(0) =~= Seq::<char>::empty());
            assert(spec_trim(Seq::<char>::empty()) =~= Seq::<char>::empty());
            assert(subsp.len() == 0);
            assert(false);
        } else {
            assert(seg.take(sbi)[0] == seg[0]);
            assert(!is_space(seg[0]));
            assert(crate::text::spec_trim_start(seg.take(sbi)) == seg.take(sbi));
            lemma_trim_end_keeps_head(seg.take(sbi));
            assert(subsp.len() > 0);
            assert(subsp[0] == seg[0]);
            lemma_ws_first(subsp);
            assert(tokens[0][0] == seg[0]);
        }
        assert(w[0] != '#');
    }
    assert(!is_space(w[0]));
}

/// Parse round trip: the reconstruction of any parsed sentence tree parses
/// again to a tree equal to it up to the generated names.
pub proof fn lemma_parse_round_trip(raw: Seq<char>, t: SentV, t2: SentV)
    requires
        spec_sentence_matches(raw, t),
        spec_sentence_matches(spec_reconstruct(t), t2),
    ensures
        spec_tree_sim(t, t2),
{
    let bi = crate::compile_task::evaluater::spec_find_char(raw, '{') as int;
    let sp = spec_trim(raw.take(bi));
    let inside = raw.skip(bi + 1).drop_last();
    let tokens = spec_split_ws(sp);
    let segs = spec_segments(inside);
    lemma_segments_shaped(inside);
    lemma_ws_tokens_shape(sp);
    crate::compile_task::evaluater::lemma_find_char_le(raw, '{');
    lemma_find_char_prefix(raw, '{');
    lemma_trim_subrange(raw.take(bi));
    let a = choose|a: int|
        0 <= a && a + sp.len() <= raw.take(bi).len() && sp == #[trigger] raw.take(bi).subrange(
            a,
            a + sp.len(),
        );
    assert forall|x: int| 0 <= x < sp.len() implies sp[x] != '{' by {
        assert(sp[x] == raw.take(bi)[a + x]);
        assert(raw.take(bi)[a + x] == raw[a + x]);
    }
    lemma_ws_chars_free(sp, '{');
    let j = crate::text::spec_join(tokens, seq![' ']);
    lemma_join_chars_free(tokens, seq![' '], '{');
    // the texts of the lines are segments in shape
    let texts = spec_line_texts(t.parsed_lines);
    assert(texts.len() == t.parsed_lines.len()) by {
        lemma_line_texts_len(t.parsed_lines);
    }
    assert(segs.len() == t.parsed_lines.len());
    assert forall|i: int|
        0 <= i < t.parsed_lines.len() implies segment_shaped(#[trigger] texts[i]) && ((
        t.parsed_lines[i] is Sentence) ==> texts[i] == spec_reconstruct(
            t.parsed_lines[i]->Sentence_0,
        )) && (!(t.parsed_lines[i] is Sentence) ==> texts[i] == segs[i]) by {
        lemma_lines_match_index(segs, t.parsed_lines, i);
        lemma_line_texts_index(t.parsed_lines, i);
        let seg = segs[i];
        if seg[0] == '#' {
            assert(t.parsed_lines[i] == LineV::Comment(seg));
            assert(texts[i] == seg);
        } else if seg.last() == '}' {
            let sub = t.parsed_lines[i]->Sentence_0;
            assert(spec_sentence_matches(seg, sub));
            lemma_sub_reconstruct_shaped(seg, sub);
            assert(texts[i] == spec_reconstruct(sub));
        } else {
            assert(t.parsed_lines[i] == LineV::Formula(seg));
            assert(texts[i] == seg);
        }
    }
    let b = crate::text::spec_join(texts, seq![';']);
    let w = spec_reconstruct(t);
    assert(w == j + seq!['{'] + b + seq!['}']);
    assert(w.len() == j.len() + 1 + b.len() + 1);
    assert forall|x: int| 0 <= x < j.len() implies #[trigger] w[x] != '{' by {
        assert(w[x] == j[x]);
    }
    assert(w[j.len() as int] == '{');
    crate::compile_task::evaluater::lemma_find_char_at(w, '{', j.len() as int);
    let after = w.skip(j.len() as int + 1);
    assert(after =~= b + seq!['}']);
    assert(after.last() == '}');
    assert(after.drop_last() =~= b);
    assert(w.take(j.len() as int) =~= j);
    if tokens.len() == 0 {
        assert(j =~= Seq::<char>::empty());
        assert(spec_trim(j) =~= Seq::<char>::empty());
        assert(spec_trim(j) == j);
    } else {
        if tokens.len() == 1 {
            assert(j == tokens[0]);
        } else {
            lemma_join_head(tokens, seq![' ']);
            assert(j[0] == tokens[0][0]);
            assert(j == crate::text::spec_join(tokens.drop_last(), seq![' ']) + seq![' ']
                + tokens.last());
            assert(j.last() == tokens.last().last());
        }
        lemma_trim_fixed(j);
    }
    assert(spec_split_sentence(w) == Ok::<(Seq<char>, Seq<char>), SentErrV>((j, b)));
    lemma_ws_round_trip(tokens);
    assert(t2.specifiers == tokens);
    lemma_segments_round_trip(texts);
    assert(spec_segments(b) == texts);
    assert(spec_lines_match(texts, t2.parsed_lines));
    assert(t2.parsed_lines.len() == t.parsed_lines.len());
    assert forall|i: int| 0 <= i < t.parsed_lines.len() implies spec_line_sim(
        #[trigger] t.parsed_lines[i],
        t2.parsed_lines[i],
    ) by {
        lemma_lines_match_index(segs, t.parsed_lines, i);
        lemma_lines_match_index(texts, t2.parsed_lines, i);
        let seg = segs[i];
        if seg[0] == '#' {
            assert(texts[i] == seg);
            assert(t2.parsed_lines[i] == LineV::Comment(seg));
        } else if seg.last() == '}' {
            let sub = t.parsed_lines[i]->Sentence_0;
            lemma_sub_reconstruct_shaped(seg, sub);
            assert(texts[i] == spec_reconstruct(sub));
            assert(texts[i].last() == '}');
            assert(texts[i][0] != '#');
            let sub2 = t2.parsed_lines[i]->Sentence_0;
            assert(spec_sentence_matches(spec_reconstruct(sub), sub2));
            lemma_sub_is_flat(seg, sub);
            lemma_parse_round_trip_flat(seg, sub, sub2);
            assert(sub2.specifiers == sub.specifiers);
            assert(sub2.parsed_lines == sub.parsed_lines);
            assert(spec_name_matches(sub.specifiers, sub.name));
            assert(spec_name_matches(sub.specifiers, sub2.name));
            assert(spec_lines_sim(sub.parsed_lines, sub2.parsed_lines)) by {
                lemma_lines_sim_refl(sub.parsed_lines);
            }
            assert(spec_tree_sim(sub, sub2));
        } else {
            assert(texts[i] == seg);
            assert(t2.parsed_lines[i] == LineV::Formula(seg));
        }
    }
    lemma_lines_sim_build(t.parsed_lines, t2.parsed_lines);
    assert(spec_name_matches(tokens, t.name));
    assert(spec_name_matches(tokens, t2.name));
}

proof fn lemma_line_texts_len(ls: Seq<LineV>)
    ensures
        spec_line_texts(ls).len() == ls.len(),
    decreases ls.len(),
{
    if ls.len() > 0 {
        lemma_line_texts_len(ls.skip(1));
    }
}

proof fn lemma_line_texts_index(ls: Seq<LineV>, i: int)
    requires
        0 <= i < ls.len(),
    ensures
        spec_line_texts(ls).len() == ls.len(),
        spec_line_texts(ls)[i] == spec_line_text(ls[i]),
    decreases i,
{
    lemma_line_texts_len(ls);
    if i > 0 {
        lemma_line_texts_index(ls.skip(1), i - 1);
        assert(ls.skip(1)[i - 1] == ls[i]);
        assert(spec_line_texts(ls)[i] == spec_line_texts(ls.skip(1))[i - 1]);
    }
}

proof fn lemma_lines_sim_refl(ls: Seq<LineV>)
    requires
        forall|i: int| 0 <= i < ls.len() ==> !((#[trigger] ls[i]) is Sentence),
    ensures
        spec_lines_sim(ls, ls),
    decreases ls.len(),
{
    if ls.len() > 0 {
        assert(forall|i: int| 0 <= i < ls.skip(1).len() ==> !((#[trigger] ls.skip(1)[i])
            is Sentence));
        lemma_lines_sim_refl(ls.skip(1));
        assert(!(ls[0] is Sentence));
        if ls[0] is Comment {
            assert(spec_line_sim(ls[0], ls[0]));
        } else {
            assert(ls[0] is Formula);
            assert(spec_line_sim(ls[0], ls[0]));
        }
    }
}

/// The comment standing in for a formula line whose evaluation failed.
pub open spec fn spec_eval_skip_comment(e: EvalErrV) -> Seq<char> {
    "### Because of evaluation error(s), evaluation of this line was skipped. ###\n### The Error -> ".view()
        + spec_err_msg(e) + " ###".view()
}

/// The comment standing in for a nested sentence whose compilation failed.
pub open spec fn spec_sentence_skip_comment(e: SentErrV) -> Seq<char> {
    "### Because of failture of compiling a sentence, a callment of the sentence was skipped. ###\n### The Error : ".view()
        + spec_sent_msg(e) + " ###".view()
}

/// The task a nested sentence is compiled under: the parent's inherited and
/// local symbols together become inherited, and nothing is local yet.
pub open spec fn spec_slave_task(t: TaskV) -> TaskV {
    TaskV {
        inherited_variables: t.inherited_variables + t.local_variables,
        local_variables: Seq::empty(),
        inherited_functions: t.inherited_functions + t.local_functions,
        local_functions: Seq::empty(),
        scope: t.scope,
    }
}

/// What compiling the lines of a block does: comments pass through,
/// formulas evaluate (a failure leaves a skip comment), nested sentences
/// compile under a slave task and leave their call sites.
pub open spec fn spec_compile_lines(t: TaskV, lines: Seq<LineV>, ns: Seq<char>) -> (
    TaskV,
    Seq<Seq<char>>,
)
    decreases lines, 0int,
{
    if lines.len() == 0 {
        (t, seq![])
    } else {
        let step: (TaskV, Seq<char>) = match lines[0] {
            LineV::Comment(c) => (t, c),
            LineV::Formula(f) => {
                let p = crate::compile_task::evaluater::spec_evaluate(t, f);
                (
                    p.0,
                    match p.1 {
                        Ok(cmds) => crate::text::spec_join(cmds, seq!['\n']),
                        Err(e) => spec_eval_skip_comment(e),
                    },
                )
            },
            LineV::Sentence(sub) => {
                let rr = spec_compile_sentence(spec_slave_task(t), sub, ns);
                match rr.1 {
                    Ok(m) => (
                        TaskV {
                            local_functions: spec_insert_fn(t.local_functions, m),
                            ..t
                        },
                        m.callment,
                    ),
                    Err(e) => (t, spec_sentence_skip_comment(e)),
                }
            },
        };
        let rest = spec_compile_lines(step.0, lines.skip(1), ns);
        (rest.0, seq![step.1] + rest.1)
    }
}

/// What compiling a sentence yields: the compiled lines, release commands
/// for the block's local variables, the call site — wrapped in a guard
/// evaluation for an `if` sentence — and the resulting function with the
/// nested functions as children.
pub open spec fn spec_compile_sentence(t: TaskV, s: SentV, ns: Seq<char>) -> (
    TaskV,
    Result<McfV, SentErrV>,
)
    decreases s, 1int,
{
    let lp = spec_compile_lines(t, s.parsed_lines, ns);
    let t1 = lp.0;
    let pure = "function ".view() + ns + ":".view() + crate::text::spec_join(t1.scope, "/".view())
        + "/".view() + s.name;
    let call_r: Result<Seq<char>, SentErrV> = if s.specifiers.len() > 0 && s.specifiers[0]
        == "if".view() {
        match crate::compile_task::evaluater::spec_add_execution_condition(
            t1,
            s.name,
            pure,
            crate::text::spec_join(s.specifiers.skip(1), " ".view()),
        ) {
            Ok(c) => Ok(c),
            Err(e) => Err(SentErrV::InvalidFormula(e)),
        }
    } else {
        Ok(pure)
    };
    match call_r {
        Err(e) => (t1, Err(e)),
        Ok(callment) => {
            let body = if t1.local_variables.len() > 0 {
                lp.1 + seq!["\n# Free all of local variables".view()]
                    + t1.local_variables.map_values(
                    |v: ScorebV| crate::compile_task::scoreboard::spec_free(v),
                )
            } else {
                lp.1
            };
            (
                t1,
                Ok(
                    McfV {
                        name: s.name,
                        inside: crate::text::spec_join(body, seq!['\n']),
                        callment,
                        namespace: ns,
                        child_func: t1.local_functions,
                        scope: t1.scope,
                        ret_container: ScorebV {
                            name: "TEMP.RETURN_VALUE.".view() + s.name,
                            data_type: crate::compile_task::scoreboard::Types::Non,
                            scope: Seq::empty(),
                        },
                    },
                ),
            )
        },
    }
}

proof fn lemma_find_var_concat(a: Seq<ScorebV>, b: Seq<ScorebV>, name: Seq<char>)
    ensures
        spec_find_var(a + b, name) == (match spec_find_var(a, name) {
            Some(s) => Some(s),
            None => spec_find_var(b, name),
        }),
    decreases a.len(),
{
    if a.len() == 0 {
        assert(a + b =~= b);
    } else {
        lemma_find_var_concat(a.skip(1), b, name);
        assert((a + b)[0] == a[0]);
        assert((a + b).skip(1) =~= a.skip(1) + b);
    }
}

/// Scope visibility: every symbol the enclosing block resolves, a nested
/// block resolves to the same entry — and a nested block's compilation
/// leaves the enclosing block's variable tables untouched, so a variable
/// defined only inside it is gone once the block closes.
pub proof fn lemma_scope_visibility(t: TaskV, name: Seq<char>, m: McfV)
    ensures
        spec_get_variable(spec_slave_task(t), name) == spec_get_variable(t, name),
        spec_get_variable(
            TaskV { local_functions: spec_insert_fn(t.local_functions, m), ..t },
            name,
        ) == spec_get_variable(t, name),
{
    lemma_find_var_concat(t.inherited_variables, t.local_variables, name);
    assert(spec_find_var(Seq::<ScorebV>::empty(), name) is None);
}

/// Holds of a command that stays on one line.
pub open spec fn newline_free(s: Seq<char>) -> bool {
    forall|j: int| 0 <= j < s.len() ==> s[j] != '\n'
}

proof fn lemma_split_join_append(base: Seq<Seq<char>>, fs: Seq<Seq<char>>, sep: char)
    requires
        base.len() >= 1,
        forall|i: int|
            0 <= i < fs.len() ==> (forall|j: int|
                0 <= j < (#[trigger] fs[i]).len() ==> fs[i][j] != sep),
    ensures
        spec_split(crate::text::spec_join(base + fs, seq![sep]), sep) == spec_split(
            crate::text::spec_join(base, seq![sep]),
            sep,
        ) + fs,
    decreases fs.len(),
{
    if fs.len() == 0 {
        assert(base + fs =~= base);
        assert(spec_split(crate::text::spec_join(base, seq![sep]), sep) + fs =~= spec_split(
            crate::text::spec_join(base, seq![sep]),
            sep,
        ));
    } else {
        let fs2 = fs.drop_last();
        let z = fs.last();
        assert(forall|i: int|
            0 <= i < fs2.len() ==> (forall|j: int|
                0 <= j < (#[trigger] fs2[i]).len() ==> fs2[i][j] != sep));
        lemma_split_join_append(base, fs2, sep);
        assert(base + fs =~= (base + fs2).push(z));
        crate::text::lemma_join_snoc(base + fs2, z, seq![sep]);
        assert(crate::text::spec_join(base + fs2, seq![sep]) + seq![sep] + z
            == crate::text::spec_join((base + fs2).push(z), seq![sep]));
        crate::text::lemma_split_concat(crate::text::spec_join(base + fs2, seq![sep]), z, sep);
        crate::text::lemma_split_whole(z, sep);
        assert((spec_split(crate::text::spec_join(base, seq![sep]), sep) + fs2) + seq![z]
            =~= spec_split(crate::text::spec_join(base, seq![sep]), sep) + fs);
    }
}

/// Local release completeness: when a block defines local variables, its
/// compiled body ends with exactly one `reset` command per local variable,
/// in table order, provided each release command stays on one line.
pub proof fn lemma_local_release_completeness(t: TaskV, s: SentV, ns: Seq<char>)
    requires
        spec_compile_sentence(t, s, ns).1 is Ok,
        spec_compile_lines(t, s.parsed_lines, ns).0.local_variables.len() > 0,
        forall|i: int|
            0 <= i < spec_compile_lines(t, s.parsed_lines, ns).0.local_variables.len()
                ==> newline_free(
                crate::compile_task::scoreboard::spec_free(
                    #[trigger] spec_compile_lines(t, s.parsed_lines, ns).0.local_variables[i],
                ),
            ),
    ensures
        ({
            let locals = spec_compile_lines(t, s.parsed_lines, ns).0.local_variables;
            let m = spec_compile_sentence(t, s, ns).1->Ok_0;
            let parts = spec_split(m.inside, '\n');
            parts.len() > locals.len() && parts.skip(parts.len() - locals.len())
                == locals.map_values(
                |v: ScorebV| crate::compile_task::scoreboard::spec_free(v),
            )
        }),
{
    let lp = spec_compile_lines(t, s.parsed_lines, ns);
    let t1 = lp.0;
    let locals = t1.local_variables;
    let frees = locals.map_values(|v: ScorebV| crate::compile_task::scoreboard::spec_free(v));
    let base = lp.1 + seq!["\n# Free all of local variables".view()];
    let m = spec_compile_sentence(t, s, ns).1->Ok_0;
    assert(m.inside == crate::text::spec_join(base + frees, seq!['\n']));
    assert(base.len() >= 1);
    assert(forall|i: int|
        0 <= i < frees.len() ==> (forall|j: int|
            0 <= j < (#[trigger] frees[i]).len() ==> frees[i][j] != '\n'));
    lemma_split_join_append(base, frees, '\n');
    let parts = spec_split(m.inside, '\n');
    let head = spec_split(crate::text::spec_join(base, seq!['\n']), '\n');
    crate::text::lemma_split_len(crate::text::spec_join(base, seq!['\n']), '\n');
    assert(parts == head + frees);
    assert(parts.skip(parts.len() - locals.len()) =~= frees);
}

/// Compilation of a parsed sentence fails only through the evaluation of
/// an `if` guard.
proof fn lemma_compile_err_guard(t: TaskV, s: SentV, ns: Seq<char>)
    ensures
        spec_compile_sentence(t, s, ns).1 is Err ==> spec_compile_sentence(t, s, ns).1->Err_0
            is InvalidFormula,
{
}

/// A table holding copies of both tables, first one first.
fn concat_sb(a: &Vec<Scoreboard>, b: &Vec<Scoreboard>) -> (r: Vec<Scoreboard>)
    ensures
        sbs_view(r@) == sbs_view(a@) + sbs_view(b@),
{
    let mut r: Vec<Scoreboard> = Vec::new();
    let mut i: usize = 0;
    while i < a.len()
        invariant
            i <= a@.len(),
            sbs_view(r@) =~= sbs_view(a@).take(i as int),
        decreases a@.len() - i,
    {
        let ghost before = sbs_view(r@);
        r.push(a[i].duplicate());
        proof {
            assert(sbs_view(r@) =~= before.push(a@[i as int]@));
            assert(sbs_view(a@).take(i + 1) =~= sbs_view(a@).take(i as int).push(a@[i as int]@));
        }
        i = i + 1;
    }
    let mut j: usize = 0;
    while j < b.len()
        invariant
            j <= b@.len(),
            sbs_view(r@) =~= sbs_view(a@) + sbs_view(b@).take(j as int),
        decreases b@.len() - j,
    {
        let ghost before = sbs_view(r@);
        r.push(b[j].duplicate());
        proof {
            assert(sbs_view(r@) =~= before.push(b@[j as int]@));
            assert(sbs_view(b@).take(j + 1) =~= sbs_view(b@).take(j as int).push(b@[j as int]@));
        }
        j = j + 1;
    }
    proof {
        assert(sbs_view(r@) =~= sbs_view(a@) + sbs_view(b@));
    }
    r
}

/// A table holding copies of both tables, first one first.
fn concat_mcf(a: &Vec<MCFunction>, b: &Vec<MCFunction>) -> (r: Vec<MCFunction>)
    ensures
        mcfs_view(r@) == mcfs_view(a@) + mcfs_view(b@),
{
    let mut r: Vec<MCFunction> = Vec::new();
    let mut i: usize = 0;
    while i < a.len()
        invariant
            i <= a@.len(),
            mcfs_view(r@) =~= mcfs_view(a@).take(i as int),
        decreases a@.len() - i,
    {
        let ghost before = mcfs_view(r@);
        r.push(a[i].duplicate());
        proof {
            assert(mcfs_view(r@) =~= before.push(mcf_view(a@[i as int])));
            assert(mcfs_view(a@).take(i + 1) =~= mcfs_view(a@).take(i as int).push(
                mcf_view(a@[i as int]),
            ));
        }
        i = i + 1;
    }
    let mut j: usize = 0;
    while j < b.len()
        invariant
            j <= b@.len(),
            mcfs_view(r@) =~= mcfs_view(a@) + mcfs_view(b@).take(j as int),
        decreases b@.len() - j,
    {
        let ghost before = mcfs_view(r@);
        r.push(b[j].duplicate());
        proof {
            assert(mcfs_view(r@) =~= before.push(mcf_view(b@[j as int])));
            assert(mcfs_view(b@).take(j + 1) =~= mcfs_view(b@).take(j as int).push(
                mcf_view(b@[j as int]),
            ));
        }
        j = j + 1;
    }
    proof {
        assert(mcfs_view(r@) =~= mcfs_view(a@) + mcfs_view(b@));
    }
    r
}

/// Copies of a table of functions.
fn dup_mcf_vec(v: &Vec<MCFunction>) -> (r: Vec<MCFunction>)
    ensures
        mcfs_view(r@) == mcfs_view(v@),
{
    let mut r: Vec<MCFunction> = Vec::new();
    let mut i: usize = 0;
    while i < v.len()
        invariant
            i <= v@.len(),
            mcfs_view(r@) =~= mcfs_view(v@).take(i as int),
        decreases v@.len() - i,
    {
        let ghost before = mcfs_view(r@);
        r.push(v[i].duplicate());
        proof {
            assert(mcfs_view(r@) =~= before.push(mcf_view(v@[i as int])));
            assert(mcfs_view(v@).take(i + 1) =~= mcfs_view(v@).take(i as int).push(
                mcf_view(v@[i as int]),
            ));
        }
        i = i + 1;
    }
    proof {
        assert(mcfs_view(r@) =~= mcfs_view(v@));
    }
    r
}

impl Sentence {
    /// Compiles this nested sentence under a slave task and hands back its
    /// call site; a failure leaves a skip comment instead and changes
    /// nothing.
    fn compile_then_call(&self, compiler: &mut CompileTask, namespace: &str) -> (r: Result<
        String,
        SentenceError,
    >)
        ensures
            ({
                let rr = spec_compile_sentence(
                    spec_slave_task(old(compiler)@),
                    self@,
                    namespace@,
                );
                match rr.1 {
                    Ok(m) => final(compiler)@ == (TaskV {
                        local_functions: spec_insert_fn(old(compiler)@.local_functions, m),
                        ..old(compiler)@
                    }) && (match r {
                        Ok(c) => c@ == m.callment,
                        Err(_) => false,
                    }),
                    Err(e) => final(compiler)@ == old(compiler)@ && (match r {
                        Ok(c) => c@ == spec_sentence_skip_comment(e),
                        Err(_) => false,
                    }),
                }
            }),
        decreases *self, 1int,
    {
        let mut slave = CompileTask {
            inherited_variables: concat_sb(
                &compiler.inherited_variables,
                &compiler.local_variables,
            ),
            local_variables: Vec::new(),
            inherited_functions: concat_mcf(
                &compiler.inherited_functions,
                &compiler.local_functions,
            ),
            local_functions: Vec::new(),
            scope: dup_string_vec(&compiler.scope),
        };
        proof {
            assert(slave@ =~= spec_slave_task(compiler@));
        }
        match slave.compile_sentence(self, namespace) {
            Ok(o) => {
                let call = o.callment.clone();
                insert_fn(&mut compiler.local_functions, o);
                proof {
                    assert(final(compiler)@ =~= (TaskV {
                        local_functions: spec_insert_fn(
                            old(compiler)@.local_functions,
                            spec_compile_sentence(
                                spec_slave_task(old(compiler)@),
                                self@,
                                namespace@,
                            ).1->Ok_0,
                        ),
                        ..old(compiler)@
                    }));
                }
                Ok(call)
            },
            Err(e) => {
                let mut c = String::from_str(
                    "### Because of failture of compiling a sentence, a callment of the sentence was skipped. ###\n### The Error : ",
                );
                let m = e.message();
                c.append(m.as_str());
                c.append(" ###");
                proof {
                    assert(c@ =~= spec_sentence_skip_comment(e@));
                }
                Ok(c)
            },
        }
    }
}

impl CompileTask {
    /// Evaluates one formula line; a failure leaves a skip comment.
    fn eval_line(&mut self, formula: &str) -> (r: String)
        ensures
            final(self)@ == crate::compile_task::evaluater::spec_evaluate(
                old(self)@,
                formula@,
            ).0,
            r@ == (match crate::compile_task::evaluater::spec_evaluate(
                old(self)@,
                formula@,
            ).1 {
                Ok(cmds) => crate::text::spec_join(cmds, seq!['\n']),
                Err(e) => spec_eval_skip_comment(e),
            }),
    {
        match crate::compile_task::evaluater::evaluate(self, formula) {
            Ok(compiled) => {
                let r = crate::text::join_strings(&compiled, "\n");
                proof {
                    reveal_strlit("\n");
                    assert("\n".view() =~= seq!['\n']);
                }
                r
            },
            Err(e) => {
                let mut c = String::from_str(
                    "### Because of evaluation error(s), evaluation of this line was skipped. ###\n### The Error -> ",
                );
                let m = e.message();
                c.append(m.as_str());
                c.append(" ###");
                proof {
                    assert(c@ =~= spec_eval_skip_comment(e@));
                }
                c
            },
        }
    }

    /// Compiles a parsed sentence in this context: each line in order, then
    /// the releases of the block's locals, the call site, and the compiled
    /// function with the nested functions as children.
    #[verifier::rlimit(100)]
    #[verifier::spinoff_prover]
    fn compile_sentence(&mut self, sentence: &Sentence, namespace: &str) -> (r: Result<
        MCFunction,
        SentenceError,
    >)
        ensures
            final(self)@ == spec_compile_sentence(old(self)@, sentence@, namespace@).0,
            (match r {
                Ok(m) => spec_compile_sentence(old(self)@, sentence@, namespace@).1 == Ok::<
                    McfV,
                    SentErrV,
                >(m@),
                Err(e) => spec_compile_sentence(old(self)@, sentence@, namespace@).1 == Err::<
                    McfV,
                    SentErrV,
                >(e@),
            }),
        decreases *sentence, 0int,
    {
        let ghost t0 = self@;
        let ghost linesv = sentence@.parsed_lines;
        let ghost nsv = namespace@;
        let mut res: Vec<String> = Vec::new();
        let mut i: usize = 0;
        proof {
            assert(linesv.skip(0) =~= linesv);
            assert(strs_view(res@) =~= Seq::<Seq<char>>::empty());
            assert(Seq::<Seq<char>>::empty() + spec_compile_lines(self@, linesv, nsv).1
                =~= spec_compile_lines(self@, linesv, nsv).1);
        }
        while i < sentence.parsed_lines.len()
            invariant
                i <= sentence.parsed_lines@.len(),
                linesv == sentence@.parsed_lines,
                linesv.len() == sentence.parsed_lines@.len(),
                nsv == namespace@,
                res@.len() == i,
                spec_compile_lines(t0, linesv, nsv).0 == spec_compile_lines(
                    self@,
                    linesv.skip(i as int),
                    nsv,
                ).0,
                spec_compile_lines(t0, linesv, nsv).1 == strs_view(res@) + spec_compile_lines(
                    self@,
                    linesv.skip(i as int),
                    nsv,
                ).1,
            decreases sentence.parsed_lines@.len() - i,
        {
            let ghost done = strs_view(res@);
            let ghost tcur = self@;
            proof {
                assert(linesv.skip(i as int)[0] == linesv[i as int]);
                assert(linesv.skip(i as int).skip(1) =~= linesv.skip(i + 1));
                assert(linesv[i as int] == line_view(sentence.parsed_lines@[i as int]));
            }
            let compiled: String = match &sentence.parsed_lines[i] {
                Line::Formula(f) => self.eval_line(f.as_str()),
                Line::Sentence(s) => {
                    match s.compile_then_call(self, namespace) {
                        Ok(c) => c,
                        Err(_) => {
                            proof {
                                assert(false);
                            }
                            return Err(SentenceError::UnnamedFunction);
                        },
                    }
                },
                Line::Comment(c) => c.clone(),
            };
            res.push(compiled);
            proof {
                assert(strs_view(res@) =~= done.push(res@.last()@));
                let step = spec_compile_lines(tcur, linesv.skip(i as int), nsv);
                assert(done + (seq![res@.last()@] + spec_compile_lines(
                    self@,
                    linesv.skip(i + 1),
                    nsv,
                ).1) =~= (done + seq![res@.last()@]) + spec_compile_lines(
                    self@,
                    linesv.skip(i + 1),
                    nsv,
                ).1);
            }
            i = i + 1;
        }
        proof {
            assert(linesv.skip(linesv.len() as int) =~= Seq::<LineV>::empty());
        }
        let ghost t1 = self@;
        let mut pure_callment = String::from_str("function ");
        pure_callment.append(namespace);
        pure_callment.append(":");
        let joined = crate::text::join_strings(&self.scope, "/");
        pure_callment.append(joined.as_str());
        pure_callment.append("/");
        pure_callment.append(sentence.name.as_str());
        proof {
            assert(pure_callment@ =~= ("function ".view() + nsv + ":".view()
                + crate::text::spec_join(t1.scope, "/".view()) + "/".view() + sentence@.name));
        }
        let is_if = sentence.specifiers.len() > 0 && str_eq(
            sentence.specifiers[0].as_str(),
            "if",
        );
        let callment: String = if is_if {
            let guard_parts = crate::text::tail_strings(&sentence.specifiers);
            let guard = crate::text::join_strings(&guard_parts, " ");
            proof {
                assert(strs_view(guard_parts@) =~= sentence@.specifiers.skip(1));
            }
            match crate::compile_task::evaluater::add_execution_condition(
                self,
                sentence.name.as_str(),
                pure_callment.as_str(),
                guard.as_str(),
            ) {
                Ok(c) => c,
                Err(e) => {
                    return Err(SentenceError::InvalidFormula(e));
                },
            }
        } else {
            pure_callment
        };
        let ghost body0 = strs_view(res@);
        if self.local_variables.len() > 0 {
            res.push(String::from_str("\n# Free all of local variables"));
            let mut vi: usize = 0;
            while vi < self.local_variables.len()
                invariant
                    vi <= self.local_variables@.len(),
                    self@ == t1,
                    t1.local_variables.len() == self.local_variables@.len(),
                    strs_view(res@) =~= body0 + seq!["\n# Free all of local variables".view()]
                        + t1.local_variables.map_values(
                        |v: ScorebV| crate::compile_task::scoreboard::spec_free(v),
                    ).take(vi as int),
                decreases self.local_variables@.len() - vi,
            {
                let ghost before = strs_view(res@);
                let cmd = self.local_variables[vi].free();
                res.push(cmd);
                proof {
                    assert(strs_view(res@) =~= before.push(res@.last()@));
                    assert(t1.local_variables.map_values(
                        |v: ScorebV| crate::compile_task::scoreboard::spec_free(v),
                    ).take(vi + 1) =~= t1.local_variables.map_values(
                        |v: ScorebV| crate::compile_task::scoreboard::spec_free(v),
                    ).take(vi as int).push(
                        crate::compile_task::scoreboard::spec_free(
                            t1.local_variables[vi as int],
                        ),
                    ));
                    assert(strs_view(res@) =~= body0 + seq![
                        "\n# Free all of local variables".view()
                    ] + t1.local_variables.map_values(
                        |v: ScorebV| crate::compile_task::scoreboard::spec_free(v),
                    ).take(vi + 1));
                }
                vi = vi + 1;
            }
            proof {
                let m = t1.local_variables.map_values(
                    |v: ScorebV| crate::compile_task::scoreboard::spec_free(v),
                );
                assert(m.take(m.len() as int) =~= m);
            }
        }
        let inside = crate::text::join_strings(&res, "\n");
        let mut ret_name = String::from_str("TEMP.RETURN_VALUE.");
        ret_name.append(sentence.name.as_str());
        let result = MCFunction {
            name: String::from_str(sentence.name.as_str()),
            inside,
            namespace: String::from_str(namespace),
            callment,
            child_func: dup_mcf_vec(&self.local_functions),
            scope: dup_string_vec(&self.scope),
            ret_container: Scoreboard {
                name: ret_name,
                data_type: crate::compile_task::scoreboard::Types::Non,
                scope: Vec::new(),
            },
        };
        proof {
            reveal_strlit("\n");
            assert("\n".view() =~= seq!['\n']);
            assert(result@.ret_container.scope =~= Seq::<Seq<char>>::empty());
            assert(result@.child_func =~= t1.local_functions);
            assert(result@.scope =~= t1.scope);
            assert(result@ =~= spec_compile_sentence(t0, sentence@, nsv).1->Ok_0);
        }
        Ok(result)
    }

    /// Parses and compiles a whole source text as one sentence.  A parse
    /// failure is reported exactly and leaves the task unchanged; a parsed
    /// text is owed a compiled function unless an `if` guard fails to
    /// evaluate, the one failure compilation itself can meet.
    pub fn compile(&mut self, raw: &str, namespace: &str) -> (r: Result<
        MCFunction,
        SentenceError,
    >)
        ensures
            (match r {
                Ok(m) => spec_parse_err(raw@) is None && (exists|sv: SentV|
                    spec_sentence_matches(raw@, sv) && #[trigger] spec_compile_sentence(
                        old(self)@,
                        sv,
                        namespace@,
                    ) == (final(self)@, Ok::<McfV, SentErrV>(m@))),
                Err(e) => (spec_parse_err(raw@) == Some(e@) && final(self)@ == old(self)@) || (
                spec_parse_err(raw@) is None && e@ is InvalidFormula && (exists|sv: SentV|
                    spec_sentence_matches(raw@, sv) && #[trigger] spec_compile_sentence(
                        old(self)@,
                        sv,
                        namespace@,
                    ) == (final(self)@, Err::<McfV, SentErrV>(e@)))),
            }),
    {
        match Sentence::onto_sentence(raw) {
            Err(e) => Err(e),
            Ok(s) => {
                let r = self.compile_sentence(&s, namespace);
                proof {
                    let sv = s@;
                    assert(spec_sentence_matches(raw@, sv));
                    if r is Err {
                        lemma_compile_err_guard(old(self)@, sv, namespace@);
                    }
                }
                r
            },
        }
    }

    /// The function `name` resolves to, inherited symbols first.
    pub fn get_function(&self, name: &String) -> (r: Option<&MCFunction>)
        ensures
            match r {
                Some(f) => spec_get_function(self@, name@) == Some(f@),
                None => spec_get_function(self@, name@) is None,
            },
    {
        match find_fn(&self.inherited_functions, name) {
            Some(f) => Some(f),
            None => find_fn(&self.local_functions, name),
        }
    }

    /// The variable `name` resolves to, inherited symbols first.
    pub fn get_variable(&self, name: &String) -> (r: Option<&Scoreboard>)
        ensures
            match r {
                Some(s) => spec_get_variable(self@, name@) == Some(s@),
                None => spec_get_variable(self@, name@) is None,
            },
    {
        match find_var(&self.inherited_variables, name) {
            Some(s) => Some(s),
            None => find_var(&self.local_variables, name),
        }
    }

    /// An empty root-scope task.
    pub fn new() -> (r: CompileTask)
        ensures
            r@.inherited_variables =~= Seq::<ScorebV>::empty(),
            r@.local_variables =~= Seq::<ScorebV>::empty(),
            r@.inherited_functions =~= Seq::<McfV>::empty(),
            r@.local_functions =~= Seq::<McfV>::empty(),
            r@.scope =~= Seq::<Seq<char>>::empty(),
    {
        CompileTask {
            scope: Vec::new(),
            inherited_variables: Vec::new(),
            local_variables: Vec::new(),
            inherited_functions: Vec::new(),
            local_functions: Vec::new(),
        }
    }
}

} // verus!
