use mcpp_core::compile_task::{CompileTask, Line, Sentence, SentenceError};

#[test]
fn test() {
    let mut compiler = CompileTask::new();
    println!(
        "\n{}",
        (compiler.compile("if (1 - 1) * 0 {a = (0.1 + 2) * 5}", "test").unwrap().inside)
    );
}

#[test]
fn whole_block_body() {
    let mut compiler = CompileTask::new();
    let mcf = compiler.compile("{ a = 10 * 5 + 7 }", "pack").unwrap();
    let expected = "# a = 10 * 5 + 7\n\
scoreboard players set #Calc.TEMP MCPP.var 10\n\
scoreboard players set #CONSTANT.5 MCPP.var 5\n\
scoreboard players operation #Calc.TEMP MCPP.var *= #CONSTANT.5 MCPP.var\n\
scoreboard players add #Calc.TEMP MCPP.var 7\n\
scoreboard players operation #a MCPP.var = #Calc.TEMP MCPP.var\n\
\n\
# Free all of local variables\n\
scoreboard players reset #a MCPP.var";
    assert_eq!(mcf.inside, expected);
    assert_eq!(mcf.namespace, "pack");
    assert_eq!(mcf.child_func.len(), 0);
}

#[test]
fn if_sentence_guard() {
    let mut compiler = CompileTask::new();
    let mcf = compiler.compile("{ if (1 - 1) * 0 {a = 1} }", "test").unwrap();
    assert_eq!(mcf.child_func.len(), 1);
    let child = &mcf.child_func[0];
    assert!(child.callment.contains("#TEMP.EVAL_CONDITION."));
    assert!(child.callment.contains(" matches 0 run function test:/"));
    assert!(child.callment.contains("execute unless score #TEMP.EVAL_CONDITION."));
    assert!(child.callment.contains("scoreboard players reset #TEMP.EVAL_CONDITION."));
    assert!(mcf.inside.contains("execute unless score #TEMP.EVAL_CONDITION."));
}

#[test]
fn undefined_function_line_is_skipped() {
    let mut compiler = CompileTask::new();
    let mcf = compiler.compile("{ undefined_function() + 1 }", "test").unwrap();
    assert!(mcf.inside.contains(
        "### Because of evaluation error(s), evaluation of this line was skipped. ###"
    ));
    assert!(mcf.inside.contains("An undefined function, undefined_function(...) called."));
}

#[test]
fn missing_end_specifier() {
    let mut compiler = CompileTask::new();
    let r = compiler.compile("{ a = 1", "test");
    assert!(matches!(r, Err(SentenceError::SentenceDoesntEndWithEndSpecifier)));
}

#[test]
fn missing_start_identifier() {
    let r = Sentence::onto_sentence("a = 1");
    assert!(matches!(r, Err(SentenceError::SentenceHasNoStartIdentifier)));
}

#[test]
fn unnamed_function_is_refused() {
    let r = Sentence::onto_sentence("fn { a = 1 }");
    assert!(matches!(r, Err(SentenceError::UnnamedFunction)));
}

#[test]
fn fn_sentence_keeps_its_name() {
    let s = Sentence::onto_sentence("fn main { a = 1 }").unwrap();
    assert_eq!(s.name, "main");
    assert_eq!(s.specifiers, vec!["fn".to_string(), "main".to_string()]);
    assert_eq!(s.parsed_lines.len(), 1);
}

#[test]
fn anonymous_sentence_names_are_generated() {
    let s = Sentence::onto_sentence("{ a = 1 }").unwrap();
    assert_eq!(s.name.len(), 30);
    assert!(s.name.chars().all(|c| c.is_ascii_alphanumeric()));
    let t = Sentence::onto_sentence("while x { a = 1 }").unwrap();
    assert_eq!(t.name.len(), 32);
    assert!(t.name.chars().all(|c| c.is_ascii_alphanumeric()));
}

#[test]
fn outer_variable_visible_in_nested_block() {
    let mut compiler = CompileTask::new();
    let mcf = compiler.compile("{ a = 1; { b = a } }", "test").unwrap();
    assert_eq!(mcf.child_func.len(), 1);
    let child = &mcf.child_func[0];
    assert!(child.inside.contains("scoreboard players operation #Calc.TEMP MCPP.var = #a MCPP.var"));
    assert!(child.inside.contains("scoreboard players operation #b MCPP.var = #Calc.TEMP MCPP.var"));
    assert!(!child.inside.contains("skipped"));
}

#[test]
fn nested_variable_invisible_after_block() {
    let mut compiler = CompileTask::new();
    let mcf = compiler.compile("{ { b = 2 }; c = b }", "test").unwrap();
    assert!(mcf.inside.contains("An undefined variable, b referenced."));
}

#[test]
fn local_variables_are_released() {
    let mut compiler = CompileTask::new();
    let mcf = compiler.compile("{ a = 1; b = 2 }", "test").unwrap();
    let lines: Vec<&str> = mcf.inside.split('\n').collect();
    let resets: Vec<&str> = lines
        .iter()
        .copied()
        .filter(|l| l.starts_with("scoreboard players reset "))
        .collect();
    assert_eq!(resets.len(), 2);
    assert_eq!(lines[lines.len() - 2], "scoreboard players reset #a MCPP.var");
    assert_eq!(lines[lines.len() - 1], "scoreboard players reset #b MCPP.var");
}

fn reconstruct(s: &mcpp_core::compile_task::Sentence) -> String {
    let lines: Vec<String> = s
        .parsed_lines
        .iter()
        .map(|l| match l {
            Line::Comment(c) => c.clone(),
            Line::Formula(f) => f.clone(),
            Line::Sentence(sub) => reconstruct(sub),
        })
        .collect();
    format!("{}{{{}}}", s.specifiers.join(" "), lines.join(";"))
}

fn assert_same_up_to_names(a: &mcpp_core::compile_task::Sentence, b: &mcpp_core::compile_task::Sentence) {
    assert_eq!(a.specifiers, b.specifiers);
    if !a.specifiers.is_empty() && a.specifiers[0] == "fn" {
        assert_eq!(a.name, b.name);
    } else {
        assert_eq!(a.name.len(), b.name.len());
    }
    assert_eq!(a.parsed_lines.len(), b.parsed_lines.len());
    for (la, lb) in a.parsed_lines.iter().zip(b.parsed_lines.iter()) {
        match (la, lb) {
            (Line::Comment(x), Line::Comment(y)) => assert_eq!(x, y),
            (Line::Formula(x), Line::Formula(y)) => assert_eq!(x, y),
            (Line::Sentence(x), Line::Sentence(y)) => assert_same_up_to_names(x, y),
            _ => panic!("line kinds differ"),
        }
    }
}

#[test]
fn parse_round_trip() {
    let first = Sentence::onto_sentence("fn main { a = 1; # note; if x {y} }").unwrap();
    let again = Sentence::onto_sentence(&reconstruct(&first)).unwrap();
    assert_same_up_to_names(&first, &again);
    let anon = Sentence::onto_sentence("{ d:float = 0.5; {c = 2} }").unwrap();
    let anon_again = Sentence::onto_sentence(&reconstruct(&anon)).unwrap();
    assert_same_up_to_names(&anon, &anon_again);
}

#[test]
fn comment_lines_pass_through() {
    let mut compiler = CompileTask::new();
    let mcf = compiler.compile("{ # hello }", "test").unwrap();
    assert_eq!(mcf.inside, "# hello");
}
