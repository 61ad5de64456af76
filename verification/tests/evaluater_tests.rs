use mcpp_core::compile_task::evaluater::{
    evaluate, to_operator, EvaluateError, FormulaToken, Operator,
};
use mcpp_core::compile_task::scoreboard::Types;
use mcpp_core::compile_task::CompileTask;

#[test]
fn float_calc_test() {
    let mut task = CompileTask::new();
    println!("{}", evaluate(&mut task, "d:float = (0.03 * 0.2) + 0.05").unwrap().join("\n"));
}

#[test]
fn float_fixed_point_commands() {
    let mut task = CompileTask::new();
    let lines = evaluate(&mut task, "d:float = (0.03 * 0.2) + 0.05").unwrap();
    let expected = vec![
        "# d = (0.03 * 0.2) + 0.05".to_string(),
        "scoreboard players set #Calc.TEMP MCPP.var 30".to_string(),
        "scoreboard players set #CONSTANT.200 MCPP.var 200\n\
scoreboard players operation #Calc.TEMP MCPP.var *= #CONSTANT.200 MCPP.var\n\
scoreboard players set #CONSTANT.1000000 MCPP.var 1000000\n\
scoreboard players operation #Calc.TEMP MCPP.var /= #CONSTANT.1000000 MCPP.var"
            .to_string(),
        "scoreboard players add #Calc.TEMP MCPP.var 50".to_string(),
        "scoreboard players operation #d MCPP.var = #Calc.TEMP MCPP.var".to_string(),
    ];
    assert_eq!(lines, expected);
}

#[test]
fn precedence_with_defined_variable() {
    let mut task = CompileTask::new();
    evaluate(&mut task, "b = 12").unwrap();
    let lines = evaluate(&mut task, "1 + b * 3 / 4").unwrap();
    let expected = vec![
        "scoreboard players set #CONSTANT.3 MCPP.var 3\n\
scoreboard players operation #b MCPP.var *= #CONSTANT.3 MCPP.var"
            .to_string(),
        "scoreboard players set #CONSTANT.4 MCPP.var 4\n\
scoreboard players operation #b MCPP.var /= #CONSTANT.4 MCPP.var"
            .to_string(),
        "scoreboard players set #Calc.TEMP MCPP.var 1".to_string(),
        "scoreboard players operation #Calc.TEMP MCPP.var += #b MCPP.var".to_string(),
    ];
    assert_eq!(lines, expected);
}

#[test]
fn undefined_function_error() {
    let mut task = CompileTask::new();
    let e = evaluate(&mut task, "undefined_function() + 1").unwrap_err();
    match e {
        EvaluateError::UndefinedFunctionCalled(n) => assert_eq!(n, "undefined_function"),
        _ => panic!("wrong error"),
    }
}

#[test]
fn undefined_variable_error() {
    let mut task = CompileTask::new();
    let e = evaluate(&mut task, "x + 1").unwrap_err();
    match e {
        EvaluateError::UndefinedVariableReferenced(n) => assert_eq!(n, "x"),
        _ => panic!("wrong error"),
    }
}

#[test]
fn unbalanced_brackets_error() {
    let mut task = CompileTask::new();
    let e = evaluate(&mut task, "(1 + 2").unwrap_err();
    assert!(matches!(e, EvaluateError::UnbalancedBrackets));
}

#[test]
fn balanced_brackets_are_accepted() {
    let mut task = CompileTask::new();
    assert!(evaluate(&mut task, "(1 + 2) * 3").is_ok());
}

#[test]
fn unknown_type_annotation_error() {
    let mut task = CompileTask::new();
    let e = evaluate(&mut task, "x:string = 1").unwrap_err();
    match e {
        EvaluateError::UnknownTypeAnnotation(n) => assert_eq!(n, "string"),
        _ => panic!("wrong error"),
    }
}

#[test]
fn oversized_number_error() {
    let mut task = CompileTask::new();
    let e = evaluate(&mut task, "x = 99999999999999999999").unwrap_err();
    match e {
        EvaluateError::CouldntParseANumber(n) => assert_eq!(n, "99999999999999999999"),
        _ => panic!("wrong error"),
    }
}

#[test]
fn failed_assignment_defines_nothing() {
    let mut task = CompileTask::new();
    assert!(evaluate(&mut task, "x:int = (").is_err());
    let e = evaluate(&mut task, "x").unwrap_err();
    assert!(matches!(e, EvaluateError::UndefinedVariableReferenced(_)));
}

#[test]
fn empty_formula_is_invalid() {
    let mut task = CompileTask::new();
    let e = evaluate(&mut task, "").unwrap_err();
    assert!(matches!(e, EvaluateError::InvalidFormula));
}

#[test]
fn operator_lexemes() {
    assert!(matches!(to_operator("+"), Ok(Operator::Add)));
    assert!(matches!(to_operator("-"), Ok(Operator::Rem)));
    assert!(matches!(to_operator("*"), Ok(Operator::Mul)));
    assert!(matches!(to_operator("/"), Ok(Operator::Div)));
    assert!(matches!(to_operator("%"), Ok(Operator::Sur)));
    assert!(matches!(to_operator("^"), Ok(Operator::Pow)));
    assert!(matches!(to_operator("("), Ok(Operator::LPt)));
    assert!(matches!(to_operator(")"), Ok(Operator::RPt)));
    assert!(matches!(to_operator("?"), Err(EvaluateError::UnknownOperatorGiven(_))));
}

#[test]
fn operator_priorities() {
    assert_eq!(Operator::Add.get_priority(), 0);
    assert_eq!(Operator::Rem.get_priority(), 0);
    assert_eq!(Operator::Mul.get_priority(), 1);
    assert_eq!(Operator::Div.get_priority(), 1);
    assert_eq!(Operator::Sur.get_priority(), 1);
    assert_eq!(Operator::Pow.get_priority(), 2);
    assert_eq!(Operator::LPt.get_priority(), 3);
    assert_eq!(Operator::RPt.get_priority(), 3);
}

#[test]
fn float_literal_rounding() {
    let mut task = CompileTask::new();
    let lines = evaluate(&mut task, "x:float = 0.0005").unwrap();
    assert_eq!(lines[1], "scoreboard players set #Calc.TEMP MCPP.var 1");
    let mut task2 = CompileTask::new();
    let lines2 = evaluate(&mut task2, "y:float = 0.00049").unwrap();
    assert_eq!(lines2[1], "scoreboard players set #Calc.TEMP MCPP.var 0");
    let mut task3 = CompileTask::new();
    let lines3 = evaluate(&mut task3, "z:float = 1.2345").unwrap();
    assert_eq!(lines3[1], "scoreboard players set #Calc.TEMP MCPP.var 1235");
    let mut task4 = CompileTask::new();
    let lines4 = evaluate(&mut task4, "w:float = .5").unwrap();
    assert_eq!(lines4[1], "scoreboard players set #Calc.TEMP MCPP.var 500");
}

#[test]
fn token_types_drive_inference() {
    let mut task = CompileTask::new();
    let lines = evaluate(&mut task, "v = 2 + 0.5").unwrap();
    assert_eq!(lines[1], "scoreboard players set #Calc.TEMP MCPP.var 2");
    assert_eq!(lines[2], "scoreboard players add #Calc.TEMP MCPP.var 500");
    let mut task2 = CompileTask::new();
    let lines2 = evaluate(&mut task2, "v = 0.5 + 2").unwrap();
    assert_eq!(lines2[1], "scoreboard players set #Calc.TEMP MCPP.var 500");
    assert_eq!(lines2[2], "scoreboard players add #Calc.TEMP MCPP.var 2000");
}

#[test]
fn formula_token_get_type() {
    assert!(matches!(FormulaToken::Int(1).get_type(), Types::Int));
    assert!(matches!(FormulaToken::Float(500).get_type(), Types::Flt));
    assert!(matches!(FormulaToken::Operator(Operator::Add).get_type(), Types::Non));
}
