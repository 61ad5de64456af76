use mcpp_core::compile_task::evaluater::EvaluateError;
use mcpp_core::compile_task::scoreboard::{get_temp_score, Calcable, Scoreboard, Types};

fn board(name: &str, data_type: Types, scope: &[&str]) -> Scoreboard {
    Scoreboard {
        name: name.to_string(),
        data_type,
        scope: scope.iter().map(|s| s.to_string()).collect(),
    }
}

#[test]
fn compare_test() {
    let hoge = board("Hoge", Types::Flt, &["TEST"]);
    println!("{:?}", hoge.compare(">=", &Calcable::Int(810)).unwrap());
}

#[test]
fn float_compare_scales_the_literal() {
    let hoge = board("Hoge", Types::Flt, &["TEST"]);
    let (pre, pred) = hoge.compare(">=", &Calcable::Int(810)).unwrap();
    assert_eq!(pre, "");
    assert_eq!(pred, "if score #TEST.Hoge MCPP.var matches 810000..");
}

#[test]
fn not_equal_inverts_the_predicate() {
    let a = board("a", Types::Int, &[]);
    let (pre, pred) = a.compare("!=", &Calcable::Int(3)).unwrap();
    assert_eq!(pre, "");
    assert_eq!(pred, "unless score #a MCPP.var matches 3");
}

#[test]
fn mangled_names() {
    let s = board("baz", Types::Int, &["foo", "bar"]);
    assert_eq!(s.mcname(), "#foo.bar.baz");
    let root = board("a", Types::Int, &[]);
    assert_eq!(root.mcname(), "#a");
    assert_eq!(root.free(), "scoreboard players reset #a MCPP.var");
}

#[test]
fn equal_means_equal_mangled_names() {
    let a = board("b.c", Types::Int, &["a"]);
    let b = board("c", Types::Flt, &["a", "b"]);
    assert_eq!(a.mcname(), b.mcname());
    assert!(a == b);
    let c = board("d", Types::Int, &["a"]);
    assert!(a != c);
}

#[test]
fn pure_command_forms() {
    let s = board("Hoge", Types::Int, &["TEST"]);
    let t = board("Fuga", Types::Int, &["TEST"]);
    assert_eq!(
        s.pure_calc_num("+", 5).unwrap(),
        "scoreboard players add #TEST.Hoge MCPP.var 5"
    );
    assert_eq!(
        s.pure_calc_num("-", 5).unwrap(),
        "scoreboard players remove #TEST.Hoge MCPP.var 5"
    );
    assert_eq!(
        s.pure_calc_num("*", 5).unwrap(),
        "scoreboard players set #CONSTANT.5 MCPP.var 5\n\
scoreboard players operation #TEST.Hoge MCPP.var *= #CONSTANT.5 MCPP.var"
    );
    assert_eq!(
        s.pure_calc_score("*", &t),
        "scoreboard players operation #TEST.Hoge MCPP.var *= #TEST.Fuga MCPP.var"
    );
    assert_eq!(s.pure_assign_value(-12), "scoreboard players set #TEST.Hoge MCPP.var -12");
    assert_eq!(
        s.pure_assign_score(&t),
        "scoreboard players operation #TEST.Hoge MCPP.var = #TEST.Fuga MCPP.var"
    );
    assert_eq!(
        s.pure_compare_score("<", &t),
        "score #TEST.Hoge MCPP.var < #TEST.Fuga MCPP.var"
    );
    assert_eq!(
        s.pure_compare_value("<=", 7).unwrap(),
        "score #TEST.Hoge MCPP.var matches ..7"
    );
    assert_eq!(
        s.pure_compare_value("==", 7).unwrap(),
        "score #TEST.Hoge MCPP.var matches 7"
    );
    assert!(s.pure_compare_value("<", 7).is_err());
}

#[test]
fn assign_between_unsupported_types_is_refused() {
    let b = board("flag", Types::Bln, &[]);
    let e = b.assign(&Calcable::Int(3)).unwrap_err();
    assert!(matches!(
        e,
        EvaluateError::AssignOccuredBetweenUnsupportedTypes(Types::Int, Types::Bln)
    ));
    let n = board("slot", Types::Non, &[]);
    let e2 = n.calc("+", &Calcable::Int(3)).unwrap_err();
    assert!(matches!(
        e2,
        EvaluateError::OperationOccuredBetweenUnsupportedTypes(Types::Non, Types::Int)
    ));
}

#[test]
fn ordered_comparison_seeds_a_constant() {
    let a = board("a", Types::Int, &[]);
    let (pre, pred) = a.compare("<", &Calcable::Int(5)).unwrap();
    assert_eq!(pre, "scoreboard players set #CONSTANT.5 MCPP.var 5");
    assert_eq!(pred, "if score #a MCPP.var < #CONSTANT.5 MCPP.var");
    let f = board("f", Types::Flt, &[]);
    let (pre2, pred2) = f.compare(">", &Calcable::Int(2)).unwrap();
    assert_eq!(pre2, "scoreboard players set #CONSTANT.2000 MCPP.var 2000");
    assert_eq!(pred2, "if score #f MCPP.var > #CONSTANT.2000 MCPP.var");
    let (pre3, pred3) = f.compare("<", &Calcable::Flt(1500)).unwrap();
    assert_eq!(pre3, "scoreboard players set #CONSTANT.1500 MCPP.var 1500");
    assert_eq!(pred3, "if score #f MCPP.var < #CONSTANT.1500 MCPP.var");
}

#[test]
fn bool_connectives_read_the_source() {
    let t = board("t", Types::Bln, &[]);
    let src = board("s", Types::Bln, &[]);
    assert_eq!(
        t.calc("&", &Calcable::Scr(src.duplicate())).unwrap(),
        "execute if score #s MCPP.var matches 0 run scoreboard players set #t MCPP.var 0"
    );
    assert_eq!(
        t.calc("|", &Calcable::Scr(src)).unwrap(),
        "execute unless score #s MCPP.var matches 0 run scoreboard players set #t MCPP.var 1"
    );
    assert_eq!(
        t.calc("&", &Calcable::Bln(false)).unwrap(),
        "execute unless score #t MCPP.var matches 0 run scoreboard players set #t MCPP.var 0"
    );
    assert_eq!(
        t.calc("&", &Calcable::Bln(true)).unwrap(),
        "execute unless score #t MCPP.var matches 0 run scoreboard players set #t MCPP.var 1"
    );
    assert_eq!(t.calc("|", &Calcable::Bln(true)).unwrap(), "scoreboard players set #t MCPP.var 1");
    assert_eq!(t.calc("|", &Calcable::Bln(false)).unwrap(), "");
}

#[test]
fn bool_assignment_sets_zero_or_one() {
    let b = board("flag", Types::Bln, &[]);
    assert_eq!(b.assign(&Calcable::Bln(true)).unwrap(), "scoreboard players set #flag MCPP.var 1");
    assert_eq!(
        b.assign(&Calcable::Bln(false)).unwrap(),
        "scoreboard players set #flag MCPP.var 0"
    );
}

#[test]
fn int_assign_from_float_literal_truncates() {
    let a = board("a", Types::Int, &[]);
    assert_eq!(
        a.assign(&Calcable::Flt(2500)).unwrap(),
        "scoreboard players set #a MCPP.var 2"
    );
}

#[test]
fn float_assign_from_int_scales_up() {
    let f = board("f", Types::Flt, &[]);
    assert_eq!(
        f.assign(&Calcable::Int(2)).unwrap(),
        "scoreboard players set #f MCPP.var 2000"
    );
}

#[test]
fn int_calc_from_float_scoreboard_scales_down() {
    let a = board("a", Types::Int, &[]);
    let f = board("f", Types::Flt, &[]);
    assert_eq!(
        a.calc("+", &Calcable::Scr(f)).unwrap(),
        "scoreboard players operation #Calc.TEMP MCPP.var = #f MCPP.var\n\
scoreboard players set #CONSTANT.1000 MCPP.var 1000\n\
scoreboard players operation #Calc.TEMP MCPP.var /= #CONSTANT.1000 MCPP.var\n\
scoreboard players operation #a MCPP.var += #Calc.TEMP MCPP.var"
    );
}

#[test]
fn temp_scratch_slot() {
    let t = get_temp_score();
    assert_eq!(t.mcname(), "#Calc.TEMP");
    assert!(matches!(t.data_type, Types::Int));
}

#[test]
fn magnification() {
    assert_eq!(mcpp_core::compile_task::float_ops::get_magnif(), 1000);
}
