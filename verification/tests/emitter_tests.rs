use mcpp_core::chest_candidates;
use mcpp_core::compile_task::mcfunction::{generate_pack_mcmeta, MCFunction};
use mcpp_core::compile_task::scoreboard::{Scoreboard, Types};
use mcpp_core::compile_task::CompileTask;
use mcpp_core::enviroment::Enviroment;
use mcpp_core::namespace_of;

fn leaf(name: &str, inside: &str, namespace: &str, scope: &[&str]) -> MCFunction {
    MCFunction {
        name: name.to_string(),
        inside: inside.to_string(),
        callment: String::new(),
        namespace: namespace.to_string(),
        child_func: Vec::new(),
        scope: scope.iter().map(|s| s.to_string()).collect(),
        ret_container: Scoreboard {
            name: format!("TEMP.RETURN_VALUE.{}", name),
            data_type: Types::Non,
            scope: Vec::new(),
        },
    }
}

#[test]
fn pack_mcmeta_document() {
    let inputs = vec![
        ("pack_format".to_string(), "61".to_string()),
        ("description".to_string(), "description".to_string()),
    ];
    let expected = "{\n   \"pack\":{\n      \"pack_format\":\"61\",\n      \"description\":\"description\",\n   }\n}";
    assert_eq!(generate_pack_mcmeta(inputs), expected);
}

#[test]
fn fullpath_and_call() {
    let f = leaf("f", "", "ns", &["s"]);
    assert_eq!(f.get_fullpath(), "ns:s/f");
    assert_eq!(f.call(), "function ns:s/f");
    let root = leaf("main", "", "ns", &[]);
    assert_eq!(root.get_fullpath(), "ns:/main");
    assert_eq!(root.call(), "function ns:/main");
}

#[test]
fn save_plan_lists_every_function() {
    let mut parent = leaf("main", "body", "ns", &[]);
    parent.child_func.push(leaf("a", "abody", "ns", &[]));
    parent.child_func.push(leaf("b", "bbody", "ns", &[]));
    let plan = parent.save("root");
    assert_eq!(plan.len(), 3);
    assert_eq!(plan[0], ("root/".to_string(), "main.mcfunction".to_string(), "body".to_string()));
    assert_eq!(plan[1], ("root/".to_string(), "a.mcfunction".to_string(), "abody".to_string()));
    assert_eq!(plan[2], ("root/".to_string(), "b.mcfunction".to_string(), "bbody".to_string()));
}

#[test]
fn datapack_plan_layout() {
    let root = leaf("main", "body", "pack", &[]);
    let (dirs, files) = root.build_datapack("pack", "target");
    assert_eq!(
        dirs,
        vec![
            "target/pack".to_string(),
            "target/pack/data".to_string(),
            "target/pack/data/pack".to_string(),
            "target/pack/data/pack/function".to_string(),
        ]
    );
    assert_eq!(files.len(), 2);
    assert_eq!(files[0].0, "target/pack");
    assert_eq!(files[0].1, "pack.mcmeta");
    assert!(files[0].2.contains("\"pack_format\":\"61\","));
    assert_eq!(files[1].0, "target/pack/data/pack/function/");
    assert_eq!(files[1].1, "main.mcfunction");
    assert_eq!(files[1].2, "body");
}

#[test]
fn compiled_tree_emission_counts() {
    let mut compiler = CompileTask::new();
    let mcf = compiler.compile("{ a = 1; { b = 2 }; { c = 3 } }", "test").unwrap();
    assert_eq!(mcf.child_func.len(), 2);
    let plan = mcf.save("root");
    assert_eq!(plan.len(), 3);
}

#[test]
fn default_enviroment() {
    let env = Enviroment::new();
    assert_eq!(env.project_name, "Untitled");
    assert_eq!(env.mc_version, "1.20.1");
    assert_eq!(env.test_world, "THE_PATH_OF_TEST_WORLD_HERE");
}

#[test]
fn namespace_from_path() {
    assert_eq!(namespace_of("C:/Projects/test_code.mcpp"), "test_code.mcpp");
    assert_eq!(namespace_of("plain"), "plain");
}

#[test]
fn chest_test() {
    println!("{}", chest_candidates("C:\\Projects\\MCPP-Rewrite\\test_code\\src")[0]);
}

#[test]
fn chest_candidate_paths() {
    let c = chest_candidates("C:\\Projects\\src");
    assert_eq!(
        c,
        vec!["C:/Projects/src".to_string(), "C:/Projects".to_string(), "C:".to_string()]
    );
}
