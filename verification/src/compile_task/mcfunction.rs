//! Compiled functions: their bodies, call sites and on-disk layout.
use vstd::prelude::*;
use vstd::string::*;

use crate::compile_task::scoreboard::{Scoreboard, ScorebV};
use crate::text::{dup_string_vec, join_strings, spec_join};

verus! {

/// A compiled callable unit and the functions its nested blocks produced.
#[derive(Debug)]
pub struct MCFunction {
    pub name: String,
    pub inside: String,
    pub callment: String,
    pub namespace: String,
    pub child_func: Vec<MCFunction>,
    pub scope: Vec<String>,
    pub ret_container: Scoreboard,
}

/// `MCFunction` with its texts abstracted to character sequences.
#[verifier::ext_equal]
pub struct McfV {
    pub name: Seq<char>,
    pub inside: Seq<char>,
    pub callment: Seq<char>,
    pub namespace: Seq<char>,
    pub child_func: Seq<McfV>,
    pub scope: Seq<Seq<char>>,
    pub ret_container: ScorebV,
}

/// The view of an `MCFunction`, children included.
pub open spec fn mcf_view(f: MCFunction) -> McfV
    decreases f,
{
    McfV {
        name: f.name@,
        inside: f.inside@,
        callment: f.callment@,
        namespace: f.namespace@,
        child_func: Seq::new(
            f.child_func@.len(),
            |i: int|
                if 0 <= i < f.child_func@.len() {
                    mcf_view(f.child_func@[i])
                } else {
                    arbitrary()
                },
        ),
        scope: f.scope@.map_values(|s: String| s@),
        ret_container: f.ret_container@,
    }
}

impl View for MCFunction {
    type V = McfV;

    open spec fn view(&self) -> McfV {
        mcf_view(*self)
    }
}

/// `<namespace>:<scope-joined-by-slashes>/<name>`: one `/` stands before
/// the name, whether or not the scope is empty.
pub open spec fn spec_fullpath(f: McfV) -> Seq<char> {
    f.namespace + ":".view() + spec_join(f.scope, "/".view()) + "/".view() + f.name
}

impl MCFunction {
    /// A copy whose view equals this one's.
    pub fn duplicate(&self) -> (r: MCFunction)
        ensures
            r@ == self@,
        decreases *self,
    {
        let mut child_func: Vec<MCFunction> = Vec::new();
        let mut i: usize = 0;
        while i < self.child_func.len()
            invariant
                i <= self.child_func@.len(),
                child_func@.len() == i,
                forall|j: int| 0 <= j < i ==> child_func@[j]@ == self.child_func@[j]@,
            decreases self.child_func@.len() - i,
        {
            let c = self.child_func[i].duplicate();
            child_func.push(c);
            i = i + 1;
        }
        let r = MCFunction {
            name: self.name.clone(),
            inside: self.inside.clone(),
            callment: self.callment.clone(),
            namespace: self.namespace.clone(),
            child_func,
            scope: dup_string_vec(&self.scope),
            ret_container: self.ret_container.duplicate(),
        };
        proof {
            assert forall|j: int| 0 <= j < r@.child_func.len() implies r@.child_func[j]
                == self@.child_func[j] by {
                assert(r@.child_func[j] == child_func@[j]@);
                assert(self@.child_func[j] == self.child_func@[j]@);
            }
            assert(r@.child_func =~= self@.child_func);
            assert(r@.scope =~= self@.scope);
            assert(r@ =~= self@);
        }
        r
    }

    /// The full path of this function inside its namespace.
    pub fn get_fullpath(&self) -> (r: String)
        ensures
            r@ == spec_fullpath(self@),
    {
        let mut r = self.namespace.clone();
        r.append(":");
        let joined = join_strings(&self.scope, "/");
        r.append(joined.as_str());
        r.append("/");
        r.append(self.name.as_str());
        proof {
            assert(r@ =~= spec_fullpath(self@));
        }
        r
    }

    /// The command that invokes this function unconditionally.
    pub fn call(&self) -> (r: String)
        ensures
            r@ == "function ".view() + spec_fullpath(self@),
    {
        let mut r = String::from_str("function ");
        let path = self.get_fullpath();
        r.append(path.as_str());
        proof {
            assert(r@ =~= "function ".view() + spec_fullpath(self@));
        }
        r
    }
}

/// The views of a list of (directory, file name, content) plan entries.
pub open spec fn plan_view(v: Seq<(String, String, String)>) -> Seq<
    (Seq<char>, Seq<char>, Seq<char>),
> {
    v.map_values(|p: (String, String, String)| (p.0@, p.1@, p.2@))
}

/// The files a function tree is saved as: its own `.mcfunction` under its
/// scope directory, then its children's files.
pub open spec fn spec_save_plan(f: McfV, root: Seq<char>) -> Seq<
    (Seq<char>, Seq<char>, Seq<char>),
>
    decreases f, 1int,
{
    seq![
        (
            root + "/".view() + spec_join(f.scope, "/".view()),
            f.name + ".mcfunction".view(),
            f.inside,
        )
    ] + spec_save_plans(f.child_func, root)
}

pub open spec fn spec_save_plans(cs: Seq<McfV>, root: Seq<char>) -> Seq<
    (Seq<char>, Seq<char>, Seq<char>),
>
    decreases cs, 0int,
{
    if cs.len() == 0 {
        seq![]
    } else {
        spec_save_plan(cs[0], root) + spec_save_plans(cs.skip(1), root)
    }
}

/// How many functions a tree holds, itself included.
pub open spec fn spec_tree_size(f: McfV) -> int
    decreases f, 1int,
{
    1 + spec_trees_size(f.child_func)
}

pub open spec fn spec_trees_size(cs: Seq<McfV>) -> int
    decreases cs, 0int,
{
    if cs.len() == 0 {
        0int
    } else {
        spec_tree_size(cs[0]) + spec_trees_size(cs.skip(1))
    }
}

/// Saving a tree writes one file per function in it.
pub proof fn lemma_save_plan_len(f: McfV, root: Seq<char>)
    ensures
        spec_save_plan(f, root).len() == spec_tree_size(f),
    decreases f, 1int,
{
    lemma_save_plans_len(f.child_func, root);
}

pub proof fn lemma_save_plans_len(cs: Seq<McfV>, root: Seq<char>)
    ensures
        spec_save_plans(cs, root).len() == spec_trees_size(cs),
    decreases cs, 0int,
{
    if cs.len() > 0 {
        lemma_save_plan_len(cs[0], root);
        lemma_save_plans_len(cs.skip(1), root);
    }
}

/// Emitting a function whose children are leaves produces exactly one file
/// more than it has children.
pub proof fn lemma_directory_emission(f: McfV, root: Seq<char>)
    requires
        forall|i: int|
            0 <= i < f.child_func.len() ==> (#[trigger] f.child_func[i]).child_func.len() == 0,
    ensures
        spec_save_plan(f, root).len() == f.child_func.len() + 1,
{
    lemma_save_plan_len(f, root);
    lemma_leaf_sizes(f.child_func);
}

proof fn lemma_leaf_sizes(cs: Seq<McfV>)
    requires
        forall|i: int| 0 <= i < cs.len() ==> (#[trigger] cs[i]).child_func.len() == 0,
    ensures
        spec_trees_size(cs) == cs.len(),
    decreases cs.len(),
{
    if cs.len() > 0 {
        assert(spec_tree_size(cs[0]) == 1);
        assert(forall|i: int|
            0 <= i < cs.skip(1).len() ==> (#[trigger] cs.skip(1)[i]).child_func.len() == 0);
        lemma_leaf_sizes(cs.skip(1));
    }
}

proof fn lemma_save_plans_snoc(cs: Seq<McfV>, c: McfV, root: Seq<char>)
    ensures
        spec_save_plans(cs.push(c), root) == spec_save_plans(cs, root) + spec_save_plan(c, root),
    decreases cs.len(),
{
    if cs.len() == 0 {
        assert(cs.push(c)[0] == c);
        assert(cs.push(c).skip(1) =~= Seq::<McfV>::empty());
        assert(spec_save_plans(Seq::<McfV>::empty(), root) =~= Seq::<
            (Seq<char>, Seq<char>, Seq<char>),
        >::empty());
        assert(spec_save_plans(cs.push(c), root) == spec_save_plan(c, root) + spec_save_plans(
            Seq::<McfV>::empty(),
            root,
        ));
        assert(spec_save_plan(c, root) + Seq::<(Seq<char>, Seq<char>, Seq<char>)>::empty()
            =~= Seq::<(Seq<char>, Seq<char>, Seq<char>)>::empty() + spec_save_plan(c, root));
    } else {
        lemma_save_plans_snoc(cs.skip(1), c, root);
        assert(cs.push(c)[0] == cs[0]);
        assert(cs.push(c).skip(1) =~= cs.skip(1).push(c));
        assert(spec_save_plan(cs[0], root) + (spec_save_plans(cs.skip(1), root) + spec_save_plan(
            c,
            root,
        )) =~= (spec_save_plan(cs[0], root) + spec_save_plans(cs.skip(1), root)) + spec_save_plan(
            c,
            root,
        ));
    }
}

/// The text of `pack.mcmeta`: the fields in order inside a `pack` object.
pub open spec fn spec_pack_mcmeta(inputs: Seq<(Seq<char>, Seq<char>)>) -> Seq<char> {
    "{\n   \"pack\":{\n".view() + spec_join(
        inputs.map_values(
            |p: (Seq<char>, Seq<char>)|
                "      \"".view() + p.0 + "\":\"".view() + p.1 + "\",".view(),
        ),
        seq!['\n'],
    ) + "\n   }\n}".view()
}

/// Serialises the manifest fields, in order, as the `pack.mcmeta` document.
pub fn generate_pack_mcmeta(inputs: Vec<(String, String)>) -> (r: String)
    ensures
        r@ == spec_pack_mcmeta(inputs@.map_values(|p: (String, String)| (p.0@, p.1@))),
{
    let mut lines: Vec<String> = Vec::new();
    let ghost mapped = inputs@.map_values(|p: (String, String)| (p.0@, p.1@)).map_values(
        |p: (Seq<char>, Seq<char>)|
            "      \"".view() + p.0 + "\":\"".view() + p.1 + "\",".view(),
    );
    let mut i: usize = 0;
    while i < inputs.len()
        invariant
            i <= inputs@.len(),
            mapped == inputs@.map_values(|p: (String, String)| (p.0@, p.1@)).map_values(
                |p: (Seq<char>, Seq<char>)|
                    "      \"".view() + p.0 + "\":\"".view() + p.1 + "\",".view(),
            ),
            lines@.len() == i,
            crate::compile_task::strs_view(lines@) =~= mapped.take(i as int),
        decreases inputs@.len() - i,
    {
        let ghost before = crate::compile_task::strs_view(lines@);
        let mut line = String::from_str("      \"");
        line.append(inputs[i].0.as_str());
        line.append("\":\"");
        line.append(inputs[i].1.as_str());
        line.append("\",");
        lines.push(line);
        proof {
            assert(crate::compile_task::strs_view(lines@) =~= before.push(lines@.last()@));
            assert(mapped.take(i + 1) =~= mapped.take(i as int).push(mapped[i as int]));
        }
        i = i + 1;
    }
    let joined = crate::text::join_strings(&lines, "\n");
    let mut r = String::from_str("{\n   \"pack\":{\n");
    r.append(joined.as_str());
    r.append("\n   }\n}");
    proof {
        reveal_strlit("\n");
        assert("\n".view() =~= seq!['\n']);
        assert(mapped.take(mapped.len() as int) =~= mapped);
        assert(r@ =~= spec_pack_mcmeta(inputs@.map_values(|p: (String, String)| (p.0@, p.1@))));
    }
    r
}

impl MCFunction {
    /// The files this function tree is saved as, relative to the function
    /// root: one `(directory, file name, content)` triple per function.
    pub fn save(&self, funcs_path: &str) -> (r: Vec<(String, String, String)>)
        ensures
            plan_view(r@) == spec_save_plan(self@, funcs_path@),
        decreases *self, 1int,
    {
        let mut dir = String::from_str(funcs_path);
        dir.append("/");
        let joined = crate::text::join_strings(&self.scope, "/");
        dir.append(joined.as_str());
        let mut fname = self.name.clone();
        fname.append(".mcfunction");
        let mut r: Vec<(String, String, String)> = Vec::new();
        r.push((dir, fname, self.inside.clone()));
        let ghost headv = (
            funcs_path@ + "/".view() + crate::text::spec_join(self@.scope, "/".view()),
            self@.name + ".mcfunction".view(),
            self@.inside,
        );
        proof {
            assert(plan_view(r@) =~= seq![headv]);
        }
        let mut ci: usize = 0;
        while ci < self.child_func.len()
            invariant
                ci <= self.child_func@.len(),
                plan_view(r@) == seq![headv] + spec_save_plans(
                    self@.child_func.take(ci as int),
                    funcs_path@,
                ),
                headv == (
                    funcs_path@ + "/".view() + crate::text::spec_join(self@.scope, "/".view()),
                    self@.name + ".mcfunction".view(),
                    self@.inside,
                ),
            decreases self.child_func@.len() - ci,
        {
            let ghost base = plan_view(r@);
            let sub = self.child_func[ci].save(funcs_path);
            let mut k: usize = 0;
            while k < sub.len()
                invariant
                    k <= sub@.len(),
                    plan_view(sub@) == spec_save_plan(self@.child_func[ci as int], funcs_path@),
                    plan_view(r@) =~= base + plan_view(sub@).take(k as int),
                decreases sub@.len() - k,
            {
                let ghost before = plan_view(r@);
                r.push((sub[k].0.clone(), sub[k].1.clone(), sub[k].2.clone()));
                proof {
                    assert(plan_view(r@) =~= before.push(plan_view(sub@)[k as int]));
                    assert(plan_view(sub@).take(k + 1) =~= plan_view(sub@).take(k as int).push(
                        plan_view(sub@)[k as int],
                    ));
                }
                k = k + 1;
            }
            proof {
                assert(plan_view(sub@).take(sub@.len() as int) =~= plan_view(sub@));
                lemma_save_plans_snoc(
                    self@.child_func.take(ci as int),
                    self@.child_func[ci as int],
                    funcs_path@,
                );
                assert(self@.child_func.take(ci + 1) =~= self@.child_func.take(ci as int).push(
                    self@.child_func[ci as int],
                ));
                assert(plan_view(r@) =~= seq![headv] + spec_save_plans(
                    self@.child_func.take(ci + 1),
                    funcs_path@,
                ));
            }
            ci = ci + 1;
        }
        proof {
            assert(self@.child_func.take(self@.child_func.len() as int) =~= self@.child_func);
        }
        r
    }

    /// The full emission plan of a datapack: the directories to create, in
    /// order, and the files to write, `pack.mcmeta` first.
    pub fn build_datapack(&self, pack_name: &str, root_path: &str) -> (r: (
        Vec<String>,
        Vec<(String, String, String)>,
    ))
        ensures
            crate::compile_task::strs_view(r.0@) == seq![
                root_path@ + "/".view() + pack_name@,
                root_path@ + "/".view() + pack_name@ + "/data".view(),
                root_path@ + "/".view() + pack_name@ + "/data/".view() + pack_name@,
                root_path@ + "/".view() + pack_name@ + "/data/".view() + pack_name@
                    + "/function".view(),
            ],
            plan_view(r.1@) == seq![
                (
                    root_path@ + "/".view() + pack_name@,
                    "pack.mcmeta".view(),
                    spec_pack_mcmeta(
                        seq![
                            ("pack_format".view(), "61".view()),
                            ("description".view(), "description".view()),
                        ],
                    ),
                )
            ] + spec_save_plan(
                self@,
                root_path@ + "/".view() + pack_name@ + "/data/".view() + pack_name@
                    + "/function".view(),
            ),
    {
        let mut pack_root = String::from_str(root_path);
        pack_root.append("/");
        pack_root.append(pack_name);
        let mut data_dir = pack_root.clone();
        data_dir.append("/data");
        let mut ns_dir = pack_root.clone();
        ns_dir.append("/data/");
        ns_dir.append(pack_name);
        let mut function_root = ns_dir.clone();
        function_root.append("/function");
        let mut mcmeta_inputs: Vec<(String, String)> = Vec::new();
        mcmeta_inputs.push((String::from_str("pack_format"), String::from_str("61")));
        mcmeta_inputs.push((String::from_str("description"), String::from_str("description")));
        proof {
            assert(mcmeta_inputs@.map_values(|p: (String, String)| (p.0@, p.1@)) =~= seq![
                ("pack_format".view(), "61".view()),
                ("description".view(), "description".view()),
            ]);
        }
        let mcmeta = generate_pack_mcmeta(mcmeta_inputs);
        let mut dirs: Vec<String> = Vec::new();
        dirs.push(pack_root.clone());
        dirs.push(data_dir);
        dirs.push(ns_dir);
        dirs.push(function_root.clone());
        let mut files: Vec<(String, String, String)> = Vec::new();
        files.push((pack_root, String::from_str("pack.mcmeta"), mcmeta));
        let ghost mcmeta_head = plan_view(files@);
        let sub = self.save(function_root.as_str());
        let mut k: usize = 0;
        while k < sub.len()
            invariant
                k <= sub@.len(),
                plan_view(sub@) == spec_save_plan(
                    self@,
                    root_path@ + "/".view() + pack_name@ + "/data/".view() + pack_name@
                        + "/function".view(),
                ),
                mcmeta_head.len() == 1,
                plan_view(files@) =~= mcmeta_head + plan_view(sub@).take(k as int),
            decreases sub@.len() - k,
        {
            let ghost before = plan_view(files@);
            files.push((sub[k].0.clone(), sub[k].1.clone(), sub[k].2.clone()));
            proof {
                assert(plan_view(files@) =~= before.push(plan_view(sub@)[k as int]));
                assert(plan_view(sub@).take(k + 1) =~= plan_view(sub@).take(k as int).push(
                    plan_view(sub@)[k as int],
                ));
            }
            k = k + 1;
        }
        proof {
            assert(plan_view(sub@).take(sub@.len() as int) =~= plan_view(sub@));
            assert(mcmeta_head =~= seq![
                (
                    root_path@ + "/".view() + pack_name@,
                    "pack.mcmeta".view(),
                    spec_pack_mcmeta(
                        seq![
                            ("pack_format".view(), "61".view()),
                            ("description".view(), "description".view()),
                        ],
                    ),
                )
            ]);
            assert(plan_view(files@) =~= mcmeta_head + plan_view(sub@));
            assert(crate::compile_task::strs_view(dirs@) =~= seq![
                root_path@ + "/".view() + pack_name@,
                root_path@ + "/".view() + pack_name@ + "/data".view(),
                root_path@ + "/".view() + pack_name@ + "/data/".view() + pack_name@,
                root_path@ + "/".view() + pack_name@ + "/data/".view() + pack_name@
                    + "/function".view(),
            ]);
        }
        (dirs, files)
    }
}

} // verus!
