//! The container runner's decision layer: the exact argument list of each
//! stage's sandboxed container launch, the per-stage script path, the
//! assembly of the scan report from the observed stage outcomes, and a
//! model of the repository area showing that the script slot ends every
//! run empty.

use vstd::prelude::*;
use vstd::string::*;

use crate::harvest::{harvest_results, spec_harvest};
use crate::models::{
    CodeFunction, FunctionCapabilities, FunctionStage, GitCommit, Scan, ScanMetadata,
};

verus! {

/// What one stage's container produced: its exit code, both output
/// streams already decoded to text, and the observed wall time.
#[derive(Debug, Clone, PartialEq)]
pub struct StageOutcome {
    pub exit_code: i32,
    pub stdout: String,
    pub stderr: String,
    pub duration_ms: usize,
}

/// The script file for a stage, relative to the repository area:
/// `bin/process.<extension>`.
pub open spec fn spec_script_path(extension: Seq<char>) -> Seq<char> {
    "bin/process."@ + extension
}

/// The script path as mounted inside the container.
pub open spec fn spec_container_script_path(extension: Seq<char>) -> Seq<char> {
    "/tmp-bin/process."@ + extension
}

/// The relative path of the stage's script file.
pub fn script_path(extension: &str) -> (r: String)
    ensures
        r@ == spec_script_path(extension@),
{
    let mut r: String = String::from_str("bin/process.");
    r.append(extension);
    r
}

/// The argument list of one stage's container launch: namespace, removal
/// on exit, the security flags, the network and user settings, the three
/// mounts keyed by repository, the working directory, the read-only root
/// unless the function may write, and finally the image, the executor and
/// the script.
pub open spec fn spec_stage_args(
    namespace: Seq<char>,
    workspace_path: Seq<char>,
    repository_id: Seq<char>,
    stage: FunctionStage,
    capabilities: FunctionCapabilities,
) -> Seq<Seq<char>> {
    let head = seq![
        "--namespace="@ + namespace,
        "run"@,
        "--rm"@,
        "--cap-drop"@,
        "all"@,
        "--security-opt"@,
        "apparmor=docker-default"@,
        "--security-opt"@,
        "no-new-privileges"@,
        "--network"@,
        if capabilities.network {
            "bridge"@
        } else {
            "none"@
        },
    ];
    let user = match stage.environment.user {
        Some(u) => seq!["--user"@, u@],
        None => Seq::<Seq<char>>::empty(),
    };
    let mounts = seq![
        "--volume"@,
        workspace_path + "/"@ + repository_id + "/repository:/workspace:ro"@,
        "--volume"@,
        workspace_path + "/"@ + repository_id + "/bin:/tmp-bin:ro"@,
        "--volume"@,
        workspace_path + "/"@ + repository_id + "/result:/result"@,
        "--workdir"@,
        "/workspace"@,
    ];
    let root = if capabilities.filesystem {
        Seq::<Seq<char>>::empty()
    } else {
        seq!["--read-only"@]
    };
    let command = seq![
        stage.environment.base_image@,
        stage.environment.executor@,
        spec_container_script_path(stage.environment.file_extension@),
    ];
    head + user + mounts + root + command
}

/// Builds the argument list of one stage's container launch.
pub fn build_stage_args(
    namespace: &str,
    workspace_path: &str,
    repository_id: &str,
    stage: &FunctionStage,
    capabilities: &FunctionCapabilities,
) -> (args: Vec<String>)
    ensures
        args@.map_values(|a: String| a@) == spec_stage_args(
            namespace@,
            workspace_path@,
            repository_id@,
            *stage,
            *capabilities,
        ),
{
    let mut args: Vec<String> = Vec::new();
    let mut namespace_arg: String = String::from_str("--namespace=");
    namespace_arg.append(namespace);
    args.push(namespace_arg);
    args.push(String::from_str("run"));
    args.push(String::from_str("--rm"));
    args.push(String::from_str("--cap-drop"));
    args.push(String::from_str("all"));
    args.push(String::from_str("--security-opt"));
    args.push(String::from_str("apparmor=docker-default"));
    args.push(String::from_str("--security-opt"));
    args.push(String::from_str("no-new-privileges"));
    args.push(String::from_str("--network"));
    if capabilities.network {
        args.push(String::from_str("bridge"));
    } else {
        args.push(String::from_str("none"));
    }
    match &stage.environment.user {
        Some(u) => {
            args.push(String::from_str("--user"));
            let mut user_arg: String = String::new();
            user_arg.append(u.as_str());
            proof {
                assert(user_arg@ =~= u@);
            }
            args.push(user_arg);
        },
        None => {},
    }
    args.push(String::from_str("--volume"));
    let mut repo_mount: String = String::new();
    repo_mount.append(workspace_path);
    repo_mount.append("/");
    repo_mount.append(repository_id);
    repo_mount.append("/repository:/workspace:ro");
    proof {
        assert(repo_mount@ =~= workspace_path@ + "/"@ + repository_id@
            + "/repository:/workspace:ro"@);
    }
    args.push(repo_mount);
    args.push(String::from_str("--volume"));
    let mut bin_mount: String = String::new();
    bin_mount.append(workspace_path);
    bin_mount.append("/");
    bin_mount.append(repository_id);
    bin_mount.append("/bin:/tmp-bin:ro");
    proof {
        assert(bin_mount@ =~= workspace_path@ + "/"@ + repository_id@ + "/bin:/tmp-bin:ro"@);
    }
    args.push(bin_mount);
    args.push(String::from_str("--volume"));
    let mut result_mount: String = String::new();
    result_mount.append(workspace_path);
    result_mount.append("/");
    result_mount.append(repository_id);
    result_mount.append("/result:/result");
    proof {
        assert(result_mount@ =~= workspace_path@ + "/"@ + repository_id@
            + "/result:/result"@);
    }
    args.push(result_mount);
    args.push(String::from_str("--workdir"));
    args.push(String::from_str("/workspace"));
    if !capabilities.filesystem {
        args.push(String::from_str("--read-only"));
    }
    let mut image_arg: String = String::new();
    image_arg.append(stage.environment.base_image.as_str());
    proof {
        assert(image_arg@ =~= stage.environment.base_image@);
    }
    args.push(image_arg);
    let mut executor_arg: String = String::new();
    executor_arg.append(stage.environment.executor.as_str());
    proof {
        assert(executor_arg@ =~= stage.environment.executor@);
    }
    args.push(executor_arg);
    let mut script_arg: String = String::from_str("/tmp-bin/process.");
    script_arg.append(stage.environment.file_extension.as_str());
    args.push(script_arg);
    proof {
        assert(args@.map_values(|a: String| a@) =~= spec_stage_args(
            namespace@,
            workspace_path@,
            repository_id@,
            *stage,
            *capabilities,
        ));
    }
    args
}

/// The total wall time of a run, in milliseconds.
pub open spec fn spec_total_timing(outcomes: Seq<StageOutcome>) -> int
    decreases outcomes.len(),
{
    if outcomes.len() == 0 {
        0
    } else {
        spec_total_timing(outcomes.drop_last()) + outcomes.last().duration_ms
    }
}

/// Whether any stage exited with a non-zero code.
pub open spec fn spec_any_failed(outcomes: Seq<StageOutcome>) -> bool {
    exists|k: int| 0 <= k < outcomes.len() && outcomes[k].exit_code != 0
}

/// The concatenated logs of a run: each stage contributes its standard
/// output, a newline, and its standard error.
pub open spec fn spec_run_logs(outcomes: Seq<StageOutcome>) -> Seq<char>
    decreases outcomes.len(),
{
    if outcomes.len() == 0 {
        Seq::<char>::empty()
    } else {
        spec_run_logs(outcomes.drop_last()) + outcomes.last().stdout@ + "\n"@
            + outcomes.last().stderr@
    }
}

proof fn lemma_total_timing_take(outcomes: Seq<StageOutcome>, i: int)
    requires
        0 <= i <= outcomes.len(),
    ensures
        spec_total_timing(outcomes.take(i)) <= spec_total_timing(outcomes),
        spec_total_timing(outcomes.take(i)) >= 0,
    decreases outcomes.len() - i,
{
    lemma_total_timing_nonneg(outcomes.take(i));
    if i < outcomes.len() {
        lemma_total_timing_take(outcomes, i + 1);
        assert(outcomes.take(i + 1).drop_last() =~= outcomes.take(i));
        assert(spec_total_timing(outcomes.take(i + 1)) == spec_total_timing(
            outcomes.take(i),
        ) + outcomes[i].duration_ms);
    } else {
        assert(outcomes.take(i) =~= outcomes);
    }
}

proof fn lemma_total_timing_nonneg(outcomes: Seq<StageOutcome>)
    ensures
        spec_total_timing(outcomes) >= 0,
    decreases outcomes.len(),
{
    if outcomes.len() > 0 {
        lemma_total_timing_nonneg(outcomes.drop_last());
    }
}

/// Assembles the scan report of one function run from the observed stage
/// outcomes and the harvested metrics file. The report fails exactly when
/// some stage exited non-zero, its timing is the sum of the stage
/// timings, its logs are the stages' outputs in order, and its results
/// are the harvested metrics annotated with the declared outputs.
#[verifier::loop_isolation(false)]
pub fn assemble_scan(
    code_function: &CodeFunction,
    repository_id: &str,
    commit: GitCommit,
    outcomes: &Vec<StageOutcome>,
    data_content: &Option<String>,
) -> (scan: Scan)
    requires
        spec_total_timing(outcomes@) <= usize::MAX,
    ensures
        scan.function_id@ == code_function.public_id@,
        scan.repository_id@ == repository_id@,
        scan.commit == commit,
        scan.has_failed == spec_any_failed(outcomes@),
        scan.timing_ms == spec_total_timing(outcomes@),
        scan.logs@ == spec_run_logs(outcomes@),
        scan.results@.map_values(|m: ScanMetadata| m@) == spec_harvest(
            match data_content {
                Some(s) => Some(s@),
                None => None,
            },
            code_function.outputs@,
        ),
{
    let mut timing_ms: usize = 0;
    let mut logs: String = String::new();
    let mut has_failed: bool = false;
    let mut i: usize = 0;
    proof {
        assert(logs@ =~= spec_run_logs(outcomes@.take(0)));
    }
    while i < outcomes.len()
        invariant
            i <= outcomes@.len(),
            timing_ms == spec_total_timing(outcomes@.take(i as int)),
            logs@ == spec_run_logs(outcomes@.take(i as int)),
            has_failed == spec_any_failed(outcomes@.take(i as int)),
        decreases outcomes.len() - i,
    {
        proof {
            lemma_total_timing_take(outcomes@, i as int + 1);
            assert(outcomes@.take(i as int + 1).drop_last() =~= outcomes@.take(i as int));
            assert(outcomes@.take(i as int + 1).last() == outcomes@[i as int]);
        }
        timing_ms = timing_ms + outcomes[i].duration_ms;
        logs.append(outcomes[i].stdout.as_str());
        logs.append("\n");
        logs.append(outcomes[i].stderr.as_str());
        if outcomes[i].exit_code != 0 {
            has_failed = true;
        }
        proof {
            assert(logs@ =~= spec_run_logs(outcomes@.take(i as int + 1)));
            if has_failed {
                if outcomes@[i as int].exit_code != 0 {
                    assert(spec_any_failed(outcomes@.take(i as int + 1))) by {
                        assert(outcomes@.take(i as int + 1)[i as int].exit_code != 0);
                    }
                }
            } else {
                assert(!spec_any_failed(outcomes@.take(i as int + 1))) by {
                    assert(forall|k: int|
                        0 <= k < i + 1 ==> outcomes@.take(i as int + 1)[k] == outcomes@.take(
                            i as int,
                        ).push(outcomes@[i as int])[k]);
                }
            }
        }
        i = i + 1;
    }
    proof {
        assert(outcomes@.take(outcomes@.len() as int) =~= outcomes@);
    }
    let results = harvest_results(data_content, &code_function.outputs);
    let function_id = {
        let fc = crate::text::chars_of(code_function.public_id.as_str());
        crate::text::string_from_chars(&fc)
    };
    Scan {
        function_id,
        repository_id: String::from_str(repository_id),
        commit,
        has_failed,
        logs,
        timing_ms,
        results,
    }
}

/// A model of one repository's working area: whether its root exists, and
/// the file sets of the script and result slots, absent directories being
/// `None`.
pub struct RepoAreaModel {
    pub root_exists: bool,
    pub bin_files: Option<Set<Seq<char>>>,
    pub result_files: Option<Set<Seq<char>>>,
}

/// The effect of cleaning the area before a run: the root exists and both
/// slots are fresh and empty.
pub open spec fn model_clean(m: RepoAreaModel) -> RepoAreaModel {
    RepoAreaModel {
        root_exists: true,
        bin_files: Some(Set::<Seq<char>>::empty()),
        result_files: Some(Set::<Seq<char>>::empty()),
    }
}

/// The effect of dropping a stage's script into the script slot.
pub open spec fn model_write_script(m: RepoAreaModel, script: Seq<char>) -> RepoAreaModel {
    RepoAreaModel {
        bin_files: match m.bin_files {
            Some(files) => Some(files.insert(script)),
            None => None,
        },
        ..m
    }
}

/// The effect of the container run itself: the script and repository
/// mounts are read-only, so only the result slot changes, to whatever the
/// container wrote.
pub open spec fn model_container_run(m: RepoAreaModel, written: Set<Seq<char>>) -> RepoAreaModel {
    RepoAreaModel { result_files: Some(written), ..m }
}

/// The effect of resetting the script slot after a stage.
pub open spec fn model_clean_bin(m: RepoAreaModel) -> RepoAreaModel {
    RepoAreaModel { bin_files: Some(Set::<Seq<char>>::empty()), ..m }
}

/// One stage's full effect on the area: drop the script, run the
/// container, reset the script slot.
pub open spec fn model_stage(m: RepoAreaModel, script: Seq<char>, written: Set<Seq<char>>) -> RepoAreaModel {
    model_clean_bin(model_container_run(model_write_script(m, script), written))
}

/// A whole run's effect: the initial clean, then every stage in order.
pub open spec fn model_run(
    m: RepoAreaModel,
    scripts: Seq<Seq<char>>,
    written: Seq<Set<Seq<char>>>,
) -> RepoAreaModel
    decreases scripts.len(),
{
    if scripts.len() == 0 {
        model_clean(m)
    } else {
        model_stage(
            model_run(m, scripts.drop_last(), written.drop_last()),
            scripts.last(),
            if written.len() > 0 {
                written.last()
            } else {
                Set::<Seq<char>>::empty()
            },
        )
    }
}

/// After a container run the script slot is empty: the initial clean
/// empties it, and every stage ends by resetting it, whatever the stage's
/// script was and whatever the container wrote.
pub proof fn lemma_bin_empty_after_run(
    m: RepoAreaModel,
    scripts: Seq<Seq<char>>,
    written: Seq<Set<Seq<char>>>,
)
    ensures
        model_run(m, scripts, written).bin_files == Some(Set::<Seq<char>>::empty()),
        model_run(m, scripts, written).root_exists,
    decreases scripts.len(),
{
    if scripts.len() > 0 {
        lemma_bin_empty_after_run(m, scripts.drop_last(), written.drop_last());
    }
}

} // verus!
