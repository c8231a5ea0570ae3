//! Execution-engine decisions: how a level's job outcomes determine
//! whether the run goes on, and the exact arguments handed to the build
//! backend per job.

use crate::job::OnFail;
use crate::oci::OciBackend;
use crate::oci::spec_backend_str;
use crate::util::view_strings;
use vstd::prelude::*;

verus! {

/// What one job reported: a completed build with its exit status and the
/// job's failure policy, or an infrastructure error while driving it.
#[derive(Debug, Clone, PartialEq, Eq)]
pub enum JobOutcome {
    Completed { long_name: String, success: bool, on_fail: Option<OnFail> },
    InfraError { message: String },
}

/// Ghost mirror of [`JobOutcome`].
pub ghost enum JobOutcomeV {
    Completed { long_name: Seq<char>, success: bool, on_fail: Option<OnFail> },
    InfraError { message: Seq<char> },
}

impl View for JobOutcome {
    type V = JobOutcomeV;

    open spec fn view(&self) -> JobOutcomeV {
        match self {
            JobOutcome::Completed { long_name, success, on_fail } => JobOutcomeV::Completed {
                long_name: long_name@,
                success: *success,
                on_fail: *on_fail,
            },
            JobOutcome::InfraError { message } => JobOutcomeV::InfraError { message: message@ },
        }
    }
}

/// The ghost mirrors of a sequence of outcomes.
pub open spec fn view_outcomes(v: Seq<JobOutcome>) -> Seq<JobOutcomeV> {
    v.map_values(|o: JobOutcome| o@)
}

/// An outcome is fatal when it is an infrastructure error, or a failed
/// build whose job does not carry the `Ignore` policy (`Stop` is the
/// default).
pub open spec fn spec_fatal(o: JobOutcomeV) -> bool {
    match o {
        JobOutcomeV::Completed { success, on_fail, .. } => !success && on_fail != Some(
            OnFail::Ignore,
        ),
        JobOutcomeV::InfraError { .. } => true,
    }
}

/// A level aborts the run exactly when it holds a fatal outcome.
pub open spec fn spec_level_aborts(outcomes: Seq<JobOutcomeV>) -> bool {
    exists|i: int| 0 <= i < outcomes.len() && spec_fatal(#[trigger] outcomes[i])
}

/// What the engine does after a level: start the next one, or abort the
/// whole remaining run with exit code 1.
#[derive(Debug, Clone, Copy, PartialEq, Eq, Structural)]
pub enum LevelVerdict {
    Proceed,
    Abort,
}

/// Evaluate a finished level's outcomes in job order.
pub fn evaluate_level(outcomes: &Vec<JobOutcome>) -> (r: LevelVerdict)
    ensures
        (r == LevelVerdict::Abort) == spec_level_aborts(view_outcomes(outcomes@)),
{
    let ghost ov = view_outcomes(outcomes@);
    let mut i: usize = 0;
    let n = outcomes.len();
    while i < n
        invariant
            ov == view_outcomes(outcomes@),
            n == outcomes@.len(),
            i <= n,
            forall|j: int| 0 <= j < i ==> !spec_fatal(#[trigger] ov[j]),
        decreases n - i,
    {
        let fatal = match &outcomes[i] {
            JobOutcome::Completed { success, on_fail, .. } => {
                !*success && !matches!(on_fail, Some(OnFail::Ignore))
            },
            JobOutcome::InfraError { .. } => true,
        };
        if fatal {
            proof {
                assert(spec_fatal(ov[i as int]));
            }
            return LevelVerdict::Abort;
        }
        i += 1;
    }
    proof {
        if spec_level_aborts(ov) {
            let j = choose|j: int| 0 <= j < ov.len() && spec_fatal(#[trigger] ov[j]);
            assert(false);
        }
    }
    LevelVerdict::Proceed
}

/// The exit code of a run that was aborted, and of one that was not.
pub fn run_exit_code(aborted: bool) -> (r: u8)
    ensures
        r == (if aborted {
            1u8
        } else {
            0u8
        }),
{
    if aborted {
        1
    } else {
        0
    }
}

/// A failing job under the `Ignore` policy never prevents its siblings or
/// the following levels from running: a level whose completed jobs all
/// either succeeded or carry `Ignore`, with no infrastructure error, lets
/// the run proceed.
pub proof fn lemma_ignored_failures_do_not_abort(outcomes: Seq<JobOutcomeV>)
    requires
        forall|i: int|
            0 <= i < outcomes.len() ==> ((#[trigger] outcomes[i]) matches JobOutcomeV::Completed {
                success,
                on_fail,
                ..
            } && (!success ==> on_fail == Some(OnFail::Ignore))),
    ensures
        !spec_level_aborts(outcomes),
{
    if spec_level_aborts(outcomes) {
        let i = choose|i: int| 0 <= i < outcomes.len() && spec_fatal(#[trigger] outcomes[i]);
        assert(false);
    }
}

/// A failing job under the `Stop` policy (or with no declared policy), or
/// any infrastructure error, aborts the run: no further level starts.
pub proof fn lemma_stop_failure_aborts(outcomes: Seq<JobOutcomeV>, i: int)
    requires
        0 <= i < outcomes.len(),
        (outcomes[i] matches JobOutcomeV::Completed { success, on_fail, .. } && !success
            && on_fail != Some(OnFail::Ignore)) || outcomes[i] is InfraError,
    ensures
        spec_level_aborts(outcomes),
{
    assert(spec_fatal(outcomes[i]));
}

/// The `--secret id=<name>` argument pairs, one per aggregated secret.
pub open spec fn spec_secret_id_args(names: Seq<Seq<char>>) -> Seq<Seq<char>>
    decreases names.len(),
{
    if names.len() == 0 {
        Seq::empty()
    } else {
        spec_secret_id_args(names.drop_last()) + seq!["--secret"@, "id="@ + names.last()]
    }
}

/// The names of an environment list, in order.
pub open spec fn spec_keys(env: Seq<(Seq<char>, Seq<char>)>) -> Seq<Seq<char>> {
    env.map_values(|p: (Seq<char>, Seq<char>)| p.0)
}

/// The build-backend invocation for one job: build the local context with
/// plain progress, optionally without cache, declaring each aggregated
/// secret by id.
pub open spec fn spec_buildctl_args(
    project_directory: Seq<char>,
    no_cache: bool,
    secret_names: Seq<Seq<char>>,
) -> Seq<Seq<char>> {
    seq!["build"@, "--local"@, "local="@ + project_directory, "--progress"@, "plain"@] + (
    if no_cache {
        seq!["--no-cache"@]
    } else {
        Seq::<Seq<char>>::empty()
    }) + spec_secret_id_args(secret_names)
}

/// Build the backend's argument list for one job.
pub fn buildctl_args(project_directory: &str, no_cache: bool, secrets: &Vec<(String, String)>) -> (r:
    Vec<String>)
    ensures
        view_strings(r@) == spec_buildctl_args(
            project_directory@,
            no_cache,
            spec_keys(crate::job::view_env(secrets@)),
        ),
{
    let ghost names = spec_keys(crate::job::view_env(secrets@));
    let mut r: Vec<String> = Vec::new();
    r.push(String::from_str("build"));
    r.push(String::from_str("--local"));
    let mut local = String::from_str("local=");
    local.append(project_directory);
    r.push(local);
    r.push(String::from_str("--progress"));
    r.push(String::from_str("plain"));
    if no_cache {
        r.push(String::from_str("--no-cache"));
    }
    let ghost base = r@.len() as int;
    proof {
        assert(view_strings(r@) =~= spec_buildctl_args(project_directory@, no_cache, Seq::empty()));
        assert(spec_secret_id_args(Seq::<Seq<char>>::empty()) =~= Seq::<Seq<char>>::empty());
    }
    let mut i: usize = 0;
    while i < secrets.len()
        invariant
            names == spec_keys(crate::job::view_env(secrets@)),
            i <= secrets@.len(),
            r@.len() == base + 2 * i,
            view_strings(r@) == spec_buildctl_args(project_directory@, no_cache, names.take(i as int)),
        decreases secrets@.len() - i,
    {
        let ghost prev = r@;
        r.push(String::from_str("--secret"));
        let mut id = String::from_str("id=");
        id.append(secrets[i].0.as_str());
        r.push(id);
        proof {
            let tk = names.take(i + 1);
            assert(tk.drop_last() =~= names.take(i as int));
            assert(tk.last() == names[i as int]);
            assert(names[i as int] == secrets@[i as int].0@);
            assert(view_strings(r@) =~= view_strings(prev) + seq![
                "--secret"@,
                "id="@ + names[i as int],
            ]);
            assert(view_strings(r@) =~= spec_buildctl_args(
                project_directory@,
                no_cache,
                names.take(i + 1),
            ));
        }
        i += 1;
    }
    proof {
        assert(names.take(names.len() as int) =~= names);
    }
    r
}

/// The backend connection string: the engine's container transport aimed
/// at the runner's build daemon.
pub fn buildkit_host(backend: OciBackend) -> (r: String)
    ensures
        r@ == spec_backend_str(backend) + "-container://cicada-buildkitd"@,
{
    let mut s = String::from_str(backend.as_str());
    s.append("-container://cicada-buildkitd");
    proof {
        assert(s@ =~= spec_backend_str(backend) + "-container://cicada-buildkitd"@);
    }
    s
}

} // verus!
