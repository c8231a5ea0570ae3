//! The pipeline data model: jobs, their ordered steps, cache and secret
//! declarations, triggers and failure policy, plus the naming and trigger
//! decisions made over it.

use crate::image::Reference;
use crate::util::contains_string;
use crate::util::str_eq;
use crate::util::spec_u64_string;
use crate::util::u64_to_string;
use crate::util::view_strings;
use vstd::prelude::*;

verus! {

/// Per-job failure policy: `Stop` (the default) aborts the remaining run,
/// `Ignore` records the failure and continues.
#[derive(Debug, Clone, Copy, PartialEq, Eq, Structural)]
pub enum OnFail {
    Ignore,
    Stop,
}

/// How a cache directory may be shared among concurrent builds.
#[derive(Debug, Clone, Copy, PartialEq, Eq, Structural)]
pub enum CacheSharing {
    Shared,
    Private,
    Locked,
}

/// A directory persisted across builds, with an optional sharing policy.
#[derive(Debug, Clone, PartialEq, Eq)]
pub struct CacheDirectory {
    pub path: String,
    pub sharing: Option<CacheSharing>,
}

/// Ghost mirror of [`CacheDirectory`].
pub ghost struct CacheDirectoryV {
    pub path: Seq<char>,
    pub sharing: Option<CacheSharing>,
}

impl View for CacheDirectory {
    type V = CacheDirectoryV;

    open spec fn view(&self) -> CacheDirectoryV {
        CacheDirectoryV { path: self.path@, sharing: self.sharing }
    }
}

/// When a pipeline runs: on listed branches per git event, or via a script
/// function (which this core does not support).
#[derive(Debug, Clone, PartialEq, Eq)]
pub enum Trigger {
    Options { push: Vec<String>, pull_request: Vec<String> },
    DenoFunction,
}

/// Ghost mirror of [`Trigger`].
pub ghost enum TriggerV {
    Options { push: Seq<Seq<char>>, pull_request: Seq<Seq<char>> },
    DenoFunction,
}

impl View for Trigger {
    type V = TriggerV;

    open spec fn view(&self) -> TriggerV {
        match self {
            Trigger::Options { push, pull_request } => TriggerV::Options {
                push: view_strings(push@),
                pull_request: view_strings(pull_request@),
            },
            Trigger::DenoFunction => TriggerV::DenoFunction,
        }
    }
}

/// The shell wrapped around a command step.
#[derive(Debug, Clone, PartialEq, Eq)]
pub enum Shell {
    Sh,
    Bash,
    Args { args: Vec<String> },
}

/// Ghost mirror of [`Shell`].
pub ghost enum ShellV {
    Sh,
    Bash,
    Args { args: Seq<Seq<char>> },
}

impl View for Shell {
    type V = ShellV;

    open spec fn view(&self) -> ShellV {
        match self {
            Shell::Sh => ShellV::Sh,
            Shell::Bash => ShellV::Bash,
            Shell::Args { args } => ShellV::Args { args: view_strings(args@) },
        }
    }
}

/// What one step runs: a shell command, a verbatim argv, or a re-entrant
/// call back into the runner that executes a script-defined function.
#[derive(Debug, Clone, PartialEq, Eq)]
pub enum StepRun {
    Command { command: String },
    Args { args: Vec<String> },
    DenoFunction,
}

/// Ghost mirror of [`StepRun`].
pub ghost enum StepRunV {
    Command { command: Seq<char> },
    Args { args: Seq<Seq<char>> },
    DenoFunction,
}

impl View for StepRun {
    type V = StepRunV;

    open spec fn view(&self) -> StepRunV {
        match self {
            StepRun::Command { command } => StepRunV::Command { command: command@ },
            StepRun::Args { args } => StepRunV::Args { args: view_strings(args@) },
            StepRun::DenoFunction => StepRunV::DenoFunction,
        }
    }
}

/// The character-sequence pairs underlying an environment list.
pub open spec fn view_env(v: Seq<(String, String)>) -> Seq<(Seq<char>, Seq<char>)> {
    v.map_values(|e: (String, String)| (e.0@, e.1@))
}

/// The ghost values underlying an optional string.
pub open spec fn view_opt_string(o: Option<String>) -> Option<Seq<char>> {
    match o {
        Some(s) => Some(s@),
        None => None,
    }
}

/// The ghost mirrors of a sequence of cache directories.
pub open spec fn view_caches(v: Seq<CacheDirectory>) -> Seq<CacheDirectoryV> {
    v.map_values(|c: CacheDirectory| c@)
}

/// One sequential instruction within a job.
#[derive(Debug, Clone, PartialEq, Eq)]
pub struct Step {
    pub run: StepRun,
    pub name: Option<String>,
    pub cache_directories: Vec<CacheDirectory>,
    pub ignore_cache: Option<bool>,
    pub env: Vec<(String, String)>,
    pub secrets: Vec<String>,
    pub working_directory: Option<String>,
    pub shell: Option<Shell>,
}

/// Ghost mirror of [`Step`].
pub ghost struct StepV {
    pub run: StepRunV,
    pub name: Option<Seq<char>>,
    pub cache_directories: Seq<CacheDirectoryV>,
    pub ignore_cache: Option<bool>,
    pub env: Seq<(Seq<char>, Seq<char>)>,
    pub secrets: Seq<Seq<char>>,
    pub working_directory: Option<Seq<char>>,
    pub shell: Option<ShellV>,
}

impl View for Step {
    type V = StepV;

    open spec fn view(&self) -> StepV {
        StepV {
            run: self.run@,
            name: view_opt_string(self.name),
            cache_directories: view_caches(self.cache_directories@),
            ignore_cache: self.ignore_cache,
            env: view_env(self.env@),
            secrets: view_strings(self.secrets@),
            working_directory: view_opt_string(self.working_directory),
            shell: match self.shell {
                Some(ref sh) => Some(sh@),
                None => None,
            },
        }
    }
}

/// One independently schedulable build unit.
#[derive(Debug, Clone, PartialEq, Eq)]
pub struct Job {
    pub uuid: u128,
    pub image: String,
    pub steps: Vec<Step>,
    pub name: Option<String>,
    pub env: Vec<(String, String)>,
    pub cache_directories: Vec<CacheDirectory>,
    pub working_directory: Option<String>,
    pub depends_on: Vec<u128>,
    pub on_fail: Option<OnFail>,
}

/// Ghost mirror of [`Job`].
pub ghost struct JobV {
    pub uuid: u128,
    pub image: Seq<char>,
    pub steps: Seq<StepV>,
    pub name: Option<Seq<char>>,
    pub env: Seq<(Seq<char>, Seq<char>)>,
    pub cache_directories: Seq<CacheDirectoryV>,
    pub working_directory: Option<Seq<char>>,
    pub depends_on: Seq<u128>,
    pub on_fail: Option<OnFail>,
}

impl View for Job {
    type V = JobV;

    open spec fn view(&self) -> JobV {
        JobV {
            uuid: self.uuid,
            image: self.image@,
            steps: self.steps@.map_values(|s: Step| s@),
            name: view_opt_string(self.name),
            env: view_env(self.env@),
            cache_directories: view_caches(self.cache_directories@),
            working_directory: view_opt_string(self.working_directory),
            depends_on: self.depends_on@,
            on_fail: self.on_fail,
        }
    }
}

/// The configuration section of an image inspection result.
#[derive(Debug, Clone, PartialEq, Eq)]
pub struct InspectConfig {
    pub hostname: Option<String>,
    pub domainname: Option<String>,
    pub user: Option<String>,
    pub env: Vec<String>,
    pub cmd: Vec<String>,
}

impl InspectConfig {
    /// An empty configuration, used when an image declares none.
    pub fn new_empty() -> (r: Self)
        ensures
            r.env@.len() == 0,
            r.cmd@.len() == 0,
            r.hostname is None,
            r.domainname is None,
            r.user is None,
    {
        InspectConfig {
            hostname: None,
            domainname: None,
            user: None,
            env: Vec::new(),
            cmd: Vec::new(),
        }
    }
}

/// What inspecting a pulled image yields: its declared configuration.
#[derive(Debug, Clone, PartialEq, Eq)]
pub struct InspectInfo {
    pub config: InspectConfig,
}

/// A job joined with its pulled image's metadata and normalized reference.
#[derive(Debug, Clone)]
pub struct JobResolved {
    pub job: Box<Job>,
    pub image_info: Box<InspectInfo>,
    pub image_reference: Reference,
}

/// The display name of a job: its declared name, or `image-index`.
pub open spec fn spec_display_name(name: Option<Seq<char>>, image: Seq<char>, index: nat) -> Seq<
    char,
> {
    match name {
        Some(n) => n,
        None => image + "-"@ + spec_u64_string(index),
    }
}

/// The long name of a job: `name (image-index)`, or `image-index` when the
/// job is unnamed.
pub open spec fn spec_long_name(name: Option<Seq<char>>, image: Seq<char>, index: nat) -> Seq<
    char,
> {
    match name {
        Some(n) => n + " ("@ + image + "-"@ + spec_u64_string(index) + ")"@,
        None => image + "-"@ + spec_u64_string(index),
    }
}

impl JobResolved {
    /// The name shown for this job while it runs.
    pub fn display_name(&self, index: usize) -> (r: String)
        ensures
            r@ == spec_display_name(self.job@.name, self.job@.image, index as nat),
    {
        match &self.job.name {
            Some(n) => n.clone(),
            None => {
                let mut s = self.job.image.clone();
                s.append("-");
                let idx = u64_to_string(index as u64);
                s.append(idx.as_str());
                proof {
                    assert(s@ =~= self.job@.image + "-"@ + spec_u64_string(index as nat));
                }
                s
            },
        }
    }

    /// The name used in run reports for this job.
    pub fn long_name(&self, index: usize) -> (r: String)
        ensures
            r@ == spec_long_name(self.job@.name, self.job@.image, index as nat),
    {
        let idx = u64_to_string(index as u64);
        match &self.job.name {
            Some(n) => {
                let mut s = n.clone();
                s.append(" (");
                s.append(self.job.image.as_str());
                s.append("-");
                s.append(idx.as_str());
                s.append(")");
                proof {
                    assert(s@ =~= n@ + " ("@ + self.job@.image + "-"@ + spec_u64_string(
                        index as nat,
                    ) + ")"@);
                }
                s
            },
            None => {
                let mut s = self.job.image.clone();
                s.append("-");
                s.append(idx.as_str());
                proof {
                    assert(s@ =~= self.job@.image + "-"@ + spec_u64_string(index as nat));
                }
                s
            },
        }
    }
}

/// A parsed pipeline: its jobs and an optional trigger.
#[derive(Debug, Clone, PartialEq, Eq)]
pub struct Pipeline {
    pub jobs: Vec<Job>,
    pub on: Option<Trigger>,
}

/// The two shapes a pipeline document can take: a full pipeline or one
/// bare image-producing job.
#[derive(Debug, Clone, PartialEq, Eq)]
pub enum CicadaType {
    Pipeline(Pipeline),
    Image(Job),
}

/// Whether a trigger-filtered pipeline runs or is skipped.
#[derive(Debug, Clone, Copy, PartialEq, Eq, Structural)]
pub enum TriggerDecision {
    Proceed,
    Skip,
}

/// The one trigger shape this core refuses to evaluate.
#[derive(Debug, Clone, Copy, PartialEq, Eq, Structural)]
pub enum TriggerError {
    DenoFunctionUnsupported,
}

impl TriggerError {
    /// The message shown for this error.
    pub fn message(&self) -> (r: &'static str)
        ensures
            r@ == "TypeScript trigger functions are unimplemented"@,
    {
        "TypeScript trigger functions are unimplemented"
    }
}

/// A branch filter skips the run when it lists branches for the current
/// event and the base ref is not among them; an empty list does not filter.
pub open spec fn spec_should_skip(
    push: Seq<Seq<char>>,
    pull_request: Seq<Seq<char>>,
    event: Seq<char>,
    base_ref: Seq<char>,
) -> bool {
    ||| (event == "push"@ && push.len() > 0 && !push.contains(base_ref))
    ||| (event == "pull_request"@ && pull_request.len() > 0 && !pull_request.contains(base_ref))
}

/// The trigger decision: without git event information the pipeline always
/// runs; with it, a branch-filtered trigger may skip the run, and a
/// script-function trigger is refused.
pub open spec fn spec_evaluate_trigger(
    on: Option<TriggerV>,
    git_event: Option<(Seq<char>, Seq<char>)>,
) -> Result<TriggerDecision, TriggerError> {
    match git_event {
        None => Ok(TriggerDecision::Proceed),
        Some((event, base_ref)) => match on {
            None => Ok(TriggerDecision::Proceed),
            Some(TriggerV::DenoFunction) => Err(TriggerError::DenoFunctionUnsupported),
            Some(TriggerV::Options { push, pull_request }) => {
                if spec_should_skip(push, pull_request, event, base_ref) {
                    Ok(TriggerDecision::Skip)
                } else {
                    Ok(TriggerDecision::Proceed)
                }
            },
        },
    }
}

/// Decide whether the pipeline runs, given its declared trigger and the
/// git event and base ref found in the environment, if any.
pub fn evaluate_trigger(on: &Option<Trigger>, git_event: &Option<(String, String)>) -> (r: Result<
    TriggerDecision,
    TriggerError,
>)
    ensures
        r == spec_evaluate_trigger(
            match on {
                Some(t) => Some(t@),
                None => None,
            },
            match git_event {
                Some(p) => Some((p.0@, p.1@)),
                None => None,
            },
        ),
{
    match git_event {
        None => Ok(TriggerDecision::Proceed),
        Some(pair) => {
            let event = &pair.0;
            let base_ref = &pair.1;
            match on {
                None => Ok(TriggerDecision::Proceed),
                Some(Trigger::DenoFunction) => Err(TriggerError::DenoFunctionUnsupported),
                Some(Trigger::Options { push, pull_request }) => {
                    let is_push = str_eq(event.as_str(), "push");
                    let is_pr = str_eq(event.as_str(), "pull_request");
                    let skip = (is_push && push.len() > 0 && !contains_string(
                        push,
                        base_ref.as_str(),
                    )) || (is_pr && pull_request.len() > 0 && !contains_string(
                        pull_request,
                        base_ref.as_str(),
                    ));
                    if skip {
                        Ok(TriggerDecision::Skip)
                    } else {
                        Ok(TriggerDecision::Proceed)
                    }
                },
            }
        },
    }
}

/// The pipeline-skip exit code: distinct from success and from failure.
pub fn trigger_skip_exit_code() -> (r: u8)
    ensures
        r == 2,
{
    2
}

} // verus!
