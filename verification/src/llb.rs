//! The build-graph compiler: a resolved job becomes a self-contained build
//! recipe, an arena of layered operations whose last entry is the job's
//! final filesystem output.
//!
//! Operations are held in a vector; an operation refers to the operation it
//! layers on by index. The wire encoding of the recipe belongs to the build
//! backend and is not modeled here.

use crate::job::CacheDirectory;
use crate::job::CacheDirectoryV;
use crate::job::CacheSharing;
use crate::job::JobResolved;
use crate::job::JobV;
use crate::job::Shell;
use crate::job::ShellV;
use crate::job::Step;
use crate::job::StepRun;
use crate::job::StepRunV;
use crate::job::StepV;
use crate::job::view_caches;
use crate::job::view_opt_string;
use crate::git::Github;
use crate::git::spec_repository;
use crate::util::clone_strings;
use crate::util::env_pair;
use crate::util::join_path;
use crate::util::join_space;
use crate::util::spec_env_pair;
use crate::util::spec_join_path;
use crate::util::spec_join_space;
use crate::util::spec_u64_string;
use crate::util::u64_to_string;
use crate::util::view_strings;
use vstd::prelude::*;

verus! {

/// The pinned version of the script runtime mounted into every step.
pub fn deno_version() -> (r: &'static str)
    ensures
        r@ == "1.32.5"@,
{
    "1.32.5"
}

/// How a cache mount may be shared among concurrent builds; `Shared` is the
/// backend's default.
#[derive(Debug, Clone, Copy, PartialEq, Eq, Structural)]
pub enum CacheSharingMode {
    Shared,
    Private,
    Locked,
}

impl From<CacheSharing> for CacheSharingMode {
    fn from(sharing: CacheSharing) -> (r: Self) {
        match sharing {
            CacheSharing::Shared => CacheSharingMode::Shared,
            CacheSharing::Private => CacheSharingMode::Private,
            CacheSharing::Locked => CacheSharingMode::Locked,
        }
    }
}

impl vstd::std_specs::convert::FromSpecImpl<CacheSharing> for CacheSharingMode {
    open spec fn obeys_from_spec() -> bool {
        true
    }

    open spec fn from_spec(sharing: CacheSharing) -> Self {
        match sharing {
            CacheSharing::Shared => CacheSharingMode::Shared,
            CacheSharing::Private => CacheSharingMode::Private,
            CacheSharing::Locked => CacheSharingMode::Locked,
        }
    }
}

/// The effective sharing mode of a cache declaration: its declared mode, or
/// the backend default.
pub open spec fn spec_sharing_mode(s: Option<CacheSharing>) -> CacheSharingMode {
    match s {
        None => CacheSharingMode::Shared,
        Some(CacheSharing::Shared) => CacheSharingMode::Shared,
        Some(CacheSharing::Private) => CacheSharingMode::Private,
        Some(CacheSharing::Locked) => CacheSharingMode::Locked,
    }
}

/// One mount attached to an exec operation.
#[derive(Debug, Clone, PartialEq, Eq)]
pub enum Mount {
    /// The filesystem produced by an earlier operation, mounted at `dest`;
    /// `selector` restricts the mount to a sub-path of the source.
    Layer { source_op: usize, dest: String, readonly: bool, selector: Option<String> },
    /// A persistent cache directory mounted at its own path.
    Cache { path: String, sharing: CacheSharingMode },
    /// A secret value exposed as a file at `dest`.
    Secret { dest: String, id: String },
}

/// Ghost mirror of [`Mount`].
pub ghost enum MountV {
    Layer { source_op: int, dest: Seq<char>, readonly: bool, selector: Option<Seq<char>> },
    Cache { path: Seq<char>, sharing: CacheSharingMode },
    Secret { dest: Seq<char>, id: Seq<char> },
}

impl View for Mount {
    type V = MountV;

    open spec fn view(&self) -> MountV {
        match self {
            Mount::Layer { source_op, dest, readonly, selector } => MountV::Layer {
                source_op: *source_op as int,
                dest: dest@,
                readonly: *readonly,
                selector: view_opt_string(*selector),
            },
            Mount::Cache { path, sharing } => MountV::Cache { path: path@, sharing: *sharing },
            Mount::Secret { dest, id } => MountV::Secret { dest: dest@, id: id@ },
        }
    }
}

/// One operation of the build recipe.
#[derive(Debug, Clone, PartialEq, Eq)]
pub enum BuildOp {
    /// The project source tree as seen by the backend, with the ignore
    /// patterns applied to it.
    Local { name: String, excludes: Vec<String> },
    /// An image layer, pinned to the fixed `linux/amd64` platform.
    Image {
        reference: String,
        custom_name: Option<String>,
        prefer_local_cache: bool,
        from_local_store: bool,
    },
    /// A command executed on top of a root mount, producing a new layer.
    Exec {
        args: Vec<String>,
        cwd: String,
        env: Vec<String>,
        mounts: Vec<Mount>,
        custom_name: String,
        ignore_cache: bool,
    },
}

/// Ghost mirror of [`BuildOp`].
pub ghost enum BuildOpV {
    Local { name: Seq<char>, excludes: Seq<Seq<char>> },
    Image {
        reference: Seq<char>,
        custom_name: Option<Seq<char>>,
        prefer_local_cache: bool,
        from_local_store: bool,
    },
    Exec {
        args: Seq<Seq<char>>,
        cwd: Seq<char>,
        env: Seq<Seq<char>>,
        mounts: Seq<MountV>,
        custom_name: Seq<char>,
        ignore_cache: bool,
    },
}

impl View for BuildOp {
    type V = BuildOpV;

    open spec fn view(&self) -> BuildOpV {
        match self {
            BuildOp::Local { name, excludes } => BuildOpV::Local {
                name: name@,
                excludes: view_strings(excludes@),
            },
            BuildOp::Image { reference, custom_name, prefer_local_cache, from_local_store } => {
                BuildOpV::Image {
                    reference: reference@,
                    custom_name: view_opt_string(*custom_name),
                    prefer_local_cache: *prefer_local_cache,
                    from_local_store: *from_local_store,
                }
            },
            BuildOp::Exec { args, cwd, env, mounts, custom_name, ignore_cache } => {
                BuildOpV::Exec {
                    args: view_strings(args@),
                    cwd: cwd@,
                    env: view_strings(env@),
                    mounts: mounts@.map_values(|m: Mount| m@),
                    custom_name: custom_name@,
                    ignore_cache: *ignore_cache,
                }
            },
        }
    }
}

/// A compiled build recipe: the operation arena and the index of the
/// operation whose output is the job's result.
#[derive(Debug, Clone, PartialEq, Eq)]
pub struct Definition {
    pub ops: Vec<BuildOp>,
    pub output: usize,
}

/// Ghost mirror of [`Definition`].
pub ghost struct DefinitionV {
    pub ops: Seq<BuildOpV>,
    pub output: int,
}

impl View for Definition {
    type V = DefinitionV;

    open spec fn view(&self) -> DefinitionV {
        DefinitionV { ops: self.ops@.map_values(|o: BuildOp| o@), output: self.output as int }
    }
}

/// The argv a step runs: a command wrapped in its shell, a verbatim argv,
/// or the runner's re-entrant step invocation.
pub open spec fn spec_step_args(
    run: StepRunV,
    shell: Option<ShellV>,
    job_index: nat,
    step_index: nat,
) -> Seq<Seq<char>> {
    match run {
        StepRunV::Command { command } => match shell {
            Some(ShellV::Bash) => seq!["/bin/bash"@, "-c"@, command],
            Some(ShellV::Args { args }) => args.push(command),
            _ => seq!["/bin/sh"@, "-c"@, command],
        },
        StepRunV::Args { args } => args,
        StepRunV::DenoFunction => seq![
            "cicada"@,
            "step"@,
            spec_u64_string(job_index),
            spec_u64_string(step_index),
        ],
    }
}

/// The display name of a step: its declared name annotated with position
/// and command, or a name synthesized from the command text or position.
pub open spec fn spec_step_custom_name(
    name: Option<Seq<char>>,
    run: StepRunV,
    step_index: nat,
) -> Seq<char> {
    let idx = spec_u64_string(step_index);
    match name {
        Some(n) => match run {
            StepRunV::Command { command } => n + " ("@ + idx + "): "@ + command,
            StepRunV::Args { args } => n + " ("@ + idx + "): "@ + spec_join_space(args),
            StepRunV::DenoFunction => n + " ("@ + idx + ")"@,
        },
        None => match run {
            StepRunV::Command { command } => command,
            StepRunV::Args { args } => spec_join_space(args),
            StepRunV::DenoFunction => "Step "@ + idx,
        },
    }
}

/// The working directory of a step: its own, resolved against the job's.
pub open spec fn spec_step_cwd(wd: Option<Seq<char>>, parent_wd: Seq<char>) -> Seq<char> {
    match wd {
        Some(w) => spec_join_path(parent_wd, w),
        None => parent_wd,
    }
}

/// The cache mount of one cache declaration, resolved against the step's
/// working directory.
pub open spec fn spec_cache_mount(c: CacheDirectoryV, cwd: Seq<char>) -> MountV {
    MountV::Cache { path: spec_join_path(cwd, c.path), sharing: spec_sharing_mode(c.sharing) }
}

/// The secret mount of one secret name, under the fixed secrets root.
pub open spec fn spec_secret_mount(name: Seq<char>) -> MountV {
    MountV::Secret { dest: spec_join_path("/run/secrets"@, name), id: name }
}

/// The root-filesystem mount layering a step on its predecessor's output.
pub open spec fn spec_root_mount(source_op: int) -> MountV {
    MountV::Layer { source_op: source_op, dest: "/"@, readonly: false, selector: None }
}

/// The script runtime's dependency cache mount.
pub open spec fn spec_deno_cache_mount() -> MountV {
    MountV::Cache { path: "/root/.cache/deno"@, sharing: CacheSharingMode::Shared }
}

/// The read-only mount exposing the script runtime binary to every step.
pub open spec fn spec_deno_bin_mount() -> MountV {
    MountV::Layer {
        source_op: 2,
        dest: "/usr/local/bin/deno"@,
        readonly: true,
        selector: Some("/deno"@),
    }
}

/// The read-only mount exposing the runner binary to every step.
pub open spec fn spec_cicada_bin_mount() -> MountV {
    MountV::Layer {
        source_op: 3,
        dest: "/usr/local/bin/cicada"@,
        readonly: true,
        selector: Some("/cicada"@),
    }
}

/// The `key=value` entries of an environment list.
pub open spec fn spec_env_list(pairs: Seq<(Seq<char>, Seq<char>)>) -> Seq<Seq<char>> {
    pairs.map_values(|p: (Seq<char>, Seq<char>)| spec_env_pair(p.0, p.1))
}

/// All mounts of a step, in order: the root layer, the step's caches, the
/// job's caches, the script runtime's dependency cache for re-entrant
/// steps, the step's secrets, and the two tool binaries.
pub open spec fn spec_step_mounts(
    step: StepV,
    parent_caches: Seq<CacheDirectoryV>,
    cwd: Seq<char>,
    root_source: int,
) -> Seq<MountV> {
    seq![spec_root_mount(root_source)] + step.cache_directories.map_values(
        |c: CacheDirectoryV| spec_cache_mount(c, cwd),
    ) + parent_caches.map_values(|c: CacheDirectoryV| spec_cache_mount(c, cwd)) + (
    if step.run is DenoFunction {
        seq![spec_deno_cache_mount()]
    } else {
        Seq::<MountV>::empty()
    }) + step.secrets.map_values(|s: Seq<char>| spec_secret_mount(s)) + seq![
        spec_deno_bin_mount(),
        spec_cicada_bin_mount(),
    ]
}

/// The exec operation one step compiles to.
pub open spec fn spec_step_exec(
    step: StepV,
    parent_caches: Seq<CacheDirectoryV>,
    parent_wd: Seq<char>,
    base_env: Seq<Seq<char>>,
    job_index: nat,
    step_index: nat,
    root_source: int,
) -> BuildOpV {
    let cwd = spec_step_cwd(step.working_directory, parent_wd);
    BuildOpV::Exec {
        args: spec_step_args(step.run, step.shell, job_index, step_index),
        cwd: cwd,
        env: spec_env_list(step.env) + base_env,
        mounts: spec_step_mounts(step, parent_caches, cwd, root_source),
        custom_name: spec_step_custom_name(step.name, step.run, step_index),
        ignore_cache: step.ignore_cache == Some(true),
    }
}

impl CacheDirectory {
    /// The cache mount of this declaration, resolved against the working
    /// directory in force at the step that carries it.
    pub fn to_mount(&self, working_directory: &str) -> (r: Mount)
        ensures
            r@ == spec_cache_mount(self@, working_directory@),
    {
        let path = join_path(working_directory, self.path.as_str());
        let sharing = match self.sharing {
            None => CacheSharingMode::Shared,
            Some(CacheSharing::Shared) => CacheSharingMode::Shared,
            Some(CacheSharing::Private) => CacheSharingMode::Private,
            Some(CacheSharing::Locked) => CacheSharingMode::Locked,
        };
        Mount::Cache { path, sharing }
    }
}

impl Step {
    /// Compile one step into its exec operation.
    #[verifier::rlimit(100)]
    pub fn to_exec(
        &self,
        parent_caches: &Vec<CacheDirectory>,
        parent_wd: &str,
        base_env: &Vec<String>,
        job_index: usize,
        step_index: usize,
        root_source: usize,
    ) -> (r: BuildOp)
        ensures
            r@ == spec_step_exec(
                self@,
                view_caches(parent_caches@),
                parent_wd@,
                view_strings(base_env@),
                job_index as nat,
                step_index as nat,
                root_source as int,
            ),
    {
        let ghost sv = self@;

        // The argv.
        let mut args: Vec<String> = Vec::new();
        match &self.run {
            StepRun::Command { command } => match &self.shell {
                Some(Shell::Bash) => {
                    args.push(String::from_str("/bin/bash"));
                    args.push(String::from_str("-c"));
                    args.push(command.clone());
                },
                Some(Shell::Args { args: shell_args }) => {
                    args = clone_strings(shell_args);
                    args.push(command.clone());
                },
                _ => {
                    args.push(String::from_str("/bin/sh"));
                    args.push(String::from_str("-c"));
                    args.push(command.clone());
                },
            },
            StepRun::Args { args: run_args } => {
                args = clone_strings(run_args);
            },
            StepRun::DenoFunction => {
                args.push(String::from_str("cicada"));
                args.push(String::from_str("step"));
                args.push(u64_to_string(job_index as u64));
                args.push(u64_to_string(step_index as u64));
            },
        }
        proof {
            assert(view_strings(args@) =~= spec_step_args(
                sv.run,
                sv.shell,
                job_index as nat,
                step_index as nat,
            ));
        }

        // The display name.
        let idx = u64_to_string(step_index as u64);
        let custom_name: String = match (&self.name, &self.run) {
            (Some(name), StepRun::Command { command }) => {
                let mut s = name.clone();
                s.append(" (");
                s.append(idx.as_str());
                s.append("): ");
                s.append(command.as_str());
                s
            },
            (Some(name), StepRun::Args { args: run_args }) => {
                let mut s = name.clone();
                s.append(" (");
                s.append(idx.as_str());
                s.append("): ");
                let joined = join_space(run_args);
                s.append(joined.as_str());
                s
            },
            (Some(name), StepRun::DenoFunction) => {
                let mut s = name.clone();
                s.append(" (");
                s.append(idx.as_str());
                s.append(")");
                s
            },
            (None, StepRun::Command { command }) => command.clone(),
            (None, StepRun::Args { args: run_args }) => join_space(run_args),
            (None, StepRun::DenoFunction) => {
                let mut s = String::from_str("Step ");
                s.append(idx.as_str());
                s
            },
        };
        proof {
            assert(custom_name@ =~= spec_step_custom_name(sv.name, sv.run, step_index as nat));
        }

        // The working directory.
        let cwd: String = match &self.working_directory {
            Some(w) => join_path(parent_wd, w.as_str()),
            None => String::from_str(parent_wd),
        };
        let ghost cwdv = spec_step_cwd(sv.working_directory, parent_wd@);
        proof {
            assert(cwd@ == cwdv);
        }

        // The mounts, tracked as a growing prefix of the expected list.
        let ghost expected_mounts = spec_step_mounts(
            sv,
            view_caches(parent_caches@),
            cwdv,
            root_source as int,
        );
        let ghost n_step_caches = sv.cache_directories.len() as int;
        let ghost n_parent_caches = view_caches(parent_caches@).len() as int;
        let mut mounts: Vec<Mount> = Vec::new();
        mounts.push(
            Mount::Layer {
                source_op: root_source,
                dest: String::from_str("/"),
                readonly: false,
                selector: None,
            },
        );
        proof {
            assert(expected_mounts[0] == spec_root_mount(root_source as int));
            assert(mounts@[0]@ == spec_root_mount(root_source as int));
        }
        let mut i: usize = 0;
        while i < self.cache_directories.len()
            invariant
                sv == self@,
                cwdv == cwd@,
                expected_mounts == spec_step_mounts(
                    sv,
                    view_caches(parent_caches@),
                    cwdv,
                    root_source as int,
                ),
                n_step_caches == sv.cache_directories.len(),
                i <= n_step_caches,
                mounts@.len() == 1 + i,
                forall|m: int|
                    0 <= m < mounts@.len() ==> (#[trigger] mounts@[m]@) == expected_mounts[m],
            decreases self.cache_directories@.len() - i,
        {
            let c = &self.cache_directories[i];
            let path = join_path(cwd.as_str(), c.path.as_str());
            let sharing = match c.sharing {
                None => CacheSharingMode::Shared,
                Some(CacheSharing::Shared) => CacheSharingMode::Shared,
                Some(CacheSharing::Private) => CacheSharingMode::Private,
                Some(CacheSharing::Locked) => CacheSharingMode::Locked,
            };
            mounts.push(Mount::Cache { path, sharing });
            proof {
                assert(expected_mounts[1 + i] == spec_cache_mount(
                    sv.cache_directories[i as int],
                    cwdv,
                ));
            }
            i += 1;
        }
        let mut i: usize = 0;
        while i < parent_caches.len()
            invariant
                sv == self@,
                cwdv == cwd@,
                expected_mounts == spec_step_mounts(
                    sv,
                    view_caches(parent_caches@),
                    cwdv,
                    root_source as int,
                ),
                n_step_caches == sv.cache_directories.len(),
                n_parent_caches == view_caches(parent_caches@).len(),
                i <= n_parent_caches,
                mounts@.len() == 1 + n_step_caches + i,
                forall|m: int|
                    0 <= m < mounts@.len() ==> (#[trigger] mounts@[m]@) == expected_mounts[m],
            decreases parent_caches@.len() - i,
        {
            let c = &parent_caches[i];
            let path = join_path(cwd.as_str(), c.path.as_str());
            let sharing = match c.sharing {
                None => CacheSharingMode::Shared,
                Some(CacheSharing::Shared) => CacheSharingMode::Shared,
                Some(CacheSharing::Private) => CacheSharingMode::Private,
                Some(CacheSharing::Locked) => CacheSharingMode::Locked,
            };
            mounts.push(Mount::Cache { path, sharing });
            proof {
                assert(expected_mounts[1 + n_step_caches + i] == spec_cache_mount(
                    view_caches(parent_caches@)[i as int],
                    cwdv,
                ));
            }
            i += 1;
        }
        let is_deno = match &self.run {
            StepRun::DenoFunction => true,
            _ => false,
        };
        if is_deno {
            mounts.push(
                Mount::Cache {
                    path: String::from_str("/root/.cache/deno"),
                    sharing: CacheSharingMode::Shared,
                },
            );
            proof {
                assert(expected_mounts[1 + n_step_caches + n_parent_caches]
                    == spec_deno_cache_mount());
            }
        }
        let ghost n_deno: int = if is_deno {
            1int
        } else {
            0int
        };
        let ghost base_mounts = 1 + n_step_caches + n_parent_caches + n_deno;
        let mut i: usize = 0;
        while i < self.secrets.len()
            invariant
                sv == self@,
                expected_mounts == spec_step_mounts(
                    sv,
                    view_caches(parent_caches@),
                    cwdv,
                    root_source as int,
                ),
                base_mounts == 1 + n_step_caches + n_parent_caches + n_deno,
                n_step_caches == sv.cache_directories.len(),
                n_parent_caches == view_caches(parent_caches@).len(),
                n_deno == (if sv.run is DenoFunction { 1int } else { 0int }),
                i <= self.secrets@.len(),
                mounts@.len() == base_mounts + i,
                forall|m: int|
                    0 <= m < mounts@.len() ==> (#[trigger] mounts@[m]@) == expected_mounts[m],
            decreases self.secrets@.len() - i,
        {
            let name = &self.secrets[i];
            let dest = join_path("/run/secrets", name.as_str());
            mounts.push(Mount::Secret { dest, id: name.clone() });
            proof {
                assert(expected_mounts[base_mounts + i] == spec_secret_mount(
                    sv.secrets[i as int],
                ));
            }
            i += 1;
        }
        mounts.push(
            Mount::Layer {
                source_op: 2,
                dest: String::from_str("/usr/local/bin/deno"),
                readonly: true,
                selector: Some(String::from_str("/deno")),
            },
        );
        mounts.push(
            Mount::Layer {
                source_op: 3,
                dest: String::from_str("/usr/local/bin/cicada"),
                readonly: true,
                selector: Some(String::from_str("/cicada")),
            },
        );
        proof {
            let nsec = sv.secrets.len() as int;
            assert(expected_mounts.len() == base_mounts + nsec + 2);
            assert(expected_mounts[base_mounts + nsec] == spec_deno_bin_mount());
            assert(expected_mounts[base_mounts + nsec + 1] == spec_cicada_bin_mount());
            assert(mounts@.map_values(|m: Mount| m@) =~= expected_mounts);
        }

        // The environment: the step's entries, then the job-level ones.
        let ghost expected_env = spec_env_list(sv.env) + view_strings(base_env@);
        let mut env: Vec<String> = Vec::new();
        let mut i: usize = 0;
        while i < self.env.len()
            invariant
                sv == self@,
                expected_env == spec_env_list(sv.env) + view_strings(base_env@),
                i <= self.env@.len(),
                env@.len() == i,
                forall|m: int|
                    0 <= m < env@.len() ==> (#[trigger] env@[m]@) == expected_env[m],
            decreases self.env@.len() - i,
        {
            let pair = &self.env[i];
            env.push(env_pair(pair.0.as_str(), pair.1.as_str()));
            proof {
                assert(expected_env[i as int] == spec_env_pair(
                    sv.env[i as int].0,
                    sv.env[i as int].1,
                ));
            }
            i += 1;
        }
        let mut i: usize = 0;
        let ghost n_step_env = sv.env.len() as int;
        while i < base_env.len()
            invariant
                sv == self@,
                expected_env == spec_env_list(sv.env) + view_strings(base_env@),
                n_step_env == sv.env.len(),
                i <= base_env@.len(),
                env@.len() == n_step_env + i,
                forall|m: int|
                    0 <= m < env@.len() ==> (#[trigger] env@[m]@) == expected_env[m],
            decreases base_env@.len() - i,
        {
            env.push(base_env[i].clone());
            proof {
                assert(expected_env[n_step_env + i] == view_strings(base_env@)[i as int]);
            }
            i += 1;
        }
        proof {
            assert(view_strings(env@) =~= expected_env);
        }

        let ignore_cache = match self.ignore_cache {
            Some(true) => true,
            _ => false,
        };

        let r = BuildOp::Exec { args, cwd, env, mounts, custom_name, ignore_cache };
        proof {
            assert(r@ == spec_step_exec(
                sv,
                view_caches(parent_caches@),
                parent_wd@,
                view_strings(base_env@),
                job_index as nat,
                step_index as nat,
                root_source as int,
            ));
        }
        r
    }
}


/// The job-level working directory: the declared one, or the fixed default.
pub open spec fn spec_job_working_directory(wd: Option<Seq<char>>) -> Seq<char> {
    match wd {
        Some(w) => w,
        None => "/app"@,
    }
}

/// The pinned script-runtime image reference.
pub open spec fn spec_deno_image_ref() -> Seq<char> {
    "docker.io/denoland/deno:bin-"@ + "1.32.5"@
}

/// The runner image layered into every step: a local image when a custom
/// one was built, else the released runner image for this version.
pub open spec fn spec_cicada_image_op(
    cicada_image: Option<Seq<char>>,
    cicada_version: Seq<char>,
) -> BuildOpV {
    match cicada_image {
        Some(name) => BuildOpV::Image {
            reference: name,
            custom_name: None,
            prefer_local_cache: false,
            from_local_store: true,
        },
        None => BuildOpV::Image {
            reference: "docker.io/cicadahq/cicada-bin:"@ + cicada_version,
            custom_name: None,
            prefer_local_cache: false,
            from_local_store: false,
        },
    }
}

/// The operation copying the local source tree into the working directory
/// on top of the base image.
pub open spec fn spec_local_cp_op(wd: Seq<char>) -> BuildOpV {
    BuildOpV::Exec {
        args: seq!["/bin/sh"@, "-c"@, "mkdir -p "@ + wd + " && cp -r /local/. "@ + wd],
        cwd: Seq::empty(),
        env: Seq::empty(),
        mounts: seq![
            MountV::Layer { source_op: 1, dest: "/"@, readonly: false, selector: None },
            MountV::Layer { source_op: 0, dest: "/local"@, readonly: true, selector: None },
        ],
        custom_name: "Copy local files"@,
        ignore_cache: false,
    }
}

/// The job-level environment: the image's own declared environment, the
/// fixed markers, the repository identity when known, then the job's own
/// entries, so that later entries win under last-write-wins resolution.
pub open spec fn spec_base_env(
    image_env: Seq<Seq<char>>,
    wd: Seq<char>,
    module_name: Seq<char>,
    github: Option<(Seq<char>, Seq<char>)>,
    job_env: Seq<(Seq<char>, Seq<char>)>,
) -> Seq<Seq<char>> {
    image_env + seq![
        "CI=1"@,
        "CICADA_PIPELINE_FILE="@ + wd + "/.cicada/"@ + module_name,
        "CICADA_JOB=1"@,
    ] + (match github {
        Some(g) => seq!["GITHUB_REPOSITORY="@ + spec_repository(g.0, g.1)],
        None => Seq::<Seq<char>>::empty(),
    }) + spec_env_list(job_env)
}

/// The whole compiled recipe of one resolved job: the local source, the
/// three images, the copy step, then one exec per declared step, each
/// layered on its predecessor; the last operation is the output.
pub open spec fn spec_to_llb(
    job: JobV,
    image_env: Seq<Seq<char>>,
    reference: Seq<char>,
    module_name: Seq<char>,
    github: Option<(Seq<char>, Seq<char>)>,
    excludes: Seq<Seq<char>>,
    job_index: nat,
    cicada_image: Option<Seq<char>>,
    cicada_version: Seq<char>,
) -> DefinitionV {
    let wd = spec_job_working_directory(job.working_directory);
    let base_env = spec_base_env(image_env, wd, module_name, github, job.env);
    DefinitionV {
        ops: seq![
            BuildOpV::Local { name: "local"@, excludes: excludes },
            BuildOpV::Image {
                reference: reference,
                custom_name: job.name,
                prefer_local_cache: true,
                from_local_store: false,
            },
            BuildOpV::Image {
                reference: spec_deno_image_ref(),
                custom_name: None,
                prefer_local_cache: false,
                from_local_store: false,
            },
            spec_cicada_image_op(cicada_image, cicada_version),
            spec_local_cp_op(wd),
        ] + Seq::new(
            job.steps.len(),
            |i: int|
                spec_step_exec(
                    job.steps[i],
                    job.cache_directories,
                    wd,
                    base_env,
                    job_index,
                    i as nat,
                    4 + i,
                ),
        ),
        output: 4 + job.steps.len() as int,
    }
}

impl JobResolved {
    /// Compile this job into its build recipe.
    ///
    /// `excludes` is the pattern list read from the project's ignore file,
    /// if any; `module_name` names the pipeline file; `cicada_image` is a
    /// locally built runner image overriding the released one.
    #[verifier::rlimit(100)]
    pub fn to_llb(
        &self,
        module_name: &str,
        excludes: &Vec<String>,
        github: &Option<Github>,
        job_index: usize,
        cicada_image: &Option<String>,
        cicada_version: &str,
    ) -> (r: Definition)
        requires
            self.job@.name is Some,
            self.job@.steps.len() + 5 <= usize::MAX,
        ensures
            r@ == spec_to_llb(
                self.job@,
                view_strings(self.image_info.config.env@),
                crate::image::spec_canonical(self.image_reference@),
                module_name@,
                match github {
                    Some(g) => Some((g.owner@, g.repo@)),
                    None => None,
                },
                view_strings(excludes@),
                job_index as nat,
                view_opt_string(*cicada_image),
                cicada_version@,
            ),
            r@.output == r@.ops.len() - 1,
    {
        let ghost jv = self.job@;
        let ghost githubv: Option<(Seq<char>, Seq<char>)> = match github {
            Some(g) => Some((g.owner@, g.repo@)),
            None => None,
        };
        let ghost expected = spec_to_llb(
            jv,
            view_strings(self.image_info.config.env@),
            crate::image::spec_canonical(self.image_reference@),
            module_name@,
            githubv,
            view_strings(excludes@),
            job_index as nat,
            view_opt_string(*cicada_image),
            cicada_version@,
        );

        let wd: String = match &self.job.working_directory {
            Some(w) => w.clone(),
            None => String::from_str("/app"),
        };
        let ghost wdv = spec_job_working_directory(jv.working_directory);
        proof {
            assert(wd@ == wdv);
        }

        // The job-level environment.
        let mut base_env: Vec<String> = clone_strings(&self.image_info.config.env);
        base_env.push(String::from_str("CI=1"));
        let mut pipeline_file = String::from_str("CICADA_PIPELINE_FILE=");
        pipeline_file.append(wd.as_str());
        pipeline_file.append("/.cicada/");
        pipeline_file.append(module_name);
        base_env.push(pipeline_file);
        base_env.push(String::from_str("CICADA_JOB=1"));
        match github {
            Some(g) => {
                let mut s = String::from_str("GITHUB_REPOSITORY=");
                let repo = g.repository();
                s.append(repo.as_str());
                base_env.push(s);
            },
            None => {},
        }
        let ghost n_prefix_env = base_env@.len() as int;
        let ghost base_env_expected = spec_base_env(
            view_strings(self.image_info.config.env@),
            wdv,
            module_name@,
            githubv,
            jv.env,
        );
        proof {
            assert(forall|m: int|
                0 <= m < n_prefix_env ==> (#[trigger] base_env@[m]@) == base_env_expected[m]);
        }
        let mut i: usize = 0;
        while i < self.job.env.len()
            invariant
                jv == self.job@,
                base_env_expected == spec_base_env(
                    view_strings(self.image_info.config.env@),
                    wdv,
                    module_name@,
                    githubv,
                    jv.env,
                ),
                n_prefix_env == base_env_expected.len() - jv.env.len(),
                i <= self.job.env@.len(),
                base_env@.len() == n_prefix_env + i,
                forall|m: int|
                    0 <= m < base_env@.len() ==> (#[trigger] base_env@[m]@)
                        == base_env_expected[m],
            decreases self.job.env@.len() - i,
        {
            let pair = &self.job.env[i];
            base_env.push(env_pair(pair.0.as_str(), pair.1.as_str()));
            proof {
                assert(base_env_expected[n_prefix_env + i] == spec_env_pair(
                    jv.env[i as int].0,
                    jv.env[i as int].1,
                ));
            }
            i += 1;
        }
        proof {
            assert(view_strings(base_env@) =~= base_env_expected);
        }

        // The operation arena.
        let mut ops: Vec<BuildOp> = Vec::new();
        ops.push(
            BuildOp::Local { name: String::from_str("local"), excludes: clone_strings(excludes) },
        );
        let base_name: Option<String> = match &self.job.name {
            Some(n) => Some(n.clone()),
            None => None,
        };
        ops.push(
            BuildOp::Image {
                reference: self.image_reference.canonical(),
                custom_name: base_name,
                prefer_local_cache: true,
                from_local_store: false,
            },
        );
        let mut deno_ref = String::from_str("docker.io/denoland/deno:bin-");
        deno_ref.append(deno_version());
        ops.push(
            BuildOp::Image {
                reference: deno_ref,
                custom_name: None,
                prefer_local_cache: false,
                from_local_store: false,
            },
        );
        match cicada_image {
            Some(name) => {
                ops.push(
                    BuildOp::Image {
                        reference: name.clone(),
                        custom_name: None,
                        prefer_local_cache: false,
                        from_local_store: true,
                    },
                );
            },
            None => {
                let mut cicada_ref = String::from_str("docker.io/cicadahq/cicada-bin:");
                cicada_ref.append(cicada_version);
                ops.push(
                    BuildOp::Image {
                        reference: cicada_ref,
                        custom_name: None,
                        prefer_local_cache: false,
                        from_local_store: false,
                    },
                );
            },
        }
        let mut cp_args: Vec<String> = Vec::new();
        cp_args.push(String::from_str("/bin/sh"));
        cp_args.push(String::from_str("-c"));
        let mut cp_cmd = String::from_str("mkdir -p ");
        cp_cmd.append(wd.as_str());
        cp_cmd.append(" && cp -r /local/. ");
        cp_cmd.append(wd.as_str());
        cp_args.push(cp_cmd);
        let mut cp_mounts: Vec<Mount> = Vec::new();
        cp_mounts.push(
            Mount::Layer {
                source_op: 1,
                dest: String::from_str("/"),
                readonly: false,
                selector: None,
            },
        );
        cp_mounts.push(
            Mount::Layer {
                source_op: 0,
                dest: String::from_str("/local"),
                readonly: true,
                selector: None,
            },
        );
        ops.push(
            BuildOp::Exec {
                args: cp_args,
                cwd: String::new(),
                env: Vec::new(),
                mounts: cp_mounts,
                custom_name: String::from_str("Copy local files"),
                ignore_cache: false,
            },
        );
        proof {
            assert(expected.ops.len() == 5 + jv.steps.len());
            assert((ops@[0]@ matches BuildOpV::Local { excludes: e, .. } && e == view_strings(
                excludes@,
            )));
            assert(ops@[0]@ == expected.ops[0]);
            assert(ops@[1]@ == expected.ops[1]);
            assert(ops@[2]@->Image_reference =~= spec_deno_image_ref());
            assert(ops@[2]@ == expected.ops[2]);
            if cicada_image is Some {
                assert(ops@[3]@ == expected.ops[3]);
            } else {
                assert(ops@[3]@->Image_reference =~= "docker.io/cicadahq/cicada-bin:"@
                    + cicada_version@);
                assert(ops@[3]@ == expected.ops[3]);
            }
            assert(ops@[4]@->Exec_args =~= spec_local_cp_op(wdv)->Exec_args);
            assert(ops@[4]@->Exec_mounts =~= spec_local_cp_op(wdv)->Exec_mounts);
            assert(ops@[4]@->Exec_env =~= spec_local_cp_op(wdv)->Exec_env);
            assert(ops@[4]@->Exec_cwd =~= spec_local_cp_op(wdv)->Exec_cwd);
            assert(ops@[4]@ == expected.ops[4]);
        }

        // One exec per step, layered on the previous operation.
        let mut si: usize = 0;
        while si < self.job.steps.len()
            invariant
                jv == self.job@,
                wdv == wd@,
                wdv == spec_job_working_directory(jv.working_directory),
                view_strings(base_env@) == spec_base_env(
                    view_strings(self.image_info.config.env@),
                    wdv,
                    module_name@,
                    githubv,
                    jv.env,
                ),
                expected.ops.len() == 5 + jv.steps.len(),
                expected.ops == spec_to_llb(
                    jv,
                    view_strings(self.image_info.config.env@),
                    crate::image::spec_canonical(self.image_reference@),
                    module_name@,
                    githubv,
                    view_strings(excludes@),
                    job_index as nat,
                    view_opt_string(*cicada_image),
                    cicada_version@,
                ).ops,
                jv.steps.len() + 5 <= usize::MAX,
                si <= self.job.steps@.len(),
                ops@.len() == 5 + si,
                forall|m: int| 0 <= m < ops@.len() ==> (#[trigger] ops@[m]@) == expected.ops[m],
            decreases self.job.steps@.len() - si,
        {
            let step_op = self.job.steps[si].to_exec(
                &self.job.cache_directories,
                wd.as_str(),
                &base_env,
                job_index,
                si,
                4 + si,
            );
            ops.push(step_op);
            proof {
                assert(expected.ops[5 + si] == spec_step_exec(
                    jv.steps[si as int],
                    jv.cache_directories,
                    wdv,
                    spec_base_env(
                        view_strings(self.image_info.config.env@),
                        wdv,
                        module_name@,
                        githubv,
                        jv.env,
                    ),
                    job_index as nat,
                    si as nat,
                    4 + si,
                ));
            }
            si += 1;
        }
        let output = 4 + self.job.steps.len();
        let r = Definition { ops, output };
        proof {
            assert(r@.ops =~= expected.ops);
            assert(r@ == expected);
        }
        r
    }
}

/// Compilation is a pure function of its inputs: two compilations of the
/// same resolved job, under the same surroundings, yield the same recipe.
pub proof fn lemma_compile_deterministic(
    job: JobV,
    image_env: Seq<Seq<char>>,
    reference: Seq<char>,
    module_name: Seq<char>,
    github: Option<(Seq<char>, Seq<char>)>,
    excludes: Seq<Seq<char>>,
    job_index: nat,
    cicada_image: Option<Seq<char>>,
    cicada_version: Seq<char>,
    r1: DefinitionV,
    r2: DefinitionV,
)
    requires
        r1 == spec_to_llb(
            job,
            image_env,
            reference,
            module_name,
            github,
            excludes,
            job_index,
            cicada_image,
            cicada_version,
        ),
        r2 == spec_to_llb(
            job,
            image_env,
            reference,
            module_name,
            github,
            excludes,
            job_index,
            cicada_image,
            cicada_version,
        ),
    ensures
        r1 == r2,
{
}

/// What remains of an ignore file: each line with a trailing carriage
/// return removed, except empty lines and comment lines.
pub open spec fn spec_clean_line(line: Seq<char>) -> Seq<char> {
    if line.len() > 0 && line.last() == '\r' {
        line.drop_last()
    } else {
        line
    }
}

/// Whether a cleaned line is kept: nonempty and not a comment.
pub open spec fn spec_keep_line(line: Seq<char>) -> bool {
    spec_clean_line(line).len() > 0 && spec_clean_line(line)[0] != '#'
}

/// The exclude patterns collected from position `i` on, given the part of
/// the current line read so far and the lines already collected.
pub open spec fn spec_collect_ignore(
    s: Seq<char>,
    i: int,
    line: Seq<char>,
    out: Seq<Seq<char>>,
) -> Seq<Seq<char>>
    decreases s.len() - i,
{
    if i < 0 || i >= s.len() {
        if spec_keep_line(line) {
            out.push(spec_clean_line(line))
        } else {
            out
        }
    } else if s[i] == '\n' {
        spec_collect_ignore(
            s,
            i + 1,
            Seq::empty(),
            if spec_keep_line(line) {
                out.push(spec_clean_line(line))
            } else {
                out
            },
        )
    } else {
        spec_collect_ignore(s, i + 1, line.push(s[i]), out)
    }
}

/// The exclude patterns of an ignore file: its lines, with trailing
/// carriage returns stripped, skipping empty lines and `#` comments.
pub open spec fn spec_ignore_list(s: Seq<char>) -> Seq<Seq<char>> {
    spec_collect_ignore(s, 0, Seq::empty(), Seq::empty())
}

/// Parse an ignore file into its exclude patterns.
pub fn parse_ignore_file(contents: &str) -> (r: Vec<String>)
    ensures
        view_strings(r@) == spec_ignore_list(contents@),
{
    let n = contents.unicode_len();
    let mut out: Vec<String> = Vec::new();
    let mut start: usize = 0;
    let mut i: usize = 0;
    proof {
        assert(contents@.subrange(0, 0) =~= Seq::<char>::empty());
        assert(view_strings(out@) =~= Seq::<Seq<char>>::empty());
    }
    while i < n
        invariant
            n == contents@.len(),
            start <= i <= n,
            spec_collect_ignore(
                contents@,
                i as int,
                contents@.subrange(start as int, i as int),
                view_strings(out@),
            ) == spec_ignore_list(contents@),
        decreases n - i,
    {
        let c = contents.get_char(i);
        if c == '\n' {
            let line = contents.substring_char(start, i);
            push_kept_line(&mut out, line);
            start = i + 1;
            proof {
                assert(contents@.subrange(start as int, i as int + 1) =~= Seq::<char>::empty());
            }
        } else {
            proof {
                assert(contents@.subrange(start as int, i as int + 1) =~= contents@.subrange(
                    start as int,
                    i as int,
                ).push(contents@[i as int]));
            }
        }
        i += 1;
    }
    let line = contents.substring_char(start, n);
    push_kept_line(&mut out, line);
    out
}

/// Append one raw line to the pattern list if it is kept after cleaning.
fn push_kept_line(out: &mut Vec<String>, line: &str)
    ensures
        view_strings(final(out)@) == (if spec_keep_line(line@) {
            view_strings(old(out)@).push(spec_clean_line(line@))
        } else {
            view_strings(old(out)@)
        }),
{
    proof {
        reveal_strlit("\r");
        reveal_strlit("#");
    }
    let n = line.unicode_len();
    let cleaned: &str = if n > 0 && line.get_char(n - 1) == '\r' {
        let c = line.substring_char(0, n - 1);
        proof {
            assert(c@ =~= line@.drop_last());
        }
        c
    } else {
        line
    };
    proof {
        assert(cleaned@ == spec_clean_line(line@));
    }
    if cleaned.unicode_len() > 0 && cleaned.get_char(0) != '#' {
        out.push(String::from_str(cleaned));
        proof {
            assert(view_strings(out@) =~= view_strings(old(out)@).push(spec_clean_line(line@)));
        }
    } else {
        proof {
            assert(view_strings(out@) =~= view_strings(old(out)@));
        }
    }
}

} // verus!
