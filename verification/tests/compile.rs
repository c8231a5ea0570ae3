use cicada::git::Github;
use cicada::image::resolve_image_reference;
use cicada::image::ImageReferenceError;
use cicada::job::CacheDirectory;
use cicada::job::CacheSharing;
use cicada::job::InspectConfig;
use cicada::job::InspectInfo;
use cicada::job::Job;
use cicada::job::JobResolved;
use cicada::job::OnFail;
use cicada::job::Shell;
use cicada::job::Step;
use cicada::job::StepRun;
use cicada::llb::parse_ignore_file;
use cicada::llb::BuildOp;
use cicada::llb::CacheSharingMode;
use cicada::llb::Mount;
use cicada::util::digest;

fn step(run: StepRun) -> Step {
    Step {
        run,
        name: None,
        cache_directories: vec![],
        ignore_cache: None,
        env: vec![],
        secrets: vec![],
        working_directory: None,
        shell: None,
    }
}

fn job(steps: Vec<Step>) -> Job {
    Job {
        uuid: 1,
        image: String::from("node:18"),
        steps,
        name: Some(String::from("build")),
        env: vec![],
        cache_directories: vec![],
        working_directory: None,
        depends_on: vec![],
        on_fail: Some(OnFail::Stop),
    }
}

fn resolved(job: Job, image_env: Vec<String>) -> JobResolved {
    let reference = resolve_image_reference(&job.image).unwrap();
    JobResolved {
        job: Box::new(job),
        image_info: Box::new(InspectInfo {
            config: InspectConfig {
                hostname: None,
                domainname: None,
                user: None,
                env: image_env,
                cmd: vec![],
            },
        }),
        image_reference: reference,
    }
}

fn cache(path: &str) -> CacheDirectory {
    CacheDirectory { path: String::from(path), sharing: None }
}

#[test]
fn cache_mounts_resolve_against_the_step_directory() {
    // A job in /app with a job-level cache `cache`; the first step runs in
    // `sub` and declares its own cache `cache`.
    let mut s0 = step(StepRun::Command { command: String::from("make") });
    s0.working_directory = Some(String::from("sub"));
    s0.cache_directories = vec![cache("cache")];
    let s1 = step(StepRun::Command { command: String::from("make check") });
    let mut j = job(vec![s0, s1]);
    j.working_directory = Some(String::from("/app"));
    j.cache_directories = vec![cache("cache")];
    let def = resolved(j, vec![]).to_llb("p.ts", &vec![], &None, 0, &None, "0.4.0");

    let paths_of = |op: &BuildOp| -> Vec<String> {
        match op {
            BuildOp::Exec { mounts, .. } => mounts
                .iter()
                .filter_map(|m| match m {
                    Mount::Cache { path, .. } => Some(path.clone()),
                    _ => None,
                })
                .collect(),
            _ => panic!("expected an exec op"),
        }
    };
    // Step 0: its own cache and the job cache, both under /app/sub.
    assert_eq!(paths_of(&def.ops[5]), vec![String::from("/app/sub/cache"), String::from("/app/sub/cache")]);
    // Step 1 has no override: the job cache lands under /app.
    assert_eq!(paths_of(&def.ops[6]), vec![String::from("/app/cache")]);
}

#[test]
fn compiling_twice_yields_identical_recipes() {
    let mut s = step(StepRun::Command { command: String::from("npm ci") });
    s.secrets = vec![String::from("TOKEN")];
    s.env = vec![(String::from("K"), String::from("V"))];
    let j = job(vec![s]);
    let r = resolved(j, vec![String::from("PATH=/usr/bin")]);
    let gh = Some(Github { owner: String::from("acme"), repo: String::from("site") });
    let d1 = r.to_llb("p.ts", &vec![String::from("target")], &gh, 3, &None, "0.4.0");
    let d2 = r.to_llb("p.ts", &vec![String::from("target")], &gh, 3, &None, "0.4.0");
    assert_eq!(d1, d2);
}

#[test]
fn recipe_layout_and_base_ops() {
    let j = job(vec![step(StepRun::Command { command: String::from("true") })]);
    let def = resolved(j, vec![]).to_llb("ci.ts", &vec![String::from("node_modules")], &None, 0, &None, "0.4.0");
    assert_eq!(def.ops.len(), 6);
    assert_eq!(def.output, 5);
    match &def.ops[0] {
        BuildOp::Local { name, excludes } => {
            assert_eq!(name, "local");
            assert_eq!(excludes, &vec![String::from("node_modules")]);
        },
        _ => panic!("expected the local context"),
    }
    match &def.ops[1] {
        BuildOp::Image { reference, custom_name, prefer_local_cache, from_local_store } => {
            assert_eq!(reference, "docker.io/library/node:18");
            assert_eq!(custom_name.as_deref(), Some("build"));
            assert!(*prefer_local_cache);
            assert!(!*from_local_store);
        },
        _ => panic!("expected the base image"),
    }
    match &def.ops[2] {
        BuildOp::Image { reference, .. } => {
            assert_eq!(reference, "docker.io/denoland/deno:bin-1.32.5");
        },
        _ => panic!("expected the runtime image"),
    }
    match &def.ops[3] {
        BuildOp::Image { reference, from_local_store, .. } => {
            assert_eq!(reference, "docker.io/cicadahq/cicada-bin:0.4.0");
            assert!(!*from_local_store);
        },
        _ => panic!("expected the runner image"),
    }
    match &def.ops[4] {
        BuildOp::Exec { args, custom_name, .. } => {
            assert_eq!(
                args,
                &vec![
                    String::from("/bin/sh"),
                    String::from("-c"),
                    String::from("mkdir -p /app && cp -r /local/. /app"),
                ]
            );
            assert_eq!(custom_name, "Copy local files");
        },
        _ => panic!("expected the copy op"),
    }
}

#[test]
fn custom_runner_image_comes_from_the_local_store() {
    let j = job(vec![]);
    let custom = Some(String::from("docker.io/cicadahq/cicada-bin:dev"));
    let def = resolved(j, vec![]).to_llb("p.ts", &vec![], &None, 0, &custom, "0.4.0");
    match &def.ops[3] {
        BuildOp::Image { reference, from_local_store, .. } => {
            assert_eq!(reference, "docker.io/cicadahq/cicada-bin:dev");
            assert!(*from_local_store);
        },
        _ => panic!("expected the runner image"),
    }
    assert_eq!(def.output, 4);
}

fn exec_parts(op: &BuildOp) -> (Vec<String>, String, Vec<String>, Vec<Mount>, String, bool) {
    match op {
        BuildOp::Exec { args, cwd, env, mounts, custom_name, ignore_cache } => (
            args.clone(),
            cwd.clone(),
            env.clone(),
            mounts.clone(),
            custom_name.clone(),
            *ignore_cache,
        ),
        _ => panic!("expected an exec op"),
    }
}

#[test]
fn shell_selection_wraps_the_command() {
    let sh = step(StepRun::Command { command: String::from("echo hi") });
    let mut bash = step(StepRun::Command { command: String::from("echo hi") });
    bash.shell = Some(Shell::Bash);
    let mut custom = step(StepRun::Command { command: String::from("echo hi") });
    custom.shell = Some(Shell::Args { args: vec![String::from("zsh"), String::from("-c")] });
    let argv = step(StepRun::Args { args: vec![String::from("ls"), String::from("-l")] });
    let j = job(vec![sh, bash, custom, argv]);
    let def = resolved(j, vec![]).to_llb("p.ts", &vec![], &None, 0, &None, "0.4.0");
    assert_eq!(exec_parts(&def.ops[5]).0, vec!["/bin/sh", "-c", "echo hi"]);
    assert_eq!(exec_parts(&def.ops[6]).0, vec!["/bin/bash", "-c", "echo hi"]);
    assert_eq!(exec_parts(&def.ops[7]).0, vec!["zsh", "-c", "echo hi"]);
    assert_eq!(exec_parts(&def.ops[8]).0, vec!["ls", "-l"]);
}

#[test]
fn function_steps_reenter_the_runner_and_cache_its_runtime() {
    let j = job(vec![step(StepRun::DenoFunction)]);
    let def = resolved(j, vec![]).to_llb("p.ts", &vec![], &None, 7, &None, "0.4.0");
    let (args, _, _, mounts, custom_name, _) = exec_parts(&def.ops[5]);
    assert_eq!(args, vec!["cicada", "step", "7", "0"]);
    assert_eq!(custom_name, "Step 0");
    assert!(mounts.iter().any(|m| matches!(
        m,
        Mount::Cache { path, sharing: CacheSharingMode::Shared } if path == "/root/.cache/deno"
    )));
}

#[test]
fn step_display_names() {
    let mut named = step(StepRun::Command { command: String::from("npm ci") });
    named.name = Some(String::from("install"));
    let unnamed_args = step(StepRun::Args { args: vec![String::from("cargo"), String::from("test")] });
    let j = job(vec![named, unnamed_args]);
    let def = resolved(j, vec![]).to_llb("p.ts", &vec![], &None, 0, &None, "0.4.0");
    assert_eq!(exec_parts(&def.ops[5]).4, "install (0): npm ci");
    assert_eq!(exec_parts(&def.ops[6]).4, "cargo test");
}

#[test]
fn environment_layers_in_override_order() {
    let mut s = step(StepRun::Command { command: String::from("true") });
    s.env = vec![(String::from("STEP"), String::from("s"))];
    let mut j = job(vec![s]);
    j.env = vec![(String::from("JOB"), String::from("j"))];
    let gh = Some(Github { owner: String::from("acme"), repo: String::from("site") });
    let def = resolved(j, vec![String::from("FROM_IMAGE=1")]).to_llb("ci.ts", &vec![], &gh, 0, &None, "0.4.0");
    let env = exec_parts(&def.ops[5]).2;
    assert_eq!(
        env,
        vec![
            String::from("STEP=s"),
            String::from("FROM_IMAGE=1"),
            String::from("CI=1"),
            String::from("CICADA_PIPELINE_FILE=/app/.cicada/ci.ts"),
            String::from("CICADA_JOB=1"),
            String::from("GITHUB_REPOSITORY=acme/site"),
            String::from("JOB=j"),
        ]
    );
}

#[test]
fn secrets_mount_under_the_secrets_root() {
    let mut s = step(StepRun::Command { command: String::from("true") });
    s.secrets = vec![String::from("TOKEN")];
    let j = job(vec![s]);
    let def = resolved(j, vec![]).to_llb("p.ts", &vec![], &None, 0, &None, "0.4.0");
    let mounts = exec_parts(&def.ops[5]).3;
    assert!(mounts.iter().any(|m| matches!(
        m,
        Mount::Secret { dest, id } if dest == "/run/secrets/TOKEN" && id == "TOKEN"
    )));
}

#[test]
fn ignore_cache_marks_the_op() {
    let mut s = step(StepRun::Command { command: String::from("true") });
    s.ignore_cache = Some(true);
    let j = job(vec![s, step(StepRun::Command { command: String::from("true") })]);
    let def = resolved(j, vec![]).to_llb("p.ts", &vec![], &None, 0, &None, "0.4.0");
    assert!(exec_parts(&def.ops[5]).5);
    assert!(!exec_parts(&def.ops[6]).5);
}

#[test]
fn steps_layer_on_their_predecessor() {
    let j = job(vec![
        step(StepRun::Command { command: String::from("a") }),
        step(StepRun::Command { command: String::from("b") }),
    ]);
    let def = resolved(j, vec![]).to_llb("p.ts", &vec![], &None, 0, &None, "0.4.0");
    let root_of = |op: &BuildOp| -> usize {
        match op {
            BuildOp::Exec { mounts, .. } => match &mounts[0] {
                Mount::Layer { source_op, dest, readonly, .. } => {
                    assert_eq!(dest, "/");
                    assert!(!readonly);
                    *source_op
                },
                _ => panic!("expected a root layer"),
            },
            _ => panic!("expected an exec op"),
        }
    };
    assert_eq!(root_of(&def.ops[5]), 4);
    assert_eq!(root_of(&def.ops[6]), 5);
}

#[test]
fn sharing_modes_carry_over() {
    let mut s = step(StepRun::Command { command: String::from("true") });
    s.cache_directories = vec![
        CacheDirectory { path: String::from("/a"), sharing: Some(CacheSharing::Locked) },
        CacheDirectory { path: String::from("/b"), sharing: Some(CacheSharing::Private) },
        CacheDirectory { path: String::from("/c"), sharing: None },
    ];
    let j = job(vec![s]);
    let def = resolved(j, vec![]).to_llb("p.ts", &vec![], &None, 0, &None, "0.4.0");
    let mounts = exec_parts(&def.ops[5]).3;
    let modes: Vec<CacheSharingMode> = mounts
        .iter()
        .filter_map(|m| match m {
            Mount::Cache { sharing, .. } => Some(*sharing),
            _ => None,
        })
        .collect();
    assert_eq!(
        modes,
        vec![CacheSharingMode::Locked, CacheSharingMode::Private, CacheSharingMode::Shared]
    );
}

#[test]
fn absolute_paths_stand_alone() {
    // An absolute step directory ignores the job directory; an absolute
    // cache path ignores the step directory.
    let mut s = step(StepRun::Command { command: String::from("true") });
    s.working_directory = Some(String::from("/opt/work"));
    s.cache_directories = vec![cache("/var/cache")];
    let mut j = job(vec![s]);
    j.working_directory = Some(String::from("/app"));
    let def = resolved(j, vec![]).to_llb("p.ts", &vec![], &None, 0, &None, "0.4.0");
    let (_, cwd, _, mounts, _, _) = exec_parts(&def.ops[5]);
    assert_eq!(cwd, "/opt/work");
    assert!(mounts.iter().any(|m| matches!(
        m,
        Mount::Cache { path, .. } if path == "/var/cache"
    )));
}

#[test]
fn job_names() {
    let j = job(vec![]);
    let r = resolved(j, vec![]);
    assert_eq!(r.display_name(2), "build");
    assert_eq!(r.long_name(2), "build (node:18-2)");
    let mut unnamed = job(vec![]);
    unnamed.name = None;
    let r = resolved(unnamed, vec![]);
    assert_eq!(r.display_name(10), "node:18-10");
    assert_eq!(r.long_name(10), "node:18-10");
}

#[test]
fn ignore_files_drop_comments_and_blanks() {
    let parsed = parse_ignore_file("target\n#comment\n\nnode_modules\r\ndist");
    assert_eq!(
        parsed,
        vec![String::from("target"), String::from("node_modules"), String::from("dist")]
    );
    assert_eq!(parse_ignore_file(""), Vec::<String>::new());
    assert_eq!(parse_ignore_file("#only\n\n"), Vec::<String>::new());
}

#[test]
fn image_references_normalize() {
    let r = resolve_image_reference("ubuntu").unwrap();
    assert_eq!(r.name, "docker.io/library/ubuntu");
    assert_eq!(r.tag.as_deref(), Some("latest"));
    assert_eq!(r.canonical(), "docker.io/library/ubuntu:latest");

    let r = resolve_image_reference("foo/bar").unwrap();
    assert_eq!(r.canonical(), "docker.io/foo/bar:latest");

    let r = resolve_image_reference("ghcr.io/foo/bar:v1.2").unwrap();
    assert_eq!(r.name, "ghcr.io/foo/bar");
    assert_eq!(r.tag.as_deref(), Some("v1.2"));
    assert_eq!(r.canonical(), "ghcr.io/foo/bar:v1.2");

    let r = resolve_image_reference("localhost:5000/app").unwrap();
    assert_eq!(r.canonical(), "localhost:5000/app:latest");

    let r = resolve_image_reference("ubuntu@sha256:abc").unwrap();
    assert_eq!(r.name, "docker.io/library/ubuntu");
    assert_eq!(r.tag, None);
    assert_eq!(r.digest.as_deref(), Some("sha256:abc"));
    assert_eq!(r.canonical(), "docker.io/library/ubuntu@sha256:abc");
}

#[test]
fn bad_image_references_are_rejected() {
    assert_eq!(resolve_image_reference("").unwrap_err(), ImageReferenceError::Empty);
    assert_eq!(resolve_image_reference("UPPER").unwrap_err(), ImageReferenceError::InvalidName);
    assert_eq!(resolve_image_reference("repo:").unwrap_err(), ImageReferenceError::InvalidTag);
    assert_eq!(resolve_image_reference("a@").unwrap_err(), ImageReferenceError::InvalidDigest);
    assert_eq!(resolve_image_reference("repo:b d").unwrap_err(), ImageReferenceError::InvalidTag);
}

#[test]
fn digest_is_a_short_base64_hash() {
    assert_eq!(digest(b""), "47DEQpj8HBSa+/TImW+5JCeuQeRkm5NMpJWZG3hSuFU=");
    assert_eq!(digest(b"cicada").len(), 44);
    assert_eq!(digest(b"cicada"), digest(b"cicada"));
    assert_ne!(digest(b"cicada"), digest(b"cicadas"));
}
