use rhino::config::{ConfigError, PATH};
use rhino::runtime::{MemoryTree, NoLauncher, NoMutationRunner};
use rhino::{execute, execute_using, execute_using_with_mutations, execute_with, load};

fn arguments(words: &[&str]) -> Vec<String> {
    words.iter().map(|word| (*word).to_string()).collect()
}

fn grouped_tree() -> MemoryTree {
    let mut tree = MemoryTree::default();
    tree.write(PATH, "schema: rhino/repo-config/v2\n");
    tree
}

#[test]
fn public_execution_seams_preserve_the_same_version_result() {
    let tree = MemoryTree::default();
    let version_arguments = arguments(&["version"]);

    assert_eq!(execute(&tree, &version_arguments).exit_code, 0);
    assert_eq!(
        execute_with(&tree, &version_arguments, Some("unused")).exit_code,
        0
    );
    assert_eq!(
        execute_using(&tree, &version_arguments, None, &NoLauncher).exit_code,
        0
    );
    assert_eq!(
        execute_using_with_mutations(
            &tree,
            &version_arguments,
            None,
            &NoLauncher,
            &NoMutationRunner,
        )
        .exit_code,
        0
    );
    let json = execute(&tree, &arguments(&["version", "--json"]));
    assert_eq!(json.exit_code, 0);
    assert!(json.stdout.contains("schemaVersion"));
}

#[test]
fn grouped_dispatch_reaches_every_declared_owner_without_implicit_policy() {
    let tree = grouped_tree();
    for command in [
        &["gate", "list"][..],
        &["gate", "validate"],
        &["gate", "run", "--surface", "pre-commit"],
        &["harness", "adapters", "validate"],
        &["harness", "adapters", "generate"],
        &["env", "backup", "--dir", "backups"],
        &["env", "validate"],
        &["env", "init"],
        &["env", "restore", "--dir", "backups"],
        &["toolchain", "validate"],
        &["toolchain", "provision"],
        &["convention", "license", "validate"],
        &["md", "frontmatter", "validate"],
        &["md", "internal-link", "validate"],
        &["md", "mermaid", "validate"],
        &["md", "readme-index", "validate"],
        &["governance", "vendor", "validate"],
        &["governance", "layers", "validate"],
        &["governance", "traceability", "validate"],
        &["md", "heading-hierarchy", "validate"],
    ] {
        let outcome = execute(&tree, &arguments(command));
        assert!(
            matches!(outcome.exit_code, 0 | 2),
            "{} returned {}: {}",
            command.join(" "),
            outcome.exit_code,
            outcome.stderr
        );
    }
}

#[test]
fn stable_reader_refuses_predecessor_configuration_before_dispatch() {
    let mut tree = MemoryTree::default();
    tree.write(PATH, "schema: ose/repo-config/v2\n");
    let outcome = execute(&tree, &arguments(&["repo-config", "validate"]));
    assert_eq!(outcome.exit_code, 2, "{}", outcome.stderr);
    assert!(outcome
        .stderr
        .contains("no longer accepts predecessor configuration"));
}

#[test]
fn stable_cli_does_not_register_retired_legacy_leaves() {
    let tree = grouped_tree();
    for command in [
        &["governance", "roots", "validate"][..],
        &["governance", "companions", "validate"],
        &["governance", "instructions", "validate"],
        &["plan", "validate"],
        &["harness", "parity", "validate"],
        &["md", "word-count", "inspect"],
    ] {
        let outcome = execute(&tree, &arguments(command));
        assert_eq!(outcome.exit_code, 2, "{}", command.join(" "));
        assert!(
            outcome.stderr.contains("unrecognized command"),
            "{}: {}",
            command.join(" "),
            outcome.stderr
        );
    }
}

#[test]
fn load_refuses_nontext_configuration_before_any_policy_can_run() {
    let mut tree = MemoryTree::default();
    tree.mark_binary(PATH);

    let outcome = execute(&tree, &arguments(&["repo-config", "validate"]));

    assert_eq!(outcome.exit_code, 2);
    assert!(outcome.stderr.contains("holds no text"));
}

#[test]
fn public_boundary_returns_help_version_root_and_configuration_faults_before_dispatch() {
    let tree = grouped_tree();
    let help = execute(&tree, &arguments(&["--help"]));
    assert_eq!(help.exit_code, 0);
    assert!(help.stdout.contains("Repository Hygiene"));
    let version_text = execute(&tree, &arguments(&["version"]));
    assert_eq!(version_text.exit_code, 0);
    assert!(version_text.stdout.starts_with('v'));
    assert_eq!(
        execute(
            &tree,
            &arguments(&["repo-config", "validate", "--root", "missing"])
        )
        .exit_code,
        2
    );

    let missing = MemoryTree::default();
    assert_eq!(
        execute(&missing, &arguments(&["repo-config", "validate"])).exit_code,
        2
    );
    let mut unreadable = MemoryTree::default();
    unreadable.mark_unreadable(PATH);
    assert_eq!(
        execute(&unreadable, &arguments(&["repo-config", "validate"])).exit_code,
        2
    );
    assert!(matches!(load(&missing), Err(ConfigError::Missing)));
}

#[test]
fn a_declared_configuration_is_checked_clean() {
    let tree = grouped_tree();
    let outcome = execute(&tree, &arguments(&["repo-config", "validate"]));
    assert_eq!(outcome.exit_code, 0, "{}", outcome.stderr);
    assert_eq!(outcome.stdout, "[repo-config] checked 1 configuration file, no findings\n");
    assert_eq!(outcome.stderr, "");
}

#[test]
fn version_names_the_release_and_the_commit() {
    let tree = MemoryTree::default();
    assert_eq!(execute(&tree, &arguments(&["version"])).stdout, "v0.4.0\n");
    assert_eq!(
        execute(&tree, &arguments(&["--version", "--json"])).stdout,
        "{\"schemaVersion\":1,\"version\":\"v0.4.0\",\"commit\":\"0000000000000000000000000000000000000000\"}\n"
    );
}

#[test]
fn a_root_that_names_nothing_is_refused_with_its_reason() {
    let tree = grouped_tree();
    let outcome = execute(
        &tree,
        &arguments(&["repo-config", "validate", "--root", "missing"]),
    );
    assert_eq!(outcome.stderr, "rhino: missing is not a directory\n");
    let mut nested = MemoryTree::default();
    nested.write("inner/repo-config.yml", "schema: rhino/repo-config/v2\n");
    let rooted = execute(
        &nested,
        &arguments(&["repo-config", "validate", "--root", "inner"]),
    );
    assert_eq!(rooted.exit_code, 0, "{}", rooted.stderr);
}

#[test]
fn a_missing_configuration_is_refused_under_the_command_it_stopped() {
    let tree = MemoryTree::default();
    let outcome = execute(&tree, &arguments(&["repo-config", "validate"]));
    assert_eq!(
        outcome.stderr,
        "[repo-config] repo-config.yml: no configuration file at line 1: RHINO holds no defaults, so every value it enforces has to be declared here\n"
    );
}

struct RecordingLauncher {
    seen: std::cell::RefCell<Vec<(Vec<String>, String, String, Option<String>, usize)>>,
    codes: Vec<i32>,
}

impl rhino::runtime::Launcher for RecordingLauncher {
    fn launch(
        &self,
        launch: rhino::runtime::Launch<'_>,
    ) -> Result<rhino::runtime::Launched, rhino::runtime::LaunchError> {
        let mut seen = self.seen.borrow_mut();
        seen.push((
            launch.arguments.to_vec(),
            launch.directory.to_string(),
            launch.surface.to_string(),
            launch.stdin.map(|s| s.to_string()),
            launch.environment.len(),
        ));
        Ok(rhino::runtime::Launched { code: self.codes[seen.len() - 1] })
    }
}

#[test]
fn each_gate_child_is_handed_its_vector_the_root_the_surface_and_stdin() {
    let gate = |id: &str, run: &[&str], surfaces: &[&str]| rhino::config::v2::Gate {
        id: id.to_string(),
        kind: "check".to_string(),
        run: run.iter().map(|s| s.to_string()).collect(),
        surfaces: surfaces.iter().map(|s| s.to_string()).collect(),
    };
    let document = rhino::config::v2::Document {
        visibility: "public".to_string(),
        local_categories: Vec::new(),
        gates: vec![
            gate("lint", &["lint", "--all"], &["pre-commit"]),
            gate("skip", &["never"], &["ci"]),
            gate("test", &["test"], &["pre-commit"]),
            gate("after", &["after"], &["pre-commit"]),
        ],
    };
    let launcher = RecordingLauncher { seen: std::cell::RefCell::new(Vec::new()), codes: vec![0, 3, 0] };
    let forwarded = vec!["HOOK".to_string()];
    let out = rhino::gate::dispatch(&document, "pre-commit", "/repo", &forwarded, Some("input"), &launcher);
    assert_eq!(out.exit_code, 1);
    assert_eq!(out.stdout, "[gate] lint passed\n[gate] test failed\n");
    let seen = launcher.seen.borrow();
    assert_eq!(seen.len(), 2);
    assert_eq!(
        seen[0],
        (
            vec!["lint".to_string(), "--all".to_string(), "HOOK".to_string()],
            "/repo".to_string(),
            "pre-commit".to_string(),
            Some("input".to_string()),
            0
        )
    );
    assert_eq!(seen[1].0, vec!["test".to_string(), "HOOK".to_string()]);
}
