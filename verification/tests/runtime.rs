use std::collections::BTreeMap;
use std::io::ErrorKind;

use rhino::runtime::{
    adapter_exact_paths, adapter_files, adapter_roots, normal_adapter_path, normalise_directory,
    parents, under_root, AdapterFile, AdapterStore, AdapterTransaction, EnvironmentFile,
    EnvironmentRestoreFile, EnvironmentRestoreTransaction, EnvironmentStore,
    EnvironmentTransaction, Launch, LaunchError, LaunchFailure, Launcher, MemoryAdapterStore,
    MemoryEnvironmentStore, MemoryTree, MutationLaunch, MutationRunner, NoAdapterStore,
    NoEnvironmentStore, NoLauncher, NoMutationRunner, NoToolchainRunner, ToolchainLaunch,
    ToolchainRunner, Tree, TreeError, children_in, directory_in, check_selection, check_changes, index_mutation,
};

#[test]
fn a_spawn_failure_is_classified_by_what_the_system_said() {
    for (kind, expected) in [
        (ErrorKind::NotFound, LaunchFailure::NotFound),
        (ErrorKind::PermissionDenied, LaunchFailure::NotExecutable),
        (ErrorKind::WouldBlock, LaunchFailure::Refused),
        (ErrorKind::Interrupted, LaunchFailure::Refused),
    ] {
        let error = LaunchError::from_spawn("child", &std::io::Error::from(kind));
        assert_eq!(error.failure, expected);
        assert!(error.reason.starts_with("`child` could not be started: "));
    }

    assert_eq!(
        LaunchError::refused("declined").failure,
        LaunchFailure::Refused
    );
}

struct ReadOnlyTree;

impl Tree for ReadOnlyTree {
    fn read(&self, _: &str) -> Result<String, TreeError> {
        Err(TreeError::NotFound)
    }

    fn files(&self) -> Vec<String> {
        vec!["docs/guide.md".to_string()]
    }

    fn excluding(&self, _: &[String]) -> Self {
        ReadOnlyTree
    }

    fn rooted_at(&self, _: &str) -> Result<Self, String> {
        Ok(ReadOnlyTree)
    }
}

#[test]
fn no_capability_ports_and_default_tree_behavior_fail_closed() {
    let arguments = vec!["tool".to_string()];
    let environment = BTreeMap::new();
    let adapters = AdapterTransaction {
        roots: vec!["adapters/test".to_string()],
        exact_paths: Vec::new(),
        files: Vec::new(),
    };
    let environment_transaction = EnvironmentTransaction { files: Vec::new() };
    let restore_transaction = EnvironmentRestoreTransaction { files: Vec::new() };

    assert!(NoAdapterStore.replace(".", &adapters).is_err());
    assert!(NoEnvironmentStore
        .create(".", &environment_transaction)
        .is_err());
    assert!(NoEnvironmentStore
        .restore(".", &restore_transaction)
        .is_err());
    assert!(NoToolchainRunner
        .run(ToolchainLaunch {
            executable: "tool",
            arguments: &arguments,
            timeout_seconds: None,
        })
        .is_err());
    assert!(NoMutationRunner
        .apply_index(MutationLaunch {
            arguments: &arguments,
            directory: ".",
            environment: &environment,
            selected_paths: &[],
            revision: None,
        })
        .is_err());
    assert!(NoMutationRunner
        .verify_clean(MutationLaunch {
            arguments: &arguments,
            directory: ".",
            environment: &environment,
            selected_paths: &[],
            revision: Some("revision"),
        })
        .is_err());
    assert!(NoLauncher
        .launch(Launch {
            arguments: &arguments,
            directory: ".",
            surface: "local",
            stdin: None,
            environment: &environment,
        })
        .is_err());

    let tree = ReadOnlyTree;
    assert!(tree.indexed_files().is_err());
    assert!(tree.changed_files("aaaaaaa", "bbbbbbb").is_err());
    assert!(tree.resolve_git_ref("main").is_err());
    assert!(tree.commit_messages("aaaaaaa", "bbbbbbb").is_err());
    assert!(tree.hook_message_file("COMMIT_EDITMSG").is_err());
    assert!(matches!(
        tree.read_no_follow("docs/guide.md"),
        Err(TreeError::NotFound)
    ));
    assert_eq!(
        tree.excluding(&["ignored".to_string()]).files(),
        vec!["docs/guide.md".to_string()]
    );
    assert_eq!(
        tree.rooted_at("docs").unwrap().files(),
        vec!["docs/guide.md".to_string()]
    );
    assert_eq!(tree.directories(), vec!["docs".to_string()]);
    assert_eq!(tree.children("docs"), vec!["docs/guide.md".to_string()]);
    assert!(tree.is_directory("docs"));
    assert!(!tree.exists_at("absent"));
}

#[test]
fn memory_environment_store_refuses_invalid_or_conflicting_transactions() {
    let mut store = MemoryEnvironmentStore::new(MemoryTree::default());
    let invalid = EnvironmentTransaction {
        files: vec![EnvironmentFile {
            path: "../outside".to_string(),
            contents: "synthetic".to_string(),
        }],
    };
    assert!(store.create(".", &invalid).is_err());

    let declared = EnvironmentTransaction {
        files: vec![EnvironmentFile {
            path: ".env.fixture".to_string(),
            contents: "synthetic".to_string(),
        }],
    };
    assert!(store.create(".", &declared).is_ok());
    assert!(store.create(".", &declared).is_err());

    let invalid_restore = EnvironmentRestoreTransaction {
        files: vec![EnvironmentRestoreFile {
            path: "../outside".to_string(),
            contents: "synthetic".to_string(),
            replace: true,
        }],
    };
    assert!(store.restore(".", &invalid_restore).is_err());
    let conflict = EnvironmentRestoreTransaction {
        files: vec![EnvironmentRestoreFile {
            path: ".env.fixture".to_string(),
            contents: "replaced".to_string(),
            replace: false,
        }],
    };
    assert!(store.restore(".", &conflict).is_err());
    let replacement = EnvironmentRestoreTransaction {
        files: vec![EnvironmentRestoreFile {
            replace: true,
            ..conflict.files[0].clone()
        }],
    };
    assert!(store.restore(".", &replacement).is_ok());
    assert_eq!(store.held().read(".env.fixture").unwrap(), "replaced");
}

#[test]
fn memory_tree_rerooting_and_adapter_transactions_preserve_declared_boundaries() {
    let mut tree = MemoryTree::default();
    tree.write("nested/guide.md", "synthetic\n");
    tree.set_indexed_files(&["nested/guide.md"]);
    tree.set_changed_files(
        "aaaaaaa",
        "bbbbbbbb",
        &["nested/guide.md", "outside/ignored.md"],
    );
    let rerooted = tree.rooted_at("nested").unwrap();
    assert_eq!(rerooted.read("guide.md").unwrap(), "synthetic\n");
    assert_eq!(
        rerooted.indexed_files().unwrap(),
        vec!["guide.md".to_string()]
    );
    assert_eq!(
        rerooted.changed_files("aaaaaaa", "bbbbbbbb").unwrap(),
        vec!["guide.md".to_string()]
    );

    tree.write("COMMIT_EDITMSG", "feat: synthetic hook\n");
    tree.set_hook_message_file("COMMIT_EDITMSG");
    assert_eq!(
        tree.hook_message_file("COMMIT_EDITMSG").unwrap(),
        "feat: synthetic hook\n"
    );
    assert!(matches!(
        tree.hook_message_file("another-message"),
        Err(TreeError::Unreadable(reason))
            if reason.contains("not Git's canonical COMMIT_EDITMSG")
    ));

    assert!(adapter_roots(&["adapters".to_string(), "adapters/nested".to_string()]).is_err());
    assert!(adapter_files(
        &["adapters".to_string()],
        &[],
        &[AdapterFile {
            path: "../outside".to_string(),
            contents: "synthetic".to_string(),
        }],
    )
    .is_err());
    assert!(adapter_files(
        &["adapters".to_string()],
        &[],
        &[AdapterFile {
            path: "other/file.md".to_string(),
            contents: "synthetic".to_string(),
        }],
    )
    .is_err());
    let repeated = AdapterFile {
        path: "adapters/file.md".to_string(),
        contents: "synthetic".to_string(),
    };
    assert!(adapter_files(
        &["adapters".to_string()],
        &[],
        &[repeated.clone(), repeated]
    )
    .is_err());
    assert!(
        adapter_exact_paths(&["adapters".to_string()], &["adapters/file.md".to_string()])
            .is_err()
    );
    assert!(adapter_files(
        &["adapters".to_string()],
        &["ROUTE.md".to_string()],
        &[AdapterFile {
            path: "ROUTE.md".to_string(),
            contents: "@GUIDE.md\n".to_string(),
        }],
    )
    .is_ok());
    assert!(adapter_files(&["adapters".to_string()], &["ROUTE.md".to_string()], &[],).is_err());
    assert_eq!(
        normal_adapter_path("/adapters/file.md/"),
        Some("adapters/file.md".to_string())
    );
    assert_eq!(normal_adapter_path("adapters/../file.md"), None);
    assert!(under_root("adapters/file.md", "adapters"));
    assert!(!under_root("adapter/file.md", "adapters"));
}

#[test]
fn memory_tree_models_each_read_state_directory_shape_and_root_boundary() {
    let mut tree = MemoryTree::default();
    tree.write("docs/guide.md", "guide");
    tree.write("docs/link.md", "link");
    tree.write("docs/gone.md", "gone");
    tree.write("docs/binary.md", "bytes");
    tree.write("COMMIT_EDITMSG", "feat: message");
    tree.mark_link("docs/link.md");
    tree.mark_vanished("docs/gone.md");
    tree.mark_binary("docs/binary.md");
    tree.mark_directory("empty/nested");

    assert_eq!(normalise_directory("/docs/"), "docs/");
    assert_eq!(normalise_directory("."), "");
    assert!(matches!(
        tree.read("docs/gone.md"),
        Err(TreeError::NotFound)
    ));
    assert!(matches!(
        tree.read("docs/binary.md"),
        Err(TreeError::NotText)
    ));
    assert!(matches!(
        tree.read_no_follow("docs/link.md"),
        Err(TreeError::Unreadable(reason)) if reason.contains("symbolic link")
    ));
    assert_eq!(
        tree.read_no_follow("docs/guide.md")
            .expect("ordinary file stays readable"),
        "guide"
    );
    assert!(!tree.files().contains(&"docs/link.md".to_string()));
    assert!(tree.directories().contains(&"empty/nested".to_string()));
    assert!(tree
        .excluding(&["docs".to_string()])
        .files()
        .contains(&"docs/guide.md".to_string()));

    let rooted = tree.rooted_at("docs").expect("docs exists");
    assert_eq!(rooted.read("guide.md").expect("rerooted file"), "guide");
    assert!(tree.rooted_at("missing").is_err());
    assert!(tree.rooted_at(".").is_ok());

    tree.set_hook_message_file("COMMIT_EDITMSG");
    assert_eq!(
        tree.hook_message_file("COMMIT_EDITMSG")
            .expect("hook message"),
        "feat: message"
    );
    assert!(tree.hook_message_file("other").is_err());
    assert!(
        parents(&["a/b/c.md".to_string(), "a/d.md".to_string()]).contains(&"a/b".to_string())
    );
}

#[test]
fn a_read_gives_back_the_last_write_of_a_path() {
    let mut tree = MemoryTree::default();
    tree.write("/docs/a.md", "first");
    tree.write("docs/a.md", "second");
    assert_eq!(tree.read("docs/a.md").unwrap(), "second");
    assert_eq!(tree.files(), vec!["docs/a.md".to_string()]);
    assert!(matches!(tree.read("docs/b.md"), Err(TreeError::NotFound)));
}

#[test]
fn directories_list_every_ancestor_once_in_order() {
    let mut tree = MemoryTree::default();
    tree.write("b/c/d.md", "x");
    tree.write("a.md", "x");
    tree.write("b/e.md", "x");
    tree.mark_directory("/z/y/");
    assert_eq!(
        tree.directories(),
        vec![
            "b".to_string(),
            "b/c".to_string(),
            "z".to_string(),
            "z/y".to_string()
        ]
    );
}

#[test]
fn a_generated_adapter_family_replaces_only_its_own_files() {
    let mut tree = MemoryTree::default();
    tree.write("adapters/old.md", "old");
    tree.write("docs/keep.md", "keep");
    let mut store = MemoryAdapterStore::new(tree);
    let transaction = AdapterTransaction {
        roots: vec!["adapters".to_string()],
        exact_paths: vec!["ROUTE.md".to_string()],
        files: vec![
            AdapterFile {
                path: "adapters/new.md".to_string(),
                contents: "new".to_string(),
            },
            AdapterFile {
                path: "ROUTE.md".to_string(),
                contents: "@GUIDE.md\n".to_string(),
            },
        ],
    };
    assert!(store.replace(".", &transaction).is_ok());
    let tree = store.held();
    assert_eq!(
        tree.files(),
        vec![
            "ROUTE.md".to_string(),
            "adapters/new.md".to_string(),
            "docs/keep.md".to_string()
        ]
    );
    assert_eq!(tree.read("adapters/new.md").unwrap(), "new");
}

#[test]
fn children_are_direct_files_and_one_level_directories_in_path_order() {
    let listing = vec![
        "docs/sub/deep/c.md".to_string(),
        "docs/a.md".to_string(),
        "docs/sub/b.md".to_string(),
        "docsx/other.md".to_string(),
        "top.md".to_string(),
    ];
    assert_eq!(
        children_in(&listing, "docs"),
        vec!["docs/a.md".to_string(), "docs/sub".to_string()]
    );
    assert_eq!(children_in(&listing, "docs/"), children_in(&listing, "docs"));
    assert_eq!(
        children_in(&listing, "docs/sub"),
        vec!["docs/sub/b.md".to_string(), "docs/sub/deep".to_string()]
    );
    assert!(children_in(&listing, "absent").is_empty());
    assert!(directory_in(&listing, "docs/sub"));
    assert!(directory_in(&listing, "docs/sub/"));
    assert!(!directory_in(&listing, "doc"));
    assert!(!directory_in(&listing, "top.md"));
    assert!(!directory_in(&[], "docs"));
}

#[test]
fn an_index_mutation_refuses_an_escaping_selection_and_a_change_outside_it() {
    let ok = vec!["docs/a.md".to_string(), "b.md".to_string()];
    assert!(check_selection(&ok).is_ok());
    assert!(check_selection(&[]).is_ok());
    for bad in ["../x.md", "/abs.md", "a//b.md", "./a.md", "", "a/.."] {
        let selected = vec!["fine.md".to_string(), bad.to_string(), "../later".to_string()];
        assert_eq!(
            check_selection(&selected).err().unwrap().0,
            format!("selected index path escapes its root `{bad}`")
        );
    }
    assert!(check_changes(&["b.md".to_string()], &ok).is_ok());
    assert_eq!(
        check_changes(&["b.md".to_string(), "c.md".to_string(), "d.md".to_string()], &ok)
            .err()
            .unwrap()
            .0,
        "mutator changed `c.md` outside its selected index paths"
    );
}

#[test]
fn a_spawn_fault_is_classified_and_named() {
    let cases = [
        (rhino::runtime::SpawnFault::NotFound, LaunchFailure::NotFound),
        (rhino::runtime::SpawnFault::PermissionDenied, LaunchFailure::NotExecutable),
        (rhino::runtime::SpawnFault::Other, LaunchFailure::Refused),
    ];
    for (fault, expected) in cases {
        let error = LaunchError::from_fault("tool", fault, "no such file");
        assert_eq!(error.failure, expected);
        assert_eq!(error.reason, "`tool` could not be started: no such file");
    }
}

#[test]
fn an_index_mutation_keeps_to_its_selection_and_names_what_diverged() {
    let s = |x: &str| x.to_string();
    let before = vec![(s("a.md"), b"x".to_vec()), (s("b.md"), b"y".to_vec())];
    let after = vec![
        (s("a.md"), b"x2".to_vec()),
        (s("b.md"), b"y".to_vec()),
        (s("c.md"), b"new".to_vec()),
    ];
    let worktree = vec![(s("a.md"), Some(b"x".to_vec())), (s("c.md"), Some(b"other".to_vec()))];
    let (changes, divergences) =
        index_mutation(&[s("a.md"), s("c.md")], &before, &after, &worktree).unwrap();
    assert_eq!(changes, vec![s("a.md"), s("c.md")]);
    assert_eq!(divergences, vec![s("c.md")]);

    assert_eq!(
        index_mutation(&[s("a.md")], &before, &after, &worktree).err().unwrap(),
        "mutator changed `c.md` outside its selected index paths"
    );
    assert_eq!(
        index_mutation(&[s("../x.md")], &before, &after, &worktree).err().unwrap(),
        "selected index path escapes its root `../x.md`"
    );
    let (none, nothing) = index_mutation(&[], &before, &after, &worktree).unwrap();
    assert!(none.is_empty() && nothing.is_empty());
}
