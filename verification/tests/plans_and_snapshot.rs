use format_staged::fsop::FsOp;
use format_staged::plan::{
    backport_steps, cleanup_plan, prepare_plan, restore_plan, rollback_plan, BackportStep,
};
use format_staged::snapshot::{Entry, Snapshot};
use format_staged::target::{classify_clean, find_target, Target};

fn v(s: &str) -> Vec<u8> {
    s.as_bytes().to_vec()
}

fn clean_target() -> Target {
    // Working copy equals staged content.
    Target { path: v("a.txt"), staged: v("fn a;\n"), working: v("fn a;\n") }
}

fn dirty_target() -> Target {
    // Working copy carries an unstaged edit on top of the staged content.
    Target { path: v("b.txt"), staged: v("fn b;\n"), working: v("fn b;\nlocal edit\n") }
}

#[test]
fn classification_separates_clean_and_dirty() {
    assert!(classify_clean(&clean_target()));
    assert!(!classify_clean(&dirty_target()));
}

#[test]
fn find_target_matches_by_path() {
    let ts = vec![clean_target(), dirty_target()];
    assert_eq!(find_target(&ts, &v("b.txt")), Some(1));
    assert_eq!(find_target(&ts, &v("a.txt")), Some(0));
    assert_eq!(find_target(&ts, &v("c.txt")), None);
}

#[test]
fn preparation_backs_up_then_extracts_staged_content() {
    let ts = vec![clean_target(), dirty_target()];
    let ops = prepare_plan(&ts);
    assert_eq!(ops.len(), 6);
    match &ops[0] {
        FsOp::Rename { from, to } => {
            assert_eq!(from, &v("a.txt"));
            assert_eq!(to, &v("a.txt.orig"));
        }
        _ => panic!("expected a rename"),
    }
    match &ops[1] {
        FsOp::Write { path, content } => {
            assert_eq!(path, &v("a.txt.staged.orig"));
            assert_eq!(content, &v("fn a;\n"));
        }
        _ => panic!("expected a write"),
    }
    match &ops[2] {
        FsOp::Write { path, content } => {
            assert_eq!(path, &v("a.txt"));
            assert_eq!(content, &v("fn a;\n"));
        }
        _ => panic!("expected a write"),
    }
    match &ops[5] {
        FsOp::Write { path, content } => {
            assert_eq!(path, &v("b.txt"));
            assert_eq!(content, &v("fn b;\n"));
        }
        _ => panic!("expected a write"),
    }
}

#[test]
fn rollback_discards_artifacts_and_restores_backups() {
    let ts = vec![dirty_target()];
    let ops = rollback_plan(&ts);
    assert_eq!(ops.len(), 3);
    match &ops[0] {
        FsOp::Remove { path } => assert_eq!(path, &v("b.txt")),
        _ => panic!("expected a remove"),
    }
    match &ops[1] {
        FsOp::Remove { path } => assert_eq!(path, &v("b.txt.staged.orig")),
        _ => panic!("expected a remove"),
    }
    match &ops[2] {
        FsOp::Rename { from, to } => {
            assert_eq!(from, &v("b.txt.orig"));
            assert_eq!(to, &v("b.txt"));
        }
        _ => panic!("expected a rename"),
    }
}

#[test]
fn restore_copies_backups_only_for_dirty_targets() {
    let ts = vec![clean_target(), dirty_target()];
    let ops = restore_plan(&ts);
    assert_eq!(ops.len(), 1);
    match &ops[0] {
        FsOp::CopyFile { from, to } => {
            assert_eq!(from, &v("b.txt.orig"));
            assert_eq!(to, &v("b.txt"));
        }
        _ => panic!("expected a copy"),
    }
}

#[test]
fn cleanup_removes_both_backups_per_target() {
    let ts = vec![clean_target(), dirty_target()];
    let ops = cleanup_plan(&ts);
    assert_eq!(ops.len(), 4);
    match &ops[0] {
        FsOp::Remove { path } => assert_eq!(path, &v("a.txt.orig")),
        _ => panic!("expected a remove"),
    }
    match &ops[3] {
        FsOp::Remove { path } => assert_eq!(path, &v("b.txt.staged.orig")),
        _ => panic!("expected a remove"),
    }
}

#[test]
fn backport_skips_patch_when_delta_is_empty() {
    let ts = vec![clean_target(), dirty_target(), dirty_target_c()];
    // The formatter left a and b unchanged and reformatted c.
    let outs = vec![v("fn a;\n"), v("fn b;\n"), v("fn c ;\n")];
    let steps = backport_steps(&ts, &outs);
    assert_eq!(
        steps,
        vec![
            BackportStep::KeepFormatted,
            BackportStep::RestoreOnly,
            BackportStep::RestoreThenPatch,
        ]
    );
}

fn dirty_target_c() -> Target {
    Target { path: v("c.txt"), staged: v("fn c;\n"), working: v("fn c;\nmore\n") }
}

#[test]
fn empty_target_set_plans_nothing() {
    let ts: Vec<Target> = vec![];
    assert!(prepare_plan(&ts).is_empty());
    assert!(rollback_plan(&ts).is_empty());
    assert!(restore_plan(&ts).is_empty());
    assert!(cleanup_plan(&ts).is_empty());
    assert!(backport_steps(&ts, &vec![]).is_empty());
}

#[test]
fn plans_keep_subdirectory_paths_intact() {
    let t = Target {
        path: v("src/deep/mod.rs"),
        staged: v("x"),
        working: v("y"),
    };
    let ops = prepare_plan(&vec![t]);
    match &ops[0] {
        FsOp::Rename { from, to } => {
            assert_eq!(from, &v("src/deep/mod.rs"));
            assert_eq!(to, &v("src/deep/mod.rs.orig"));
        }
        _ => panic!("expected a rename"),
    }
}

#[test]
fn commit_updates_every_target_and_nothing_else() {
    // Three tracked files, two of them targets: the committed snapshot
    // reflects both new blobs, and the bystander entry is untouched.
    let snap = Snapshot {
        entries: vec![
            Entry { path: v("a.txt"), content: v("fn a;\n"), mode: 0o100644 },
            Entry { path: v("keep.txt"), content: v("untouched\n"), mode: 0o100644 },
            Entry { path: v("b.txt"), content: v("fn b;\n"), mode: 0o100644 },
        ],
    };
    let ts = vec![clean_target(), dirty_target()];
    let outs = vec![v("fn a ;\n"), v("fn b ;\n")];
    let new = snap.with_formatted(&ts, &outs);
    assert_eq!(new.entries.len(), 3);
    assert_eq!(new.entries[0].path, v("a.txt"));
    assert_eq!(new.entries[0].content, v("fn a ;\n"));
    assert_eq!(new.entries[1].content, v("untouched\n"));
    assert_eq!(new.entries[2].content, v("fn b ;\n"));
    assert_eq!(new.entries[2].mode, 0o100644);
}

#[test]
fn canonical_staged_content_round_trips() {
    // The staged content is already formatted: the committed entry is
    // byte-identical, so its blob hash cannot change, and no patch step
    // is planned.
    let snap = Snapshot {
        entries: vec![Entry { path: v("b.txt"), content: v("fn b;\n"), mode: 0o100644 }],
    };
    let ts = vec![dirty_target()];
    let outs = vec![v("fn b;\n")];
    let new = snap.with_formatted(&ts, &outs);
    assert_eq!(new.entries[0].content, snap.entries[0].content);
    let steps = backport_steps(&ts, &outs);
    assert_eq!(steps, vec![BackportStep::RestoreOnly]);
}

#[test]
fn noop_formatter_leaves_index_identical() {
    let snap = Snapshot {
        entries: vec![
            Entry { path: v("a.txt"), content: v("fn a;\n"), mode: 0o100644 },
            Entry { path: v("b.txt"), content: v("fn b;\n"), mode: 0o100644 },
        ],
    };
    let ts = vec![clean_target(), dirty_target()];
    let outs = vec![v("fn a;\n"), v("fn b;\n")];
    let new = snap.with_formatted(&ts, &outs);
    for (old_e, new_e) in snap.entries.iter().zip(new.entries.iter()) {
        assert_eq!(old_e.path, new_e.path);
        assert_eq!(old_e.content, new_e.content);
        assert_eq!(old_e.mode, new_e.mode);
    }
}

#[test]
fn dirty_target_gets_edit_back_and_formatted_index_entry() {
    // The provable half of edit isolation: the restore plan puts the
    // pre-run working copy (with the unstaged edit) back in place, and
    // the committed index entry is exactly the formatted staged content.
    let t = dirty_target();
    let ts = vec![t];
    let ops = restore_plan(&ts);
    assert_eq!(ops.len(), 1);
    match &ops[0] {
        FsOp::CopyFile { from, to } => {
            assert_eq!(from, &v("b.txt.orig"));
            assert_eq!(to, &v("b.txt"));
        }
        _ => panic!("expected a copy"),
    }
    let snap = Snapshot {
        entries: vec![Entry { path: v("b.txt"), content: v("fn b;\n"), mode: 0o100644 }],
    };
    let outs = vec![v("fn b ;\n")];
    let new = snap.with_formatted(&ts, &outs);
    assert_eq!(new.entries[0].content, v("fn b ;\n"));
}
