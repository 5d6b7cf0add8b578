use format_staged::bytes::{bytes_eq, bytes_ends_with, copy_bytes, prefix_bytes};
use format_staged::names::{orig_name, staged_orig_name, validate_paths};
use format_staged::search::parent_dir;
use format_staged::staging::unstaged_indices;
use format_staged::verdict::{formatter_verdict, Verdict};

fn v(s: &str) -> Vec<u8> {
    s.as_bytes().to_vec()
}

#[test]
fn bytes_eq_on_equal_and_unequal() {
    assert!(bytes_eq(&v("abc"), &v("abc")));
    assert!(!bytes_eq(&v("abc"), &v("abd")));
    assert!(!bytes_eq(&v("abc"), &v("ab")));
    assert!(bytes_eq(&v(""), &v("")));
}

#[test]
fn copy_and_prefix() {
    assert_eq!(copy_bytes(&v("hello")), v("hello"));
    assert_eq!(prefix_bytes(&v("hello"), 2), v("he"));
    assert_eq!(prefix_bytes(&v("hello"), 0), v(""));
}

#[test]
fn ends_with_suffixes() {
    assert!(bytes_ends_with(&v("a.orig"), &v(".orig")));
    assert!(!bytes_ends_with(&v("a.txt"), &v(".orig")));
    assert!(!bytes_ends_with(&v("rig"), &v(".orig")));
}

#[test]
fn backup_names_use_suffix_convention() {
    assert_eq!(orig_name(&v("src/a.rs")), v("src/a.rs.orig"));
    assert_eq!(staged_orig_name(&v("src/a.rs")), v("src/a.rs.staged.orig"));
    assert_eq!(orig_name(&v("")), v(".orig"));
}

#[test]
fn validate_accepts_plain_distinct_paths() {
    assert!(validate_paths(&vec![v("a.txt"), v("b.txt"), v("dir/c.txt")]));
    assert!(validate_paths(&vec![]));
}

#[test]
fn validate_rejects_duplicates() {
    assert!(!validate_paths(&vec![v("a.txt"), v("a.txt")]));
}

#[test]
fn validate_rejects_backup_like_names() {
    // A user literally asking to format a file named like a backup
    // artifact would collide with the run's own artifacts.
    assert!(!validate_paths(&vec![v("x.orig")]));
    assert!(!validate_paths(&vec![v("x.staged")]));
    assert!(!validate_paths(&vec![v("a.txt"), v("x.staged.orig")]));
}

#[test]
fn staging_lists_every_unstaged_file() {
    // One unstaged file anywhere makes the run reject the whole set.
    let r = unstaged_indices(&vec![true, false, true, false]);
    assert_eq!(r, vec![1, 3]);
}

#[test]
fn staging_passes_fully_staged_set() {
    let r = unstaged_indices(&vec![true, true, true]);
    assert!(r.is_empty());
    let r2 = unstaged_indices(&vec![]);
    assert!(r2.is_empty());
}

#[test]
fn verdict_on_success_proceeds() {
    assert_eq!(formatter_verdict(true, Some(0)), Verdict::Proceed);
}

#[test]
fn verdict_on_failure_keeps_exit_code() {
    assert_eq!(formatter_verdict(false, Some(3)), Verdict::Abort { exit_code: 3 });
}

#[test]
fn verdict_on_signal_exits_one() {
    assert_eq!(formatter_verdict(false, None), Verdict::Abort { exit_code: 1 });
}

#[test]
fn parent_dir_walks_upward() {
    assert_eq!(parent_dir(&v("/a/b")), Some(v("/a")));
    assert_eq!(parent_dir(&v("/a")), Some(v("/")));
    assert_eq!(parent_dir(&v("/")), None);
    assert_eq!(parent_dir(&v("a")), None);
    assert_eq!(parent_dir(&v("a/b")), Some(v("a")));
    assert_eq!(parent_dir(&v("")), None);
}
