use aurora_forge::git::{
    git_status_entries, git_workspace_status, porcelain_is_readable, text_lines_of,
    GIT_STATUS_MAX_FILES,
};

#[test]
fn reads_an_untracked_file_from_a_porcelain_status() {
    let porcelain = "?? module.nss\n";
    assert!(porcelain_is_readable(porcelain));
    let status = git_workspace_status("/tmp/repo\n", "main\n", None, porcelain);
    assert_eq!(status.root, "/tmp/repo");
    assert_eq!(status.branch, "main");
    assert_eq!(status.head, None);
    assert!(!status.clean);
    assert_eq!(status.files.len(), 1);
    assert_eq!(status.files[0].path, "module.nss");
    assert_eq!(status.files[0].index_status, "?");
    assert_eq!(status.files[0].worktree_status, "?");
}

#[test]
fn an_empty_status_is_clean_and_keeps_the_head_commit() {
    let status = git_workspace_status("  /srv/module  ", "feature\r\n", Some("abc123\n"), "");
    assert_eq!(status.root, "/srv/module");
    assert_eq!(status.branch, "feature");
    assert_eq!(status.head.as_deref(), Some("abc123"));
    assert!(status.clean);
    assert!(status.files.is_empty());
}

#[test]
fn a_blank_head_is_no_commit() {
    let status = git_workspace_status("r", "b", Some(" \n"), "");
    assert_eq!(status.head, None);
}

#[test]
fn status_lines_split_like_str_lines() {
    assert_eq!(text_lines_of("a\r\nb\n\nc"), vec!["a", "b", "", "c"]);
    assert_eq!(text_lines_of("a\n"), vec!["a"]);
    assert_eq!(text_lines_of("x\r"), vec!["x\r"]);
    assert!(text_lines_of("").is_empty());
    let text = "M  src/a.rs\r\n?? é.txt\nshort\n";
    let expected: Vec<&str> = text.lines().collect();
    assert_eq!(text_lines_of(text), expected);
}

#[test]
fn short_lines_name_no_file() {
    let porcelain = "M  a\nxyz\n\n R b.nss\n";
    let entries = git_status_entries(porcelain);
    assert_eq!(entries, vec!["M  a", " R b.nss"]);
    let status = git_workspace_status("r", "b", None, porcelain);
    assert_eq!(status.files.len(), 2);
    assert_eq!(status.files[1].index_status, " ");
    assert_eq!(status.files[1].worktree_status, "R");
    assert_eq!(status.files[1].path, "b.nss");
}

#[test]
fn multibyte_status_letters_are_unreadable() {
    assert!(!porcelain_is_readable("é? file\n"));
    assert!(porcelain_is_readable("é\n"));
    assert!(porcelain_is_readable("?? fichier-é.txt\n"));
}

#[test]
fn a_status_lists_at_most_the_file_limit() {
    let mut porcelain = String::new();
    for index in 0..(GIT_STATUS_MAX_FILES + 5) {
        porcelain.push_str(&format!("?? f{index}\n"));
    }
    let status = git_workspace_status("r", "b", None, &porcelain);
    assert_eq!(status.files.len(), GIT_STATUS_MAX_FILES);
    assert_eq!(status.files[GIT_STATUS_MAX_FILES - 1].path, format!("f{}", GIT_STATUS_MAX_FILES - 1));
}
