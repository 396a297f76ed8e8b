//! What is read out of git's output.
use codeatlas::extract::git::{
    apply_incremental, branches, file_history, head, log, log_args, log_range, log_range_args,
    remote_url, Commit, FileHistory,
};
use codeatlas::extract::walk::{enters, scan, Lang};
use codeatlas::textmap::TextMap;

const NEW: &str = "2222222222222222222222222222222222222222";
const OLD: &str = "1111111111111111111111111111111111111111";

/// Two commits, as `log` prints them, newest first.
fn walk() -> String {
    format!(
        "\u{1e}{NEW}\u{1f}2024-02-01T10:00:00+08:00\u{1f}优惠券模板优化\u{1f}\na.java\nb.java\n\n\
         \u{1e}{OLD}\u{1f}2024-01-01T10:00:00+08:00\u{1f}添加特价活动\u{1f}\na.java\n"
    )
}

#[test]
fn reads_subjects_and_touched_files() {
    let commits = log(&walk());
    assert_eq!(commits.len(), 2);
    // Newest first.
    assert_eq!(commits[0].subject, "优惠券模板优化");
    assert!(commits[0].files.contains(&"b.java".to_string()));
    assert_eq!(commits[1].subject, "添加特价活动");
    assert!(commits[1].authored_at.starts_with("20"));
    assert_eq!(commits[1].files, vec!["a.java"]);
}

#[test]
fn churn_counts_and_bounds_dates() {
    let h = file_history(
        "\u{1f}2024-02-01T10:00:00+08:00\na.java\nb.java\n\n\u{1f}2024-01-01T10:00:00+08:00\na.java\n",
    );
    assert_eq!(h.get("a.java").unwrap().commit_count, 2);
    assert_eq!(h.get("b.java").unwrap().commit_count, 1);
    let a = h.get("a.java").unwrap();
    assert!(a.first_commit_at.as_deref().unwrap() <= a.last_commit_at.as_deref().unwrap());
    assert_eq!(a.first_commit_at.as_deref(), Some("2024-01-01T10:00:00+08:00"));
    assert_eq!(a.last_commit_at.as_deref(), Some("2024-02-01T10:00:00+08:00"));
}

#[test]
fn lists_branches_without_head_alias() {
    let b = branches("main\norigin/HEAD\nremotes/origin/dev\n\nmain\n");
    assert!(!b.is_empty());
    assert!(b.iter().all(|n| !n.contains("HEAD")));
    assert_eq!(b, vec!["main", "origin/dev"]);
}

#[test]
fn head_matches_the_latest_commit() {
    let out = format!("{NEW}\n");
    let h = head(Some(&out)).unwrap();
    assert_eq!(h.len(), 40);
    // `head` is the newest commit, so its subject is the last message.
    let commits = log(&walk());
    assert_eq!(h, commits[0].sha);
}

#[test]
fn head_is_none_outside_a_repo() {
    assert!(head(None).is_none());
    assert!(head(Some("\n")).is_none());
}

#[test]
fn log_range_returns_only_new_commits() {
    let full = log(&walk());
    assert_eq!(full.len(), 2);
    let old = &full[1].sha; // oldest
    let new = &full[0].sha; // newest
    assert_eq!(log_range_args(old, new)[1], format!("{OLD}..{NEW}"));
    let range = log_range(&format!(
        "\u{1e}{NEW}\u{1f}2024-02-01T10:00:00+08:00\u{1f}优惠券模板优化\u{1f}\na.java\nb.java\n"
    ));
    assert_eq!(range.len(), 1);
    assert_eq!(range[0].subject, "优惠券模板优化");
}

#[test]
fn apply_incremental_folds_new_commits_into_snapshot() {
    // Cached snapshot at HEAD=A: one commit touching a.java.
    let mut hist: TextMap<FileHistory> = TextMap::new();
    hist.insert(
        "a.java".into(),
        FileHistory {
            commit_count: 1,
            first_commit_at: Some("2020-01-01".into()),
            last_commit_at: Some("2020-01-01".into()),
        },
    );
    let mut commits: Vec<Commit> = vec![Commit {
        sha: "oldsha".into(),
        authored_at: "2020-01-01".into(),
        subject: "初始".into(),
        files: vec!["a.java".into()],
    }];

    // New commits since A (newest first).
    let inc = vec![
        Commit {
            sha: "new2".into(),
            authored_at: "2020-03-01".into(),
            subject: "改 a".into(),
            files: vec!["a.java".into()],
        },
        Commit {
            sha: "new1".into(),
            authored_at: "2020-02-01".into(),
            subject: "加 b".into(),
            files: vec!["b.java".into()],
        },
    ];

    apply_incremental(&mut hist, &mut commits, &inc, 4000);

    // Subjects: new commits first, then cached.
    assert_eq!(commits.len(), 3);
    assert_eq!(commits[0].subject, "改 a");
    assert_eq!(commits[1].subject, "加 b");
    assert_eq!(commits[2].subject, "初始");

    // Churn: a.java gained one touch; last_commit_at advanced.
    let a = hist.get("a.java").unwrap();
    assert_eq!(a.commit_count, 2);
    assert_eq!(a.first_commit_at.as_deref(), Some("2020-01-01"));
    assert_eq!(a.last_commit_at.as_deref(), Some("2020-03-01"));
    // b.java is brand new: both bounds come from the slice.
    let b = hist.get("b.java").unwrap();
    assert_eq!(b.commit_count, 1);
    assert_eq!(b.first_commit_at.as_deref(), Some("2020-02-01"));
    assert_eq!(b.last_commit_at.as_deref(), Some("2020-02-01"));
}

#[test]
fn apply_incremental_truncates_to_limit() {
    let mut commits: Vec<Commit> = vec![Commit {
        sha: "old".into(),
        authored_at: "2020-01-01".into(),
        subject: "旧".into(),
        files: vec![],
    }];
    let inc = (0..5)
        .map(|i| Commit {
            sha: format!("n{i}"),
            authored_at: "2020-01-01".into(),
            subject: format!("新{i}"),
            files: vec![],
        })
        .collect::<Vec<_>>();
    let mut hist = TextMap::new();
    apply_incremental(&mut hist, &mut commits, &inc, 3);
    assert_eq!(commits.len(), 3);
    // Newest survive; the cached tail fell off.
    assert_eq!(commits[0].subject, "新0");
    assert_eq!(commits[2].subject, "新2");
    assert!(commits.iter().all(|c| c.subject != "旧"));
}

#[test]
fn an_incremental_snapshot_is_what_a_full_walk_gives() {
    let old = "\u{1f}2024-01-02\na\nb\n\u{1f}2024-01-01\na\n";
    let new = "\u{1f}2024-01-04\nc\na\n\u{1f}2024-01-03\nc\n";
    let mut hist = file_history(old);
    let mut commits: Vec<Commit> = Vec::new();
    let inc = vec![
        Commit {
            sha: "2".into(),
            authored_at: "2024-01-04".into(),
            subject: "".into(),
            files: vec!["c".into(), "a".into()],
        },
        Commit {
            sha: "1".into(),
            authored_at: "2024-01-03".into(),
            subject: "".into(),
            files: vec!["c".into()],
        },
    ];
    apply_incremental(&mut hist, &mut commits, &inc, 10);
    let full = file_history(&format!("{new}{old}"));
    assert_eq!(hist.len(), full.len());
    for path in ["a", "b", "c"] {
        let x = hist.get(path).unwrap();
        let y = full.get(path).unwrap();
        assert_eq!(x.commit_count, y.commit_count);
        assert_eq!(x.first_commit_at, y.first_commit_at);
        assert_eq!(x.last_commit_at, y.last_commit_at);
    }
}

#[test]
fn walks_are_asked_for_with_separators() {
    assert_eq!(
        log_args(50),
        vec![
            "log",
            "-50",
            "--no-merges",
            "--name-only",
            "--date=iso-strict",
            "--pretty=format:%x1e%H%x1f%ad%x1f%s%x1f",
        ]
    );
}

#[test]
fn records_with_missing_fields_are_dropped() {
    assert!(log("").is_empty());
    assert!(log("\u{1e}sha\u{1f}date").is_empty());
    let c = log("\u{1e}sha\u{1f}date\u{1f}line one\nline two");
    assert_eq!(c.len(), 1);
    assert_eq!(c[0].subject, "line one\nline two");
    assert!(c[0].files.is_empty());
}

#[test]
fn remote_is_trimmed_and_may_be_absent() {
    assert_eq!(remote_url(Some("git@h:x.git\n")).as_deref(), Some("git@h:x.git"));
    assert_eq!(remote_url(Some("  ")), None);
    assert_eq!(remote_url(None), None);
}

/// The files of a tree that a walk reaches.
fn reached(files: &[&str]) -> Vec<(String, String)> {
    files
        .iter()
        .filter(|f| {
            let parts: Vec<&str> = f.split('/').collect();
            (0..parts.len()).all(|i| enters(i + 1, i + 1 < parts.len(), parts[i]))
        })
        .map(|f| (format!("/r/{f}"), f.to_string()))
        .collect()
}

#[test]
fn finds_sources_and_skips_build_dirs() {
    let found = scan(&reached(&[
        "src/main/java/a/A.java",
        "pom.xml",
        "src/main/java/a/x.properties",
        "target/classes/B.java",
        ".git/C.java",
        "logo.png",
    ]));
    let rels: Vec<&str> = found.iter().map(|f| f.rel.as_str()).collect();
    assert_eq!(rels, vec!["pom.xml", "src/main/java/a/A.java", "src/main/java/a/x.properties"]);
    assert_eq!(found[1].lang, Lang::Java);
    assert_eq!(found[1].path, "/r/src/main/java/a/A.java");
}

#[test]
fn scans_a_directory_named_like_a_skip_dir_at_root() {
    // A project whose own root directory is called `build` must still index.
    assert!(enters(0, true, "build"));
    assert!(!enters(1, true, "build"));
    assert!(enters(1, false, "build"));
    assert_eq!(scan(&reached(&["A.java"])).len(), 1);
}

#[test]
fn languages_go_by_extension() {
    assert_eq!(Lang::of_path("a/b.yml"), Some(Lang::Yaml));
    assert_eq!(Lang::of_path("a/b.yaml"), Some(Lang::Yaml));
    assert_eq!(Lang::of_path("schema.sql"), Some(Lang::Sql));
    assert_eq!(Lang::of_path("a.java/readme"), None);
    assert_eq!(Lang::of_path(".java"), None);
    assert_eq!(Lang::of_path("a/b.java/."), Some(Lang::Java));
    assert_eq!(Lang::of_path("b.java/.."), None);
    assert_eq!(Lang::of_path("A.JAVA"), None);
    assert_eq!(Lang::Properties.as_str(), "properties");
}
