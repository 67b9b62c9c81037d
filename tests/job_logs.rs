use joblogs::{
    build_job_map, compare_ids, extension, get_log_content_or_error_msg, get_log_pathbuf,
    highlight_segments, metadata_dir, search_log, search_order, split_lines, DateDir, DirEntry,
    FileEntry, JobEntry, JobIndex, MetaDir, Pattern, ProgramError, Report, RootDir, Segment,
    TimeDir,
};

fn s(x: &str) -> String {
    x.to_string()
}

fn job(name: &str, path: &str) -> DirEntry {
    DirEntry { name: s(name), path: s(path) }
}

fn time(path: &str, meta: MetaDir) -> TimeDir {
    TimeDir { path: s(path), meta }
}

fn file(name: &str, path: &str, is_file: bool) -> FileEntry {
    FileEntry { name: s(name), path: s(path), is_file }
}

fn seg_texts(line: &[Segment]) -> Vec<(String, bool)> {
    line.iter().map(|g| (g.text.clone(), g.marked)).collect()
}

fn index_of(ids: &[&str]) -> JobIndex {
    let mut idx = JobIndex::new();
    for id in ids {
        idx.insert(s(id), format!("m/d/t/.submitit/{id}"));
    }
    idx
}

fn sample_tree() -> RootDir {
    RootDir {
        path: s("multirun"),
        dates: Some(vec![
            DateDir {
                path: s("multirun/2024-01-01"),
                times: Some(vec![
                    time(
                        "multirun/2024-01-01/10-00-00",
                        MetaDir::Listed(vec![
                            job("101_0", "multirun/2024-01-01/10-00-00/.submitit/101_0"),
                            job("101_1", "multirun/2024-01-01/10-00-00/.submitit/101_1"),
                        ]),
                    ),
                    time("multirun/2024-01-01/11-00-00", MetaDir::Absent),
                ]),
            },
            DateDir { path: s("multirun/2024-01-02"), times: Some(vec![]) },
            DateDir {
                path: s("multirun/2024-01-03"),
                times: Some(vec![time(
                    "multirun/2024-01-03/09-30-00",
                    MetaDir::Listed(vec![job(
                        "205_0",
                        "multirun/2024-01-03/09-30-00/.submitit/205_0",
                    )]),
                )]),
            },
        ]),
    }
}

#[test]
fn index_counts_every_job_directory() {
    let idx = build_job_map(&sample_tree()).ok().unwrap();
    assert_eq!(idx.len(), 3);
    assert_eq!(idx.get(&s("101_1")), Some(s("multirun/2024-01-01/10-00-00/.submitit/101_1")));
    assert_eq!(idx.get(&s("205_0")), Some(s("multirun/2024-01-03/09-30-00/.submitit/205_0")));
}

#[test]
fn time_directory_without_metadata_adds_nothing() {
    let root = RootDir {
        path: s("m"),
        dates: Some(vec![DateDir {
            path: s("m/d"),
            times: Some(vec![time("m/d/a", MetaDir::Absent), time("m/d/b", MetaDir::Absent)]),
        }]),
    };
    let idx = build_job_map(&root).ok().unwrap();
    assert_eq!(idx.len(), 0);
}

#[test]
fn unreadable_root_is_file_not_found() {
    let root = RootDir { path: s("multirun"), dates: None };
    let e = build_job_map(&root).err().unwrap();
    assert_eq!(e.message(), "Could not find file multirun.");
}

#[test]
fn unreadable_date_directory_is_an_error() {
    let root = RootDir {
        path: s("m"),
        dates: Some(vec![DateDir { path: s("m/d"), times: None }]),
    };
    let e = build_job_map(&root).err().unwrap();
    assert!(matches!(e, ProgramError::FileNotFound { ref path } if path == "m/d"));
}

#[test]
fn unreadable_metadata_directory_is_an_error() {
    let root = RootDir {
        path: s("m"),
        dates: Some(vec![DateDir {
            path: s("m/d"),
            times: Some(vec![time("m/d/t", MetaDir::Absent), time("m/d/u", MetaDir::Unreadable)]),
        }]),
    };
    let e = build_job_map(&root).err().unwrap();
    assert_eq!(e.message(), "Could not find file m/d/u/.submitit.");
}

#[test]
fn later_duplicate_job_name_wins() {
    let root = RootDir {
        path: s("m"),
        dates: Some(vec![DateDir {
            path: s("m/d"),
            times: Some(vec![
                time("m/d/t", MetaDir::Listed(vec![job("7", "m/d/t/.submitit/7")])),
                time("m/d/u", MetaDir::Listed(vec![job("7", "m/d/u/.submitit/7")])),
            ]),
        }]),
    };
    let idx = build_job_map(&root).ok().unwrap();
    assert_eq!(idx.len(), 1);
    assert_eq!(idx.get(&s("7")), Some(s("m/d/u/.submitit/7")));
}

#[test]
fn metadata_dir_joins_the_fixed_name() {
    assert_eq!(metadata_dir(&s("m/d/t")), "m/d/t/.submitit");
}

#[test]
fn unknown_job_is_a_user_error() {
    let idx = index_of(&["1"]);
    let e = idx.lookup(&s("2")).err().unwrap();
    assert_eq!(e.message(), "No job with id 2 was found.");
    assert_eq!(idx.lookup(&s("1")).ok(), Some(s("m/d/t/.submitit/1")));
}

#[test]
fn extension_follows_path_rules() {
    assert_eq!(extension(&s("log.out")), Some(s("out")));
    assert_eq!(extension(&s("a.b.err")), Some(s("err")));
    assert_eq!(extension(&s(".out")), None);
    assert_eq!(extension(&s("noext")), None);
    assert_eq!(extension(&s("..")), None);
    assert_eq!(extension(&s("a.")), Some(s("")));
    assert_eq!(extension(&s("..out")), Some(s("out")));
}

#[test]
fn resolves_the_out_file() {
    let listing = Some(vec![
        file("12_0_log.err", "j/12_0_log.err", true),
        file("sub.out", "j/sub.out", false),
        file("12_0_log.out", "j/12_0_log.out", true),
    ]);
    let r = get_log_pathbuf(&s("j"), &listing, &s("out"));
    assert_eq!(r.ok(), Some(s("j/12_0_log.out")));
    let r = get_log_pathbuf(&s("j"), &listing, &s("err"));
    assert_eq!(r.ok(), Some(s("j/12_0_log.err")));
}

#[test]
fn missing_log_is_log_not_found() {
    let listing = Some(vec![file("a.txt", "j/a.txt", true)]);
    let e = get_log_pathbuf(&s("j"), &listing, &s("out")).err().unwrap();
    assert_eq!(e.message(), "Could not find log in j with ending out.");
    let e = get_log_pathbuf(&s("gone"), &None, &s("out")).err().unwrap();
    assert!(matches!(e, ProgramError::LogNotFound { ref dir, ref ending } if dir == "gone" && ending == "out"));
}

#[test]
fn display_text_never_fails() {
    let missing: Result<String, ProgramError> =
        Err(ProgramError::LogNotFound { dir: s("j"), ending: s("err") });
    assert_eq!(
        get_log_content_or_error_msg(&missing, None),
        "Could not find log in j with ending err."
    );
    let found: Result<String, ProgramError> = Ok(s("j/a.out"));
    assert_eq!(get_log_content_or_error_msg(&found, None), "Could not read log.");
    assert_eq!(get_log_content_or_error_msg(&found, Some(s("hello\n"))), "hello\n");
}

#[test]
fn search_order_is_descending() {
    let idx = index_of(&["10", "2", "30"]);
    let order: Vec<String> = search_order(&idx, &None).into_iter().map(|e| e.id).collect();
    assert_eq!(order, vec![s("30"), s("2"), s("10")]);
}

#[test]
fn empty_active_list_selects_nothing() {
    let idx = index_of(&["10", "2", "30"]);
    assert!(search_order(&idx, &Some(vec![])).is_empty());
}

#[test]
fn active_list_filters_by_exact_id() {
    let idx = index_of(&["10", "2", "30"]);
    let order: Vec<String> =
        search_order(&idx, &Some(vec![s("2"), s("30"), s("3")])).into_iter().map(|e| e.id).collect();
    assert_eq!(order, vec![s("30"), s("2")]);
}

#[test]
fn compare_ids_is_lexicographic() {
    assert!(compare_ids(&s("10"), &s("2")) < 0);
    assert!(compare_ids(&s("30"), &s("2")) > 0);
    assert!(compare_ids(&s("2"), &s("2")) == 0);
    assert!(compare_ids(&s("2"), &s("20")) < 0);
}

#[test]
fn search_marks_matching_lines() {
    let pat = Pattern::new(&s("alpha")).ok().unwrap();
    let log: Result<String, ProgramError> = Ok(s("j/x.out"));
    let lines = search_log(&pat, &log, &Some(s("alpha 1\nbeta 2\nalpha 3\n")));
    assert_eq!(lines.len(), 2);
    for line in &lines {
        assert!(line.iter().any(|g| g.marked && g.text == "alpha"));
    }
    assert_eq!(
        seg_texts(&lines[1]),
        vec![(s(""), false), (s("alpha"), true), (s(" 3"), false)]
    );
}

#[test]
fn search_marks_every_match() {
    let pat = Pattern::new(&s("a+")).ok().unwrap();
    let log: Result<String, ProgramError> = Ok(s("j/x.out"));
    let lines = search_log(&pat, &log, &Some(s("baaad xa\nnothing here\n")));
    assert_eq!(lines.len(), 1);
    assert_eq!(
        seg_texts(&lines[0]),
        vec![
            (s("b"), false),
            (s("aaa"), true),
            (s("d x"), false),
            (s("a"), true),
            (s(""), false)
        ]
    );
}

#[test]
fn search_skips_unresolved_and_unreadable_logs() {
    let pat = Pattern::new(&s(".")).ok().unwrap();
    let missing: Result<String, ProgramError> =
        Err(ProgramError::LogNotFound { dir: s("j"), ending: s("out") });
    assert!(search_log(&pat, &missing, &Some(s("abc"))).is_empty());
    let found: Result<String, ProgramError> = Ok(s("j/x.out"));
    assert!(search_log(&pat, &found, &None).is_empty());
}

#[test]
fn invalid_pattern_is_reported() {
    let e = Pattern::new(&s("(")).err().unwrap();
    assert_eq!(e.message(), "Invalid search pattern (.");
}

#[test]
fn lines_split_like_std() {
    assert_eq!(split_lines("a\r\nb\n"), vec![s("a"), s("b")]);
    assert_eq!(split_lines("a\n\nb"), vec![s("a"), s(""), s("b")]);
    assert_eq!(split_lines(""), Vec::<String>::new());
    assert_eq!(split_lines("x\r"), vec![s("x\r")]);
    assert_eq!(split_lines("\n"), vec![s("")]);
}

#[test]
fn highlight_alternates_gaps_and_matches() {
    let segs = highlight_segments(&vec![s(""), s(" 1")], &vec![s("alpha")]);
    assert_eq!(seg_texts(&segs), vec![(s(""), false), (s("alpha"), true), (s(" 1"), false)]);
}

#[test]
fn ids_only_reports_identifier() {
    let entry = JobEntry { id: s("7_0"), dir: s("m/d/t/.submitit/7_0") };
    let lines = vec![vec![Segment { text: s("hit"), marked: true }]];
    match joblogs::report_for(&entry, lines, true) {
        Some(Report::Id(id)) => assert_eq!(id, "7_0"),
        _ => panic!("expected an identifier report"),
    }
    let lines = vec![vec![Segment { text: s("hit"), marked: true }]];
    match joblogs::report_for(&entry, lines, false) {
        Some(Report::Lines { dir, lines }) => {
            assert_eq!(dir, "m/d/t/.submitit/7_0");
            assert_eq!(lines.len(), 1);
        }
        _ => panic!("expected a block report"),
    }
    assert!(joblogs::report_for(&entry, vec![], true).is_none());
}
