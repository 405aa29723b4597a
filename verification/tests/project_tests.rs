use serena_mcp::excerpt::{push_decimal, truncate_text};
use serena_mcp::suggest::{build_conversation_suggestions, SuggestionKind};
use serena_mcp::summary::{
    allow_entry, collect_project_summary, count_todo_markers, language_from_extension,
    read_readme_excerpt, readme_candidates, reads_for_todos, FileStep, LanguageSummary,
    ProjectSummary, SummaryBuilder, MAX_SCAN_FILES, TODO_SIZE_LIMIT,
};
use serena_mcp::tally::{count_name, top_tallies, Tally};
use serena_mcp::workflow::{OnboardingPlan, StoredSummary, WorkflowState};

fn tally(name: &str, count: usize) -> Tally {
    Tally { name: name.as_bytes().to_vec(), count, samples: Vec::new() }
}

fn names(tallies: &[Tally]) -> Vec<(String, usize)> {
    tallies.iter().map(|t| (String::from_utf8(t.name.clone()).unwrap(), t.count)).collect()
}

fn summary(root: &str, todo_count: usize) -> ProjectSummary {
    ProjectSummary {
        root: root.as_bytes().to_vec(),
        generated_at: b"2024-01-01T00:00:00Z".to_vec(),
        files_scanned: 3,
        scan_truncated: false,
        top_directories: Vec::new(),
        dominant_languages: Vec::new(),
        sample_files: Vec::new(),
        todo_count,
        readme_excerpt: None,
    }
}

#[test]
fn walk_leaves_out_ignored_and_hidden_directories() {
    for name in [
        ".git",
        "target",
        "node_modules",
        "venv",
        ".venv",
        "dist",
        "build",
        ".pytest_cache",
        "__pycache__",
        ".idea",
        ".",
    ] {
        assert!(!allow_entry(Some(name.as_bytes()), true), "{}", name);
        assert!(allow_entry(Some(name.as_bytes()), false), "{}", name);
    }
    assert!(allow_entry(Some(b"src"), true));
    assert!(allow_entry(Some(b"targets"), true));
    assert!(allow_entry(Some(b""), true));
    assert!(allow_entry(None, true));
    assert!(allow_entry(None, false));
}

#[test]
fn todo_markers_are_counted() {
    assert_eq!(count_todo_markers(b""), 0);
    assert_eq!(count_todo_markers(b"// TODO: a\n# FIXME b TODOTODO\nfixme todo"), 4);
    assert_eq!(count_todo_markers(b"TODFIXME"), 1);
    assert_eq!(TODO_SIZE_LIMIT, 524288);
}

#[test]
fn readme_is_looked_for_under_four_names() {
    assert_eq!(readme_candidates(), vec!["README.md", "README", "readme.md", "Readme.md"]);
    assert!(reads_for_todos(0));
    assert!(reads_for_todos(512 * 1024));
    assert!(!reads_for_todos(512 * 1024 + 1));
}

#[test]
fn readme_excerpt_is_capped() {
    let short = vec![b'a'; 1200];
    assert_eq!(read_readme_excerpt(&short), short);
    let long = vec![b'a'; 1201];
    let mut expected = vec![b'a'; 1200];
    expected.extend_from_slice("\u{2026}".as_bytes());
    assert_eq!(read_readme_excerpt(&long), expected);
    assert_eq!(read_readme_excerpt(b""), Vec::<u8>::new());
}

#[test]
fn excerpt_does_not_cut_a_character_in_two() {
    let text = "ab\u{e9}cd";
    assert_eq!(truncate_text(text.as_bytes(), 2), ("ab\u{2026}".as_bytes().to_vec(), true));
    assert_eq!(truncate_text(text.as_bytes(), 3), ("ab\u{2026}".as_bytes().to_vec(), true));
    assert_eq!(truncate_text(text.as_bytes(), 4), ("ab\u{e9}\u{2026}".as_bytes().to_vec(), true));
    assert_eq!(truncate_text(text.as_bytes(), 6), (text.as_bytes().to_vec(), false));
    assert_eq!(truncate_text(text.as_bytes(), 0), ("\u{2026}".as_bytes().to_vec(), true));
    let wide = "\u{4e16}\u{754c}";
    assert_eq!(truncate_text(wide.as_bytes(), 5), ("\u{4e16}\u{2026}".as_bytes().to_vec(), true));
    assert_eq!(truncate_text(wide.as_bytes(), 2), ("\u{2026}".as_bytes().to_vec(), true));
}

#[test]
fn decimal_digits_are_written_out() {
    for n in [0usize, 7, 10, 42, 100, 12345, usize::MAX] {
        let mut out = b"n=".to_vec();
        push_decimal(&mut out, n);
        assert_eq!(out, format!("n={}", n).into_bytes());
    }
}

#[test]
fn languages_are_named_by_extension() {
    let name = |ext: &str| String::from_utf8(language_from_extension(ext.as_bytes())).unwrap();
    assert_eq!(name("rs"), "Rust");
    assert_eq!(name("py"), "Python");
    assert_eq!(name("tsx"), "TypeScript");
    assert_eq!(name("cjs"), "JavaScript");
    assert_eq!(name("go"), "Go");
    assert_eq!(name("kt"), "JVM");
    assert_eq!(name("cs"), "C#");
    assert_eq!(name("swift"), "Swift");
    assert_eq!(name("rb"), "Ruby");
    assert_eq!(name("php"), "PHP");
    assert_eq!(name("lua"), "Lua");
    assert_eq!(name("hpp"), "C/C++");
    assert_eq!(name("c"), "C");
    assert_eq!(name("dart"), "Dart");
    assert_eq!(name("scala"), "Scala");
    assert_eq!(name("hs"), "Haskell");
    assert_eq!(name("mli"), "OCaml");
    assert_eq!(name("exs"), "Elixir");
    assert_eq!(name("zig"), "Zig");
    assert_eq!(name("sh"), "Shell");
    assert_eq!(name("json"), "JSON");
    assert_eq!(name("yaml"), "YAML");
    assert_eq!(name("toml"), "TOML");
    assert_eq!(name("md"), "MD");
    assert_eq!(name(""), "");
    assert_eq!(name("RS"), "RS");
}

#[test]
fn tallies_count_names_and_keep_samples() {
    let mut tallies: Vec<Tally> = Vec::new();
    count_name(&mut tallies, b"src", Some(b"src/a.rs"), 2);
    count_name(&mut tallies, b"docs", Some(b"docs/x.md"), 2);
    count_name(&mut tallies, b"src", Some(b"src/b.rs"), 2);
    count_name(&mut tallies, b"src", Some(b"src/c.rs"), 2);
    count_name(&mut tallies, b"src", None, 2);
    assert_eq!(names(&tallies), vec![("src".to_string(), 4), ("docs".to_string(), 1)]);
    assert_eq!(tallies[0].samples, vec![b"src/a.rs".to_vec(), b"src/b.rs".to_vec()]);
    assert_eq!(tallies[1].samples, vec![b"docs/x.md".to_vec()]);
}

#[test]
fn top_tallies_come_greatest_first() {
    let all = vec![tally("a", 2), tally("b", 5), tally("c", 2), tally("d", 7), tally("e", 5)];
    let top = top_tallies(all, 4);
    assert_eq!(
        names(&top),
        vec![
            ("d".to_string(), 7),
            ("b".to_string(), 5),
            ("e".to_string(), 5),
            ("a".to_string(), 2)
        ]
    );
    assert!(top_tallies(vec![tally("a", 1)], 0).is_empty());
    assert_eq!(top_tallies(vec![tally("a", 1)], 6).len(), 1);
    assert!(top_tallies(Vec::new(), 6).is_empty());
}

#[test]
fn summary_is_gathered_file_by_file() {
    let mut walk = SummaryBuilder::new();
    let files: [(&str, Option<&str>, Option<&str>); 5] = [
        ("src/main.rs", Some("src"), Some("rs")),
        ("src/lib.RS", Some("src"), Some("RS")),
        ("README", Some("README"), None),
        ("docs/a.md", Some("docs"), Some("md")),
        ("src/x/y.py", Some("src"), Some("py")),
    ];
    for (relative, top, ext) in files {
        let step = walk.visit_file(
            Some(relative.as_bytes()),
            top.map(|t| t.as_bytes()),
            ext.map(|e| e.as_bytes()),
        );
        assert_eq!(step, FileStep::Continue { count_todos: true });
    }
    walk.add_todos(3);
    let step = walk.visit_file(None, None, Some(b"rs"));
    assert_eq!(step, FileStep::Continue { count_todos: true });
    let s = collect_project_summary(
        walk,
        b"/p".to_vec(),
        b"now".to_vec(),
        Some(b"hello".to_vec()),
        2,
        6,
    );
    assert_eq!(s.root, b"/p".to_vec());
    assert_eq!(s.generated_at, b"now".to_vec());
    assert_eq!(s.files_scanned, 6);
    assert!(!s.scan_truncated);
    assert_eq!(s.todo_count, 3);
    assert_eq!(s.readme_excerpt, Some(b"hello".to_vec()));
    assert_eq!(s.sample_files.len(), 5);
    assert_eq!(names(&s.top_directories), vec![("src".to_string(), 3), ("README".to_string(), 1)]);
    assert_eq!(
        s.top_directories[0].samples,
        vec![b"src/main.rs".to_vec(), b"src/lib.RS".to_vec(), b"src/x/y.py".to_vec()]
    );
    let languages: Vec<(String, String, usize)> = s
        .dominant_languages
        .iter()
        .map(|l| {
            (
                String::from_utf8(l.language.clone()).unwrap(),
                String::from_utf8(l.extension.clone()).unwrap(),
                l.files,
            )
        })
        .collect();
    assert_eq!(
        languages,
        vec![
            ("Rust".to_string(), "rs".to_string(), 3),
            ("MD".to_string(), "md".to_string(), 1),
            ("Python".to_string(), "py".to_string(), 1)
        ]
    );
}

#[test]
fn files_under_no_directory_are_counted_under_root() {
    let mut walk = SummaryBuilder::new();
    walk.visit_file(Some(b""), None, None);
    let s = collect_project_summary(walk, Vec::new(), Vec::new(), None, 6, 6);
    assert_eq!(names(&s.top_directories), vec![("<root>".to_string(), 1)]);
}

#[test]
fn at_most_twelve_sample_files_are_kept() {
    let mut walk = SummaryBuilder::new();
    for i in 0..20 {
        let path = format!("d/f{}", i);
        walk.visit_file(Some(path.as_bytes()), Some(b"d"), None);
    }
    let s = collect_project_summary(walk, Vec::new(), Vec::new(), None, 6, 6);
    assert_eq!(s.sample_files.len(), 12);
    assert_eq!(s.sample_files[11], b"d/f11".to_vec());
    assert_eq!(s.top_directories[0].count, 20);
    assert_eq!(s.top_directories[0].samples.len(), 3);
}

#[test]
fn walk_ends_after_too_many_files() {
    let mut walk = SummaryBuilder::new();
    for _ in 0..MAX_SCAN_FILES {
        assert!(matches!(walk.visit_file(Some(b"a"), Some(b"a"), None), FileStep::Continue { .. }));
    }
    assert!(!walk.scan_truncated);
    assert_eq!(walk.files_scanned, 5000);
    assert_eq!(walk.visit_file(Some(b"a"), Some(b"a"), None), FileStep::Stop);
    assert!(walk.scan_truncated);
    assert_eq!(walk.files_scanned, 5000);
    assert_eq!(walk.visit_file(Some(b"a"), Some(b"a"), None), FileStep::Stop);
    assert_eq!(walk.files_scanned, 5000);
    assert_eq!(walk.directories[0].count, 5000);
    assert_eq!(walk.sample_files.len(), 12);
    let s = collect_project_summary(walk, Vec::new(), Vec::new(), None, 6, 6);
    assert_eq!(s.files_scanned, 5000);
    assert!(s.scan_truncated);
}

#[test]
fn a_walk_stays_within_its_limits() {
    let mut walk = SummaryBuilder::new();
    assert!(walk.is_sound());
    for i in 0..40 {
        let path = format!("d{}/f{}", i % 3, i);
        let top = format!("d{}", i % 3);
        walk.visit_file(Some(path.as_bytes()), Some(top.as_bytes()), Some(b"rs"));
        assert!(walk.is_sound());
    }
    assert_eq!(walk.sample_files.len(), 12);
    assert!(walk.directories.iter().all(|d| d.samples.len() == 3));
    assert!(walk.extensions.iter().all(|e| e.samples.is_empty()));
    walk.sample_files.push(b"one too many".to_vec());
    assert!(!walk.is_sound());
}

#[test]
fn todos_are_not_counted_beyond_the_limit() {
    let mut walk = SummaryBuilder::new();
    walk.add_todos(199);
    assert_eq!(walk.visit_file(None, None, None), FileStep::Continue { count_todos: true });
    walk.add_todos(5);
    assert_eq!(walk.todo_count, 204);
    assert_eq!(walk.visit_file(None, None, None), FileStep::Continue { count_todos: false });
    walk.add_todos(usize::MAX);
    assert_eq!(walk.todo_count, usize::MAX);
}

#[test]
fn suggestions_follow_the_summary() {
    let mut s = summary("/p", 7);
    s.scan_truncated = true;
    s.dominant_languages = vec![LanguageSummary {
        language: b"Rust".to_vec(),
        extension: b"rs".to_vec(),
        files: 3,
    }];
    s.top_directories = vec![tally("src", 3), tally("docs", 1), tally("x", 1)];
    let got: Vec<(SuggestionKind, String)> = build_conversation_suggestions(&s)
        .into_iter()
        .map(|g| (g.kind, String::from_utf8(g.message).unwrap()))
        .collect();
    assert_eq!(
        got,
        vec![
            (
                SuggestionKind::TodoReview,
                "Review approximately 7 TODO/FIXME markers before modifying code".to_string()
            ),
            (
                SuggestionKind::LargeProject,
                "Project is large; consider narrowing scope or running targeted symbol searches."
                    .to_string()
            ),
            (SuggestionKind::LanguageFocus, "Primary language detected: Rust (.rs)".to_string()),
            (SuggestionKind::DirectoryOrientation, "Key areas to inspect: src, docs, x".to_string()),
            (
                SuggestionKind::Documentation,
                "No README detected at the project root; confirm setup expectations with maintainers."
                    .to_string()
            ),
        ]
    );
    assert_eq!(SuggestionKind::TodoReview.as_str(), "todo_review");
    assert_eq!(SuggestionKind::LargeProject.as_str(), "large_project");
    assert_eq!(SuggestionKind::LanguageFocus.as_str(), "language_focus");
    assert_eq!(SuggestionKind::DirectoryOrientation.as_str(), "directory_orientation");
    assert_eq!(SuggestionKind::Documentation.as_str(), "documentation");
}

#[test]
fn a_summary_with_nothing_to_say_gives_no_suggestion() {
    let mut s = summary("/p", 0);
    s.readme_excerpt = Some(b"read me".to_vec());
    assert!(build_conversation_suggestions(&s).is_empty());
    s.readme_excerpt = None;
    let only = build_conversation_suggestions(&s);
    assert_eq!(only.len(), 1);
    assert_eq!(only[0].kind, SuggestionKind::Documentation);
}

#[test]
fn onboarding_is_fresh_then_cached() {
    let mut state = WorkflowState::new();
    assert!(state.check_onboarding_performed(b"/p").is_none());
    assert!(matches!(state.plan_onboarding(b"/p", false), OnboardingPlan::Collect));
    state.insert(
        b"/p".to_vec(),
        StoredSummary { summary: summary("/p", 1), updated_at: b"t1".to_vec() },
    );
    assert_eq!(state.check_onboarding_performed(b"/p"), Some(&b"t1".to_vec()));
    for _ in 0..2 {
        match state.plan_onboarding(b"/p", false) {
            OnboardingPlan::Cached(stored) => {
                assert_eq!(stored.updated_at, b"t1".to_vec());
                assert_eq!(stored.summary.todo_count, 1);
            }
            OnboardingPlan::Collect => panic!("the stored summary was expected"),
        }
    }
    assert!(matches!(state.plan_onboarding(b"/p", true), OnboardingPlan::Collect));
    assert!(matches!(state.plan_onboarding(b"/q", false), OnboardingPlan::Collect));
    assert!(state.check_onboarding_performed(b"/q").is_none());
    assert!(state.check_onboarding_performed(b"/").is_none());
}

#[test]
fn a_new_summary_takes_the_place_of_the_old_one() {
    let mut state = WorkflowState::new();
    state.insert(b"/p".to_vec(), StoredSummary { summary: summary("/p", 1), updated_at: b"t1".to_vec() });
    state.insert(b"/q".to_vec(), StoredSummary { summary: summary("/q", 2), updated_at: b"t2".to_vec() });
    state.insert(b"/p".to_vec(), StoredSummary { summary: summary("/p", 3), updated_at: b"t3".to_vec() });
    assert_eq!(state.projects.len(), 2);
    assert_eq!(state.get(b"/p").map(|s| s.summary.todo_count), Some(3));
    assert_eq!(state.check_onboarding_performed(b"/p"), Some(&b"t3".to_vec()));
    assert_eq!(state.get(b"/q").map(|s| s.summary.todo_count), Some(2));
    assert_eq!(state.check_onboarding_performed(b"/q"), Some(&b"t2".to_vec()));
}
