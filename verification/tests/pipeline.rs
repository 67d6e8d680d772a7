use taxonate::languages::load;
use taxonate::languages::Language;
use taxonate::languages::LanguageEntry;
use taxonate::languages::Languages;
use taxonate::list_languages;
use taxonate::render_line;
use taxonate::run_batch;
use taxonate::shebang::FirstLine;
use taxonate::should_print;
use taxonate::walk::plan_walk;
use taxonate::walk::FileEntry;
use taxonate::FileInput;

fn entry(key: &str, name: &str, globs: &[&str], interpreters: &[&str]) -> LanguageEntry {
    LanguageEntry {
        key: String::from(key),
        language: Language {
            name: String::from(name),
            globs: globs.iter().map(|g| String::from(*g)).collect(),
            interpreters: interpreters.iter().map(|i| String::from(*i)).collect(),
        },
    }
}

fn registry() -> Languages {
    load(&vec![
        entry("python", "Python", &["*.py"], &["python", "python3"]),
        entry("shell", "Shell", &["*.sh"], &["sh", "bash"]),
    ])
    .unwrap()
}

fn file(path: &str, first_line: Option<&str>) -> FileInput {
    FileInput {
        path: String::from(path),
        first_line: match first_line {
            Some(l) => FirstLine::Line(String::from(l)),
            None => FirstLine::Unreadable,
        },
    }
}

#[test]
fn end_to_end_both_files_are_python() {
    let languages = registry();
    let files = vec![
        file("dir/a.py", Some("import sys")),
        file("dir/b", Some("#!/usr/bin/env python3")),
    ];
    let lines = run_batch(&languages, &files, None, false);
    assert_eq!(
        vec![
            String::from("dir/a.py: Python"),
            String::from("dir/b: Python"),
        ],
        lines
    );
}

#[test]
fn unreadable_file_still_classified_by_name() {
    let languages = registry();
    let files = vec![file("dir/a.py", None)];
    let lines = run_batch(&languages, &files, None, false);
    assert_eq!(vec![String::from("dir/a.py: Python")], lines);
}

#[test]
fn no_filter_emits_unknown() {
    let languages = registry();
    let files = vec![file("notes.txt", Some("plain text"))];
    let lines = run_batch(&languages, &files, None, false);
    assert_eq!(vec![String::from("notes.txt: Unknown")], lines);
}

#[test]
fn filter_keeps_only_that_language() {
    let languages = registry();
    let files = vec![
        file("a.py", None),
        file("b.sh", None),
        file("notes.txt", None),
    ];
    let key = String::from("python");
    let lines = run_batch(&languages, &files, Some(&key), false);
    assert_eq!(vec![String::from("a.py: Python")], lines);
}

#[test]
fn filter_suppresses_unknown() {
    let languages = registry();
    let files = vec![file("notes.txt", None)];
    let key = String::from("shell");
    let lines = run_batch(&languages, &files, Some(&key), false);
    assert!(lines.is_empty());
}

#[test]
fn unknown_filter_key_means_no_filter() {
    let languages = registry();
    let files = vec![file("notes.txt", None)];
    let key = String::from("fortran");
    let lines = run_batch(&languages, &files, Some(&key), false);
    assert_eq!(vec![String::from("notes.txt: Unknown")], lines);
}

#[test]
fn filename_only_omits_language() {
    let languages = registry();
    let files = vec![file("a.py", None)];
    let lines = run_batch(&languages, &files, None, true);
    assert_eq!(vec![String::from("a.py")], lines);
}

#[test]
fn should_print_semantics() {
    let languages = registry();
    let python = languages.lookup("python");
    let shell = languages.lookup("shell");
    assert!(should_print(python, None));
    assert!(should_print(None, None));
    assert!(should_print(python, python));
    assert!(!should_print(python, shell));
    assert!(!should_print(None, python));
}

#[test]
fn render_line_shapes() {
    assert_eq!("a.py: Python", render_line("a.py", "Python", false));
    assert_eq!("a.py", render_line("a.py", "Python", true));
}

#[test]
fn list_languages_in_key_order() {
    let languages = registry();
    assert_eq!(
        vec![String::from("python: Python"), String::from("shell: Shell")],
        list_languages(&languages)
    );
}

fn walked(path: &str, canonical: &str, is_regular_file: bool) -> FileEntry {
    FileEntry {
        path: String::from(path),
        canonical: String::from(canonical),
        is_regular_file,
    }
}

#[test]
fn overlapping_roots_yield_each_file_once() {
    let entries = vec![
        walked("top/sub/a.py", "/root/top/sub/a.py", true),
        walked("top/b.sh", "/root/top/b.sh", true),
        walked("sub/a.py", "/root/top/sub/a.py", true),
    ];
    let planned = plan_walk(&entries);
    let paths: Vec<&str> = planned.iter().map(|e| e.path.as_str()).collect();
    assert_eq!(vec!["top/sub/a.py", "top/b.sh"], paths);
}

#[test]
fn non_regular_entries_are_skipped() {
    let entries = vec![
        walked("dir", "/root/dir", false),
        walked("dir/a.py", "/root/dir/a.py", true),
    ];
    let planned = plan_walk(&entries);
    assert_eq!(1, planned.len());
    assert_eq!("dir/a.py", planned[0].path);
}
