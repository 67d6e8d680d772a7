use taxonate::identify;
use taxonate::languages::load;
use taxonate::languages::Language;
use taxonate::languages::LanguageEntry;
use taxonate::languages::Languages;
use taxonate::shebang::FirstLine;

fn entry(key: &str, name: &str, globs: &[&str], interpreters: &[&str]) -> LanguageEntry {
    LanguageEntry {
        key: String::from(key),
        language: Language {
            name: String::from(name),
            globs: globs.iter().map(|g| String::from(*g)).collect(),
            interpreters: interpreters.iter().map(|i| String::from(*i)).collect(),
        },
    }
}

fn registry() -> Languages {
    load(&vec![
        entry("python", "Python", &["*.py"], &["python", "python3"]),
        entry("shell", "Shell", &["*.sh"], &["sh", "bash"]),
    ])
    .unwrap()
}

fn line(text: &str) -> FirstLine {
    FirstLine::Line(String::from(text))
}

#[test]
fn identify_by_glob() {
    let languages = registry();
    let lang = identify(&languages, "dir/script.py", &FirstLine::Unreadable);
    assert_eq!("Python", lang.unwrap().name);
}

#[test]
fn identify_by_interpreter() {
    let languages = registry();
    let lang = identify(&languages, "dir/tool", &line("#!/bin/bash"));
    assert_eq!("Shell", lang.unwrap().name);
}

#[test]
fn identify_unknown() {
    let languages = registry();
    assert!(identify(&languages, "README.md", &line("# heading")).is_none());
}

#[test]
fn interpreter_beats_glob() {
    let languages = registry();
    let lang = identify(&languages, "script.sh", &line("#!/usr/bin/env python3"));
    assert_eq!("Python", lang.unwrap().name);
}

#[test]
fn shebang_falls_back_to_glob_when_unclaimed() {
    let languages = registry();
    let lang = identify(&languages, "script.py", &line("#!/usr/bin/perl"));
    assert_eq!("Python", lang.unwrap().name);
}

#[test]
fn identify_is_deterministic() {
    let languages = registry();
    let first = identify(&languages, "script.sh", &line("#!/usr/bin/env python3"));
    let second = identify(&languages, "script.sh", &line("#!/usr/bin/env python3"));
    assert_eq!(first.unwrap().name, second.unwrap().name);
}

#[test]
fn overlapping_globs_resolve_to_smallest_key() {
    let languages = load(&vec![
        entry("zig", "Zig", &["*.x"], &[]),
        entry("ada", "Ada", &["*.x"], &[]),
    ])
    .unwrap();
    let first = identify(&languages, "thing.x", &FirstLine::Unreadable);
    let second = identify(&languages, "thing.x", &FirstLine::Unreadable);
    assert_eq!("Ada", first.unwrap().name);
    assert_eq!("Ada", second.unwrap().name);
}

#[test]
fn overlapping_interpreters_resolve_to_smallest_key() {
    let languages = load(&vec![
        entry("second", "Second", &[], &["sh"]),
        entry("first", "First", &[], &["sh"]),
    ])
    .unwrap();
    let lang = identify(&languages, "tool", &line("#!/bin/sh"));
    assert_eq!("First", lang.unwrap().name);
}

#[test]
fn identify_without_base_name() {
    let languages = registry();
    assert!(identify(&languages, "/", &FirstLine::Unreadable).is_none());
}
