use taxonate::shebang::base_name;
use taxonate::shebang::parse_shebang;
use taxonate::shebang::resolve_interpreter;
use taxonate::shebang::FirstLine;

#[test]
fn shebang_typical() {
    assert_eq!(Some(String::from("bash")), parse_shebang("#!/bin/bash"));
}

#[test]
fn shebang_with_argument() {
    assert_eq!(Some(String::from("bash")), parse_shebang("#!/bin/bash -x"));
}

#[test]
fn shebang_with_env_indirection() {
    assert_eq!(
        Some(String::from("bash")),
        parse_shebang("#!/usr/bin/env bash")
    );
}

#[test]
fn shebang_with_leading_whitespace() {
    assert_eq!(Some(String::from("bash")), parse_shebang(" #!/bin/bash"));
}

#[test]
fn shebang_with_inner_whitespace() {
    assert_eq!(Some(String::from("bash")), parse_shebang("#! /bin/bash"));
}

#[test]
fn shebang_without_absolute_path() {
    assert_eq!(None, parse_shebang("#!bash"));
}

#[test]
fn shebang_without_env_argument() {
    assert_eq!(None, parse_shebang("#!/usr/bin/env"));
}

#[test]
fn shebang_without_interpreter() {
    assert_eq!(None, parse_shebang("#!"));
}

#[test]
fn shebang_without_shebang() {
    assert_eq!(None, parse_shebang("bash"));
}

#[test]
fn shebang_final_component() {
    assert_eq!(
        Some(String::from("python3")),
        parse_shebang("#!/usr/bin/python3")
    );
}

#[test]
fn shebang_with_relative_path() {
    assert_eq!(None, parse_shebang("#!usr/bin/bash"));
}

#[test]
fn shebang_env_with_extra_arguments() {
    assert_eq!(
        Some(String::from("python3")),
        parse_shebang("#!/usr/bin/env python3 -u")
    );
}

#[test]
fn shebang_with_trailing_separator() {
    assert_eq!(Some(String::from("bash")), parse_shebang("#!/bin/bash/"));
}

#[test]
fn shebang_env_with_double_space() {
    assert_eq!(
        Some(String::from("bash")),
        parse_shebang("#!/usr/bin/env  bash")
    );
}

#[test]
fn shebang_with_combined_whitespace() {
    assert_eq!(
        Some(String::from("python3")),
        parse_shebang(" \t#! /usr/bin/env python3")
    );
}

#[test]
fn shebang_with_doubled_separators() {
    assert_eq!(
        Some(String::from("ruby")),
        parse_shebang("#!/usr//local//bin//ruby")
    );
}

#[test]
fn shebang_with_dot_segment() {
    assert_eq!(Some(String::from("bin")), parse_shebang("#!/opt/bin/."));
}

#[test]
fn shebang_with_parent_component() {
    assert_eq!(None, parse_shebang("#!/opt/.."));
}

#[test]
fn shebang_root_only() {
    assert_eq!(None, parse_shebang("#!/"));
}

#[test]
fn shebang_empty_line() {
    assert_eq!(None, parse_shebang(""));
}

#[test]
fn base_name_of_nested_path() {
    assert_eq!(Some("a.py"), base_name("./dir/a.py"));
}

#[test]
fn base_name_of_bare_name() {
    assert_eq!(Some("script"), base_name("script"));
}

#[test]
fn base_name_with_trailing_separator() {
    assert_eq!(Some("dir"), base_name("top/dir/"));
}

#[test]
fn base_name_of_parent_reference() {
    assert_eq!(None, base_name("top/.."));
}

#[test]
fn resolve_interpreter_from_line() {
    let line = FirstLine::Line(String::from("#!/usr/bin/env ruby"));
    assert_eq!(Some(String::from("ruby")), resolve_interpreter(&line));
}

#[test]
fn resolve_interpreter_unreadable() {
    assert_eq!(None, resolve_interpreter(&FirstLine::Unreadable));
}

#[test]
fn resolve_interpreter_without_shebang() {
    let line = FirstLine::Line(String::from("import sys"));
    assert_eq!(None, resolve_interpreter(&line));
}
