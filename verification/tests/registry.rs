use taxonate::languages::load;
use taxonate::languages::matches_any_glob;
use taxonate::languages::Language;
use taxonate::languages::LanguageEntry;
use taxonate::languages::LoadError;

fn entry(key: &str, name: &str, globs: &[&str], interpreters: &[&str]) -> LanguageEntry {
    LanguageEntry {
        key: String::from(key),
        language: Language {
            name: String::from(name),
            globs: globs.iter().map(|g| String::from(*g)).collect(),
            interpreters: interpreters.iter().map(|i| String::from(*i)).collect(),
        },
    }
}

#[test]
fn load_sorts_entries_by_key() {
    let entries = vec![
        entry("shell", "Shell", &["*.sh"], &["sh", "bash"]),
        entry("python", "Python", &["*.py"], &["python", "python3"]),
        entry("c", "C", &["*.c", "*.h"], &[]),
    ];
    let languages = load(&entries).unwrap();
    let keys: Vec<&str> = languages.all().iter().map(|e| e.key.as_str()).collect();
    assert_eq!(vec!["c", "python", "shell"], keys);
}

#[test]
fn load_rejects_duplicate_key() {
    let entries = vec![
        entry("python", "Python", &["*.py"], &[]),
        entry("python", "Python again", &[], &["python3"]),
    ];
    match load(&entries) {
        Err(LoadError::DuplicateKey(k)) => assert_eq!("python", k),
        _ => panic!("expected a duplicate-key error"),
    }
}

#[test]
fn load_rejects_invalid_glob() {
    let entries = vec![
        entry("python", "Python", &["*.py"], &[]),
        entry("broken", "Broken", &["a**b"], &[]),
    ];
    match load(&entries) {
        Err(LoadError::InvalidGlob(g)) => assert_eq!("a**b", g),
        _ => panic!("expected an invalid-glob error"),
    }
}

#[test]
fn load_tolerates_useless_entry() {
    let entries = vec![entry("empty", "Empty", &[], &[])];
    let languages = load(&entries).unwrap();
    assert_eq!(1, languages.all().len());
}

#[test]
fn lookup_finds_language_by_key() {
    let entries = vec![
        entry("python", "Python", &["*.py"], &[]),
        entry("shell", "Shell", &["*.sh"], &[]),
    ];
    let languages = load(&entries).unwrap();
    assert_eq!("Shell", languages.lookup("shell").unwrap().name);
    assert!(languages.lookup("fortran").is_none());
}

#[test]
fn glob_matching_uses_shell_semantics() {
    let globs = vec![String::from("*.py"), String::from("c?t")];
    assert!(matches_any_glob(&globs, "script.py"));
    assert!(matches_any_glob(&globs, "cat"));
    assert!(!matches_any_glob(&globs, "script.rb"));
    assert!(!matches_any_glob(&globs, "caat"));
}

#[test]
fn glob_matching_skips_malformed_pattern() {
    let globs = vec![String::from("a**b")];
    assert!(!matches_any_glob(&globs, "ab"));
    assert!(!matches_any_glob(&globs, "a**b"));
}
