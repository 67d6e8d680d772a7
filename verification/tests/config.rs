use taxonate::config::Color;
use taxonate::config::Config;
use taxonate::config::LogLevel;

#[test]
fn new_config_has_defaults() {
    let config = Config::new();
    assert_eq!(&Color::Auto, config.color());
    assert!(!config.filename_only());
    assert_eq!(&LogLevel::Error, config.log_level());
    assert!(config.language().is_none());
    assert!(config.paths().is_empty());
}

#[test]
fn default_matches_new() {
    let config = Config::default();
    assert_eq!(&Color::Auto, config.color());
    assert_eq!(&LogLevel::Error, config.log_level());
}

#[test]
fn builder_chain_sets_every_field() {
    let config = Config::new()
        .set_color(Color::Never)
        .set_filename_only(true)
        .set_log_level(LogLevel::Debug)
        .set_language(Some(String::from("python")))
        .add_path(String::from("src"));
    assert_eq!(&Color::Never, config.color());
    assert!(config.filename_only());
    assert_eq!(&LogLevel::Debug, config.log_level());
    assert_eq!(&Some(String::from("python")), config.language());
    assert_eq!(&vec![String::from("src")], config.paths());
}

#[test]
fn add_path_ignores_duplicates() {
    let config = Config::new()
        .add_path(String::from("a"))
        .add_path(String::from("b"))
        .add_path(String::from("a"));
    assert_eq!(
        &vec![String::from("a"), String::from("b")],
        config.paths()
    );
}

#[test]
fn set_paths_replaces_the_set() {
    let config = Config::new()
        .add_path(String::from("old"))
        .set_paths(vec![String::from("x"), String::from("y")]);
    assert_eq!(
        &vec![String::from("x"), String::from("y")],
        config.paths()
    );
}
