use flua::ini::map_to_ini_string;
use flua::logger::{LogLevel, Logger};

#[test]
fn logger_filters_by_level() {
    let l = Logger::with_dir("/tmp/logs".to_string(), LogLevel::Warn);
    assert_eq!(l.level(), LogLevel::Warn);
    assert_eq!(
        l.error("disk full", "2024-01-02 03:04:05"),
        Some("[2024-01-02 03:04:05] [Error] disk full\n".to_string())
    );
    assert_eq!(l.warn("careful", "t"), Some("[t] [Warn] careful\n".to_string()));
    assert_eq!(l.info("hidden", "t"), None);
    assert_eq!(l.debug("hidden", "t"), None);
    assert_eq!(l.log_dir(), "/tmp/logs");
    assert_eq!(l.log_file(), "/tmp/logs/flua.log");
}

#[test]
fn logger_levels_off_and_all() {
    let mut l = Logger::with_dir("d".to_string(), LogLevel::Off);
    assert_eq!(l.error("x", "t"), None);
    l.set_level(LogLevel::All);
    assert_eq!(l.level(), LogLevel::All);
    assert_eq!(l.debug("x", "t"), Some("[t] [Debug] x\n".to_string()));
    assert_eq!(l.entry(LogLevel::Off, "x", "t"), None);
    assert_eq!(LogLevel::from_rank(9), LogLevel::All);
    assert_eq!(LogLevel::Info.rank(), 4);
}

#[test]
fn logger_default_location() {
    let l = Logger::new("/home/u/.config");
    assert_eq!(l.level(), LogLevel::Info);
    assert_eq!(l.log_dir(), "/home/u/.config/@shadowdara/flua/logs");
}

#[test]
fn ini_text_of_sections() {
    let map = vec![
        (
            "server".to_string(),
            vec![
                ("host".to_string(), Some("localhost".to_string())),
                ("enabled".to_string(), None),
            ],
        ),
        ("DEFAULT".to_string(), vec![("user".to_string(), Some("guest".to_string()))]),
    ];
    assert_eq!(
        map_to_ini_string(&map),
        "[server]\nhost = localhost\nenabled\n\nuser = guest\n\n"
    );
    assert_eq!(map_to_ini_string(&vec![]), "");
}
