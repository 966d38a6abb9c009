use systemhog::cli::{
    answer_or_default, command, confirm_answer, lock_path, num_range, parse_common, update,
    validate_cpu_max, validate_log_file, Command,
};

fn strings(v: &[&str]) -> Vec<String> {
    v.iter().map(|s| s.to_string()).collect()
}

#[test]
fn common_options_are_read() {
    let a = parse_common(&strings(&["--config", "/tmp/x.conf", "--yes", "extra"]));
    assert_eq!(a.config, Some("/tmp/x.conf".to_string()));
    assert!(a.yes);
    assert_eq!(a.ignored, strings(&["extra"]));
    let b = parse_common(&strings(&["--config=/a", "--config"]));
    assert_eq!(b.config, None);
    assert!(!b.yes);
    let c = parse_common(&strings(&["--config=/etc/s.conf"]));
    assert_eq!(c.config, Some("/etc/s.conf".to_string()));
    assert!(c.ignored.is_empty());
}

#[test]
fn update_arguments() {
    let u = update(&strings(&["--check", "--config", "/c.conf"]));
    assert!(u.check_only);
    assert_eq!(u.config, "/c.conf");
    let v = update(&strings(&["--bogus"]));
    assert!(!v.check_only);
    assert_eq!(v.config, "/etc/systemhog/config.conf");
    assert_eq!(v.ignored, strings(&["--bogus"]));
}

#[test]
fn numeric_answers() {
    assert_eq!(num_range(" 42 ", 0, 98, "cpu min"), Ok("42".to_string()));
    assert_eq!(num_range("007", 1, 90, "ram target"), Ok("7".to_string()));
    assert_eq!(num_range("99", 0, 98, "cpu min"), Err("cpu min must be 0..=98, got 99".to_string()));
    assert_eq!(num_range("x", 1, 3600, "interval"), Err("interval must be a number, got \"x\"".to_string()));
    assert_eq!(num_range("-1", 0, 98, "cpu min"), Err("cpu min must be a number, got \"-1\"".to_string()));
}

#[test]
fn wizard_answers() {
    assert_eq!(validate_cpu_max("30", 10), Ok("30".to_string()));
    assert_eq!(validate_cpu_max("10", 10), Err("cpu max must be above cpu min (10)".to_string()));
    assert_eq!(validate_cpu_max("101", 10), Err("cpu max must be <= 100".to_string()));
    assert_eq!(validate_cpu_max("ten", 10), Err("cpu max must be a number, got \"ten\"".to_string()));
    assert_eq!(validate_log_file("  /var/log/x.log \n"), Ok("/var/log/x.log".to_string()));
    assert_eq!(validate_log_file("   "), Err("log file must not be empty".to_string()));
    assert_eq!(answer_or_default(Some("\n"), "systemhog"), "systemhog");
    assert_eq!(answer_or_default(Some(" web \n"), "systemhog"), "web");
    assert_eq!(answer_or_default(None, "5"), "5");
}

#[test]
fn yes_no_answers() {
    assert!(confirm_answer(Some("\n"), true));
    assert!(!confirm_answer(None, false));
    assert!(confirm_answer(Some("YES\n"), false));
    assert!(confirm_answer(Some(" y"), false));
    assert!(!confirm_answer(Some("no"), true));
    assert!(!confirm_answer(Some("yeah"), true));
}

#[test]
fn lock_files() {
    assert_eq!(lock_path(true, "systemhog", "/tmp", 0), "/run/systemhog-systemhog.lock");
    assert_eq!(lock_path(false, "web", "/tmp", 1000), "/tmp/systemhog-web-1000.lock");
    assert_eq!(lock_path(false, "web", "/tmp/", 7), "/tmp/systemhog-web-7.lock");
}

#[test]
fn commands() {
    assert_eq!(command(&strings(&["systemhog"])), (Command::Run, 1));
    assert_eq!(command(&strings(&["systemhog", "init", "--yes"])), (Command::Init, 2));
    assert_eq!(command(&strings(&["systemhog", "--config", "/x"])), (Command::Run, 1));
    assert_eq!(command(&strings(&["systemhog", "--help"])), (Command::Help, 2));
    assert_eq!(command(&strings(&["systemhog", "-V"])), (Command::Version, 2));
    assert_eq!(command(&strings(&["systemhog", "self-update"])), (Command::Update, 2));
    assert_eq!(command(&strings(&["systemhog", "frobnicate"])), (Command::Unknown, 2));
}
