use systemhog::config::{parse_config, render_config, valid_name, Config};

#[test]
fn defaults_round_trip() {
    let d = Config::default();
    let text = render_config(&d);
    assert_eq!(
        text,
        "[CPU_SETTINGS]\nTARGET_CPU_MIN = 10\nTARGET_CPU_MAX = 20\n[RAM_SETTINGS]\nTARGET_RAM_USAGE = 10\n\
         [SETTINGS]\nCHECK_INTERVAL = 5\nSERVICE_NAME = systemhog\nLOG_FILE = /var/log/systemhog.log\n"
    );
    let back = parse_config(&text).unwrap();
    assert!(back.same(&d));
}

#[test]
fn documented_layout_is_read() {
    let text = "[CPU_SETTINGS]\ntarget_cpu_min = 30        # if usage drops below this, add load\n\
                TARGET_CPU_MAX = 45\n\n# comment\n[RAM_SETTINGS]\r\nTARGET_RAM_USAGE = 25\nUNKNOWN = 1\n";
    let c = parse_config(text).unwrap();
    assert_eq!((c.cpu_min, c.cpu_max, c.ram_target, c.check_interval), (30, 45, 25, 5));
    assert_eq!(c.service_name, "systemhog");
    assert_eq!(c.log_file, "/var/log/systemhog.log");
}

#[test]
fn broken_files_are_refused() {
    assert_eq!(
        parse_config("[SETTINGS]\nCHECK_INTERVAL 5\n").err(),
        Some("config line 2: expected KEY = VALUE".to_string())
    );
    assert_eq!(
        parse_config("TARGET_CPU_MIN = 50\n").err(),
        Some("cpu max must be above cpu min (50)".to_string())
    );
    assert_eq!(parse_config("CHECK_INTERVAL = 0").err(), Some("interval must be 1..=3600, got 0".to_string()));
}

#[test]
fn service_names() {
    assert_eq!(valid_name(" web-1.x "), Ok("web-1.x".to_string()));
    assert_eq!(
        valid_name("a/b"),
        Err("invalid service name \"a/b\": use letters, digits, '-', '_' and '.'".to_string())
    );
    assert!(valid_name("").is_err());
}
