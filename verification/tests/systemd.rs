use systemhog::sys::systemd::{daemon_reload, disable_now, enable_now, is_active_args, restart, systemctl_failure, unit_file, unit_path};

#[test]
fn unit_files() {
    assert_eq!(unit_path("systemhog"), "/etc/systemd/system/systemhog.service");
    let body = unit_file("systemhog", "/usr/local/bin/systemhog", "/etc/systemhog/config.conf");
    assert_eq!(
        body,
        "[Unit]\nDescription=systemhog - CPU and RAM resource maintainer\nAfter=network.target\n\n\
         [Service]\nExecStart=/usr/local/bin/systemhog --config /etc/systemhog/config.conf\nRestart=always\nRestartSec=5\n\n\
         [Install]\nWantedBy=multi-user.target\n"
    );
}

#[test]
fn systemctl_commands() {
    assert_eq!(restart("web"), vec!["restart".to_string(), "web".to_string()]);
    assert_eq!(enable_now("web"), vec!["enable", "--now", "web"]);
    assert_eq!(disable_now("web"), vec!["disable", "--now", "web"]);
    assert_eq!(is_active_args("web"), vec!["is-active", "web"]);
    assert_eq!(daemon_reload(), vec!["daemon-reload"]);
    let args = enable_now("web");
    assert_eq!(
        systemctl_failure(&args, "  Unit web.service not found.\n"),
        "`systemctl enable --now web` failed: Unit web.service not found."
    );
}
