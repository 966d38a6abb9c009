use systemhog::update::{
    asset_name, check_exit_code, fmt_version, latest_version_from_redirect, magic_ok, parse_version,
    sha256_in_output, triple_for, update_verdict, UpdateVerdict,
};

#[test]
fn parses_versions() {
    assert_eq!(parse_version("0.2.0"), Ok((0, 2, 0)));
    assert_eq!(parse_version("v10.4.2"), Ok((10, 4, 2)));
    assert_eq!(parse_version("0.2"), Ok((0, 2, 0)));
    assert!(parse_version("0.2.0-rc.1").is_err());
    assert!(parse_version("latest").is_err());
}

#[test]
fn orders_versions() {
    assert!(parse_version("0.2.1").unwrap() > parse_version("0.2.0").unwrap());
    assert!(parse_version("0.10.0").unwrap() > parse_version("0.9.9").unwrap());
    assert_eq!(parse_version("1.0.0").unwrap(), parse_version("v1.0.0").unwrap());
}

#[test]
fn triples_match_release_assets() {
    assert_eq!(triple_for("linux", "x86_64"), Ok(("x86_64-unknown-linux-musl".into(), false)));
    assert_eq!(triple_for("linux", "arm"), Ok(("armv7-unknown-linux-musleabihf".into(), false)));
    assert_eq!(triple_for("linux", "riscv64"), Ok(("riscv64gc-unknown-linux-musl".into(), false)));
    assert_eq!(triple_for("macos", "aarch64"), Ok(("aarch64-apple-darwin".into(), false)));
    assert_eq!(triple_for("windows", "x86_64"), Ok(("x86_64-pc-windows-msvc".into(), true)));
    assert!(triple_for("linux", "mips").is_err());
    assert!(triple_for("plan9", "x86_64").is_err());
}

#[test]
fn version_errors_name_the_component() {
    assert_eq!(
        parse_version("0.2.0-rc.1"),
        Err("cannot parse version \"0.2.0-rc.1\" (component 3)".to_string())
    );
    assert_eq!(parse_version("latest"), Err("cannot parse version \"latest\" (component 1)".to_string()));
    assert_eq!(parse_version("1..2"), Err("cannot parse version \"1..2\" (component 2)".to_string()));
    assert_eq!(parse_version(""), Err("cannot parse version \"\" (component 1)".to_string()));
}

#[test]
fn version_edge_cases() {
    assert_eq!(parse_version("  vv1.2.3\n"), Ok((1, 2, 3)));
    assert_eq!(parse_version("1.2.3.4"), Ok((1, 2, 3)));
    assert_eq!(parse_version("+1.2.3"), Ok((1, 2, 3)));
    assert_eq!(parse_version("4294967295"), Ok((4294967295, 0, 0)));
    assert!(parse_version("4294967296").is_err());
}

#[test]
fn formatted_versions_read_back() {
    assert_eq!(fmt_version((0, 2, 1)), "v0.2.1");
    assert_eq!(parse_version(&fmt_version((10, 0, 4294967295))), Ok((10, 0, 4294967295)));
}

#[test]
fn unsupported_platform_messages() {
    assert_eq!(triple_for("linux", "mips"), Err("unsupported architecture: mips".to_string()));
    assert_eq!(triple_for("plan9", "x86_64"), Err("unsupported OS: plan9".to_string()));
    assert_eq!(asset_name("windows", "aarch64"), Ok("systemhog-aarch64-pc-windows-msvc.exe".to_string()));
    assert_eq!(asset_name("linux", "i686"), Ok("systemhog-i686-unknown-linux-musl".to_string()));
}

#[test]
fn redirect_names_the_latest_tag() {
    let url = "https://github.com/p1n2o/systemhog/releases/download/v0.4.0/systemhog-x86_64-unknown-linux-musl\n";
    assert_eq!(latest_version_from_redirect("p1n2o/systemhog", url), Ok("0.4.0".to_string()));
    assert_eq!(
        latest_version_from_redirect("p1n2o/systemhog", "https://example.com/nothing"),
        Err("cannot determine latest release for p1n2o/systemhog".to_string())
    );
    assert!(latest_version_from_redirect("r", "https://x/releases/download/nightly/a").is_err());
}

#[test]
fn checksum_tokens() {
    let hex = "0123456789abcdef0123456789ABCDEF0123456789abcdef0123456789abcdef";
    let out = format!("SHA256 hash of file:\n{hex}\nCertUtil: done\n");
    assert_eq!(sha256_in_output(&out), Some(hex.to_string()));
    assert_eq!(sha256_in_output("abc  file"), None);
}

#[test]
fn format_magic() {
    assert!(magic_ok("linux", Some(&[0x7f, b'E', b'L', b'F'])));
    assert!(!magic_ok("linux", Some(&[0x7f, b'E', b'L'])));
    assert!(!magic_ok("linux", None));
    assert!(magic_ok("windows", Some(&[b'M', b'Z', 0, 0])));
    assert!(magic_ok("macos", Some(&[0xcf, 0xfa, 0xed, 0xfe])));
    assert!(magic_ok("freebsd", None));
}

#[test]
fn update_decisions() {
    assert_eq!(update_verdict(Some((0, 4, 0)), Some((0, 4, 0)), false), UpdateVerdict::UpToDate);
    assert_eq!(update_verdict(Some((0, 4, 0)), Some((0, 5, 0)), true), UpdateVerdict::UpdateAvailable);
    assert_eq!(update_verdict(Some((0, 4, 0)), Some((0, 3, 9)), true), UpdateVerdict::NewerInstalled);
    assert_eq!(update_verdict(Some((0, 4, 0)), Some((0, 3, 9)), false), UpdateVerdict::Install { downgrade: true });
    assert_eq!(update_verdict(Some((0, 4, 0)), None, false), UpdateVerdict::Install { downgrade: false });
    assert_eq!(check_exit_code(UpdateVerdict::UpdateAvailable), 1);
    assert_eq!(check_exit_code(UpdateVerdict::NewerInstalled), 0);
}
