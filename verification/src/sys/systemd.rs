//! systemd service management, system scope: unit file text and `systemctl`
//! command lines.

use vstd::prelude::*;
use crate::text::{push_char, trim, trimmed, chars_of, string_of};

verus! {

/// Path of the unit file of service `name`.
pub fn unit_path(name: &str) -> (r: String)
    ensures
        r@ == "/etc/systemd/system/"@ + name@ + ".service"@,
{
    let mut s = String::new();
    s.append("/etc/systemd/system/");
    s.append(name);
    s.append(".service");
    assert(s@ =~= "/etc/systemd/system/"@ + name@ + ".service"@);
    s
}

/// Text of the unit file that runs `bin --config <config>` as service `name`,
/// restarted on failure and started at boot.
pub open spec fn unit_text(name: Seq<char>, bin: Seq<char>, config: Seq<char>) -> Seq<char> {
    "[Unit]\nDescription="@ + name + " - CPU and RAM resource maintainer\nAfter=network.target\n\n[Service]\nExecStart="@
        + bin + " --config "@ + config
        + "\nRestart=always\nRestartSec=5\n\n[Install]\nWantedBy=multi-user.target\n"@
}

/// The unit file for service `name`.
pub fn unit_file(name: &str, bin: &str, config: &str) -> (r: String)
    ensures
        r@ == unit_text(name@, bin@, config@),
{
    let mut s = String::new();
    s.append("[Unit]\nDescription=");
    s.append(name);
    s.append(" - CPU and RAM resource maintainer\nAfter=network.target\n\n[Service]\nExecStart=");
    s.append(bin);
    s.append(" --config ");
    s.append(config);
    s.append("\nRestart=always\nRestartSec=5\n\n[Install]\nWantedBy=multi-user.target\n");
    assert(s@ =~= unit_text(name@, bin@, config@));
    s
}

fn args2(a: &str, b: &str) -> (r: Vec<String>)
    ensures
        r.deep_view() == seq![a@, b@],
{
    let v = vec![String::from_str(a), String::from_str(b)];
    assert(v.deep_view() =~= seq![a@, b@]);
    v
}

fn args3(a: &str, b: &str, c: &str) -> (r: Vec<String>)
    ensures
        r.deep_view() == seq![a@, b@, c@],
{
    let v = vec![String::from_str(a), String::from_str(b), String::from_str(c)];
    assert(v.deep_view() =~= seq![a@, b@, c@]);
    v
}

/// `systemctl` arguments that restart service `name`.
pub fn restart(name: &str) -> (r: Vec<String>)
    ensures
        r.deep_view() == seq!["restart"@, name@],
{
    args2("restart", name)
}

/// `systemctl` arguments that enable and start service `name`.
pub fn enable_now(name: &str) -> (r: Vec<String>)
    ensures
        r.deep_view() == seq!["enable"@, "--now"@, name@],
{
    args3("enable", "--now", name)
}

/// `systemctl` arguments that stop and disable service `name`.
pub fn disable_now(name: &str) -> (r: Vec<String>)
    ensures
        r.deep_view() == seq!["disable"@, "--now"@, name@],
{
    args3("disable", "--now", name)
}

/// `systemctl` arguments that ask for the state of service `name`.
pub fn is_active_args(name: &str) -> (r: Vec<String>)
    ensures
        r.deep_view() == seq!["is-active"@, name@],
{
    args2("is-active", name)
}

/// `systemctl` arguments that reload the unit files.
pub fn daemon_reload() -> (r: Vec<String>)
    ensures
        r.deep_view() == seq!["daemon-reload"@],
{
    let v = vec![String::from_str("daemon-reload")];
    assert(v.deep_view() =~= seq!["daemon-reload"@]);
    v
}

/// `slice::join(" ")` of arguments.
pub open spec fn join_spaced(args: Seq<Seq<char>>) -> Seq<char>
    decreases args.len(),
{
    if args.len() == 0 {
        seq![]
    } else if args.len() == 1 {
        args[0]
    } else {
        join_spaced(args.drop_last()) + seq![' '] + args.last()
    }
}

/// The error for a `systemctl` run that did not succeed: the command and what it
/// printed on stderr, trimmed.
pub fn systemctl_failure(args: &[String], stderr: &str) -> (r: String)
    ensures
        r@ == "`systemctl "@ + join_spaced(args.deep_view()) + "` failed: "@ + trim(stderr@),
{
    let ghost all = args.deep_view();
    let mut s = String::new();
    s.append("`systemctl ");
    let ghost head = s@;
    let mut i: usize = 0;
    while i < args.len()
        invariant
            i <= args.len(),
            all == args.deep_view(),
            s@ == head + join_spaced(all.take(i as int)),
        decreases args.len() - i,
    {
        assert(all.take(i + 1).drop_last() =~= all.take(i as int));
        if i > 0 {
            push_char(&mut s, ' ');
        }
        s.append(args[i].as_str());
        i = i + 1;
        assert(s@ =~= head + join_spaced(all.take(i as int)));
    }
    assert(all.take(args.len() as int) =~= all);
    s.append("` failed: ");
    let c = chars_of(stderr);
    let t = trimmed(c.as_slice());
    let ts = string_of(t.as_slice());
    s.append(ts.as_str());
    assert(s@ =~= "`systemctl "@ + join_spaced(all) + "` failed: "@ + trim(stderr@));
    s
}

} // verus!
