//! Command-line options and the validation of interactive answers.

use vstd::prelude::*;
use crate::text::{
    chars_of, debug_quoted, decimal, parse_u32, parse_uint, push_char, push_debug, push_decimal,
    str_eq, string_of, sub_chars, trim, trimmed,
};
use crate::config::DEFAULT_CONFIG_PATH;

verus! {

/// Whether `p` is a prefix of `s`.
pub open spec fn is_prefix(p: Seq<char>, s: Seq<char>) -> bool {
    p.len() <= s.len() && s.take(p.len() as int) == p
}

/// Reads the options common to all commands from `args`, starting from the state
/// (`config`, `yes`, `ignored`): `--config PATH`, `--config=PATH` and `--yes`; any
/// other argument is ignored with a warning. A `--config` without a value clears
/// the path.
pub open spec fn scan_common(
    args: Seq<Seq<char>>,
    config: Option<Seq<char>>,
    yes: bool,
    ignored: Seq<Seq<char>>,
) -> (Option<Seq<char>>, bool, Seq<Seq<char>>)
    decreases args.len(),
{
    if args.len() == 0 {
        (config, yes, ignored)
    } else if args[0] == "--config"@ {
        if args.len() >= 2 {
            scan_common(args.skip(2), Some(args[1]), yes, ignored)
        } else {
            scan_common(args.skip(1), None, yes, ignored)
        }
    } else if is_prefix("--config="@, args[0]) {
        scan_common(args.skip(1), Some(args[0].skip("--config="@.len() as int)), yes, ignored)
    } else if args[0] == "--yes"@ {
        scan_common(args.skip(1), config, true, ignored)
    } else {
        scan_common(args.skip(1), config, yes, ignored.push(args[0]))
    }
}

/// The common options of a whole argument list.
pub open spec fn common_options(args: Seq<Seq<char>>) -> (Option<Seq<char>>, bool, Seq<Seq<char>>) {
    scan_common(args, None, false, seq![])
}

/// The options shared by every command.
pub struct CommonArgs {
    /// Configuration file given with `--config`.
    pub config: Option<String>,
    /// `--yes`: skip the prompts of `init`.
    pub yes: bool,
    /// Arguments that are not options; the caller warns about each.
    pub ignored: Vec<String>,
}

impl CommonArgs {
    pub open spec fn view_config(&self) -> Option<Seq<char>> {
        match self.config {
            Some(s) => Some(s@),
            None => None,
        }
    }
}

fn starts_with_config_eq(a: &str) -> (r: Option<String>)
    ensures
        is_prefix("--config="@, a@) ==> r is Some && r->0@ == a@.skip("--config="@.len() as int),
        !is_prefix("--config="@, a@) ==> r is None,
{
    let c = chars_of(a);
    let p = chars_of("--config=");
    if p.len() > c.len() {
        return None;
    }
    let mut i: usize = 0;
    while i < p.len()
        invariant
            p@ == "--config="@,
            c@ == a@,
            p.len() <= c.len(),
            i <= p.len(),
            c@.take(i as int) == p@.take(i as int),
        decreases p.len() - i,
    {
        if c[i] != p[i] {
            assert(c@.take(p.len() as int)[i as int] != p@[i as int]);
            return None;
        }
        i = i + 1;
        assert(c@.take(i as int) =~= p@.take(i as int));
    }
    assert(p@.take(p.len() as int) =~= p@);
    let rest = sub_chars(c.as_slice(), p.len(), c.len());
    assert(rest@ =~= a@.skip("--config="@.len() as int));
    Some(string_of(rest.as_slice()))
}

/// Parses the options common to all commands.
pub fn parse_common(args: &[String]) -> (r: CommonArgs)
    ensures
        (r.view_config(), r.yes, r.ignored.deep_view()) == common_options(args.deep_view()),
{
    let ghost all = args.deep_view();
    let mut config: Option<String> = None;
    let mut yes = false;
    let mut ignored: Vec<String> = Vec::new();
    let mut i: usize = 0;
    assert(all.skip(0) =~= all);
    assert(ignored.deep_view() =~= Seq::<Seq<char>>::empty());
    while i < args.len()
        invariant
            i <= args.len(),
            all == args.deep_view(),
            scan_common(
                all.skip(i as int),
                match config { Some(s) => Some(s@), None => None },
                yes,
                ignored.deep_view(),
            ) == common_options(all),
        decreases args.len() - i,
    {
        let a = &args[i];
        let ghost rest = all.skip(i as int);
        assert(rest[0] == a@);
        if str_eq(a.as_str(), "--config") {
            if i + 1 < args.len() {
                assert(rest[1] == args[i + 1]@);
                assert(rest.skip(2) =~= all.skip(i + 2));
                config = Some(args[i + 1].clone());
                i = i + 2;
            } else {
                assert(rest.skip(1) =~= all.skip(i + 1));
                config = None;
                i = i + 1;
            }
        } else {
            assert(rest.skip(1) =~= all.skip(i + 1));
            match starts_with_config_eq(a.as_str()) {
                Some(v) => {
                    config = Some(v);
                },
                None => {
                    if str_eq(a.as_str(), "--yes") {
                        yes = true;
                    } else {
                        let ghost old_ignored = ignored.deep_view();
                        ignored.push(a.clone());
                        assert(ignored.deep_view() =~= old_ignored.push(a@));
                    }
                },
            }
            i = i + 1;
        }
    }
    assert(all.skip(i as int) =~= Seq::<Seq<char>>::empty());
    CommonArgs { config, yes, ignored }
}

/// Configuration file used when none is given: `/etc/systemhog/config.conf`.
pub open spec fn default_config_path() -> Seq<char> {
    DEFAULT_CONFIG_PATH@
}

/// `args` without the arguments equal to `x`.
pub open spec fn without(args: Seq<Seq<char>>, x: Seq<char>) -> Seq<Seq<char>>
    decreases args.len(),
{
    if args.len() == 0 {
        seq![]
    } else if args.last() == x {
        without(args.drop_last(), x)
    } else {
        without(args.drop_last(), x).push(args.last())
    }
}

/// What `update` was asked to do.
pub struct UpdateArgs {
    /// The configuration file (for the service name of the restart).
    pub config: String,
    /// `--check`: report only; exit 1 when an update is available.
    pub check_only: bool,
    /// Arguments that are not options; the caller warns about each.
    pub ignored: Vec<String>,
}

/// Reads the arguments of `update` / `self-update`: `--check` anywhere, and the
/// common options among the other arguments.
pub fn update(args: &[String]) -> (r: UpdateArgs)
    ensures
        r.check_only == args.deep_view().contains("--check"@),
        ({
            let common = common_options(without(args.deep_view(), "--check"@));
            &&& r.config@ == match common.0 { Some(p) => p, None => default_config_path() }
            &&& r.ignored.deep_view() == common.2
        }),
{
    let ghost all = args.deep_view();
    let mut check_only = false;
    let mut rest: Vec<String> = Vec::new();
    let mut i: usize = 0;
    while i < args.len()
        invariant
            i <= args.len(),
            all == args.deep_view(),
            check_only == all.take(i as int).contains("--check"@),
            rest.deep_view() == without(all.take(i as int), "--check"@),
        decreases args.len() - i,
    {
        let a = &args[i];
        assert(all.take(i + 1).drop_last() =~= all.take(i as int));
        assert(all.take(i + 1).last() == a@);
        if str_eq(a.as_str(), "--check") {
            check_only = true;
            assert(all.take(i + 1)[i as int] == "--check"@);
        } else {
            let ghost old_rest = rest.deep_view();
            rest.push(a.clone());
            assert(rest.deep_view() =~= old_rest.push(a@));
            assert(all.take(i as int).contains("--check"@) == all.take(i + 1).contains("--check"@)) by {
                if all.take(i + 1).contains("--check"@) {
                    let k = choose|k: int| 0 <= k < i + 1 && #[trigger] all.take(i + 1)[k] == "--check"@;
                    assert(all.take(i as int)[k] == "--check"@);
                }
            }
        }
        i = i + 1;
    }
    assert(all.take(args.len() as int) =~= all);
    let rs = rest.as_slice();
    assert(rs.deep_view() =~= rest.deep_view());
    let common = parse_common(rs);
    let config = match common.config {
        Some(p) => p,
        None => String::from_str(DEFAULT_CONFIG_PATH),
    };
    UpdateArgs { config, check_only, ignored: common.ignored }
}


fn not_a_number(what: &str, s: &str) -> (r: String)
    ensures
        r@ == what@ + " must be a number, got "@ + debug_quoted(s@),
{
    let mut e = String::new();
    e.append(what);
    e.append(" must be a number, got ");
    push_debug(&mut e, s);
    assert(e@ =~= what@ + " must be a number, got "@ + debug_quoted(s@));
    e
}

fn decimal_string(v: u32) -> (r: String)
    ensures
        r@ == decimal(v as nat),
{
    let mut t = String::new();
    push_decimal(&mut t, v as u64);
    assert(t@ =~= decimal(v as nat));
    t
}

/// What `num_range` answers for `s`.
pub open spec fn spec_num_range(s: Seq<char>, lo: u32, hi: u32, what: Seq<char>) -> Result<Seq<char>, Seq<char>> {
    match parse_uint(trim(s), u32::MAX as nat) {
        None => Err(what + " must be a number, got "@ + debug_quoted(s)),
        Some(v) => if lo <= v && v <= hi {
            Ok(decimal(v))
        } else {
            Err(what + " must be "@ + decimal(lo as nat) + "..="@ + decimal(hi as nat) + ", got "@ + decimal(v))
        },
    }
}

/// Validates a numeric answer within `lo..=hi`; the accepted value comes back
/// in canonical decimal form.
pub fn num_range(s: &str, lo: u32, hi: u32, what: &str) -> (r: Result<String, String>)
    ensures
        match r {
            Ok(v) => spec_num_range(s@, lo, hi, what@) == Ok::<Seq<char>, Seq<char>>(v@),
            Err(e) => spec_num_range(s@, lo, hi, what@) == Err::<Seq<char>, Seq<char>>(e@),
        },
{
    let c = chars_of(s);
    let t = trimmed(c.as_slice());
    match parse_u32(t.as_slice()) {
        None => Err(not_a_number(what, s)),
        Some(v) => {
            if lo <= v && v <= hi {
                Ok(decimal_string(v))
            } else {
                let mut e = String::new();
                e.append(what);
                e.append(" must be ");
                push_decimal(&mut e, lo as u64);
                e.append("..=");
                push_decimal(&mut e, hi as u64);
                e.append(", got ");
                push_decimal(&mut e, v as u64);
                assert(e@ =~= what@ + " must be "@ + decimal(lo as nat) + "..="@ + decimal(hi as nat) + ", got "@
                    + decimal(v as nat));
                Err(e)
            }
        },
    }
}

/// What the wizard answers to a maximum CPU usage `s`, given the minimum.
pub open spec fn spec_cpu_max(s: Seq<char>, min: u32) -> Result<Seq<char>, Seq<char>> {
    match parse_uint(trim(s), u32::MAX as nat) {
        None => Err("cpu max"@ + " must be a number, got "@ + debug_quoted(s)),
        Some(v) => if v <= min {
            Err("cpu max must be above cpu min ("@ + decimal(min as nat) + seq![')'])
        } else if v > 100 {
            Err("cpu max must be <= 100"@)
        } else {
            Ok(decimal(v))
        },
    }
}

/// Validates the maximum CPU usage of the wizard: a number above `min`, at most 100.
pub fn validate_cpu_max(s: &str, min: u32) -> (r: Result<String, String>)
    ensures
        match r {
            Ok(v) => spec_cpu_max(s@, min) == Ok::<Seq<char>, Seq<char>>(v@),
            Err(e) => spec_cpu_max(s@, min) == Err::<Seq<char>, Seq<char>>(e@),
        },
{
    let c = chars_of(s);
    let t = trimmed(c.as_slice());
    match parse_u32(t.as_slice()) {
        None => Err(not_a_number("cpu max", s)),
        Some(v) => {
            if v <= min {
                let mut e = String::new();
                e.append("cpu max must be above cpu min (");
                push_decimal(&mut e, min as u64);
                push_char(&mut e, ')');
                assert(e@ =~= "cpu max must be above cpu min ("@ + decimal(min as nat) + seq![')']);
                Err(e)
            } else if v > 100 {
                Err(String::from_str("cpu max must be <= 100"))
            } else {
                Ok(decimal_string(v))
            }
        },
    }
}

/// Validates the log file answer of the wizard: not blank; the path comes back
/// trimmed.
pub fn validate_log_file(s: &str) -> (r: Result<String, String>)
    ensures
        trim(s@).len() == 0 ==> r is Err && r->Err_0@ == "log file must not be empty"@,
        trim(s@).len() > 0 ==> r is Ok && r->Ok_0@ == trim(s@),
{
    let c = chars_of(s);
    let t = trimmed(c.as_slice());
    if t.len() == 0 {
        Err(String::from_str("log file must not be empty"))
    } else {
        Ok(string_of(t.as_slice()))
    }
}

/// The answer to a prompt: the trimmed line that was read, or the default when it
/// is empty or nothing could be read.
pub fn answer_or_default(line: Option<&str>, default: &str) -> (r: String)
    ensures
        r@ == (match line {
            Some(l) => if trim(l@).len() > 0 { trim(l@) } else { default@ },
            None => default@,
        }),
{
    match line {
        Some(l) => {
            let c = chars_of(l);
            let t = trimmed(c.as_slice());
            if t.len() > 0 {
                string_of(t.as_slice())
            } else {
                String::from_str(default)
            }
        },
        None => String::from_str(default),
    }
}

/// What `str::to_lowercase` returns for a string (Unicode lower-case mapping).
pub uninterp spec fn lowercase(s: Seq<char>) -> Seq<char>;

/// `str::to_lowercase`; the contract names its result and does not spell out the
/// Unicode case tables.
#[verifier::external_body]
fn to_lowercase(s: &str) -> (r: String)
    ensures
        r@ == lowercase(s@),
{
    s.to_lowercase()
}

/// The answer to a yes/no question: the default for an empty answer (or none),
/// else yes exactly for "y" or "yes" in any case.
pub fn confirm_answer(line: Option<&str>, default_yes: bool) -> (r: bool)
    ensures
        ({
            let ans = match line {
                Some(l) => lowercase(trim(l@)),
                None => Seq::<char>::empty(),
            };
            r == if ans.len() == 0 { default_yes } else { ans == "y"@ || ans == "yes"@ }
        }),
{
    let ans = match line {
        Some(l) => {
            let c = chars_of(l);
            let t = trimmed(c.as_slice());
            let ts = string_of(t.as_slice());
            to_lowercase(ts.as_str())
        },
        None => String::new(),
    };
    let a = ans.as_str();
    let n = chars_of(a);
    if n.len() == 0 {
        default_yes
    } else {
        str_eq(a, "y") || str_eq(a, "yes")
    }
}

/// `Path::join` of a file name onto a directory (Unix): a '/' goes between them
/// unless the directory is empty or already ends with one.
pub open spec fn join_path(dir: Seq<char>, file: Seq<char>) -> Seq<char> {
    if dir.len() > 0 && dir.last() != '/' { dir + seq!['/'] + file } else { dir + file }
}

/// The single-instance lock file of a service: under `/run` for root, otherwise
/// in the temporary directory with the user id in its name.
pub open spec fn spec_lock_path(is_root: bool, name: Seq<char>, temp_dir: Seq<char>, uid: u32) -> Seq<char> {
    if is_root {
        "/run/systemhog-"@ + name + ".lock"@
    } else {
        join_path(temp_dir, "systemhog-"@ + name + seq!['-'] + decimal(uid as nat) + ".lock"@)
    }
}

/// Path of the lock file that keeps a second instance of the service from running.
pub fn lock_path(is_root: bool, name: &str, temp_dir: &str, uid: u32) -> (r: String)
    ensures
        r@ == spec_lock_path(is_root, name@, temp_dir@, uid),
{
    let mut s = String::new();
    if is_root {
        s.append("/run/systemhog-");
        s.append(name);
        s.append(".lock");
        assert(s@ =~= "/run/systemhog-"@ + name@ + ".lock"@);
    } else {
        s.append(temp_dir);
        let d = chars_of(temp_dir);
        if d.len() > 0 && d[d.len() - 1] != '/' {
            push_char(&mut s, '/');
        }
        let ghost head = s@;
        s.append("systemhog-");
        s.append(name);
        push_char(&mut s, '-');
        push_decimal(&mut s, uid as u64);
        s.append(".lock");
        assert(s@ =~= head + ("systemhog-"@ + name@ + seq!['-'] + decimal(uid as nat) + ".lock"@));
    }
    s
}


/// The command that a command line asks for.
#[derive(PartialEq, Eq, Structural, Debug, Clone, Copy)]
pub enum Command {
    Init,
    Run,
    Install,
    Uninstall,
    Status,
    Update,
    Version,
    Help,
    /// Not a command; usage is shown and the exit status is 2.
    Unknown,
}

/// The command named by the first argument (after the program name); with no
/// command the maintainer runs, and a bare option also means `run`.
pub open spec fn spec_command(first: Seq<char>) -> Command {
    if first.len() == 0 || first == "run"@ {
        Command::Run
    } else if first == "init"@ {
        Command::Init
    } else if first == "install"@ {
        Command::Install
    } else if first == "uninstall"@ {
        Command::Uninstall
    } else if first == "status"@ {
        Command::Status
    } else if first == "update"@ || first == "self-update"@ {
        Command::Update
    } else if first == "version"@ || first == "-V"@ || first == "--version"@ {
        Command::Version
    } else if first == "help"@ || first == "-h"@ || first == "--help"@ {
        Command::Help
    } else if first[0] == '-' {
        Command::Run
    } else {
        Command::Unknown
    }
}

/// The command words: no argument or `run` runs the maintainer; `init`, `install`,
/// `uninstall` and `status` name their commands; `update` and `self-update` update;
/// `version`, `-V` and `--version` print the version; `help`, `-h` and `--help`
/// print usage; any other argument that starts with `-` is an option of `run`; any
/// other word is unknown.
pub proof fn lemma_command_words(first: Seq<char>)
    ensures
        first.len() == 0 ==> spec_command(first) == Command::Run,
        first == "run"@ ==> spec_command(first) == Command::Run,
        first == "init"@ ==> spec_command(first) == Command::Init,
        first == "install"@ ==> spec_command(first) == Command::Install,
        first == "uninstall"@ ==> spec_command(first) == Command::Uninstall,
        first == "status"@ ==> spec_command(first) == Command::Status,
        first == "update"@ ==> spec_command(first) == Command::Update,
        first == "self-update"@ ==> spec_command(first) == Command::Update,
        first == "version"@ ==> spec_command(first) == Command::Version,
        first == "-V"@ ==> spec_command(first) == Command::Version,
        first == "--version"@ ==> spec_command(first) == Command::Version,
        first == "help"@ ==> spec_command(first) == Command::Help,
        first == "-h"@ ==> spec_command(first) == Command::Help,
        first == "--help"@ ==> spec_command(first) == Command::Help,
        first.len() > 0 && first[0] == '-' && first != "-V"@ && first != "--version"@ && first != "-h"@
            && first != "--help"@ ==> spec_command(first) == Command::Run,
        first.len() > 0 && first[0] != '-' && first != "run"@ && first != "init"@ && first != "install"@
            && first != "uninstall"@ && first != "status"@ && first != "update"@ && first != "self-update"@
            && first != "version"@ && first != "help"@ ==> spec_command(first) == Command::Unknown,
{
    reveal_strlit("run");
    reveal_strlit("init");
    reveal_strlit("install");
    reveal_strlit("uninstall");
    reveal_strlit("status");
    reveal_strlit("update");
    reveal_strlit("self-update");
    reveal_strlit("version");
    reveal_strlit("-V");
    reveal_strlit("--version");
    reveal_strlit("help");
    reveal_strlit("-h");
    reveal_strlit("--help");
    assert("init"@[0] != "help"@[0]);
    assert("install"@[0] != "version"@[0]);
    assert("uninstall"@[0] != "--version"@[0]);
    assert("status"@[0] != "update"@[0] && "status"@[0] != "--help"@[0] && "update"@[0] != "--help"@[0]);
    assert("-V"@[1] != "-h"@[1]);
}

/// Picks the command of a command line `args` (program name first) and the index
/// where its own arguments start: after the command word, or at the first
/// argument when that is a bare option.
pub fn command(args: &[String]) -> (r: (Command, usize))
    ensures
        ({
            let first = if args.len() >= 2 { args@[1]@ } else { Seq::<char>::empty() };
            &&& r.0 == spec_command(first)
            &&& r.1 == if args.len() >= 2 && first.len() > 0 && first[0] == '-' && spec_command(first) == Command::Run {
                1usize
            } else if args.len() >= 2 {
                2usize
            } else {
                args.len()
            }
        }),
        args.len() < 2 ==> r == (Command::Run, args.len()),
        ({
            let first = if args.len() >= 2 { args@[1]@ } else { Seq::<char>::empty() };
            &&& (first == "run"@) ==> r.0 == Command::Run
            &&& (first == "init"@) ==> r.0 == Command::Init
            &&& (first == "install"@) ==> r.0 == Command::Install
            &&& (first == "uninstall"@) ==> r.0 == Command::Uninstall
            &&& (first == "status"@) ==> r.0 == Command::Status
            &&& (first == "update"@ || first == "self-update"@) ==> r.0 == Command::Update
            &&& (first == "version"@ || first == "-V"@ || first == "--version"@) ==> r == (Command::Version, 2usize)
            &&& (first == "help"@ || first == "-h"@ || first == "--help"@) ==> r == (Command::Help, 2usize)
            &&& (first.len() > 0 && first[0] == '-' && first != "-V"@ && first != "--version"@ && first != "-h"@
                && first != "--help"@) ==> r == (Command::Run, 1usize)
        }),
{
    proof {
        if args.len() >= 2 {
            lemma_command_words(args@[1]@);
        } else {
            lemma_command_words(Seq::<char>::empty());
        }
    }
    if args.len() < 2 {
        return (Command::Run, args.len());
    }
    let a = args[1].as_str();
    let c = chars_of(a);
    let cmd = if c.len() == 0 || str_eq(a, "run") {
        Command::Run
    } else if str_eq(a, "init") {
        Command::Init
    } else if str_eq(a, "install") {
        Command::Install
    } else if str_eq(a, "uninstall") {
        Command::Uninstall
    } else if str_eq(a, "status") {
        Command::Status
    } else if str_eq(a, "update") || str_eq(a, "self-update") {
        Command::Update
    } else if str_eq(a, "version") || str_eq(a, "-V") || str_eq(a, "--version") {
        Command::Version
    } else if str_eq(a, "help") || str_eq(a, "-h") || str_eq(a, "--help") {
        Command::Help
    } else if c[0] == '-' {
        Command::Run
    } else {
        Command::Unknown
    };
    let start = if c.len() > 0 && c[0] == '-' && cmd == Command::Run { 1 } else { 2 };
    (cmd, start)
}

} // verus!
