//! The configuration file: its settings and defaults.

use vstd::prelude::*;
use crate::cli::{num_range, spec_cpu_max, spec_num_range, validate_cpu_max, validate_log_file};
use crate::text::{
    chars_of, debug_quoted, decimal, find_char, lines, parse_u32, push_char, push_debug, push_decimal,
    split_lines, str_eq, string_of, sub_chars, trim, trimmed, position_of, chars_eq, join_lines,
    is_ws, trim_start, trim_end, lemma_trim_noop, lemma_trim_start_skip, lemma_trim_end_skip,
    lemma_find_char_absent, lemma_find_char_concat, lemma_lines_of_joined, lemma_decimal_parses,
    lemma_parse_decimal, is_digit_char, parse_uint,
};

verus! {

/// Where the configuration lives when no `--config` is given.
pub const DEFAULT_CONFIG_PATH: &'static str = "/etc/systemhog/config.conf";

/// Settings of the maintainer.
#[derive(Clone, Debug)]
pub struct Config {
    /// Name of the systemd unit.
    pub service_name: String,
    /// Below this system-wide CPU usage (percent) load is added.
    pub cpu_min: u32,
    /// Above this system-wide CPU usage (percent) load is removed.
    pub cpu_max: u32,
    /// Percentage of total RAM to keep used.
    pub ram_target: u32,
    /// Seconds between adjustments.
    pub check_interval: u32,
    /// Application log file.
    pub log_file: String,
}

/// The settings as plain values.
pub struct ConfigView {
    pub service_name: Seq<char>,
    pub cpu_min: u32,
    pub cpu_max: u32,
    pub ram_target: u32,
    pub check_interval: u32,
    pub log_file: Seq<char>,
}

impl View for Config {
    type V = ConfigView;

    open spec fn view(&self) -> ConfigView {
        ConfigView {
            service_name: self.service_name@,
            cpu_min: self.cpu_min,
            cpu_max: self.cpu_max,
            ram_target: self.ram_target,
            check_interval: self.check_interval,
            log_file: self.log_file@,
        }
    }
}

impl Default for Config {
    /// The defaults that `init --yes` writes: service `systemhog`, CPU 10..20 %,
    /// RAM 10 %, every 5 s, log in `/var/log/systemhog.log`.
    fn default() -> (r: Config)
        ensures
            r@ == (ConfigView {
                service_name: "systemhog"@,
                cpu_min: 10,
                cpu_max: 20,
                ram_target: 10,
                check_interval: 5,
                log_file: "/var/log/systemhog.log"@,
            }),
    {
        Config {
            service_name: String::from_str("systemhog"),
            cpu_min: 10,
            cpu_max: 20,
            ram_target: 10,
            check_interval: 5,
            log_file: String::from_str("/var/log/systemhog.log"),
        }
    }
}

impl Config {
    /// Whether two configurations hold the same settings.
    pub fn same(&self, other: &Config) -> (r: bool)
        ensures
            r == (self@ == other@),
    {
        self.service_name == other.service_name && self.cpu_min == other.cpu_min && self.cpu_max
            == other.cpu_max && self.ram_target == other.ram_target && self.check_interval
            == other.check_interval && self.log_file == other.log_file
    }
}


// ---- service names ---------------------------------------------------------------

/// Characters allowed in a service name (it becomes part of the unit file name and
/// of the lock file name).
pub open spec fn is_name_char(c: char) -> bool {
    ('a' <= c && c <= 'z') || ('A' <= c && c <= 'Z') || ('0' <= c && c <= '9') || c == '-' || c == '_'
        || c == '.'
}

/// What `valid_name` answers for `s`.
pub open spec fn spec_valid_name(s: Seq<char>) -> Result<Seq<char>, Seq<char>> {
    let t = trim(s);
    if t.len() > 0 && forall|i: int| 0 <= i < t.len() ==> is_name_char(#[trigger] t[i]) {
        Ok(t)
    } else {
        Err("invalid service name "@ + debug_quoted(t) + ": use letters, digits, '-', '_' and '.'"@)
    }
}

/// Validates a service name; the accepted name comes back trimmed.
pub fn valid_name(s: &str) -> (r: Result<String, String>)
    ensures
        match r {
            Ok(v) => spec_valid_name(s@) == Ok::<Seq<char>, Seq<char>>(v@),
            Err(e) => spec_valid_name(s@) == Err::<Seq<char>, Seq<char>>(e@),
        },
{
    let c = chars_of(s);
    let t = trimmed(c.as_slice());
    let ts = string_of(t.as_slice());
    let mut ok = t.len() > 0;
    let mut i: usize = 0;
    while i < t.len()
        invariant
            i <= t.len(),
            ok == (t.len() > 0 && forall|k: int| 0 <= k < i ==> is_name_char(#[trigger] t@[k])),
        decreases t.len() - i,
    {
        let ch = t[i];
        let good = ('a' <= ch && ch <= 'z') || ('A' <= ch && ch <= 'Z') || ('0' <= ch && ch <= '9') || ch == '-'
            || ch == '_' || ch == '.';
        proof {
            if ok && !good {
                assert(!is_name_char(t@[i as int]));
            }
        }
        ok = ok && good;
        i = i + 1;
    }
    if ok {
        Ok(ts)
    } else {
        let mut e = String::new();
        e.append("invalid service name ");
        push_debug(&mut e, ts.as_str());
        e.append(": use letters, digits, '-', '_' and '.'");
        assert(e@ =~= "invalid service name "@ + debug_quoted(trim(s@)) + ": use letters, digits, '-', '_' and '.'"@);
        Err(e)
    }
}

// ---- the file format -------------------------------------------------------------

/// ASCII upper case (keys are case-insensitive).
pub open spec fn ascii_upper(s: Seq<char>) -> Seq<char> {
    Seq::new(s.len(), |i: int| if 'a' <= s[i] && s[i] <= 'z' { ((s[i] as int) - 32) as char } else { s[i] })
}

/// A line without its `#` comment.
pub open spec fn strip_comment(l: Seq<char>) -> Seq<char> {
    match find_char(l, '#') {
        Some(i) => l.take(i as int),
        None => l,
    }
}

/// What a line of the configuration file holds.
pub enum ConfLine {
    /// Empty or only a comment.
    Blank,
    /// A `[SECTION]` header (sections only group the keys).
    Section,
    /// `KEY = VALUE`: the key in upper case, the value trimmed.
    Setting { key: Seq<char>, value: Seq<char> },
    /// Anything else.
    Malformed,
}

pub open spec fn classify(l: Seq<char>) -> ConfLine {
    let t = trim(strip_comment(l));
    if t.len() == 0 {
        ConfLine::Blank
    } else if t[0] == '[' && t.last() == ']' {
        ConfLine::Section
    } else {
        match find_char(t, '=') {
            Some(i) => ConfLine::Setting {
                key: ascii_upper(trim(t.take(i as int))),
                value: trim(t.skip((i + 1) as int)),
            },
            None => ConfLine::Malformed,
        }
    }
}

/// The raw text of each setting; `None` where the file does not give it.
pub struct RawSettings {
    pub cpu_min: Option<Seq<char>>,
    pub cpu_max: Option<Seq<char>>,
    pub ram_target: Option<Seq<char>>,
    pub check_interval: Option<Seq<char>>,
    pub service_name: Option<Seq<char>>,
    pub log_file: Option<Seq<char>>,
}

pub open spec fn no_settings() -> RawSettings {
    RawSettings {
        cpu_min: None,
        cpu_max: None,
        ram_target: None,
        check_interval: None,
        service_name: None,
        log_file: None,
    }
}

/// Records `KEY = VALUE`; unknown keys are ignored and a later line wins.
pub open spec fn record(r: RawSettings, key: Seq<char>, value: Seq<char>) -> RawSettings {
    if key == "TARGET_CPU_MIN"@ {
        RawSettings { cpu_min: Some(value), ..r }
    } else if key == "TARGET_CPU_MAX"@ {
        RawSettings { cpu_max: Some(value), ..r }
    } else if key == "TARGET_RAM_USAGE"@ {
        RawSettings { ram_target: Some(value), ..r }
    } else if key == "CHECK_INTERVAL"@ {
        RawSettings { check_interval: Some(value), ..r }
    } else if key == "SERVICE_NAME"@ {
        RawSettings { service_name: Some(value), ..r }
    } else if key == "LOG_FILE"@ {
        RawSettings { log_file: Some(value), ..r }
    } else {
        r
    }
}

/// The settings of `ls`, or the (1-based) number of the first malformed line.
pub open spec fn scan_settings(ls: Seq<Seq<char>>) -> Result<RawSettings, nat>
    decreases ls.len(),
{
    if ls.len() == 0 {
        Ok(no_settings())
    } else {
        match scan_settings(ls.drop_last()) {
            Err(n) => Err(n),
            Ok(r) => match classify(ls.last()) {
                ConfLine::Setting { key, value } => Ok(record(r, key, value)),
                ConfLine::Malformed => Err(ls.len()),
                _ => Ok(r),
            },
        }
    }
}

pub open spec fn or_default(v: Option<Seq<char>>, d: Seq<char>) -> Seq<char> {
    match v {
        Some(x) => x,
        None => d,
    }
}

/// Reads the configuration text: an INI file whose keys are case-insensitive,
/// with `#` comments; a setting that is not given takes its default, and every
/// value must pass the checks of the setup wizard.
pub open spec fn spec_parse_config(text: Seq<char>) -> Result<ConfigView, Seq<char>> {
    match scan_settings(lines(text)) {
        Err(n) => Err("config line "@ + decimal(n) + ": expected KEY = VALUE"@),
        Ok(r) => {
            let min = spec_num_range(or_default(r.cpu_min, "10"@), 0, 98, "cpu min"@);
            match min {
                Err(e) => Err(e),
                Ok(min_t) => {
                    let min_v = parse_u32_spec(min_t);
                    match spec_cpu_max(or_default(r.cpu_max, "20"@), min_v) {
                        Err(e) => Err(e),
                        Ok(max_t) => match spec_num_range(or_default(r.ram_target, "10"@), 1, 90, "ram target"@) {
                            Err(e) => Err(e),
                            Ok(ram_t) => match spec_num_range(or_default(r.check_interval, "5"@), 1, 3600, "interval"@) {
                                Err(e) => Err(e),
                                Ok(int_t) => match spec_valid_name(or_default(r.service_name, "systemhog"@)) {
                                    Err(e) => Err(e),
                                    Ok(name) => {
                                        let log = trim(or_default(r.log_file, "/var/log/systemhog.log"@));
                                        if log.len() == 0 {
                                            Err("log file must not be empty"@)
                                        } else {
                                            Ok(ConfigView {
                                                service_name: name,
                                                cpu_min: min_v,
                                                cpu_max: parse_u32_spec(max_t),
                                                ram_target: parse_u32_spec(ram_t),
                                                check_interval: parse_u32_spec(int_t),
                                                log_file: log,
                                            })
                                        }
                                    },
                                },
                            },
                        },
                    }
                },
            }
        },
    }
}

/// The `u32` value of a canonical numeral.
pub open spec fn parse_u32_spec(t: Seq<char>) -> u32 {
    match crate::text::parse_uint(t, u32::MAX as nat) {
        Some(v) => v as u32,
        None => 0,
    }
}


fn upper_ascii(v: &[char]) -> (r: Vec<char>)
    ensures
        r@ == ascii_upper(v@),
{
    let mut r: Vec<char> = Vec::new();
    let mut i: usize = 0;
    while i < v.len()
        invariant
            i <= v.len(),
            r@ == ascii_upper(v@).take(i as int),
        decreases v.len() - i,
    {
        let c = v[i];
        let u = if 'a' <= c && c <= 'z' { ((c as u32) - 32) as u8 as char } else { c };
        assert(u == ascii_upper(v@)[i as int]);
        r.push(u);
        i = i + 1;
        assert(r@ =~= ascii_upper(v@).take(i as int));
    }
    assert(ascii_upper(v@).take(v.len() as int) =~= ascii_upper(v@));
    r
}

/// A classified line with its key and value.
enum LineKind {
    Blank,
    Section,
    Setting { key: Vec<char>, value: Vec<char> },
    Malformed,
}

fn classify_line(l: &[char]) -> (r: LineKind)
    ensures
        match classify(l@) {
            ConfLine::Blank => r is Blank,
            ConfLine::Section => r is Section,
            ConfLine::Setting { key, value } => r matches LineKind::Setting { key: k, value: v } && k@ == key
                && v@ == value,
            ConfLine::Malformed => r is Malformed,
        },
{
    let body = match position_of(l, '#') {
        Some(i) => sub_chars(l, 0, i),
        None => sub_chars(l, 0, l.len()),
    };
    assert(body@ =~= strip_comment(l@));
    let t = trimmed(body.as_slice());
    let n = t.len();
    if n == 0 {
        return LineKind::Blank;
    }
    if t[0] == '[' && t[n - 1] == ']' {
        return LineKind::Section;
    }
    match position_of(t.as_slice(), '=') {
        Some(i) => {
            let k = sub_chars(t.as_slice(), 0, i);
            let v = sub_chars(t.as_slice(), i + 1, n);
            assert(v@ =~= t@.skip((i + 1) as int));
            let kt = trimmed(k.as_slice());
            let key = upper_ascii(kt.as_slice());
            let value = trimmed(v.as_slice());
            LineKind::Setting { key, value }
        },
        None => LineKind::Malformed,
    }
}

pub open spec fn opt_view(o: Option<String>) -> Option<Seq<char>> {
    match o {
        Some(s) => Some(s@),
        None => None,
    }
}

fn key_is(key: &Vec<char>, name: &str) -> (r: bool)
    ensures
        r == (key@ == name@),
{
    let n = chars_of(name);
    chars_eq(key.as_slice(), n.as_slice())
}

fn text_or(v: Option<String>, d: &str) -> (r: String)
    ensures
        r@ == or_default(opt_view(v), d@),
{
    match v {
        Some(s) => s,
        None => String::from_str(d),
    }
}

fn value_of(t: &String) -> (r: u32)
    ensures
        r == parse_u32_spec(t@),
{
    let c = chars_of(t.as_str());
    match parse_u32(c.as_slice()) {
        Some(v) => v,
        None => 0,
    }
}

/// Reads the configuration from the text of the configuration file.
pub fn parse_config(text: &str) -> (r: Result<Config, String>)
    ensures
        match r {
            Ok(c) => spec_parse_config(text@) == Ok::<ConfigView, Seq<char>>(c@),
            Err(e) => spec_parse_config(text@) == Err::<ConfigView, Seq<char>>(e@),
        },
{
    let c = chars_of(text);
    let ls = split_lines(c.as_slice());
    let ghost all = ls.deep_view();
    let mut cpu_min: Option<String> = None;
    let mut cpu_max: Option<String> = None;
    let mut ram_target: Option<String> = None;
    let mut check_interval: Option<String> = None;
    let mut service_name: Option<String> = None;
    let mut log_file: Option<String> = None;
    let mut i: usize = 0;
    while i < ls.len()
        invariant
            i <= ls.len(),
            all == ls.deep_view(),
            all == lines(text@),
            scan_settings(all.take(i as int)) == Ok::<RawSettings, nat>(RawSettings {
                cpu_min: opt_view(cpu_min),
                cpu_max: opt_view(cpu_max),
                ram_target: opt_view(ram_target),
                check_interval: opt_view(check_interval),
                service_name: opt_view(service_name),
                log_file: opt_view(log_file),
            }),
        decreases ls.len() - i,
    {
        let l = &ls[i];
        assert(l.deep_view() =~= l@);
        assert(all.take(i + 1).drop_last() =~= all.take(i as int));
        assert(all.take(i + 1).last() == l@);
        match classify_line(l.as_slice()) {
            LineKind::Setting { key, value } => {
                let v = string_of(value.as_slice());
                if key_is(&key, "TARGET_CPU_MIN") {
                    cpu_min = Some(v);
                } else if key_is(&key, "TARGET_CPU_MAX") {
                    cpu_max = Some(v);
                } else if key_is(&key, "TARGET_RAM_USAGE") {
                    ram_target = Some(v);
                } else if key_is(&key, "CHECK_INTERVAL") {
                    check_interval = Some(v);
                } else if key_is(&key, "SERVICE_NAME") {
                    service_name = Some(v);
                } else if key_is(&key, "LOG_FILE") {
                    log_file = Some(v);
                }
            },
            LineKind::Malformed => {
                let mut e = String::new();
                e.append("config line ");
                push_decimal(&mut e, (i as u64) + 1);
                e.append(": expected KEY = VALUE");
                assert(e@ =~= "config line "@ + decimal((i + 1) as nat) + ": expected KEY = VALUE"@);
                proof { lemma_scan_error_stays(all, i as int + 1); }
                return Err(e);
            },
            _ => {},
        }
        i = i + 1;
    }
    assert(all.take(ls.len() as int) =~= all);
    let min_t = match num_range(text_or(cpu_min, "10").as_str(), 0, 98, "cpu min") {
        Ok(t) => t,
        Err(e) => return Err(e),
    };
    let min_v = value_of(&min_t);
    let max_t = match validate_cpu_max(text_or(cpu_max, "20").as_str(), min_v) {
        Ok(t) => t,
        Err(e) => return Err(e),
    };
    let ram_t = match num_range(text_or(ram_target, "10").as_str(), 1, 90, "ram target") {
        Ok(t) => t,
        Err(e) => return Err(e),
    };
    let int_t = match num_range(text_or(check_interval, "5").as_str(), 1, 3600, "interval") {
        Ok(t) => t,
        Err(e) => return Err(e),
    };
    let name = match valid_name(text_or(service_name, "systemhog").as_str()) {
        Ok(t) => t,
        Err(e) => return Err(e),
    };
    let log = match validate_log_file(text_or(log_file, "/var/log/systemhog.log").as_str()) {
        Ok(t) => t,
        Err(e) => return Err(e),
    };
    Ok(Config {
        service_name: name,
        cpu_min: min_v,
        cpu_max: value_of(&max_t),
        ram_target: value_of(&ram_t),
        check_interval: value_of(&int_t),
        log_file: log,
    })
}

/// Once a line is malformed, the whole file is: the first malformed line is reported.
proof fn lemma_scan_error_stays(ls: Seq<Seq<char>>, k: int)
    requires
        1 <= k <= ls.len(),
        scan_settings(ls.take(k - 1)) is Ok,
        classify(ls[k - 1]) is Malformed,
    ensures
        scan_settings(ls) == Err::<RawSettings, nat>(k as nat),
    decreases ls.len() - k,
{
    if k < ls.len() {
        assert(ls.drop_last().take(k - 1) =~= ls.take(k - 1));
        assert(ls.drop_last()[k - 1] == ls[k - 1]);
        lemma_scan_error_stays(ls.drop_last(), k);
    } else {
        assert(ls.drop_last() =~= ls.take(k - 1));
    }
}


/// A `KEY = VALUE` line.
pub open spec fn setting_line(key: Seq<char>, value: Seq<char>) -> Seq<char> {
    key + " = "@ + value
}

/// The lines of the configuration file for `c`, in the documented INI layout.
pub open spec fn config_lines(c: ConfigView) -> Seq<Seq<char>> {
    seq![
        "[CPU_SETTINGS]"@,
        setting_line("TARGET_CPU_MIN"@, decimal(c.cpu_min as nat)),
        setting_line("TARGET_CPU_MAX"@, decimal(c.cpu_max as nat)),
        "[RAM_SETTINGS]"@,
        setting_line("TARGET_RAM_USAGE"@, decimal(c.ram_target as nat)),
        "[SETTINGS]"@,
        setting_line("CHECK_INTERVAL"@, decimal(c.check_interval as nat)),
        setting_line("SERVICE_NAME"@, c.service_name),
        setting_line("LOG_FILE"@, c.log_file),
    ]
}

/// The configuration file text for `c`: its lines, each ended by a newline.
pub open spec fn config_text(c: ConfigView) -> Seq<char> {
    join_lines(config_lines(c))
}

fn push_setting(s: &mut String, key: &str, value: &str)
    ensures
        final(s)@ == old(s)@ + setting_line(key@, value@) + seq!['\n'],
{
    s.append(key);
    s.append(" = ");
    s.append(value);
    push_char(s, '\n');
    assert(s@ =~= old(s)@ + setting_line(key@, value@) + seq!['\n']);
}

fn push_line(s: &mut String, line: &str)
    ensures
        final(s)@ == old(s)@ + line@ + seq!['\n'],
{
    s.append(line);
    push_char(s, '\n');
}

fn decimal_text(v: u32) -> (r: String)
    ensures
        r@ == decimal(v as nat),
{
    let mut t = String::new();
    push_decimal(&mut t, v as u64);
    assert(t@ =~= decimal(v as nat));
    t
}

/// Renders the configuration file for `c`.
pub fn render_config(c: &Config) -> (r: String)
    ensures
        r@ == config_text(c@),
{
    let mut s = String::new();
    push_line(&mut s, "[CPU_SETTINGS]");
    push_setting(&mut s, "TARGET_CPU_MIN", decimal_text(c.cpu_min).as_str());
    push_setting(&mut s, "TARGET_CPU_MAX", decimal_text(c.cpu_max).as_str());
    push_line(&mut s, "[RAM_SETTINGS]");
    push_setting(&mut s, "TARGET_RAM_USAGE", decimal_text(c.ram_target).as_str());
    push_line(&mut s, "[SETTINGS]");
    push_setting(&mut s, "CHECK_INTERVAL", decimal_text(c.check_interval).as_str());
    push_setting(&mut s, "SERVICE_NAME", c.service_name.as_str());
    push_setting(&mut s, "LOG_FILE", c.log_file.as_str());
    proof {
        let ls = config_lines(c@);
        reveal_with_fuel(join_lines, 10);
        assert(ls.drop_last().drop_last().drop_last().drop_last().drop_last().drop_last().drop_last().drop_last().drop_last() =~= Seq::<Seq<char>>::empty());
    }
    assert(s@ =~= config_text(c@));
    s
}


// ---- what `init` writes, `run` reads ------------------------------------------------

/// Settings that the setup wizard accepts and that the file format can carry: the
/// numbers within the wizard's ranges, a valid service name, and a log path that
/// is not blank, has no surrounding whitespace and holds no '#' or line break.
pub open spec fn valid_config(c: ConfigView) -> bool {
    &&& c.cpu_min <= 98
    &&& c.cpu_min < c.cpu_max <= 100
    &&& 1 <= c.ram_target <= 90
    &&& 1 <= c.check_interval <= 3600
    &&& c.service_name.len() > 0
    &&& forall|i: int| 0 <= i < c.service_name.len() ==> is_name_char(#[trigger] c.service_name[i])
    &&& c.log_file.len() > 0
    &&& !is_ws(c.log_file[0])
    &&& !is_ws(c.log_file.last())
    &&& forall|i: int| 0 <= i < c.log_file.len() ==> #[trigger] c.log_file[i] != '#' && c.log_file[i] != '\n'
}

/// A key: upper case, no whitespace, '=' or '#'.
spec fn plain_key(k: Seq<char>) -> bool {
    &&& k.len() > 0
    &&& k[0] != '['
    &&& forall|i: int| 0 <= i < k.len() ==> !is_ws(#[trigger] k[i]) && k[i] != '=' && k[i] != '#' && !('a' <= k[i] && k[i] <= 'z')
}

/// A value as the file holds it: no '#' or line break, no surrounding whitespace.
spec fn plain_value(v: Seq<char>) -> bool {
    &&& forall|i: int| 0 <= i < v.len() ==> #[trigger] v[i] != '#' && v[i] != '\n'
    &&& v.len() > 0 ==> !is_ws(v[0]) && !is_ws(v.last())
}

proof fn lemma_classify_setting(k: Seq<char>, v: Seq<char>)
    requires
        plain_key(k),
        plain_value(v),
    ensures
        classify(setting_line(k, v)) == (ConfLine::Setting { key: k, value: v }),
{
    reveal_strlit(" = ");
    let l = setting_line(k, v);
    let mid = " = "@;
    assert(mid =~= seq![' ', '=', ' ']);
    assert forall|i: int| 0 <= i < l.len() implies l[i] != '#' by {
        if i < k.len() {
            assert(l[i] == k[i]);
        } else if i >= k.len() + 3 {
            assert(l[i] == v[i - k.len() - 3]);
        }
    }
    lemma_find_char_absent(l, '#');
    assert(strip_comment(l) == l);
    if v.len() > 0 {
        assert(l.last() == v.last());
    }
    assert(l[0] == k[0]);
    let t = if v.len() > 0 { l } else { k + seq![' ', '='] };
    if v.len() == 0 {
        assert(l =~= (k + seq![' ', '=']) + seq![' ']);
        lemma_trim_end_skip(k + seq![' ', '='], seq![' ']);
        assert((k + seq![' ', '=']).last() == '=');
        assert(trim_end(k + seq![' ', '=']) == k + seq![' ', '=']);
        assert(trim_start(l) == l);
        assert(trim(l) == t);
    } else {
        lemma_trim_noop(l);
    }
    assert(t[0] == k[0]);
    assert(t[0] != '[');
    lemma_find_char_concat(k, t.skip(k.len() as int), '=');
    assert(k + t.skip(k.len() as int) =~= t);
    assert(t.skip(k.len() as int)[0] == ' ');
    assert(t.skip(k.len() as int)[1] == '=');
    let r = t.skip(k.len() as int);
    assert(r.drop_first()[0] == '=');
    assert(find_char(r.drop_first(), '=') == Some(0nat));
    assert(find_char(r, '=') == Some(1nat));
    assert(find_char(t, '=') == Some((k.len() + 1) as nat));
    let i = k.len() + 1;
    assert(t.take(i as int) =~= k + seq![' ']);
    lemma_trim_end_skip(k, seq![' ']);
    lemma_trim_noop(k);
    assert(trim_start(k + seq![' ']) == k + seq![' ']);
    assert(trim(t.take(i as int)) == k);
    assert(ascii_upper(k) =~= k);
    if v.len() > 0 {
        assert(t.skip((i + 1) as int) =~= seq![' '] + v);
        lemma_trim_start_skip(seq![' '], v);
        lemma_trim_noop(v);
        assert(trim_start(v) == v);
    } else {
        assert(t.skip((i + 1) as int) =~= Seq::<char>::empty());
    }
    assert(trim(t.skip((i + 1) as int)) == v);
}

proof fn lemma_classify_section(l: Seq<char>)
    requires
        l.len() >= 2,
        l[0] == '[',
        l.last() == ']',
        forall|i: int| 0 <= i < l.len() ==> l[i] != '#',
    ensures
        classify(l) is Section,
{
    lemma_find_char_absent(l, '#');
    lemma_trim_noop(l);
}

proof fn lemma_numeral_plain(n: nat)
    ensures
        plain_value(decimal(n)),
        trim(decimal(n)) == decimal(n),
{
    lemma_decimal_parses(n);
    let d = decimal(n);
    assert forall|i: int| 0 <= i < d.len() implies #[trigger] d[i] != '#' && d[i] != '\n' by {
        assert(is_digit_char(d[i]));
    }
    lemma_trim_noop(d);
}

proof fn lemma_scan_step(ls: Seq<Seq<char>>, j: int)
    requires
        0 <= j < ls.len(),
    ensures
        scan_settings(ls.take(j + 1)) == match scan_settings(ls.take(j)) {
            Err(n) => Err(n),
            Ok(r) => match classify(ls[j]) {
                ConfLine::Setting { key, value } => Ok(record(r, key, value)),
                ConfLine::Malformed => Err((j + 1) as nat),
                _ => Ok(r),
            },
        },
{
    assert(ls.take(j + 1).drop_last() =~= ls.take(j));
    assert(ls.take(j + 1).last() == ls[j]);
}

proof fn lemma_config_scan(c: ConfigView)
    requires
        classify(config_lines(c)[0]) is Section,
        classify(config_lines(c)[3]) is Section,
        classify(config_lines(c)[5]) is Section,
        classify(config_lines(c)[1]) == (ConfLine::Setting { key: "TARGET_CPU_MIN"@, value: decimal(c.cpu_min as nat) }),
        classify(config_lines(c)[2]) == (ConfLine::Setting { key: "TARGET_CPU_MAX"@, value: decimal(c.cpu_max as nat) }),
        classify(config_lines(c)[4]) == (ConfLine::Setting { key: "TARGET_RAM_USAGE"@, value: decimal(c.ram_target as nat) }),
        classify(config_lines(c)[6]) == (ConfLine::Setting { key: "CHECK_INTERVAL"@, value: decimal(c.check_interval as nat) }),
        classify(config_lines(c)[7]) == (ConfLine::Setting { key: "SERVICE_NAME"@, value: c.service_name }),
        classify(config_lines(c)[8]) == (ConfLine::Setting { key: "LOG_FILE"@, value: c.log_file }),
    ensures
        scan_settings(config_lines(c)) == Ok::<RawSettings, nat>(RawSettings {
            cpu_min: Some(decimal(c.cpu_min as nat)),
            cpu_max: Some(decimal(c.cpu_max as nat)),
            ram_target: Some(decimal(c.ram_target as nat)),
            check_interval: Some(decimal(c.check_interval as nat)),
            service_name: Some(c.service_name),
            log_file: Some(c.log_file),
        }),
{
    reveal_strlit("TARGET_CPU_MIN");
    reveal_strlit("TARGET_CPU_MAX");
    reveal_strlit("TARGET_RAM_USAGE");
    reveal_strlit("CHECK_INTERVAL");
    reveal_strlit("SERVICE_NAME");
    reveal_strlit("LOG_FILE");
    let ls = config_lines(c);
    let (k1, k2, k3, k4, k5, k6) = ("TARGET_CPU_MIN"@, "TARGET_CPU_MAX"@, "TARGET_RAM_USAGE"@, "CHECK_INTERVAL"@,
        "SERVICE_NAME"@, "LOG_FILE"@);
    assert(k1[12] != k2[12]);
    assert(k1 != k2);
    assert(k4[0] != k1[0]);
    assert(k4 != k1 && k4 != k2 && k4 != k3);
    assert(k3 != k1 && k3 != k2);
    assert(k5 != k1 && k5 != k2 && k5 != k3 && k5 != k4);
    assert(k6 != k1 && k6 != k2 && k6 != k3 && k6 != k4 && k6 != k5);
    assert(ls.take(0) =~= Seq::<Seq<char>>::empty());
    lemma_scan_step(ls, 0);
    lemma_scan_step(ls, 1);
    lemma_scan_step(ls, 2);
    lemma_scan_step(ls, 3);
    lemma_scan_step(ls, 4);
    lemma_scan_step(ls, 5);
    lemma_scan_step(ls, 6);
    lemma_scan_step(ls, 7);
    lemma_scan_step(ls, 8);
    assert(ls.take(9) =~= ls);
}

/// A configuration that `init` accepted reads back unchanged: the text that
/// `render_config` writes parses to the same settings.
pub proof fn lemma_config_roundtrip(c: ConfigView)
    requires
        valid_config(c),
    ensures
        spec_parse_config(config_text(c)) == Ok::<ConfigView, Seq<char>>(c),
{
    reveal_strlit("[CPU_SETTINGS]");
    reveal_strlit("[RAM_SETTINGS]");
    reveal_strlit("[SETTINGS]");
    reveal_strlit("TARGET_CPU_MIN");
    reveal_strlit("TARGET_CPU_MAX");
    reveal_strlit("TARGET_RAM_USAGE");
    reveal_strlit("CHECK_INTERVAL");
    reveal_strlit("SERVICE_NAME");
    reveal_strlit("LOG_FILE");
    reveal_strlit(" = ");
    let ls = config_lines(c);
    lemma_numeral_plain(c.cpu_min as nat);
    lemma_numeral_plain(c.cpu_max as nat);
    lemma_numeral_plain(c.ram_target as nat);
    lemma_numeral_plain(c.check_interval as nat);
    let name = c.service_name;
    assert(plain_value(name)) by {
        assert forall|i: int| 0 <= i < name.len() implies #[trigger] name[i] != '#' && name[i] != '\n' by {
            assert(is_name_char(name[i]));
        }
        assert(is_name_char(name[0]));
        assert(is_name_char(name.last()));
    }
    assert(plain_value(c.log_file));
    assert(plain_key("TARGET_CPU_MIN"@));
    assert(plain_key("TARGET_CPU_MAX"@));
    assert(plain_key("TARGET_RAM_USAGE"@));
    assert(plain_key("CHECK_INTERVAL"@));
    assert(plain_key("SERVICE_NAME"@));
    assert(plain_key("LOG_FILE"@));
    lemma_classify_section("[CPU_SETTINGS]"@);
    lemma_classify_section("[RAM_SETTINGS]"@);
    lemma_classify_section("[SETTINGS]"@);
    lemma_classify_setting("TARGET_CPU_MIN"@, decimal(c.cpu_min as nat));
    lemma_classify_setting("TARGET_CPU_MAX"@, decimal(c.cpu_max as nat));
    lemma_classify_setting("TARGET_RAM_USAGE"@, decimal(c.ram_target as nat));
    lemma_classify_setting("CHECK_INTERVAL"@, decimal(c.check_interval as nat));
    lemma_classify_setting("SERVICE_NAME"@, name);
    lemma_classify_setting("LOG_FILE"@, c.log_file);
    assert forall|k: int, i: int| 0 <= k < ls.len() && 0 <= i < ls[k].len() implies #[trigger] ls[k][i] != '\n' by {
        if k == 1 || k == 2 || k == 4 || k == 6 || k == 7 || k == 8 {
            let key = if k == 1 { "TARGET_CPU_MIN"@ } else if k == 2 { "TARGET_CPU_MAX"@ } else if k == 4 {
                "TARGET_RAM_USAGE"@ } else if k == 6 { "CHECK_INTERVAL"@ } else if k == 7 { "SERVICE_NAME"@ } else { "LOG_FILE"@ };
            let val = if k == 1 { decimal(c.cpu_min as nat) } else if k == 2 { decimal(c.cpu_max as nat) } else if k == 4 {
                decimal(c.ram_target as nat) } else if k == 6 { decimal(c.check_interval as nat) } else if k == 7 { name } else { c.log_file };
            assert(ls[k] == key + " = "@ + val);
            if i >= key.len() + 3 {
                assert(ls[k][i] == val[i - key.len() - 3]);
            }
        }
    }
    assert forall|k: int| 0 <= k < ls.len() && ls[k].len() > 0 implies #[trigger] ls[k].last() != '\r' by {
        if k == 1 {
            assert(ls[k].last() == decimal(c.cpu_min as nat).last());
        } else if k == 2 {
            assert(ls[k].last() == decimal(c.cpu_max as nat).last());
        } else if k == 4 {
            assert(ls[k].last() == decimal(c.ram_target as nat).last());
        } else if k == 6 {
            assert(ls[k].last() == decimal(c.check_interval as nat).last());
        } else if k == 7 {
            assert(ls[k].last() == name.last());
        } else if k == 8 {
            assert(ls[k].last() == c.log_file.last());
        }
    }
    lemma_lines_of_joined(ls);
    lemma_config_scan(c);
    lemma_parse_decimal(c.cpu_min as nat, u32::MAX as nat);
    lemma_parse_decimal(c.cpu_max as nat, u32::MAX as nat);
    lemma_parse_decimal(c.ram_target as nat, u32::MAX as nat);
    lemma_parse_decimal(c.check_interval as nat, u32::MAX as nat);
    lemma_trim_noop(name);
    lemma_trim_noop(c.log_file);
}

} // verus!
