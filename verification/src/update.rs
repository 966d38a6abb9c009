//! Release versions, platform asset names and the decisions of the self-update.

use vstd::prelude::*;
use crate::text::{
    all_digits, chars_of, debug_quoted, is_digit_char, is_ws, lemma_decimal_parses, lemma_parse_decimal,
    split_scan, trim_end, trim_start, decimal, parse_u32, parse_uint, push_char, push_debug, push_decimal,
    split_char, split_on, split_whitespace, str_eq, string_of, ws_words, find_char, position_of, sub_chars, trim, trimmed,
};

verus! {

/// `str::trim_start_matches('v')`.
pub open spec fn strip_v(s: Seq<char>) -> Seq<char>
    decreases s.len(),
{
    if s.len() > 0 && s[0] == 'v' {
        strip_v(s.drop_first())
    } else {
        s
    }
}

/// The part of a version string that is read: trimmed, leading 'v's dropped.
pub open spec fn version_body(s: Seq<char>) -> Seq<char> {
    strip_v(trim(s))
}

/// Component `i` of the dot-separated parts; a missing component reads as "0".
pub open spec fn version_part(parts: Seq<Seq<char>>, i: int) -> Seq<char> {
    if i < parts.len() {
        parts[i]
    } else {
        seq!['0']
    }
}

/// The error for a version whose component `n` (1-based) is not a number.
pub open spec fn version_error(body: Seq<char>, n: nat) -> Seq<char> {
    "cannot parse version "@ + debug_quoted(body) + " (component "@ + decimal(n) + seq![')']
}

/// "v0.2.0" / "0.2" -> (0, 2, 0); anything after the third component is ignored,
/// and a component that is not a `u32` numeral is an error.
pub open spec fn spec_parse_version(s: Seq<char>) -> Result<(u32, u32, u32), Seq<char>> {
    let body = version_body(s);
    let parts = split_char(body, '.');
    let a = parse_uint(version_part(parts, 0), u32::MAX as nat);
    let b = parse_uint(version_part(parts, 1), u32::MAX as nat);
    let c = parse_uint(version_part(parts, 2), u32::MAX as nat);
    if a is None {
        Err(version_error(body, 1))
    } else if b is None {
        Err(version_error(body, 2))
    } else if c is None {
        Err(version_error(body, 3))
    } else {
        Ok((a->0 as u32, b->0 as u32, c->0 as u32))
    }
}

fn version_component(parts: &Vec<Vec<char>>, i: usize) -> (r: Option<u32>)
    ensures
        r matches Some(x) ==> parse_uint(version_part(parts.deep_view(), i as int), u32::MAX as nat) == Some(x as nat),
        r is None ==> parse_uint(version_part(parts.deep_view(), i as int), u32::MAX as nat) is None,
{
    if i < parts.len() {
        let p = &parts[i];
        assert(p@ == parts.deep_view()[i as int]) by {
            assert(p.deep_view() =~= p@);
        }
        parse_u32(p.as_slice())
    } else {
        let zero = vec!['0'];
        assert(zero@ =~= seq!['0']);
        parse_u32(zero.as_slice())
    }
}

fn version_error_text(body: &Vec<char>, n: u64) -> (r: String)
    ensures
        r@ == version_error(body@, n as nat),
{
    let b = string_of(body.as_slice());
    let mut e = String::new();
    e.append("cannot parse version ");
    push_debug(&mut e, b.as_str());
    e.append(" (component ");
    push_decimal(&mut e, n);
    push_char(&mut e, ')');
    assert(e@ =~= version_error(body@, n as nat));
    e
}

/// Parses a release version such as "v0.2.0" or "0.2" into (major, minor, patch).
/// Pre-release suffixes fail rather than silently mis-comparing.
pub fn parse_version(s: &str) -> (r: Result<(u32, u32, u32), String>)
    ensures
        match r {
            Ok(v) => spec_parse_version(s@) == Ok::<(u32, u32, u32), Seq<char>>(v),
            Err(e) => spec_parse_version(s@) == Err::<(u32, u32, u32), Seq<char>>(e@),
        },
{
    let all = chars_of(s);
    let t = trimmed(all.as_slice());
    let n = t.len();
    let mut i: usize = 0;
    assert(t@.subrange(0, n as int) =~= t@);
    while i < n && t[i] == 'v'
        invariant
            i <= n == t.len(),
            strip_v(t@.subrange(i as int, n as int)) == strip_v(t@),
        decreases n - i,
    {
        assert(t@.subrange(i as int, n as int).drop_first() =~= t@.subrange(i + 1, n as int));
        i = i + 1;
    }
    let body = sub_chars(t.as_slice(), i, n);
    assert(body@ == version_body(s@));
    let parts = split_on(body.as_slice(), '.');
    let a = version_component(&parts, 0);
    if a.is_none() {
        return Err(version_error_text(&body, 1));
    }
    let b = version_component(&parts, 1);
    if b.is_none() {
        return Err(version_error_text(&body, 2));
    }
    let c = version_component(&parts, 2);
    if c.is_none() {
        return Err(version_error_text(&body, 3));
    }
    Ok((a.unwrap(), b.unwrap(), c.unwrap()))
}

/// The text `v<major>.<minor>.<patch>`.
pub open spec fn version_text(v: (u32, u32, u32)) -> Seq<char> {
    seq!['v'] + decimal(v.0 as nat) + seq!['.'] + decimal(v.1 as nat) + seq!['.'] + decimal(v.2 as nat)
}

/// Formats a version as `v<major>.<minor>.<patch>`.
pub fn fmt_version(v: (u32, u32, u32)) -> (r: String)
    ensures
        r@ == version_text(v),
{
    let mut s = String::new();
    push_char(&mut s, 'v');
    push_decimal(&mut s, v.0 as u64);
    push_char(&mut s, '.');
    push_decimal(&mut s, v.1 as u64);
    push_char(&mut s, '.');
    push_decimal(&mut s, v.2 as u64);
    assert(s@ =~= version_text(v));
    s
}


proof fn lemma_split_scan_append(p: Seq<char>, q: Seq<char>, sep: char)
    requires
        forall|i: int| 0 <= i < q.len() ==> q[i] != sep,
    ensures
        split_scan(p + q, sep) == (split_scan(p, sep).0, split_scan(p, sep).1 + q),
    decreases q.len(),
{
    if q.len() == 0 {
        assert(p + q =~= p);
        assert(split_scan(p, sep).1 + q =~= split_scan(p, sep).1);
    } else {
        lemma_split_scan_append(p, q.drop_last(), sep);
        assert((p + q).drop_last() =~= p + q.drop_last());
        assert((p + q).last() == q.last());
        assert(split_scan(p, sep).1 + q.drop_last() + seq![q.last()] =~= split_scan(p, sep).1 + q);
    }
}

proof fn lemma_split_scan_sep(p: Seq<char>, sep: char)
    ensures
        split_scan(p.push(sep), sep) == (split_scan(p, sep).0.push(split_scan(p, sep).1), Seq::<char>::empty()),
{
    assert(p.push(sep).drop_last() =~= p);
}

proof fn lemma_numeral_has_no_dot(n: nat)
    ensures
        forall|i: int| 0 <= i < decimal(n).len() ==> decimal(n)[i] != '.',
{
    lemma_decimal_parses(n);
    assert forall|i: int| 0 <= i < decimal(n).len() implies decimal(n)[i] != '.' by {
        assert(is_digit_char(decimal(n)[i]));
    }
}

/// A formatted version reads back as the same version.
pub proof fn lemma_version_roundtrip(v: (u32, u32, u32))
    ensures
        spec_parse_version(version_text(v)) == Ok::<(u32, u32, u32), Seq<char>>(v),
{
    let d1 = decimal(v.0 as nat);
    let d2 = decimal(v.1 as nat);
    let d3 = decimal(v.2 as nat);
    lemma_decimal_parses(v.0 as nat);
    lemma_decimal_parses(v.1 as nat);
    lemma_decimal_parses(v.2 as nat);
    let x = version_text(v);
    let body = d1 + seq!['.'] + d2 + seq!['.'] + d3;
    assert(x =~= seq!['v'] + body);
    assert(!is_ws(x[0]));
    assert(trim_start(x) == x);
    assert(x.last() == d3.last());
    assert(!is_ws(x.last()));
    assert(trim_end(x) == x);
    assert(x.drop_first() =~= body);
    assert(body[0] == d1[0]);
    assert(strip_v(body) == body);
    assert(version_body(x) == body);
    lemma_numeral_has_no_dot(v.0 as nat);
    lemma_numeral_has_no_dot(v.1 as nat);
    lemma_numeral_has_no_dot(v.2 as nat);
    let e = Seq::<char>::empty();
    lemma_split_scan_append(e, d1, '.');
    assert(e + d1 =~= d1);
    lemma_split_scan_sep(d1, '.');
    lemma_split_scan_append(d1.push('.'), d2, '.');
    assert(e + d2 =~= d2);
    let p2 = d1.push('.') + d2;
    lemma_split_scan_sep(p2, '.');
    lemma_split_scan_append(p2.push('.'), d3, '.');
    assert(p2.push('.') + d3 =~= body);
    assert(split_scan(Seq::<char>::empty(), '.') == (Seq::<Seq<char>>::empty(), Seq::<char>::empty()));
    let parts = split_char(body, '.');
    assert(parts =~= seq![d1, d2, d3]);
    lemma_parse_decimal(v.0 as nat, u32::MAX as nat);
    lemma_parse_decimal(v.1 as nat, u32::MAX as nat);
    lemma_parse_decimal(v.2 as nat, u32::MAX as nat);
}


proof fn lemma_trim_end_prepend(c: char, t: Seq<char>)
    requires
        !is_ws(c),
    ensures
        trim_end(seq![c] + t) == seq![c] + trim_end(t),
    decreases t.len(),
{
    if t.len() > 0 {
        assert((seq![c] + t).drop_last() =~= seq![c] + t.drop_last());
        assert((seq![c] + t).last() == t.last());
        lemma_trim_end_prepend(c, t.drop_last());
    } else {
        assert(seq![c] + t =~= seq![c]);
        assert(seq![c].drop_last() =~= Seq::<char>::empty());
    }
}

/// A leading 'v' does not change how a version reads ("v1.0.0" is "1.0.0").
pub proof fn lemma_version_leading_v(s: Seq<char>)
    requires
        s.len() == 0 || !is_ws(s[0]),
    ensures
        spec_parse_version(seq!['v'] + s) == spec_parse_version(s),
{
    let x = seq!['v'] + s;
    assert(trim_start(x) == x);
    assert(trim_start(s) == s);
    lemma_trim_end_prepend('v', s);
    assert((seq!['v'] + trim_end(s)).drop_first() =~= trim_end(s));
    assert(version_body(x) == version_body(s));
}


// ---- release assets ------------------------------------------------------------

/// Target triple and `.exe` flag of the release binary for an OS and CPU
/// architecture (the names of `std::env::consts::{OS, ARCH}`).
pub open spec fn spec_triple(os: Seq<char>, arch: Seq<char>) -> Result<(Seq<char>, bool), Seq<char>> {
    if os == "linux"@ {
        if arch == "x86_64"@ || arch == "aarch64"@ || arch == "i686"@ {
            Ok((arch + "-unknown-linux-musl"@, false))
        } else if arch == "arm"@ {
            Ok(("armv7-unknown-linux-musleabihf"@, false))
        } else if arch == "riscv64"@ {
            Ok(("riscv64gc-unknown-linux-musl"@, false))
        } else {
            Err("unsupported architecture: "@ + arch)
        }
    } else if os == "macos"@ {
        if arch == "x86_64"@ || arch == "aarch64"@ {
            Ok((arch + "-apple-darwin"@, false))
        } else {
            Err("unsupported architecture: "@ + arch)
        }
    } else if os == "windows"@ {
        if arch == "x86_64"@ || arch == "aarch64"@ {
            Ok((arch + "-pc-windows-msvc"@, true))
        } else {
            Err("unsupported architecture: "@ + arch)
        }
    } else {
        Err("unsupported OS: "@ + os)
    }
}

/// The release targets: on Linux x86_64, aarch64 and i686 take
/// `<arch>-unknown-linux-musl`, 32-bit ARM takes `armv7-unknown-linux-musleabihf`
/// and riscv64 takes `riscv64gc-unknown-linux-musl`; macOS x86_64 and aarch64 take
/// `<arch>-apple-darwin`; Windows x86_64 and aarch64 take `<arch>-pc-windows-msvc`
/// with `.exe`. Whatever is accepted is one of these, the `.exe` flag is set exactly
/// on Windows, and any other OS is refused as unsupported.
pub proof fn lemma_release_triples(os: Seq<char>, arch: Seq<char>)
    ensures
        os == "linux"@ && (arch == "x86_64"@ || arch == "aarch64"@ || arch == "i686"@) ==> spec_triple(os, arch)
            == Ok::<(Seq<char>, bool), Seq<char>>((arch + "-unknown-linux-musl"@, false)),
        os == "linux"@ && arch == "arm"@ ==> spec_triple(os, arch) == Ok::<(Seq<char>, bool), Seq<char>>(
            ("armv7-unknown-linux-musleabihf"@, false),
        ),
        os == "linux"@ && arch == "riscv64"@ ==> spec_triple(os, arch) == Ok::<(Seq<char>, bool), Seq<char>>(
            ("riscv64gc-unknown-linux-musl"@, false),
        ),
        os == "macos"@ && (arch == "x86_64"@ || arch == "aarch64"@) ==> spec_triple(os, arch) == Ok::<
            (Seq<char>, bool),
            Seq<char>,
        >((arch + "-apple-darwin"@, false)),
        os == "windows"@ && (arch == "x86_64"@ || arch == "aarch64"@) ==> spec_triple(os, arch) == Ok::<
            (Seq<char>, bool),
            Seq<char>,
        >((arch + "-pc-windows-msvc"@, true)),
        spec_triple(os, arch) is Ok ==> (os == "linux"@ || os == "macos"@ || os == "windows"@),
        spec_triple(os, arch) is Ok ==> (spec_triple(os, arch)->Ok_0.1 <==> os == "windows"@),
        !(os == "linux"@ || os == "macos"@ || os == "windows"@) ==> spec_triple(os, arch)
            == Err::<(Seq<char>, bool), Seq<char>>("unsupported OS: "@ + os),
{
    reveal_strlit("linux");
    reveal_strlit("macos");
    reveal_strlit("windows");
    reveal_strlit("x86_64");
    reveal_strlit("aarch64");
    reveal_strlit("i686");
    reveal_strlit("arm");
    reveal_strlit("riscv64");
    assert("riscv64"@[0] != "aarch64"@[0]);
    assert("macos"@[0] != "linux"@[0]);
    assert("windows"@[0] != "linux"@[0] && "windows"@[0] != "macos"@[0]);
}

fn concat2(a: &str, b: &str) -> (r: String)
    ensures
        r@ == a@ + b@,
{
    let mut s = String::new();
    s.append(a);
    s.append(b);
    assert(s@ =~= a@ + b@);
    s
}

fn unsupported_arch(arch: &str) -> (r: Result<(String, bool), String>)
    ensures
        r is Err,
        r->Err_0@ == "unsupported architecture: "@ + arch@,
{
    Err(concat2("unsupported architecture: ", arch))
}

/// Target triple + whether the binary carries a `.exe` suffix, matching the
/// release asset naming exactly.
pub fn triple_for(os: &str, arch: &str) -> (r: Result<(String, bool), String>)
    ensures
        match r {
            Ok(t) => spec_triple(os@, arch@) == Ok::<(Seq<char>, bool), Seq<char>>((t.0@, t.1)),
            Err(e) => spec_triple(os@, arch@) == Err::<(Seq<char>, bool), Seq<char>>(e@),
        },
        os@ == "linux"@ && (arch@ == "x86_64"@ || arch@ == "aarch64"@ || arch@ == "i686"@) ==> r is Ok
            && r->Ok_0.0@ == arch@ + "-unknown-linux-musl"@ && !r->Ok_0.1,
        os@ == "linux"@ && arch@ == "arm"@ ==> r is Ok && r->Ok_0.0@ == "armv7-unknown-linux-musleabihf"@
            && !r->Ok_0.1,
        os@ == "linux"@ && arch@ == "riscv64"@ ==> r is Ok && r->Ok_0.0@ == "riscv64gc-unknown-linux-musl"@
            && !r->Ok_0.1,
        os@ == "macos"@ && (arch@ == "x86_64"@ || arch@ == "aarch64"@) ==> r is Ok && r->Ok_0.0@ == arch@
            + "-apple-darwin"@ && !r->Ok_0.1,
        os@ == "windows"@ && (arch@ == "x86_64"@ || arch@ == "aarch64"@) ==> r is Ok && r->Ok_0.0@ == arch@
            + "-pc-windows-msvc"@ && r->Ok_0.1,
        r is Ok ==> (r->Ok_0.1 <==> os@ == "windows"@),
{
    proof { lemma_release_triples(os@, arch@); }
    if str_eq(os, "linux") {
        if str_eq(arch, "x86_64") || str_eq(arch, "aarch64") || str_eq(arch, "i686") {
            Ok((concat2(arch, "-unknown-linux-musl"), false))
        } else if str_eq(arch, "arm") {
            Ok((String::from_str("armv7-unknown-linux-musleabihf"), false))
        } else if str_eq(arch, "riscv64") {
            Ok((String::from_str("riscv64gc-unknown-linux-musl"), false))
        } else {
            unsupported_arch(arch)
        }
    } else if str_eq(os, "macos") {
        if str_eq(arch, "x86_64") || str_eq(arch, "aarch64") {
            Ok((concat2(arch, "-apple-darwin"), false))
        } else {
            unsupported_arch(arch)
        }
    } else if str_eq(os, "windows") {
        if str_eq(arch, "x86_64") || str_eq(arch, "aarch64") {
            Ok((concat2(arch, "-pc-windows-msvc"), true))
        } else {
            unsupported_arch(arch)
        }
    } else {
        Err(concat2("unsupported OS: ", os))
    }
}

/// Name of the release asset for a platform: `systemhog-<triple>` and `.exe` where
/// the platform wants it.
pub open spec fn spec_asset_name(os: Seq<char>, arch: Seq<char>) -> Result<Seq<char>, Seq<char>> {
    match spec_triple(os, arch) {
        Ok(t) => Ok("systemhog-"@ + t.0 + if t.1 { ".exe"@ } else { Seq::<char>::empty() }),
        Err(e) => Err(e),
    }
}

/// The release asset name for the platform `os`/`arch`.
pub fn asset_name(os: &str, arch: &str) -> (r: Result<String, String>)
    ensures
        match r {
            Ok(a) => spec_asset_name(os@, arch@) == Ok::<Seq<char>, Seq<char>>(a@),
            Err(e) => spec_asset_name(os@, arch@) == Err::<Seq<char>, Seq<char>>(e@),
        },
{
    match triple_for(os, arch) {
        Ok((triple, exe)) => {
            let mut s = String::new();
            s.append("systemhog-");
            s.append(triple.as_str());
            if exe {
                s.append(".exe");
            }
            assert(s@ =~= "systemhog-"@ + triple@ + if exe { ".exe"@ } else { Seq::<char>::empty() });
            Ok(s)
        },
        Err(e) => Err(e),
    }
}

/// Whether the first bytes of a downloaded file (`None` when it cannot be read)
/// carry the executable format magic of `os`.
pub open spec fn spec_magic_ok(os: Seq<char>, head: Option<Seq<u8>>) -> bool {
    if os == "linux"@ {
        head == Some(seq![0x7fu8, 0x45u8, 0x4cu8, 0x46u8])
    } else if os == "macos"@ {
        head == Some(seq![0xcfu8, 0xfau8, 0xedu8, 0xfeu8])
    } else if os == "windows"@ {
        head matches Some(h) && h.len() >= 2 && h[0] == 0x4du8 && h[1] == 0x5au8
    } else {
        true
    }
}

/// Checks the format magic of a downloaded binary; `head` holds its first four
/// bytes (fewer for a shorter file).
pub fn magic_ok(os: &str, head: Option<&[u8]>) -> (r: bool)
    ensures
        r == spec_magic_ok(os@, match head { Some(h) => Some(h@), None => None }),
{
    if str_eq(os, "linux") {
        match head {
            Some(h) => {
                let ok = h.len() == 4 && h[0] == 0x7f && h[1] == 0x45 && h[2] == 0x4c && h[3] == 0x46;
                assert(ok ==> h@ =~= seq![0x7fu8, 0x45u8, 0x4cu8, 0x46u8]);
                ok
            },
            None => false,
        }
    } else if str_eq(os, "macos") {
        match head {
            Some(h) => {
                let ok = h.len() == 4 && h[0] == 0xcf && h[1] == 0xfa && h[2] == 0xed && h[3] == 0xfe;
                assert(ok ==> h@ =~= seq![0xcfu8, 0xfau8, 0xedu8, 0xfeu8]);
                ok
            },
            None => false,
        }
    } else if str_eq(os, "windows") {
        match head {
            Some(h) => h.len() >= 2 && h[0] == 0x4d && h[1] == 0x5a,
            None => false,
        }
    } else {
        true
    }
}


// ---- finding the latest release --------------------------------------------------

/// Index of the first occurrence of `pat` in `s`.
pub open spec fn find_sub(s: Seq<char>, pat: Seq<char>) -> Option<nat>
    decreases s.len(),
{
    if s.len() < pat.len() {
        None
    } else if s.take(pat.len() as int) == pat {
        Some(0)
    } else if s.len() == 0 {
        None
    } else {
        match find_sub(s.drop_first(), pat) {
            Some(k) => Some(k + 1),
            None => None,
        }
    }
}

fn matches_at(v: &[char], pat: &[char], i: usize) -> (r: bool)
    requires
        i + pat.len() <= v.len(),
    ensures
        r == (v@.subrange(i as int, i + pat.len()) == pat@),
{
    let m = pat.len();
    let mut j: usize = 0;
    while j < m
        invariant
            j <= m == pat.len(),
            i + m <= v.len(),
            v@.subrange(i as int, i + j) == pat@.take(j as int),
        decreases m - j,
    {
        if v[i + j] != pat[j] {
            assert(v@.subrange(i as int, i + m)[j as int] != pat@[j as int]);
            return false;
        }
        j = j + 1;
        assert(v@.subrange(i as int, i + j) =~= pat@.take(j as int));
    }
    assert(pat@.take(m as int) =~= pat@);
    true
}

/// Position of the first occurrence of `pat` in `v`.
pub fn position_of_sub(v: &[char], pat: &[char]) -> (r: Option<usize>)
    ensures
        r matches Some(k) ==> find_sub(v@, pat@) == Some(k as nat) && k + pat.len() <= v.len(),
        r is None ==> find_sub(v@, pat@) is None,
{
    let n = v.len();
    let m = pat.len();
    if m > n {
        return None;
    }
    if m == 0 {
        assert(v@.take(0) =~= pat@);
        return Some(0);
    }
    let mut i: usize = 0;
    assert(v@.subrange(0, n as int) =~= v@);
    while i <= n - m
        invariant
            0 < m <= n,
            i <= n - m + 1,
            n == v.len(),
            m == pat.len(),
            find_sub(v@, pat@) == match find_sub(v@.subrange(i as int, n as int), pat@) {
                Some(k) => Some((k + i) as nat),
                None => None,
            },
        decreases n - m + 1 - i,
    {
        let ghost rest = v@.subrange(i as int, n as int);
        assert(rest.take(m as int) =~= v@.subrange(i as int, i + m));
        if matches_at(v, pat, i) {
            return Some(i);
        }
        assert(rest.drop_first() =~= v@.subrange(i + 1, n as int));
        i = i + 1;
    }
    None
}

/// The part of `s` before the first `c` (all of `s` when there is none).
pub open spec fn before_char(s: Seq<char>, c: char) -> Seq<char> {
    match find_char(s, c) {
        Some(k) => s.take(k as int),
        None => s,
    }
}

/// The release tag that a `/releases/latest` redirect URL names: what follows the
/// first `/releases/download/`, up to the next '/'.
pub open spec fn redirect_tag(url: Seq<char>) -> Option<Seq<char>> {
    let pat = "/releases/download/"@;
    match find_sub(url, pat) {
        Some(i) => Some(before_char(url.skip((i + pat.len()) as int), '/')),
        None => None,
    }
}

/// A tag without one leading 'v'.
pub open spec fn strip_one_v(t: Seq<char>) -> Seq<char> {
    if t.len() > 0 && t[0] == 'v' { t.drop_first() } else { t }
}

/// The latest release version named by the text `curl` printed for the redirect
/// (`%{redirect_url}`), checked to be a readable version.
pub open spec fn spec_latest_version(repo: Seq<char>, printed: Seq<char>) -> Result<Seq<char>, Seq<char>> {
    match redirect_tag(trim(printed)) {
        None => Err("cannot determine latest release for "@ + repo),
        Some(tag) => match spec_parse_version(strip_one_v(tag)) {
            Ok(_) => Ok(strip_one_v(tag)),
            Err(e) => Err(e),
        },
    }
}

/// Latest release tag (no leading 'v') from the redirect URL of
/// `/releases/latest/download/<asset>`.
pub fn latest_version_from_redirect(repo: &str, printed: &str) -> (r: Result<String, String>)
    ensures
        match r {
            Ok(v) => spec_latest_version(repo@, printed@) == Ok::<Seq<char>, Seq<char>>(v@),
            Err(e) => spec_latest_version(repo@, printed@) == Err::<Seq<char>, Seq<char>>(e@),
        },
{
    let all = chars_of(printed);
    let url = trimmed(all.as_slice());
    let pat = chars_of("/releases/download/");
    match position_of_sub(url.as_slice(), pat.as_slice()) {
        None => Err(concat2("cannot determine latest release for ", repo)),
        Some(i) => {
            let n = url.len();
            let start = i + pat.len();
            let rest = sub_chars(url.as_slice(), start, n);
            assert(rest@ =~= url@.skip(start as int));
            let tag = match position_of(rest.as_slice(), '/') {
                Some(k) => sub_chars(rest.as_slice(), 0, k),
                None => rest,
            };
            assert(tag@ =~= before_char(url@.skip(start as int), '/'));
            let version = if tag.len() > 0 && tag[0] == 'v' {
                sub_chars(tag.as_slice(), 1, tag.len())
            } else {
                tag
            };
            assert(version@ =~= strip_one_v(redirect_tag(url@)->0));
            let text = string_of(version.as_slice());
            match parse_version(text.as_str()) {
                Ok(_) => Ok(text),
                Err(e) => Err(e),
            }
        },
    }
}

/// Download URL of `asset` in the latest release of `repo`.
pub fn latest_download_url(repo: &str, asset: &str) -> (r: String)
    ensures
        r@ == "https://github.com/"@ + repo@ + "/releases/latest/download/"@ + asset@,
{
    let mut s = String::new();
    s.append("https://github.com/");
    s.append(repo);
    s.append("/releases/latest/download/");
    s.append(asset);
    assert(s@ =~= "https://github.com/"@ + repo@ + "/releases/latest/download/"@ + asset@);
    s
}

/// Download URL of `asset` in the release tagged `v<version>` of `repo`.
pub fn pinned_download_url(repo: &str, version: &str, asset: &str) -> (r: String)
    ensures
        r@ == "https://github.com/"@ + repo@ + "/releases/download/v"@ + version@ + seq!['/'] + asset@,
{
    let mut s = String::new();
    s.append("https://github.com/");
    s.append(repo);
    s.append("/releases/download/v");
    s.append(version);
    push_char(&mut s, '/');
    s.append(asset);
    assert(s@ =~= "https://github.com/"@ + repo@ + "/releases/download/v"@ + version@ + seq!['/'] + asset@);
    s
}

/// `str::trim_end_matches('/')`.
pub open spec fn strip_trailing_slashes(s: Seq<char>) -> Seq<char>
    decreases s.len(),
{
    if s.len() > 0 && s.last() == '/' { strip_trailing_slashes(s.drop_last()) } else { s }
}

/// Download URL of `asset` under a mirror base URL.
pub fn mirror_download_url(base: &str, asset: &str) -> (r: String)
    ensures
        r@ == strip_trailing_slashes(base@) + seq!['/'] + asset@,
{
    let b = chars_of(base);
    let mut j = b.len();
    assert(b@.subrange(0, j as int) =~= b@);
    while j > 0 && b[j - 1] == '/'
        invariant
            j <= b.len(),
            strip_trailing_slashes(b@.subrange(0, j as int)) == strip_trailing_slashes(base@),
        decreases j,
    {
        assert(b@.subrange(0, j as int).drop_last() =~= b@.subrange(0, j - 1));
        j = j - 1;
    }
    let kept = sub_chars(b.as_slice(), 0, j);
    let mut s = string_of(kept.as_slice());
    push_char(&mut s, '/');
    s.append(asset);
    assert(s@ =~= strip_trailing_slashes(base@) + seq!['/'] + asset@);
    s
}


// ---- checksums -------------------------------------------------------------------

/// `char::is_ascii_hexdigit`.
pub open spec fn is_hex_char(c: char) -> bool {
    ('0' <= c && c <= '9') || ('a' <= c && c <= 'f') || ('A' <= c && c <= 'F')
}

/// A SHA-256 digest in hex: 64 hex digits.
pub open spec fn is_sha256_hex(w: Seq<char>) -> bool {
    w.len() == 64 && forall|i: int| 0 <= i < w.len() ==> is_hex_char(#[trigger] w[i])
}

/// The first word that is a SHA-256 hex digest.
pub open spec fn first_sha256(words: Seq<Seq<char>>) -> Option<Seq<char>>
    decreases words.len(),
{
    if words.len() == 0 {
        None
    } else if is_sha256_hex(words[0]) {
        Some(words[0])
    } else {
        first_sha256(words.drop_first())
    }
}

fn sha256_word(w: &[char]) -> (r: bool)
    ensures
        r == is_sha256_hex(w@),
{
    if w.len() != 64 {
        return false;
    }
    let mut i: usize = 0;
    while i < 64
        invariant
            w.len() == 64,
            i <= 64,
            forall|k: int| 0 <= k < i ==> is_hex_char(#[trigger] w@[k]),
        decreases 64 - i,
    {
        let c = w[i];
        if !(('0' <= c && c <= '9') || ('a' <= c && c <= 'f') || ('A' <= c && c <= 'F')) {
            assert(!is_hex_char(w@[i as int]));
            return false;
        }
        i = i + 1;
    }
    true
}

/// The digest that a checksum tool printed: the first whitespace-separated word of
/// 64 hex digits (`sha256sum`, `shasum -a 256` and `certutil -hashfile` outputs).
pub fn sha256_in_output(text: &str) -> (r: Option<String>)
    ensures
        match r {
            Some(h) => first_sha256(ws_words(text@)) == Some(h@),
            None => first_sha256(ws_words(text@)) is None,
        },
{
    let all = chars_of(text);
    let words = split_whitespace(all.as_slice());
    let ghost ws = words.deep_view();
    let mut i: usize = 0;
    assert(ws.subrange(0, ws.len() as int) =~= ws);
    while i < words.len()
        invariant
            i <= words.len(),
            ws == words.deep_view(),
            ws == ws_words(text@),
            first_sha256(ws.subrange(i as int, ws.len() as int)) == first_sha256(ws),
        decreases words.len() - i,
    {
        let w = &words[i];
        assert(w.deep_view() =~= w@);
        assert(ws.subrange(i as int, ws.len() as int)[0] == w@);
        if sha256_word(w.as_slice()) {
            return Some(string_of(w.as_slice()));
        }
        assert(ws.subrange(i as int, ws.len() as int).drop_first() =~= ws.subrange(i + 1, ws.len() as int));
        i = i + 1;
    }
    None
}

/// First whitespace-separated word of a text (the `.sha256` asset layout:
/// `<hex>  systemhog-<triple>`).
pub fn first_token(text: &str) -> (r: Option<String>)
    ensures
        match r {
            Some(t) => ws_words(text@).len() > 0 && t@ == ws_words(text@)[0],
            None => ws_words(text@).len() == 0,
        },
{
    let all = chars_of(text);
    let words = split_whitespace(all.as_slice());
    if words.len() == 0 {
        None
    } else {
        let w = &words[0];
        assert(w.deep_view() =~= w@);
        Some(string_of(w.as_slice()))
    }
}

/// What the checksum comparison found.
pub enum ChecksumCheck {
    /// The digest matches the published one.
    Verified { got: String },
    /// The digest differs from the published one.
    Mismatch { got: String, expected: String },
    /// No tool could compute the digest; verification is skipped.
    NoTool,
    /// The published checksum asset holds no token.
    Malformed,
}

/// Compares the published digest (first token of the checksum asset) with the one
/// computed for the download.
pub fn checksum_check(expected: Option<String>, got: Option<String>) -> (r: ChecksumCheck)
    ensures
        match (expected, got) {
            (Some(e), Some(g)) => if e@ == g@ {
                r matches ChecksumCheck::Verified { got: x } && x@ == g@
            } else {
                r matches ChecksumCheck::Mismatch { got: x, expected: y } && x@ == g@ && y@ == e@
            },
            (Some(_), None) => r is NoTool,
            (None, _) => r is Malformed,
        },
{
    match expected {
        Some(e) => match got {
            Some(g) => if e == g {
                ChecksumCheck::Verified { got: g }
            } else {
                ChecksumCheck::Mismatch { got: g, expected: e }
            },
            None => ChecksumCheck::NoTool,
        },
        None => ChecksumCheck::Malformed,
    }
}

// ---- the update decision --------------------------------------------------------

/// Version order: by major, then minor, then patch.
pub open spec fn version_lt(a: (u32, u32, u32), b: (u32, u32, u32)) -> bool {
    a.0 < b.0 || (a.0 == b.0 && (a.1 < b.1 || (a.1 == b.1 && a.2 < b.2)))
}

/// `a < b` in version order.
pub fn version_less(a: (u32, u32, u32), b: (u32, u32, u32)) -> (r: bool)
    ensures
        r == version_lt(a, b),
        r <==> (a.0 < b.0 || (a.0 == b.0 && a.1 < b.1) || (a.0 == b.0 && a.1 == b.1 && a.2 < b.2)),
{
    a.0 < b.0 || (a.0 == b.0 && (a.1 < b.1 || (a.1 == b.1 && a.2 < b.2)))
}

/// Version order is the lexicographic order of (major, minor, patch): `a < b` holds
/// exactly when the majors differ and `a`'s is smaller, or the majors agree and the
/// minors decide, or both agree and the patches decide. It is a strict total order:
/// irreflexive, asymmetric, transitive, and any two different versions are ordered.
pub proof fn lemma_version_order(a: (u32, u32, u32), b: (u32, u32, u32), c: (u32, u32, u32))
    ensures
        version_lt(a, b) <==> (a.0 < b.0 || (a.0 == b.0 && a.1 < b.1) || (a.0 == b.0 && a.1 == b.1 && a.2 < b.2)),
        a.0 < b.0 ==> version_lt(a, b),
        a.0 > b.0 ==> !version_lt(a, b),
        a.0 == b.0 && a.1 < b.1 ==> version_lt(a, b),
        a.0 == b.0 && a.1 > b.1 ==> !version_lt(a, b),
        !version_lt(a, a),
        version_lt(a, b) ==> !version_lt(b, a),
        version_lt(a, b) && version_lt(b, c) ==> version_lt(a, c),
        a != b ==> version_lt(a, b) || version_lt(b, a),
{
}

/// What `update` does once it knows the installed and the target versions.
#[derive(PartialEq, Eq, Structural, Debug, Clone, Copy)]
pub enum UpdateVerdict {
    /// Target equals the installed version: nothing to do (exit 0).
    UpToDate,
    /// `--check` and the installed version is newer (exit 0).
    NewerInstalled,
    /// `--check` and an update is available (exit 1).
    UpdateAvailable,
    /// Download and install the target; `downgrade` when it is older.
    Install { downgrade: bool },
}

/// Decides the update from the installed version (`None` when unreadable), the
/// target version (`None` for a mirror, whose version is unknown) and `--check`.
pub fn update_verdict(
    current: Option<(u32, u32, u32)>,
    target: Option<(u32, u32, u32)>,
    check_only: bool,
) -> (r: UpdateVerdict)
    ensures
        r == (if current is Some && target is Some && current->0 == target->0 {
            UpdateVerdict::UpToDate
        } else if check_only {
            if current is Some && target is Some && version_lt(target->0, current->0) {
                UpdateVerdict::NewerInstalled
            } else {
                UpdateVerdict::UpdateAvailable
            }
        } else {
            UpdateVerdict::Install {
                downgrade: current is Some && target is Some && version_lt(target->0, current->0),
            }
        }),
        ({
            let c = current->0;
            let t = target->0;
            let newer = t.0 > c.0 || (t.0 == c.0 && t.1 > c.1) || (t.0 == c.0 && t.1 == c.1 && t.2 > c.2);
            let older = t.0 < c.0 || (t.0 == c.0 && t.1 < c.1) || (t.0 == c.0 && t.1 == c.1 && t.2 < c.2);
            &&& (current is Some && target is Some && check_only && newer) ==> r == UpdateVerdict::UpdateAvailable
            &&& (current is Some && target is Some && check_only && older) ==> r == UpdateVerdict::NewerInstalled
            &&& (current is Some && target is Some && !check_only && newer) ==> r == UpdateVerdict::Install { downgrade: false }
            &&& (current is Some && target is Some && !check_only && older) ==> r == UpdateVerdict::Install { downgrade: true }
            &&& (current is None || target is None) ==> r == (if check_only { UpdateVerdict::UpdateAvailable } else { UpdateVerdict::Install { downgrade: false } })
        }),
{
    let downgrade = match (current, target) {
        (Some(c), Some(t)) => {
            if c.0 == t.0 && c.1 == t.1 && c.2 == t.2 {
                return UpdateVerdict::UpToDate;
            }
            version_less(t, c)
        },
        _ => false,
    };
    if check_only {
        if downgrade { UpdateVerdict::NewerInstalled } else { UpdateVerdict::UpdateAvailable }
    } else {
        UpdateVerdict::Install { downgrade }
    }
}

/// Exit status of a report-only run: 1 when an update is available.
pub fn check_exit_code(v: UpdateVerdict) -> (r: i32)
    ensures
        r == (if v == UpdateVerdict::UpdateAvailable { 1i32 } else { 0i32 }),
{
    match v {
        UpdateVerdict::UpdateAvailable => 1,
        _ => 0,
    }
}

/// Whether the service is restarted after replacing the binary: only when it was
/// running (`systemctl is-active` said "active"); never surprise-start one.
pub fn restart_after_update(state: &str) -> (r: bool)
    ensures
        r == (state@ == "active"@),
{
    str_eq(state, "active")
}


// ---- the release to move to ------------------------------------------------------

/// Which release `update` moves to, and from where.
pub struct UpdateTarget {
    /// How the target is reported (`v<version>` or `(mirror)`).
    pub label: String,
    /// Where the binary is downloaded from.
    pub url: String,
    /// The target version; unknown for a mirror.
    pub version: Option<(u32, u32, u32)>,
}

/// The target for a pinned version (`SYSTEMHOG_VERSION`, no leading 'v').
pub fn pinned_target(repo: &str, version: &str, asset: &str) -> (r: Result<UpdateTarget, String>)
    ensures
        match spec_parse_version(version@) {
            Ok(v) => r is Ok && ({
                let t = r->Ok_0;
                &&& t.label@ == seq!['v'] + version@
                &&& t.url@ == "https://github.com/"@ + repo@ + "/releases/download/v"@ + version@ + seq!['/'] + asset@
                &&& t.version == Some(v)
            }),
            Err(e) => r is Err && r->Err_0@ == e,
        },
{
    match parse_version(version) {
        Ok(v) => {
            let mut label = String::new();
            push_char(&mut label, 'v');
            label.append(version);
            assert(label@ =~= seq!['v'] + version@);
            Ok(UpdateTarget { label, url: pinned_download_url(repo, version, asset), version: Some(v) })
        },
        Err(e) => Err(e),
    }
}

/// The target behind a mirror (`SYSTEMHOG_BASE_URL`); its version cannot be known,
/// so a report-only run is refused.
pub fn mirror_target(base: &str, asset: &str, check_only: bool) -> (r: Result<UpdateTarget, String>)
    ensures
        check_only ==> r is Err && r->Err_0@ == "cannot check for updates with SYSTEMHOG_BASE_URL set"@,
        !check_only ==> r is Ok && ({
            let t = r->Ok_0;
            &&& t.label@ == "(mirror)"@
            &&& t.url@ == strip_trailing_slashes(base@) + seq!['/'] + asset@
            &&& t.version is None
        }),
{
    if check_only {
        return Err(String::from_str("cannot check for updates with SYSTEMHOG_BASE_URL set"));
    }
    Ok(UpdateTarget {
        label: String::from_str("(mirror)"),
        url: mirror_download_url(base, asset),
        version: None,
    })
}

/// The target for the latest release, whose version `version` was read from the
/// release redirect.
pub fn latest_target(repo: &str, version: &str, asset: &str) -> (r: UpdateTarget)
    requires
        spec_parse_version(version@) is Ok,
    ensures
        r.label@ == seq!['v'] + version@,
        r.url@ == "https://github.com/"@ + repo@ + "/releases/latest/download/"@ + asset@,
        r.version == Some(spec_parse_version(version@)->Ok_0),
{
    let v = match parse_version(version) {
        Ok(v) => v,
        Err(_) => (0, 0, 0),
    };
    let mut label = String::new();
    push_char(&mut label, 'v');
    label.append(version);
    assert(label@ =~= seq!['v'] + version@);
    UpdateTarget { label, url: latest_download_url(repo, asset), version: Some(v) }
}

/// URL of the checksum asset that goes with a download.
pub fn checksum_url(download_url: &str) -> (r: String)
    ensures
        r@ == download_url@ + ".sha256"@,
{
    concat2(download_url, ".sha256")
}

} // verus!
