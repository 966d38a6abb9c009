//! CPU and RAM figures of the system, read from the text of `/proc/stat` and
//! `/proc/meminfo`.

use vstd::prelude::*;
use crate::text::{
    chars_of, find_char, lines, parse_u64, parse_uint, position_of, split_lines, split_whitespace,
    str_eq, string_of, sub_chars, ws_words,
};

verus! {

/// Cumulative CPU ticks, system-wide.
#[derive(Debug, Clone, Copy)]
pub struct CpuSample {
    pub total: u64,
    pub idle: u64,
}

/// Total and available memory, in KiB.
#[derive(Debug, Clone, Copy)]
pub struct MemInfo {
    pub total_kb: u64,
    pub avail_kb: u64,
}

/// The eight tick counters of the aggregate `cpu` line (the first line of
/// `/proc/stat`): user nice system idle iowait irq softirq steal. `None` when a
/// counter is missing or not a `u64` numeral.
pub open spec fn stat_counters(text: Seq<char>) -> Option<Seq<nat>> {
    let ls = lines(text);
    if ls.len() == 0 {
        None
    } else {
        let w = ws_words(ls[0]);
        if w.len() >= 9 && forall|k: int| 1 <= k <= 8 ==> #[trigger] parse_uint(w[k], u64::MAX as nat) is Some {
            Some(Seq::new(8, |k: int| parse_uint(w[k + 1], u64::MAX as nat)->0))
        } else {
            None
        }
    }
}

/// Sum of the first `n` counters.
pub open spec fn sum_first(v: Seq<nat>, n: int) -> nat
    decreases n,
{
    if n <= 0 { 0 } else { sum_first(v, n - 1) + v[n - 1] }
}

/// The sample that the counters give: all ticks, and idle + iowait ticks (guest
/// time is already folded into user/nice).
pub open spec fn spec_cpu_sample(text: Seq<char>) -> Option<(nat, nat)> {
    match stat_counters(text) {
        Some(v) => Some((sum_first(v, 8), v[3] + v[4])),
        None => None,
    }
}

/// Whether the counters of a `/proc/stat` text (if it has them) add up within
/// `u64`, as `cpu_sample_from` needs.
pub fn stat_counters_fit(text: &str) -> (r: bool)
    ensures
        r == (stat_counters(text@) matches Some(v) ==> sum_first(v, 8) <= u64::MAX),
{
    let c = chars_of(text);
    let ls = split_lines(c.as_slice());
    if ls.len() == 0 {
        return true;
    }
    let first = &ls[0];
    assert(first.deep_view() =~= first@);
    let w = split_whitespace(first.as_slice());
    let ghost ws = w.deep_view();
    if w.len() < 9 {
        return true;
    }
    let mut total: u128 = 0;
    let mut k: usize = 1;
    while k <= 8
        invariant
            1 <= k <= 9,
            w.len() >= 9,
            ws == w.deep_view(),
            ws == ws_words(lines(text@)[0]),
            lines(text@).len() > 0,
            forall|j: int| 1 <= j < k ==> #[trigger] parse_uint(ws[j], u64::MAX as nat) is Some,
            total == sum_first(Seq::new(8, |j: int| parse_uint(ws[j + 1], u64::MAX as nat)->0), k - 1),
            total <= (k - 1) * (u64::MAX as int),
        decreases 9 - k,
    {
        let wk = &w[k];
        assert(wk.deep_view() =~= wk@);
        match parse_u64(wk.as_slice()) {
            Some(x) => {
                total = total + x as u128;
            },
            None => {
                assert(parse_uint(ws[k as int], u64::MAX as nat) is None);
                assert(!(forall|j: int| 1 <= j <= 8 ==> #[trigger] parse_uint(ws[j], u64::MAX as nat) is Some));
                return true;
            },
        }
        k = k + 1;
    }
    assert(stat_counters(text@) == Some(Seq::new(8, |j: int| parse_uint(ws[j + 1], u64::MAX as nat)->0)));
    total <= u64::MAX as u128
}

/// Reads a CPU sample from the text of `/proc/stat`.
pub fn cpu_sample_from(text: &str) -> (r: Option<CpuSample>)
    requires
        stat_counters(text@) matches Some(v) ==> sum_first(v, 8) <= u64::MAX,
    ensures
        match r {
            Some(s) => spec_cpu_sample(text@) == Some((s.total as nat, s.idle as nat)),
            None => spec_cpu_sample(text@) is None,
        },
{
    let c = chars_of(text);
    let ls = split_lines(c.as_slice());
    if ls.len() == 0 {
        return None;
    }
    let first = &ls[0];
    assert(first.deep_view() =~= first@);
    let w = split_whitespace(first.as_slice());
    let ghost ws = w.deep_view();
    if w.len() < 9 {
        return None;
    }
    let mut vals: Vec<u64> = Vec::new();
    let mut k: usize = 1;
    while k <= 8
        invariant
            1 <= k <= 9,
            w.len() >= 9,
            ws == w.deep_view(),
            ws == ws_words(lines(text@)[0]),
            lines(text@).len() > 0,
            vals.len() == k - 1,
            forall|j: int| 1 <= j < k ==> #[trigger] parse_uint(ws[j], u64::MAX as nat) == Some(vals@[j - 1] as nat),
        decreases 9 - k,
    {
        let wk = &w[k];
        assert(wk.deep_view() =~= wk@);
        match parse_u64(wk.as_slice()) {
            Some(x) => {
                vals.push(x);
            },
            None => {
                assert(parse_uint(ws[k as int], u64::MAX as nat) is None);
                assert(!(forall|j: int| 1 <= j <= 8 ==> #[trigger] parse_uint(ws[j], u64::MAX as nat) is Some));
                return None;
            },
        }
        k = k + 1;
    }
    let ghost v = stat_counters(text@)->0;
    assert(forall|j: int| 0 <= j < 8 ==> v[j] == vals@[j] as nat) by {
        assert forall|j: int| 0 <= j < 8 implies v[j] == vals@[j] as nat by {
            assert(parse_uint(ws[j + 1], u64::MAX as nat) == Some(vals@[j] as nat));
        }
    }
    let mut total: u64 = 0;
    let mut i: usize = 0;
    while i < 8
        invariant
            i <= 8,
            vals.len() == 8,
            forall|j: int| 0 <= j < 8 ==> v[j] == vals@[j] as nat,
            sum_first(v, 8) <= u64::MAX,
            total == sum_first(v, i as int),
        decreases 8 - i,
    {
        proof { lemma_sum_first_monotone(v, i as int + 1, 8); }
        total = total + vals[i];
        i = i + 1;
    }
    assert(sum_first(v, 8) == v[0] + v[1] + v[2] + v[3] + v[4] + v[5] + v[6] + v[7]) by {
        reveal_with_fuel(sum_first, 9);
    }
    Some(CpuSample { total, idle: vals[3] + vals[4] })
}

proof fn lemma_sum_first_monotone(v: Seq<nat>, a: int, b: int)
    requires
        0 <= a <= b,
    ensures
        sum_first(v, a) <= sum_first(v, b),
    decreases b - a,
{
    if a < b {
        lemma_sum_first_monotone(v, a, b - 1);
    }
}

/// The KiB figure of a `/proc/meminfo` value: its first word as a `u64`, or 0.
pub open spec fn meminfo_kb(value: Seq<char>) -> nat {
    let w = ws_words(value);
    if w.len() > 0 && parse_uint(w[0], u64::MAX as nat) is Some {
        parse_uint(w[0], u64::MAX as nat)->0
    } else {
        0
    }
}

/// The figures of interest after reading `ls`: MemTotal, MemAvailable, MemFree,
/// Buffers and Cached. Lines without ':' are skipped and a later line for the same
/// key wins.
pub open spec fn mem_scan(ls: Seq<Seq<char>>) -> (nat, nat, nat, nat, nat)
    decreases ls.len(),
{
    if ls.len() == 0 {
        (0, 0, 0, 0, 0)
    } else {
        let st = mem_scan(ls.drop_last());
        let l = ls.last();
        match find_char(l, ':') {
            None => st,
            Some(i) => {
                let key = l.take(i as int);
                let kb = meminfo_kb(l.skip((i + 1) as int));
                if key == "MemTotal"@ {
                    (kb, st.1, st.2, st.3, st.4)
                } else if key == "MemAvailable"@ {
                    (st.0, kb, st.2, st.3, st.4)
                } else if key == "MemFree"@ {
                    (st.0, st.1, kb, st.3, st.4)
                } else if key == "Buffers"@ {
                    (st.0, st.1, st.2, kb, st.4)
                } else if key == "Cached"@ {
                    (st.0, st.1, st.2, st.3, kb)
                } else {
                    st
                }
            },
        }
    }
}

/// Total and available memory of a `/proc/meminfo` text; without MemAvailable
/// (kernels before 3.14) available is MemFree + Buffers + Cached. `None` when no
/// positive MemTotal is given.
pub open spec fn spec_mem_info(text: Seq<char>) -> Option<(nat, nat)> {
    let st = mem_scan(lines(text));
    let avail = if st.1 == 0 { st.2 + st.3 + st.4 } else { st.1 };
    if st.0 > 0 { Some((st.0, avail)) } else { None }
}

fn value_kb(v: &[char]) -> (r: u64)
    ensures
        r == meminfo_kb(v@),
{
    let w = split_whitespace(v);
    if w.len() > 0 {
        let w0 = &w[0];
        assert(w0.deep_view() =~= w0@);
        match parse_u64(w0.as_slice()) {
            Some(x) => x,
            None => 0,
        }
    } else {
        0
    }
}

/// Whether the fallback sum of a `/proc/meminfo` text stays within `u64`, as
/// `mem_info_from` needs.
pub fn meminfo_fits(text: &str) -> (r: bool)
    ensures
        r == ({
            let st = mem_scan(lines(text@));
            st.1 == 0 ==> st.2 + st.3 + st.4 <= u64::MAX
        }),
{
    let c = chars_of(text);
    let ls = split_lines(c.as_slice());
    let ghost all = ls.deep_view();
    let mut avail: u64 = 0;
    let mut free: u64 = 0;
    let mut buffers: u64 = 0;
    let mut cached: u64 = 0;
    let mut total: u64 = 0;
    let mut i: usize = 0;
    while i < ls.len()
        invariant
            i <= ls.len(),
            all == ls.deep_view(),
            all == lines(text@),
            mem_scan(all.take(i as int)) == (total as nat, avail as nat, free as nat, buffers as nat, cached as nat),
        decreases ls.len() - i,
    {
        let l = &ls[i];
        assert(l.deep_view() =~= l@);
        assert(all.take(i + 1).drop_last() =~= all.take(i as int));
        assert(all.take(i + 1).last() == l@);
        match position_of(l.as_slice(), ':') {
            None => {},
            Some(k) => {
                let key = sub_chars(l.as_slice(), 0, k);
                let value = sub_chars(l.as_slice(), k + 1, l.len());
                assert(value@ =~= l@.skip(k + 1));
                let kb = value_kb(value.as_slice());
                let ks = string_of(key.as_slice());
                if str_eq(ks.as_str(), "MemTotal") {
                    total = kb;
                } else if str_eq(ks.as_str(), "MemAvailable") {
                    avail = kb;
                } else if str_eq(ks.as_str(), "MemFree") {
                    free = kb;
                } else if str_eq(ks.as_str(), "Buffers") {
                    buffers = kb;
                } else if str_eq(ks.as_str(), "Cached") {
                    cached = kb;
                }
            },
        }
        i = i + 1;
    }
    assert(all.take(ls.len() as int) =~= all);
    avail != 0 || (free as u128 + buffers as u128 + cached as u128 <= u64::MAX as u128)
}

/// Reads total and available memory from the text of `/proc/meminfo`.
pub fn mem_info_from(text: &str) -> (r: Option<MemInfo>)
    requires
        ({
            let st = mem_scan(lines(text@));
            st.1 == 0 ==> st.2 + st.3 + st.4 <= u64::MAX
        }),
    ensures
        match r {
            Some(m) => spec_mem_info(text@) == Some((m.total_kb as nat, m.avail_kb as nat)),
            None => spec_mem_info(text@) is None,
        },
{
    let c = chars_of(text);
    let ls = split_lines(c.as_slice());
    let ghost all = ls.deep_view();
    let mut total: u64 = 0;
    let mut avail: u64 = 0;
    let mut free: u64 = 0;
    let mut buffers: u64 = 0;
    let mut cached: u64 = 0;
    let mut i: usize = 0;
    while i < ls.len()
        invariant
            i <= ls.len(),
            all == ls.deep_view(),
            all == lines(text@),
            mem_scan(all.take(i as int)) == (total as nat, avail as nat, free as nat, buffers as nat, cached as nat),
        decreases ls.len() - i,
    {
        let l = &ls[i];
        assert(l.deep_view() =~= l@);
        assert(all.take(i + 1).drop_last() =~= all.take(i as int));
        assert(all.take(i + 1).last() == l@);
        match position_of(l.as_slice(), ':') {
            None => {},
            Some(k) => {
                let key = sub_chars(l.as_slice(), 0, k);
                let value = sub_chars(l.as_slice(), k + 1, l.len());
                assert(value@ =~= l@.skip(k + 1));
                let kb = value_kb(value.as_slice());
                let ks = string_of(key.as_slice());
                if str_eq(ks.as_str(), "MemTotal") {
                    total = kb;
                } else if str_eq(ks.as_str(), "MemAvailable") {
                    avail = kb;
                } else if str_eq(ks.as_str(), "MemFree") {
                    free = kb;
                } else if str_eq(ks.as_str(), "Buffers") {
                    buffers = kb;
                } else if str_eq(ks.as_str(), "Cached") {
                    cached = kb;
                }
            },
        }
        i = i + 1;
    }
    assert(all.take(ls.len() as int) =~= all);
    if avail == 0 {
        avail = free + buffers + cached;
    }
    if total > 0 {
        Some(MemInfo { total_kb: total, avail_kb: avail })
    } else {
        None
    }
}

} // verus!
