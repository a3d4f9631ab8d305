//! Live readings: CPU usage from `/proc/stat`, memory from
//! `/proc/meminfo`, the choice of a CPU temperature sensor, and bounded
//! histories of readings.
use vstd::prelude::*;
use std::collections::VecDeque;

use crate::pattern::{capture, compile, is_match, regex_capture, regex_compiles, regex_is_match};
use crate::text::{
    chars_of, equals, lines, parse_u64, parse_u64_spec, split_whitespace, starts_with,
    starts_with_spec, strip_prefix, strip_prefix_spec, trim, trim_spec, views, words, lines_spec,
    is_ws, lemma_words_concat, lemma_words_of_spaced, spaced,
    well_spaced,
};

verus! {

/// How many readings a history keeps.
pub const HISTORY_SIZE: usize = 300;

// ---------------------------------------------------------------------------
// /proc/stat
// ---------------------------------------------------------------------------

/// The numbers among `ws`, in order (each word that parses as a `u64`).
pub open spec fn parsed_values(ws: Seq<Seq<char>>) -> Seq<u64>
    decreases ws.len(),
{
    if ws.len() == 0 {
        Seq::empty()
    } else {
        let rest = parsed_values(ws.drop_last());
        match parse_u64_spec(ws.last()) {
            Some(v) => rest.push(v),
            None => rest,
        }
    }
}

/// The counters of a `/proc/stat` line: the numbers after its first word.
pub open spec fn stat_values(line: Seq<char>) -> Seq<u64> {
    if words(line).len() == 0 {
        Seq::empty()
    } else {
        parsed_values(words(line).skip(1))
    }
}

/// The line has the shape of the aggregate `cpu` line: at least five words,
/// the first `cpu`, and at least three numbers after it.
pub open spec fn stat_cpu_shape(line: Seq<char>) -> bool {
    let ws = words(line);
    &&& ws.len() >= 5
    &&& ws[0] == "cpu"@
    &&& stat_values(line).len() >= 3
}

/// The fifth counter (iowait), or zero when there are only four.
pub open spec fn stat_iowait(vals: Seq<u64>) -> int {
    if vals.len() > 4 {
        vals[4] as int
    } else {
        0
    }
}

/// user + nice + system + idle + iowait.
pub open spec fn stat_total(vals: Seq<u64>) -> int {
    vals[0] + vals[1] + vals[2] + vals[3] + stat_iowait(vals)
}

/// Parsing the line does not fail: a line of the right shape has a fourth
/// counter, and its first five counters add up within 64 bits.
pub open spec fn stat_cpu_defined(line: Seq<char>) -> bool {
    stat_cpu_shape(line) ==> {
        let vals = stat_values(line);
        vals.len() >= 4 && stat_total(vals) <= u64::MAX
    }
}

/// `(total, idle)` jiffies of an aggregate `cpu` line: total is
/// user + nice + system + idle + iowait, idle is idle + iowait; `None`
/// for a line of another shape.
pub open spec fn parse_stat_cpu_spec(line: Seq<char>) -> Option<(u64, u64)> {
    if stat_cpu_shape(line) {
        let vals = stat_values(line);
        Some((stat_total(vals) as u64, (vals[3] + stat_iowait(vals)) as u64))
    } else {
        None
    }
}

fn stat_words_and_values(line: &str) -> (r: (Vec<Vec<char>>, Vec<u64>))
    ensures
        views(r.0@) == words(line@),
        r.1@ == stat_values(line@),
{
    let v = chars_of(line);
    let ws = split_whitespace(v.as_slice());
    let mut vals: Vec<u64> = Vec::new();
    let n = ws.len();
    if n == 0 {
        return (ws, vals);
    }
    let ghost rest = views(ws@).skip(1);
    let mut i: usize = 1;
    assert(rest.take(0) =~= Seq::<Seq<char>>::empty());
    while i < n
        invariant
            n == ws@.len(),
            1 <= i <= n,
            rest == views(ws@).skip(1),
            vals@ == parsed_values(rest.take(i - 1)),
        decreases n - i,
    {
        assert(rest.take(i as int).drop_last() =~= rest.take(i - 1));
        assert(rest.take(i as int).last() == ws@[i as int]@);
        match parse_u64(ws[i].as_slice()) {
            Some(x) => vals.push(x),
            None => {},
        }
        i = i + 1;
    }
    assert(rest.take(n - 1) =~= rest);
    (ws, vals)
}

/// Whether `parse_stat_cpu` is defined on `line` (see `stat_cpu_defined`).
pub fn stat_cpu_line_is_defined(line: &str) -> (r: bool)
    ensures
        r == stat_cpu_defined(line@),
{
    let (ws, vals) = stat_words_and_values(line);
    let cpu = chars_of("cpu");
    if ws.len() < 5 || !equals(ws[0].as_slice(), cpu.as_slice()) || vals.len() < 3 {
        return true;
    }
    if vals.len() < 4 {
        return false;
    }
    let iowait: u64 = if vals.len() > 4 {
        vals[4]
    } else {
        0
    };
    (vals[0] as u128) + (vals[1] as u128) + (vals[2] as u128) + (vals[3] as u128) + (
    iowait as u128) <= (u64::MAX as u128)
}

/// Parses the aggregate `cpu` line of `/proc/stat` into `(total, idle)`
/// jiffies.
pub fn parse_stat_cpu(line: &str) -> (r: Option<(u64, u64)>)
    requires
        stat_cpu_defined(line@),
    ensures
        r == parse_stat_cpu_spec(line@),
{
    let (parts, vals) = stat_words_and_values(line);
    let cpu = chars_of("cpu");
    if parts.len() < 5 || !equals(parts[0].as_slice(), cpu.as_slice()) {
        return None;
    }
    if vals.len() < 3 {
        return None;
    }
    let user = vals[0];
    let nice = vals[1];
    let system = vals[2];
    let idle = vals[3];
    let iowait: u64 = if vals.len() > 4 {
        vals[4]
    } else {
        0
    };
    let total = user + nice + system + idle + iowait;
    let idle_total = idle + iowait;
    Some((total, idle_total))
}

/// What one reading of CPU usage comes to.
#[derive(Debug, Clone, Copy, PartialEq, Eq, Structural)]
pub enum CpuUsage {
    /// No usage figure yet, or nothing happened: reported as zero percent.
    Zero,
    /// `busy` of `total` jiffies were spent working since the last reading
    /// (the percentage is `busy / total * 100`).
    Ratio { busy: u64, total: u64 },
}

/// Reading `sample` after the previous totals does not fail: the idle
/// jiffies did not grow by more than the total ones.
pub open spec fn cpu_usage_defined(prev_total: u64, prev_idle: u64, sample: Option<(u64, u64)>) -> bool {
    match sample {
        Some((total, idle)) => prev_total != 0 ==> {
            let d_total = if total >= prev_total {
                total - prev_total
            } else {
                0
            };
            let d_idle = if idle >= prev_idle {
                idle - prev_idle
            } else {
                0
            };
            d_total != 0 ==> d_idle <= d_total
        },
        None => true,
    }
}

/// Whether `read_cpu_usage` is defined on these arguments (see
/// `cpu_usage_defined`).
pub fn cpu_usage_is_defined(prev_total: u64, prev_idle: u64, sample: Option<(u64, u64)>) -> (r:
    bool)
    ensures
        r == cpu_usage_defined(prev_total, prev_idle, sample),
{
    match sample {
        Some((total, idle)) => {
            if prev_total == 0 {
                return true;
            }
            let d_total = total.saturating_sub(prev_total);
            let d_idle = idle.saturating_sub(prev_idle);
            d_total == 0 || d_idle <= d_total
        },
        None => true,
    }
}

/// The usage a sample gives after the previous totals, and the totals to
/// keep: a missing sample gives zero and keeps them; the first sample
/// (while `prev_total` is zero) gives zero and is kept; a later sample gives
/// the share of the new jiffies that were not idle (zero where no jiffies
/// passed), counting counters that went back as no time.
pub open spec fn cpu_usage_step(prev_total: u64, prev_idle: u64, sample: Option<(u64, u64)>) -> (
    CpuUsage,
    u64,
    u64,
) {
    match sample {
        None => (CpuUsage::Zero, prev_total, prev_idle),
        Some((total, idle)) => {
            let d_total: int = if total >= prev_total {
                total - prev_total
            } else {
                0
            };
            let d_idle: int = if idle >= prev_idle {
                idle - prev_idle
            } else {
                0
            };
            if prev_total == 0 || d_total == 0 {
                (CpuUsage::Zero, total, idle)
            } else {
                (CpuUsage::Ratio { busy: (d_total - d_idle) as u64, total: d_total as u64 }, total, idle)
            }
        },
    }
}

/// Turns the `(total, idle)` jiffies of the current `/proc/stat` line into
/// CPU usage since the previous call, whose totals `prev_total` and
/// `prev_idle` hold (see `cpu_usage_step`).
pub fn read_cpu_usage(prev_total: &mut u64, prev_idle: &mut u64, sample: Option<(u64, u64)>) -> (r:
    CpuUsage)
    requires
        cpu_usage_defined(*old(prev_total), *old(prev_idle), sample),
    ensures
        (r, *final(prev_total), *final(prev_idle)) == cpu_usage_step(
            *old(prev_total),
            *old(prev_idle),
            sample,
        ),
{
    if let Some((total, idle)) = sample {
        if *prev_total == 0 {
            *prev_total = total;
            *prev_idle = idle;
            return CpuUsage::Zero;
        }
        let d_total = total.saturating_sub(*prev_total);
        let d_idle = idle.saturating_sub(*prev_idle);
        *prev_total = total;
        *prev_idle = idle;
        if d_total == 0 {
            return CpuUsage::Zero;
        }
        CpuUsage::Ratio { busy: d_total - d_idle, total: d_total }
    } else {
        CpuUsage::Zero
    }
}

/// The idle jiffies of a `cpu` line never exceed its total.
pub proof fn stat_idle_within_total(line: Seq<char>)
    requires
        stat_cpu_defined(line),
    ensures
        parse_stat_cpu_spec(line) matches Some((total, idle)) ==> idle <= total,
{
}

/// Two lines with the same words parse alike.
proof fn lemma_stat_by_words(a: Seq<char>, b: Seq<char>)
    requires
        words(a) == words(b),
    ensures
        parse_stat_cpu_spec(a) == parse_stat_cpu_spec(b),
        stat_cpu_defined(a) == stat_cpu_defined(b),
{
}

/// The numbers among two runs of words are those of each, in order.
proof fn lemma_parsed_values_concat(a: Seq<Seq<char>>, b: Seq<Seq<char>>)
    ensures
        parsed_values(a + b) == parsed_values(a) + parsed_values(b),
    decreases b.len(),
{
    if b.len() == 0 {
        assert(a + b =~= a);
        assert(parsed_values(a) + parsed_values(b) =~= parsed_values(a));
    } else {
        assert((a + b).drop_last() =~= a + b.drop_last());
        lemma_parsed_values_concat(a, b.drop_last());
        assert((a + b).last() == b.last());
        assert(parsed_values(a + b) =~= parsed_values(a) + parsed_values(b));
    }
}

/// How much whitespace separates the fields of a `/proc/stat` line, and
/// whether there is any before or after them, does not change what it
/// parses to, nor whether parsing it is defined.
pub proof fn stat_parse_ignores_spacing(
    fields: Seq<Seq<char>>,
    gaps1: Seq<Seq<char>>,
    gaps2: Seq<Seq<char>>,
)
    requires
        well_spaced(fields, gaps1),
        well_spaced(fields, gaps2),
    ensures
        parse_stat_cpu_spec(spaced(fields, gaps1)) == parse_stat_cpu_spec(spaced(fields, gaps2)),
        stat_cpu_defined(spaced(fields, gaps1)) == stat_cpu_defined(spaced(fields, gaps2)),
{
    lemma_words_of_spaced(fields, gaps1);
    lemma_words_of_spaced(fields, gaps2);
    lemma_stat_by_words(spaced(fields, gaps1), spaced(fields, gaps2));
}

/// A `cpu` line with at least five counters parses the same with any text
/// appended after a space: only its first five counters count.
pub proof fn stat_parse_ignores_trailing_text(line: Seq<char>, extra: Seq<char>)
    requires
        stat_cpu_shape(line),
        stat_values(line).len() >= 5,
    ensures
        parse_stat_cpu_spec(line + seq![' '] + extra) == parse_stat_cpu_spec(line),
        stat_cpu_defined(line + seq![' '] + extra) == stat_cpu_defined(line),
{
    let sp = seq![' '];
    let head = line + sp;
    assert(is_ws(' '));
    assert(head.drop_last() =~= line);
    assert(words(head) == words(line));
    lemma_words_concat(head, extra);
    let w1 = words(line);
    let w2 = words(head + extra);
    assert(w2 == w1 + words(extra));
    assert(w2.skip(1) =~= w1.skip(1) + words(extra));
    lemma_parsed_values_concat(w1.skip(1), words(extra));
    let v1 = stat_values(line);
    let v2 = stat_values(head + extra);
    assert(v2 == v1 + parsed_values(words(extra)));
    assert(v2[0] == v1[0] && v2[1] == v1[1] && v2[2] == v1[2] && v2[3] == v1[3] && v2[4] == v1[4]);
    assert(stat_iowait(v2) == stat_iowait(v1));
    assert(stat_cpu_shape(head + extra));
}

/// A usage figure is a true fraction: the busy jiffies are at most the
/// total, which is not zero, so the percentage lies between 0 and 100.
pub proof fn usage_is_a_fraction(prev_total: u64, prev_idle: u64, sample: Option<(u64, u64)>)
    requires
        cpu_usage_defined(prev_total, prev_idle, sample),
    ensures
        cpu_usage_step(prev_total, prev_idle, sample).0 matches CpuUsage::Ratio { busy, total } ==> 0
            < total && busy <= total,
{
}

/// After any sample, the totals kept are the sample's; without one they
/// stay. The next reading is thus measured from the last sample seen.
pub proof fn usage_remembers_last_sample(prev_total: u64, prev_idle: u64, sample: Option<(u64, u64)>)
    ensures
        sample matches Some((t, i)) ==> cpu_usage_step(prev_total, prev_idle, sample).1 == t
            && cpu_usage_step(prev_total, prev_idle, sample).2 == i,
        sample is None ==> cpu_usage_step(prev_total, prev_idle, sample) == (
            CpuUsage::Zero,
            prev_total,
            prev_idle,
        ),
{
}

// ---------------------------------------------------------------------------
// /proc/meminfo
// ---------------------------------------------------------------------------

/// The kibibytes of a `/proc/meminfo` line that begins with `key`: the
/// first word after the key, if it parses as a `u64`.
pub open spec fn meminfo_field(line: Seq<char>, key: Seq<char>) -> Option<u64> {
    match strip_prefix_spec(line, key) {
        Some(rest) => {
            let ws = words(rest);
            if ws.len() > 0 {
                parse_u64_spec(ws[0])
            } else {
                None
            }
        },
        None => None,
    }
}

/// The value of `key` on the last of `lines` that gives one.
pub open spec fn last_field(lines: Seq<Seq<char>>, key: Seq<char>) -> Option<u64>
    decreases lines.len(),
{
    if lines.len() == 0 {
        None
    } else {
        match meminfo_field(lines.last(), key) {
            Some(v) => Some(v),
            None => last_field(lines.drop_last(), key),
        }
    }
}

/// The value of `key` on the first of `lines` that gives one.
pub open spec fn first_field(lines: Seq<Seq<char>>, key: Seq<char>) -> Option<u64>
    decreases lines.len(),
{
    if lines.len() == 0 {
        None
    } else {
        match meminfo_field(lines[0], key) {
            Some(v) => Some(v),
            None => first_field(lines.drop_first(), key),
        }
    }
}

/// Every value of `key` in `lines`, taken as kibibytes, fits in 64 bits as
/// bytes.
pub open spec fn fields_fit(lines: Seq<Seq<char>>, key: Seq<char>) -> bool {
    forall|i: int|
        0 <= i < lines.len() ==> (#[trigger] meminfo_field(lines[i], key) matches Some(kb) ==> kb
            * 1024 <= u64::MAX)
}

/// Bytes for an optional number of kibibytes, zero for none.
pub open spec fn kib_bytes(kb: Option<u64>) -> u64 {
    match kb {
        Some(k) => (k * 1024) as u64,
        None => 0,
    }
}

/// `read_memory` is defined: all `MemTotal:` and `MemAvailable:` values
/// fit in 64 bits as bytes.
pub open spec fn memory_defined(meminfo: Seq<char>) -> bool {
    fields_fit(lines_spec(meminfo), "MemTotal:"@) && fields_fit(lines_spec(meminfo), "MemAvailable:"@)
}

/// `(used, total)` bytes of memory: total from the last `MemTotal:` line,
/// available from the last `MemAvailable:` line (zero where missing), used
/// is total minus available, or zero where available exceeds total.
pub open spec fn memory_spec(meminfo: Seq<char>) -> (u64, u64) {
    let total = kib_bytes(last_field(lines_spec(meminfo), "MemTotal:"@));
    let available = kib_bytes(last_field(lines_spec(meminfo), "MemAvailable:"@));
    (if total >= available {
        (total - available) as u64
    } else {
        0
    }, total)
}

/// The kibibytes on a `/proc/meminfo` line that begins with `key`.
pub fn meminfo_field_of(line: &[char], key: &[char]) -> (r: Option<u64>)
    ensures
        r == meminfo_field(line@, key@),
{
    match strip_prefix(line, key) {
        Some(rest) => {
            let ws = split_whitespace(rest);
            if ws.len() > 0 {
                parse_u64(ws[0].as_slice())
            } else {
                None
            }
        },
        None => None,
    }
}

/// The last value of `key` in `lines`, and whether all of them fit as
/// bytes.
fn scan_last_field(lines: &Vec<Vec<char>>, key: &[char]) -> (r: (Option<u64>, bool))
    ensures
        r.0 == last_field(views(lines@), key@),
        r.1 == fields_fit(views(lines@), key@),
{
    let n = lines.len();
    let mut last: Option<u64> = None;
    let mut fit = true;
    let mut i: usize = 0;
    let ghost ls = views(lines@);
    assert(ls.take(0) =~= Seq::<Seq<char>>::empty());
    while i < n
        invariant
            n == lines@.len(),
            ls == views(lines@),
            i <= n,
            last == last_field(ls.take(i as int), key@),
            fit == fields_fit(ls.take(i as int), key@),
        decreases n - i,
    {
        let f = meminfo_field_of(lines[i].as_slice(), key);
        proof {
            assert(ls.take(i + 1).drop_last() =~= ls.take(i as int));
            assert(ls.take(i + 1).last() == ls[i as int]);
        }
        match f {
            Some(kb) => {
                last = Some(kb);
                if kb > u64::MAX / 1024 {
                    fit = false;
                    assert(meminfo_field(ls.take(i + 1)[i as int], key@) == Some(kb));
                }
            },
            None => {},
        }
        proof {
            if fit {
                assert forall|j: int| 0 <= j < i + 1 implies (#[trigger] meminfo_field(
                    ls.take(i + 1)[j],
                    key@,
                ) matches Some(kb) ==> kb * 1024 <= u64::MAX) by {
                    if j < i {
                        assert(ls.take(i + 1)[j] == ls.take(i as int)[j]);
                    }
                }
            } else if f matches Some(kb) && kb > u64::MAX / 1024 {
                assert(meminfo_field(ls.take(i + 1)[i as int], key@) == f);
            } else {
                let j = choose|j: int|
                    0 <= j < i && !(#[trigger] meminfo_field(ls.take(i as int)[j], key@) matches Some(
                        kb,
                    ) ==> kb * 1024 <= u64::MAX);
                assert(ls.take(i + 1)[j] == ls.take(i as int)[j]);
            }
        }
        i = i + 1;
    }
    assert(ls.take(n as int) =~= ls);
    (last, fit)
}

/// Whether `read_memory` is defined on `meminfo` (see `memory_defined`).
pub fn read_memory_is_defined(meminfo: &str) -> (r: bool)
    ensures
        r == memory_defined(meminfo@),
{
    let ls = lines(meminfo);
    let total_key = chars_of("MemTotal:");
    let avail_key = chars_of("MemAvailable:");
    let (_, fit_total) = scan_last_field(&ls, total_key.as_slice());
    let (_, fit_avail) = scan_last_field(&ls, avail_key.as_slice());
    fit_total && fit_avail
}

/// `(used, total)` bytes of memory from the text of `/proc/meminfo`.
pub fn read_memory(meminfo: &str) -> (r: (u64, u64))
    requires
        memory_defined(meminfo@),
    ensures
        r == memory_spec(meminfo@),
{
    let ls = lines(meminfo);
    let total_key = chars_of("MemTotal:");
    let avail_key = chars_of("MemAvailable:");
    let (t, _) = scan_last_field(&ls, total_key.as_slice());
    let (a, _) = scan_last_field(&ls, avail_key.as_slice());
    proof {
        lemma_last_field_fits(views(ls@), "MemTotal:"@);
        lemma_last_field_fits(views(ls@), "MemAvailable:"@);
    }
    let total: u64 = match t {
        Some(kb) => kb * 1024,
        None => 0,
    };
    let available: u64 = match a {
        Some(kb) => kb * 1024,
        None => 0,
    };
    let used = total.saturating_sub(available);
    (used, total)
}

/// Memory in use never exceeds the total.
pub proof fn used_memory_within_total(meminfo: Seq<char>)
    ensures
        memory_spec(meminfo).0 <= memory_spec(meminfo).1,
{
}

proof fn lemma_last_field_fits(lines: Seq<Seq<char>>, key: Seq<char>)
    requires
        fields_fit(lines, key),
    ensures
        last_field(lines, key) matches Some(kb) ==> kb * 1024 <= u64::MAX,
    decreases lines.len(),
{
    if lines.len() > 0 {
        assert(meminfo_field(lines[lines.len() - 1], key) == meminfo_field(lines.last(), key));
        if meminfo_field(lines.last(), key) is None {
            assert forall|i: int| 0 <= i < lines.drop_last().len() implies (
            #[trigger] meminfo_field(lines.drop_last()[i], key) matches Some(kb) ==> kb * 1024
                <= u64::MAX) by {
                assert(lines.drop_last()[i] == lines[i]);
            }
            lemma_last_field_fits(lines.drop_last(), key);
        }
    }
}

// ---------------------------------------------------------------------------
// Temperature sensors
// ---------------------------------------------------------------------------

/// The indices `i` of `names`, in order, at which `pattern` matches.
pub open spec fn matching_indices(names: Seq<Seq<char>>, pattern: Seq<char>) -> Seq<usize>
    decreases names.len(),
{
    if names.len() == 0 {
        Seq::empty()
    } else {
        let rest = matching_indices(names.drop_last(), pattern);
        if regex_is_match(pattern, names.last()) {
            rest.push((names.len() - 1) as usize)
        } else {
            rest
        }
    }
}

/// The character sequences of a list of strings.
pub open spec fn string_views(v: Seq<String>) -> Seq<Seq<char>> {
    v.map_values(|s: String| s@)
}

/// Compiles `pattern` and gives the indices of `names` that it matches;
/// `None` where the pattern does not compile.
pub fn matching_entries(pattern: &str, names: &Vec<String>) -> (r: Option<Vec<usize>>)
    ensures
        r is None <==> !regex_compiles(pattern@),
        r matches Some(idx) ==> idx@ == matching_indices(string_views(names@), pattern@),
{
    let re = match compile(pattern) {
        Some(re) => re,
        None => return None,
    };
    let n = names.len();
    let mut out: Vec<usize> = Vec::new();
    let mut i: usize = 0;
    let ghost ns = string_views(names@);
    assert(ns.take(0) =~= Seq::<Seq<char>>::empty());
    while i < n
        invariant
            n == names@.len(),
            ns == string_views(names@),
            re@ == pattern@,
            i <= n,
            out@ == matching_indices(ns.take(i as int), pattern@),
        decreases n - i,
    {
        proof {
            assert(ns.take(i + 1).drop_last() =~= ns.take(i as int));
            assert(ns.take(i + 1).last() == names@[i as int]@);
        }
        if is_match(&re, names[i].as_str()) {
            out.push(i);
        }
        i = i + 1;
    }
    assert(ns.take(n as int) =~= ns);
    Some(out)
}

/// The directories under `/sys/class/thermal` that are thermal zones.
pub open spec fn thermal_zone_pattern() -> Seq<char> {
    "^thermal_zone\\d+$"@
}

/// The directories under `/sys/class/hwmon` that are sensor chips.
pub open spec fn hwmon_dir_pattern() -> Seq<char> {
    "^hwmon\\d+$"@
}

/// The temperature inputs of a sensor chip, with their number as group 1.
pub open spec fn temp_input_pattern() -> Seq<char> {
    "^temp(\\d+)_input$"@
}

/// Which of the entries of `/sys/class/thermal` are thermal zones
/// (`None` where the pattern does not compile).
pub fn thermal_zone_entries(names: &Vec<String>) -> (r: Option<Vec<usize>>)
    ensures
        r is None <==> !regex_compiles(thermal_zone_pattern()),
        r matches Some(idx) ==> idx@ == matching_indices(
            string_views(names@),
            thermal_zone_pattern(),
        ),
{
    matching_entries("^thermal_zone\\d+$", names)
}

/// Which of the entries of `/sys/class/hwmon` are sensor chips (`None`
/// where the pattern does not compile).
pub fn hwmon_dir_entries(names: &Vec<String>) -> (r: Option<Vec<usize>>)
    ensures
        r is None <==> !regex_compiles(hwmon_dir_pattern()),
        r matches Some(idx) ==> idx@ == matching_indices(string_views(names@), hwmon_dir_pattern()),
{
    matching_entries("^hwmon\\d+$", names)
}

/// The temperature inputs among the files of a sensor chip: the index of
/// each file whose name the input pattern captures, with the captured
/// number.
pub open spec fn temp_inputs_spec(names: Seq<Seq<char>>) -> Seq<(usize, Seq<char>)>
    decreases names.len(),
{
    if names.len() == 0 {
        Seq::empty()
    } else {
        let rest = temp_inputs_spec(names.drop_last());
        match regex_capture(temp_input_pattern(), names.last(), 1) {
            Some(num) => rest.push(((names.len() - 1) as usize, num)),
            None => rest,
        }
    }
}

/// The temperature inputs among the file names of a sensor chip, each with
/// its number (`None` where the pattern does not compile).
pub fn temp_input_files(names: &Vec<String>) -> (r: Option<Vec<(usize, String)>>)
    ensures
        r is None <==> !regex_compiles(temp_input_pattern()),
        r matches Some(v) ==> v@.map_values(|e: (usize, String)| (e.0, e.1@)) == temp_inputs_spec(
            string_views(names@),
        ),
{
    let re = match compile("^temp(\\d+)_input$") {
        Some(re) => re,
        None => return None,
    };
    let n = names.len();
    let mut out: Vec<(usize, String)> = Vec::new();
    let mut i: usize = 0;
    let ghost ns = string_views(names@);
    assert(ns.take(0) =~= Seq::<Seq<char>>::empty());
    while i < n
        invariant
            n == names@.len(),
            ns == string_views(names@),
            re@ == temp_input_pattern(),
            i <= n,
            out@.map_values(|e: (usize, String)| (e.0, e.1@)) =~= temp_inputs_spec(
                ns.take(i as int),
            ),
        decreases n - i,
    {
        proof {
            assert(ns.take(i + 1).drop_last() =~= ns.take(i as int));
            assert(ns.take(i + 1).last() == names@[i as int]@);
        }
        match capture(&re, names[i].as_str(), 1) {
            Some(num) => {
                out.push((i, num));
            },
            None => {},
        }
        i = i + 1;
    }
    assert(ns.take(n as int) =~= ns);
    Some(out)
}

/// The driver of a sensor chip (its `name` file) is one that reports the
/// CPU package: `k10temp` or `coretemp`, once trimmed.
pub open spec fn is_cpu_temp_driver_spec(name_file: Seq<char>) -> bool {
    let t = trim_spec(name_file);
    t == "k10temp"@ || t == "coretemp"@
}

/// Whether a sensor chip's `name` file names a CPU temperature driver.
pub fn is_cpu_temp_driver(name_file: &str) -> (r: bool)
    ensures
        r == is_cpu_temp_driver_spec(name_file@),
{
    let v = chars_of(name_file);
    let t = trim(v.as_slice());
    let k10 = chars_of("k10temp");
    let core = chars_of("coretemp");
    equals(t, k10.as_slice()) || equals(t, core.as_slice())
}

/// Which readings of the CPU sensors to report.
#[derive(Debug, PartialEq, Eq)]
pub enum TempChoice {
    /// There are no readings.
    Nothing,
    /// Report the reading at this index.
    Reading(usize),
    /// Report the mean of the readings at these indices.
    MeanOf(Vec<usize>),
}

/// Kinds of sensor labels that the choice looks for.
pub enum LabelKind {
    /// `Tdie` or `Package id 0`: the whole die or package.
    Die,
    /// `Tctl`: the control temperature.
    Control,
    /// Any non-empty label.
    Named,
}

pub open spec fn label_is(k: LabelKind, l: Seq<char>) -> bool {
    match k {
        LabelKind::Die => l == "Tdie"@ || l == "Package id 0"@,
        LabelKind::Control => l == "Tctl"@,
        LabelKind::Named => l.len() > 0,
    }
}

/// The first index of `labels` whose label is of kind `k`.
pub open spec fn first_label(labels: Seq<Seq<char>>, k: LabelKind) -> Option<usize>
    decreases labels.len(),
{
    if labels.len() == 0 {
        None
    } else {
        match first_label(labels.drop_last(), k) {
            Some(i) => Some(i),
            None => if label_is(k, labels.last()) {
                Some((labels.len() - 1) as usize)
            } else {
                None
            },
        }
    }
}

/// The indices of labels that begin with `Tccd` (the core complexes), in
/// order.
pub open spec fn ccd_indices(labels: Seq<Seq<char>>) -> Seq<usize>
    decreases labels.len(),
{
    if labels.len() == 0 {
        Seq::empty()
    } else {
        let rest = ccd_indices(labels.drop_last());
        if starts_with_spec(labels.last(), "Tccd"@) {
            rest.push((labels.len() - 1) as usize)
        } else {
            rest
        }
    }
}

/// `c` is the choice among readings with these labels: none without
/// readings; else the first `Tdie` or `Package id 0`; else the first
/// `Tctl`; else the mean of all `Tccd*`; else the first with any label;
/// else the first reading.
pub open spec fn is_temp_choice(c: TempChoice, labels: Seq<Seq<char>>) -> bool {
    if labels.len() == 0 {
        c == TempChoice::Nothing
    } else if let Some(i) = first_label(labels, LabelKind::Die) {
        c == TempChoice::Reading(i)
    } else if let Some(i) = first_label(labels, LabelKind::Control) {
        c == TempChoice::Reading(i)
    } else if ccd_indices(labels).len() > 0 {
        c matches TempChoice::MeanOf(v) && v@ == ccd_indices(labels)
    } else if let Some(i) = first_label(labels, LabelKind::Named) {
        c == TempChoice::Reading(i)
    } else {
        c == TempChoice::Reading(0)
    }
}

fn label_is_exec(k: &LabelKind, l: &[char]) -> (r: bool)
    ensures
        r == label_is(*k, l@),
{
    match k {
        LabelKind::Die => {
            let a = chars_of("Tdie");
            let b = chars_of("Package id 0");
            equals(l, a.as_slice()) || equals(l, b.as_slice())
        },
        LabelKind::Control => {
            let a = chars_of("Tctl");
            equals(l, a.as_slice())
        },
        LabelKind::Named => l.len() > 0,
    }
}

fn find_label(ls: &Vec<Vec<char>>, k: LabelKind) -> (r: Option<usize>)
    ensures
        r == first_label(views(ls@), k),
{
    let n = ls.len();
    let ghost vs = views(ls@);
    let mut i: usize = 0;
    assert(vs.take(0) =~= Seq::<Seq<char>>::empty());
    while i < n
        invariant
            n == ls@.len(),
            vs == views(ls@),
            i <= n,
            first_label(vs.take(i as int), k) is None,
        decreases n - i,
    {
        proof {
            assert(vs.take(i + 1).drop_last() =~= vs.take(i as int));
            assert(vs.take(i + 1).last() == ls@[i as int]@);
        }
        if label_is_exec(&k, ls[i].as_slice()) {
            proof {
                lemma_first_label_prefix(vs, k, i + 1);
            }
            return Some(i);
        }
        i = i + 1;
    }
    assert(vs.take(n as int) =~= vs);
    None
}

proof fn lemma_first_label_prefix(labels: Seq<Seq<char>>, k: LabelKind, j: int)
    requires
        0 <= j <= labels.len(),
        first_label(labels.take(j), k) is Some,
    ensures
        first_label(labels, k) == first_label(labels.take(j), k),
    decreases labels.len(),
{
    if j < labels.len() {
        assert(labels.drop_last().take(j) =~= labels.take(j));
        lemma_first_label_prefix(labels.drop_last(), k, j);
    } else {
        assert(labels.take(j) =~= labels);
    }
}

/// Chooses which of the CPU sensor readings, given by their labels, to
/// report (see `is_temp_choice`).
pub fn choose_cpu_temp(labels: &Vec<String>) -> (r: TempChoice)
    ensures
        is_temp_choice(r, string_views(labels@)),
{
    let n = labels.len();
    let mut ls: Vec<Vec<char>> = Vec::new();
    let mut i: usize = 0;
    while i < n
        invariant
            n == labels@.len(),
            i <= n,
            views(ls@) =~= string_views(labels@).take(i as int),
        decreases n - i,
    {
        let c = chars_of(labels[i].as_str());
        ls.push(c);
        assert(views(ls@) =~= string_views(labels@).take(i as int).push(labels@[i as int]@));
        assert(string_views(labels@).take(i + 1) =~= string_views(labels@).take(i as int).push(
            labels@[i as int]@,
        ));
        i = i + 1;
    }
    let ghost vs = string_views(labels@);
    assert(views(ls@) =~= vs);
    if n == 0 {
        return TempChoice::Nothing;
    }
    if let Some(j) = find_label(&ls, LabelKind::Die) {
        return TempChoice::Reading(j);
    }
    if let Some(j) = find_label(&ls, LabelKind::Control) {
        return TempChoice::Reading(j);
    }
    let tccd = chars_of("Tccd");
    let mut ccd: Vec<usize> = Vec::new();
    let mut k: usize = 0;
    assert(vs.take(0) =~= Seq::<Seq<char>>::empty());
    while k < n
        invariant
            n == ls@.len(),
            vs == views(ls@),
            tccd@ == "Tccd"@,
            k <= n,
            ccd@ == ccd_indices(vs.take(k as int)),
        decreases n - k,
    {
        proof {
            assert(vs.take(k + 1).drop_last() =~= vs.take(k as int));
            assert(vs.take(k + 1).last() == ls@[k as int]@);
        }
        if starts_with(ls[k].as_slice(), tccd.as_slice()) {
            ccd.push(k);
        }
        k = k + 1;
    }
    assert(vs.take(n as int) =~= vs);
    if ccd.len() > 0 {
        return TempChoice::MeanOf(ccd);
    }
    if let Some(j) = find_label(&ls, LabelKind::Named) {
        return TempChoice::Reading(j);
    }
    TempChoice::Reading(0)
}

// ---------------------------------------------------------------------------
// Histories
// ---------------------------------------------------------------------------

/// The readings of a history after one more: `x` at the back, and the
/// oldest dropped once there are more than `capacity`.
pub open spec fn history_push<T>(items: Seq<T>, capacity: nat, x: T) -> Seq<T> {
    if items.len() + 1 > capacity {
        items.push(x).drop_first()
    } else {
        items.push(x)
    }
}

/// The most recent readings, oldest first, at most `capacity` of them.
pub struct History<T> {
    items: VecDeque<T>,
    capacity: usize,
}

impl<T> History<T> {
    #[verifier::type_invariant]
    spec fn bounded(self) -> bool {
        self.items@.len() <= self.capacity
    }

    /// The readings, oldest first.
    pub closed spec fn items(self) -> Seq<T> {
        self.items@
    }

    /// How many readings the history keeps.
    pub closed spec fn capacity(self) -> nat {
        self.capacity as nat
    }

    /// An empty history that keeps at most `capacity` readings.
    pub fn new(capacity: usize) -> (h: Self)
        ensures
            h.items() == Seq::<T>::empty(),
            h.capacity() == capacity,
    {
        History { items: VecDeque::with_capacity(capacity), capacity }
    }

    /// Adds a reading, dropping the oldest when the history is over its
    /// capacity.
    pub fn push(&mut self, x: T)
        ensures
            final(self).capacity() == old(self).capacity(),
            final(self).items() == history_push(old(self).items(), old(self).capacity(), x),
    {
        proof {
            use_type_invariant(&*self);
        }
        let cap = self.capacity;
        let mut items = VecDeque::new();
        std::mem::swap(&mut items, &mut self.items);
        items.push_back(x);
        if items.len() > cap {
            items.pop_front();
        }
        self.items = items;
    }

    /// How many readings there are.
    pub fn len(&self) -> (n: usize)
        ensures
            n == self.items().len(),
            n <= self.capacity(),
    {
        proof {
            use_type_invariant(self);
        }
        self.items.len()
    }

    /// The `i`-th reading, oldest first.
    pub fn get(&self, i: usize) -> (r: &T)
        requires
            i < self.items().len(),
        ensures
            *r == self.items()[i as int],
    {
        &self.items[i]
    }

    /// The capacity the history was made with.
    pub fn capacity_of(&self) -> (c: usize)
        ensures
            c == self.capacity(),
    {
        self.capacity
    }
}

/// A history never holds more readings than its capacity.
pub proof fn history_stays_bounded<T>(items: Seq<T>, capacity: nat, x: T)
    requires
        items.len() <= capacity,
    ensures
        history_push(items, capacity, x).len() <= capacity,
        history_push(items, capacity, x).len() == if items.len() < capacity {
            items.len() + 1
        } else {
            capacity
        },
{
}

/// The newest reading is always last in the history, unless it keeps
/// nothing.
pub proof fn history_keeps_newest<T>(items: Seq<T>, capacity: nat, x: T)
    requires
        items.len() <= capacity,
        capacity > 0,
    ensures
        history_push(items, capacity, x).last() == x,
{
}

} // verus!
