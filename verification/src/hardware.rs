//! Hardware facts from the text that Linux offers: `os-release`,
//! `/proc/cpuinfo`, `/proc/meminfo`, `lspci`, and the report that
//! gathers them.
use vstd::prelude::*;

use crate::monitor::{first_field, matching_entries, matching_indices, meminfo_field_of, string_views};
use crate::pattern::{compile, regex_compiles, regex_replace, replace, InvalidPattern};
use crate::text::{
    all_digits, chars_of, contains, contains_spec, decimal, equals, lines, lines_spec,
    push_chars, push_decimal, push_str, split_once, split_once_spec, starts_with,
    starts_with_spec, string_of, strip_prefix, strip_prefix_spec, trim, trim_by, trim_class,
    trim_spec, views, CharClass, lowercase, to_lowercase, push_decimal2, is_ws,
    lemma_contains_occurrence, lemma_find_skip, lemma_no_occurrence, lemma_trim_keeps_prefix,
    lemma_trim_of_trimmed,
};

verus! {

// ---------------------------------------------------------------------------
// os-release
// ---------------------------------------------------------------------------

/// A value of `os-release` without surrounding double quotes, then single
/// quotes.
pub open spec fn unquote(v: Seq<char>) -> Seq<char> {
    trim_by(trim_by(v, CharClass::Exactly('"')), CharClass::Exactly('\''))
}

/// The assignment on one line of `os-release`: none for a blank line, a
/// comment, or a line without `=`; else the key before the first `=` and
/// the unquoted rest.
pub open spec fn os_release_entry(line: Seq<char>) -> Option<(Seq<char>, Seq<char>)> {
    let t = trim_spec(line);
    if t.len() == 0 || starts_with_spec(t, seq!['#']) {
        None
    } else {
        match split_once_spec(t, seq!['=']) {
            Some((k, v)) => Some((k, unquote(v))),
            None => None,
        }
    }
}

/// The assignments of `os-release` lines: a later one for a key replaces
/// an earlier one.
pub open spec fn os_release_map(lines: Seq<Seq<char>>) -> Map<Seq<char>, Seq<char>>
    decreases lines.len(),
{
    if lines.len() == 0 {
        Map::empty()
    } else {
        let m = os_release_map(lines.drop_last());
        match os_release_entry(lines.last()) {
            Some((k, v)) => m.insert(k, v),
            None => m,
        }
    }
}

/// The map that a list of assignments makes, a later one for a key
/// replacing an earlier one.
pub open spec fn pairs_map(pairs: Seq<(Seq<char>, Seq<char>)>) -> Map<Seq<char>, Seq<char>>
    decreases pairs.len(),
{
    if pairs.len() == 0 {
        Map::empty()
    } else {
        pairs_map(pairs.drop_last()).insert(pairs.last().0, pairs.last().1)
    }
}

pub open spec fn pair_views(pairs: Seq<(String, String)>) -> Seq<(Seq<char>, Seq<char>)> {
    pairs.map_values(|p: (String, String)| (p.0@, p.1@))
}

/// The settings of an `os-release` file.
pub struct OsRelease {
    entries: Vec<(String, String)>,
}

impl View for OsRelease {
    type V = Map<Seq<char>, Seq<char>>;

    closed spec fn view(&self) -> Map<Seq<char>, Seq<char>> {
        pairs_map(pair_views(self.entries@))
    }
}

/// The value for `key`, if there is one.
pub open spec fn lookup(m: Map<Seq<char>, Seq<char>>, key: Seq<char>) -> Option<Seq<char>> {
    if m.contains_key(key) {
        Some(m[key])
    } else {
        None
    }
}

/// What a view of an optional string is.
pub open spec fn opt_view(o: Option<String>) -> Option<Seq<char>> {
    match o {
        Some(s) => Some(s@),
        None => None,
    }
}

fn entry_of_line(line: &[char]) -> (r: Option<(String, String)>)
    ensures
        match r {
            Some((k, v)) => os_release_entry(line@) == Some((k@, v@)),
            None => os_release_entry(line@) is None,
        },
{
    let t = trim(line);
    let hash = ['#'];
    if t.len() == 0 || starts_with(t, &hash) {
        assert(hash@ =~= seq!['#']);
        return None;
    }
    assert(hash@ =~= seq!['#']);
    let eq = ['='];
    assert(eq@ =~= seq!['=']);
    match split_once(t, &eq) {
        Some((k, v)) => {
            let v1 = trim_class(v, CharClass::Exactly('"'));
            let v2 = trim_class(v1, CharClass::Exactly('\''));
            Some((string_of(k), string_of(v2)))
        },
        None => None,
    }
}

impl OsRelease {
    /// Parses the text of an `os-release` file.
    pub fn parse(content: &str) -> (r: OsRelease)
        ensures
            r@ == os_release_map(lines_spec(content@)),
    {
        let ls = lines(content);
        let n = ls.len();
        let ghost lv = views(ls@);
        let mut entries: Vec<(String, String)> = Vec::new();
        let mut i: usize = 0;
        assert(lv.take(0) =~= Seq::<Seq<char>>::empty());
        while i < n
            invariant
                n == ls@.len(),
                lv == views(ls@),
                i <= n,
                pairs_map(pair_views(entries@)) == os_release_map(lv.take(i as int)),
            decreases n - i,
        {
            proof {
                assert(lv.take(i + 1).drop_last() =~= lv.take(i as int));
                assert(lv.take(i + 1).last() == ls@[i as int]@);
            }
            match entry_of_line(ls[i].as_slice()) {
                Some(e) => {
                    let ghost before = entries@;
                    entries.push(e);
                    assert(pair_views(entries@).drop_last() =~= pair_views(before));
                },
                None => {},
            }
            i = i + 1;
        }
        assert(lv.take(n as int) =~= lv);
        OsRelease { entries }
    }

    /// The value set for `key`, if any.
    pub fn get(&self, key: &str) -> (r: Option<String>)
        ensures
            opt_view(r) == lookup(self@, key@),
    {
        let n = self.entries.len();
        let ghost pv = pair_views(self.entries@);
        let k = chars_of(key);
        let mut i: usize = n;
        assert(pv.take(n as int) =~= pv);
        while i > 0
            invariant
                n == self.entries@.len(),
                pv == pair_views(self.entries@),
                k@ == key@,
                i <= n,
                lookup(pairs_map(pv), key@) == lookup(pairs_map(pv.take(i as int)), key@),
            decreases i,
        {
            let e = &self.entries[i - 1];
            let ek = chars_of(e.0.as_str());
            proof {
                assert(pv.take(i as int).drop_last() =~= pv.take(i - 1));
                assert(pv.take(i as int).last() == (e.0@, e.1@));
            }
            if equals(ek.as_slice(), k.as_slice()) {
                return Some(e.1.clone());
            }
            i = i - 1;
        }
        None
    }

    /// The operating system's name (`PRETTY_NAME`, else `Linux`) and version
    /// (`VERSION_ID`, else empty).
    pub fn os_info(&self) -> (r: (String, String))
        ensures
            r.0@ == match lookup(self@, "PRETTY_NAME"@) {
                Some(v) => v,
                None => "Linux"@,
            },
            r.1@ == match lookup(self@, "VERSION_ID"@) {
                Some(v) => v,
                None => Seq::<char>::empty(),
            },
    {
        let name = match self.get("PRETTY_NAME") {
            Some(v) => v,
            None => String::from_str("Linux"),
        };
        let version = match self.get("VERSION_ID") {
            Some(v) => v,
            None => String::new(),
        };
        (name, version)
    }
}

/// Blank lines, comments and lines without `=` leave the settings as they
/// are; any other line sets its key, replacing an earlier value.
pub proof fn os_release_line_effect(lines: Seq<Seq<char>>, line: Seq<char>)
    ensures
        os_release_entry(line) is None ==> os_release_map(lines.push(line)) == os_release_map(lines),
        os_release_entry(line) matches Some((k, v)) ==> os_release_map(lines.push(line)).contains_key(k)
            && os_release_map(lines.push(line))[k] == v,
        trim_spec(line).len() == 0 || starts_with_spec(trim_spec(line), seq!['#'])
            ==> os_release_entry(line) is None,
{
    assert(lines.push(line).drop_last() =~= lines);
}

// ---------------------------------------------------------------------------
// /proc/cpuinfo
// ---------------------------------------------------------------------------

/// The model named on one `/proc/cpuinfo` line: a trimmed line that begins
/// with `model name` or `Processor` and holds a `:`, the trimmed rest after
/// it.
pub open spec fn model_of_line(line: Seq<char>) -> Option<Seq<char>> {
    let t = trim_spec(line);
    if starts_with_spec(t, "model name"@) || starts_with_spec(t, "Processor"@) {
        match split_once_spec(t, ":"@) {
            Some((_, val)) => Some(trim_spec(val)),
            None => None,
        }
    } else {
        None
    }
}

/// The first model named in `lines`, else `Unknown CPU`.
pub open spec fn cpu_model_spec(lines: Seq<Seq<char>>) -> Seq<char>
    decreases lines.len(),
{
    if lines.len() == 0 {
        "Unknown CPU"@
    } else {
        match model_of_line(lines[0]) {
            Some(m) => m,
            None => cpu_model_spec(lines.drop_first()),
        }
    }
}

/// The CPU model from the text of `/proc/cpuinfo`.
pub fn cpu_model(cpuinfo: &str) -> (r: String)
    ensures
        r@ == cpu_model_spec(lines_spec(cpuinfo@)),
{
    let ls = lines(cpuinfo);
    let n = ls.len();
    let ghost lv = views(ls@);
    let model_name = chars_of("model name");
    let processor = chars_of("Processor");
    let colon = chars_of(":");
    let mut i: usize = 0;
    assert(lv.skip(0) =~= lv);
    while i < n
        invariant
            n == ls@.len(),
            lv == views(ls@),
            model_name@ == "model name"@,
            processor@ == "Processor"@,
            colon@ == ":"@,
            lv == lines_spec(cpuinfo@),
            i <= n,
            cpu_model_spec(lv) == cpu_model_spec(lv.skip(i as int)),
        decreases n - i,
    {
        proof {
            assert(lv.skip(i as int).drop_first() =~= lv.skip(i + 1));
            assert(lv.skip(i as int)[0] == ls@[i as int]@);
            assert(lv.skip(i as int).len() > 0);
        }
        let t = trim(ls[i].as_slice());
        if starts_with(t, model_name.as_slice()) || starts_with(t, processor.as_slice()) {
            match split_once(t, colon.as_slice()) {
                Some((_, val)) => {
                    return string_of(trim(val));
                },
                None => {},
            }
        }
        i = i + 1;
    }
    String::from_str("Unknown CPU")
}

/// A line whose key is `model` (the model number, as x86 machines list it
/// before `model name`) names no model: what follows decides. A
/// `model name` line names exactly its value, whatever follows; so a
/// model number followed by a model name gives the model name.
pub proof fn model_name_not_model_number(n: Seq<char>, x: Seq<char>, rest: Seq<Seq<char>>)
    requires
        x.len() > 0,
        !is_ws(x[0]),
        !is_ws(x.last()),
    ensures
        cpu_model_spec(seq!["model\t\t: "@ + n] + rest) == cpu_model_spec(rest),
        cpu_model_spec(seq!["model name\t: "@ + x] + rest) == x,
        cpu_model_spec(seq!["model\t\t: "@ + n, "model name\t: "@ + x] + rest) == x,
{
    reveal_strlit("model\t\t: ");
    reveal_strlit("model name\t: ");
    reveal_strlit("model name");
    reveal_strlit("Processor");
    reveal_strlit(":");
    // The model number line.
    let l = "model\t\t: "@ + n;
    assert(l[0] == 'm' && l[5] == '\t' && l[7] == ':');
    lemma_trim_keeps_prefix(l, 8);
    let t = trim_spec(l);
    assert(t == l.take(t.len() as int));
    assert(l.take(t.len() as int)[0] == l[0]);
    assert(l.take(t.len() as int)[5] == l[5]);
    assert(t[0] == l[0] && t[5] == l[5]);
    assert(!starts_with_spec(t, "model name"@)) by {
        if starts_with_spec(t, "model name"@) {
            assert(t.take(10)[5] == t[5]);
        }
    }
    assert(!starts_with_spec(t, "Processor"@)) by {
        if starts_with_spec(t, "Processor"@) {
            assert(t.take(9)[0] == t[0]);
        }
    }
    assert(model_of_line(l) is None);
    let ls1 = seq![l] + rest;
    assert(ls1[0] == l);
    assert(ls1.drop_first() =~= rest);
    // The model name line.
    let m = "model name\t: "@ + x;
    assert(m[0] == 'm');
    assert(m.last() == x.last());
    lemma_trim_of_trimmed(m);
    lemma_trim_of_trimmed(x);
    assert(m.take(10) =~= "model name"@);
    assert(starts_with_spec(m, "model name"@));
    assert forall|j: int| 0 <= j < 11 implies !starts_with_spec(#[trigger] m.skip(j), ":"@) by {
        assert(m.skip(j).take(1)[0] == m[j]);
    }
    lemma_find_skip(m, ":"@, 11);
    assert(m.skip(11).take(1) =~= ":"@);
    assert(split_once_spec(m, ":"@) == Some((m.take(11), m.skip(12))));
    assert(m.skip(12) =~= seq![' '] + x);
    assert(model_of_line(m) == Some(x));
    let ls2 = seq![m] + rest;
    assert(ls2[0] == m);
    let ls3 = seq![l, m] + rest;
    assert(ls3[0] == l);
    assert(ls3.drop_first() =~= ls2);
    assert(cpu_model_spec(ls3) == cpu_model_spec(ls3.drop_first()));
    assert(cpu_model_spec(ls2) == x);
}

/// What the count of cores has gathered so far: the distinct
/// (physical id, core id) pairs, the processors, and the ids seen since
/// the last processor.
pub struct CoreTally {
    pub cores: Seq<(Seq<char>, Seq<char>)>,
    pub logical: nat,
    pub phys_id: Seq<char>,
    pub core_id: Seq<char>,
}

/// The value after `key` and a `:` on a trimmed line.
pub open spec fn id_after(t: Seq<char>, key: Seq<char>) -> Option<Option<Seq<char>>> {
    match strip_prefix_spec(t, key) {
        Some(val) => match split_once_spec(val, ":"@) {
            Some((_, id)) => Some(Some(trim_spec(id))),
            None => Some(None),
        },
        None => None,
    }
}

/// One line of `/proc/cpuinfo` added to the tally.
pub open spec fn tally_step(st: CoreTally, line: Seq<char>) -> CoreTally {
    let t = trim_spec(line);
    if let Some(found) = id_after(t, "physical id"@) {
        match found {
            Some(id) => CoreTally { phys_id: id, ..st },
            None => st,
        }
    } else if let Some(found) = id_after(t, "core id"@) {
        match found {
            Some(id) => CoreTally { core_id: id, ..st },
            None => st,
        }
    } else if starts_with_spec(t, "processor"@) {
        let pair = (st.phys_id, st.core_id);
        CoreTally {
            cores: if st.phys_id.len() > 0 && st.core_id.len() > 0 && !st.cores.contains(pair) {
                st.cores.push(pair)
            } else {
                st.cores
            },
            logical: st.logical + 1,
            phys_id: Seq::empty(),
            core_id: Seq::empty(),
        }
    } else {
        st
    }
}

/// The tally of all of `lines`.
pub open spec fn tally(lines: Seq<Seq<char>>) -> CoreTally
    decreases lines.len(),
{
    if lines.len() == 0 {
        CoreTally { cores: Seq::empty(), logical: 0, phys_id: Seq::empty(), core_id: Seq::empty() }
    } else {
        tally_step(tally(lines.drop_last()), lines.last())
    }
}

/// `(physical, logical)` cores from `/proc/cpuinfo`: logical counts the
/// `processor` lines; physical counts the distinct (physical id, core id)
/// pairs that were set before a `processor` line, or the logical count
/// where there are none; each at least one.
pub open spec fn cpu_counts_spec(cpuinfo: Seq<char>) -> (nat, nat) {
    let t = tally(lines_spec(cpuinfo));
    let physical = if t.cores.len() == 0 {
        t.logical
    } else {
        t.cores.len()
    };
    (if physical >= 1 {
        physical
    } else {
        1
    }, if t.logical >= 1 {
        t.logical
    } else {
        1
    })
}

pub open spec fn pair_seq_views(v: Seq<(Vec<char>, Vec<char>)>) -> Seq<(Seq<char>, Seq<char>)> {
    v.map_values(|p: (Vec<char>, Vec<char>)| (p.0@, p.1@))
}

fn contains_pair(cores: &Vec<(Vec<char>, Vec<char>)>, a: &[char], b: &[char]) -> (r: bool)
    ensures
        r == pair_seq_views(cores@).contains((a@, b@)),
{
    let n = cores.len();
    let mut i: usize = 0;
    while i < n
        invariant
            n == cores@.len(),
            i <= n,
            forall|j: int| 0 <= j < i ==> pair_seq_views(cores@)[j] != (a@, b@),
        decreases n - i,
    {
        if equals(cores[i].0.as_slice(), a) && equals(cores[i].1.as_slice(), b) {
            assert(pair_seq_views(cores@)[i as int] == (a@, b@));
            return true;
        }
        i = i + 1;
    }
    false
}

fn id_after_exec(t: &[char], key: &[char]) -> (r: Option<Option<Vec<char>>>)
    ensures
        match r {
            Some(Some(id)) => id_after(t@, key@) == Some(Some(id@)),
            Some(None) => id_after(t@, key@) == Some(None::<Seq<char>>),
            None => id_after(t@, key@) is None,
        },
{
    let colon = chars_of(":");
    match strip_prefix(t, key) {
        Some(val) => match split_once(val, colon.as_slice()) {
            Some((_, id)) => {
                let tr = trim(id);
                let mut v: Vec<char> = Vec::new();
                let mut k: usize = 0;
                while k < tr.len()
                    invariant
                        k <= tr@.len(),
                        v@ == tr@.take(k as int),
                    decreases tr@.len() - k,
                {
                    v.push(tr[k]);
                    assert(tr@.take(k + 1) =~= tr@.take(k as int).push(tr@[k as int]));
                    k = k + 1;
                }
                assert(tr@.take(tr@.len() as int) =~= tr@);
                Some(Some(v))
            },
            None => Some(None),
        },
        None => None,
    }
}

proof fn lemma_tally_cores_within_logical(lines: Seq<Seq<char>>)
    ensures
        tally(lines).cores.len() <= tally(lines).logical,
    decreases lines.len(),
{
    if lines.len() > 0 {
        lemma_tally_cores_within_logical(lines.drop_last());
    }
}

/// There is at least one core and one thread, and never more cores than
/// threads.
pub proof fn core_counts_are_ordered(cpuinfo: Seq<char>)
    ensures
        1 <= cpu_counts_spec(cpuinfo).0 <= cpu_counts_spec(cpuinfo).1,
{
    lemma_tally_cores_within_logical(lines_spec(cpuinfo));
}

/// Each core is counted once: the (physical id, core id) pairs gathered
/// never repeat and are each complete, so a processor sharing its pair
/// with an earlier one (a hyper-thread sibling) adds a thread but no core,
/// and the physical count is the number of distinct pairs.
pub proof fn cores_counted_once(lines: Seq<Seq<char>>)
    ensures
        tally(lines).cores.no_duplicates(),
        forall|i: int|
            0 <= i < tally(lines).cores.len() ==> (#[trigger] tally(lines).cores[i]).0.len() > 0
                && tally(lines).cores[i].1.len() > 0,
    decreases lines.len(),
{
    if lines.len() > 0 {
        cores_counted_once(lines.drop_last());
    }
}

/// A `processor` line whose pending pair was already counted adds one
/// thread and leaves the cores as they are.
pub proof fn sibling_adds_thread_not_core(lines: Seq<Seq<char>>, line: Seq<char>)
    requires
        starts_with_spec(trim_spec(line), "processor"@),
        tally(lines).cores.contains((tally(lines).phys_id, tally(lines).core_id)),
    ensures
        tally(lines.push(line)).cores == tally(lines).cores,
        tally(lines.push(line)).logical == tally(lines).logical + 1,
{
    reveal_strlit("processor");
    reveal_strlit("physical id");
    reveal_strlit("core id");
    let t = trim_spec(line);
    assert(lines.push(line).drop_last() =~= lines);
    assert(t.take(9)[1] == t[1]);
    assert(strip_prefix_spec(t, "physical id"@) is None) by {
        if starts_with_spec(t, "physical id"@) {
            assert(t.take(11)[1] == t[1]);
        }
    }
    assert(strip_prefix_spec(t, "core id"@) is None) by {
        if starts_with_spec(t, "core id"@) {
            assert(t.take(7)[0] == t[0]);
            assert(t.take(9)[0] == t[0]);
        }
    }
}

/// `(physical, logical)` core counts from the text of `/proc/cpuinfo`.
pub fn cpu_counts(cpuinfo: &str) -> (r: (usize, usize))
    ensures
        r.0 as nat == cpu_counts_spec(cpuinfo@).0,
        r.1 as nat == cpu_counts_spec(cpuinfo@).1,
{
    let ls = lines(cpuinfo);
    let n = ls.len();
    let ghost lv = views(ls@);
    let phys_key = chars_of("physical id");
    let core_key = chars_of("core id");
    let proc_key = chars_of("processor");
    let mut cores: Vec<(Vec<char>, Vec<char>)> = Vec::new();
    let mut logical: usize = 0;
    let mut phys_id: Vec<char> = Vec::new();
    let mut core_id: Vec<char> = Vec::new();
    let mut i: usize = 0;
    assert(lv.take(0) =~= Seq::<Seq<char>>::empty());
    assert(pair_seq_views(cores@) =~= Seq::<(Seq<char>, Seq<char>)>::empty());
    assert(phys_id@ =~= Seq::<char>::empty());
    assert(core_id@ =~= Seq::<char>::empty());
    while i < n
        invariant
            n == ls@.len(),
            lv == views(ls@),
            phys_key@ == "physical id"@,
            core_key@ == "core id"@,
            proc_key@ == "processor"@,
            i <= n,
            logical <= i,
            tally(lv.take(i as int)) == (CoreTally {
                cores: pair_seq_views(cores@),
                logical: logical as nat,
                phys_id: phys_id@,
                core_id: core_id@,
            }),
        decreases n - i,
    {
        proof {
            assert(lv.take(i + 1).drop_last() =~= lv.take(i as int));
            assert(lv.take(i + 1).last() == ls@[i as int]@);
        }
        let t = trim(ls[i].as_slice());
        match id_after_exec(t, phys_key.as_slice()) {
            Some(found) => {
                match found {
                    Some(id) => {
                        phys_id = id;
                    },
                    None => {},
                }
            },
            None => {
                match id_after_exec(t, core_key.as_slice()) {
                    Some(found) => {
                        match found {
                            Some(id) => {
                                core_id = id;
                            },
                            None => {},
                        }
                    },
                    None => {
                        if starts_with(t, proc_key.as_slice()) {
                            logical = logical + 1;
                            if phys_id.len() > 0 && core_id.len() > 0 && !contains_pair(
                                &cores,
                                phys_id.as_slice(),
                                core_id.as_slice(),
                            ) {
                                let ghost before = cores@;
                                cores.push((phys_id, core_id));
                                assert(pair_seq_views(cores@) =~= pair_seq_views(before).push(
                                    (phys_id@, core_id@),
                                ));
                            }
                            phys_id = Vec::new();
                            core_id = Vec::new();
                        }
                    },
                }
            },
        }
        i = i + 1;
    }
    assert(lv.take(n as int) =~= lv);
    let physical = if cores.len() == 0 {
        logical
    } else {
        cores.len()
    };
    (if physical >= 1 {
        physical
    } else {
        1
    }, if logical >= 1 {
        logical
    } else {
        1
    })
}

// ---------------------------------------------------------------------------
// /proc/meminfo
// ---------------------------------------------------------------------------

/// Total memory is defined: the first `MemTotal:` value fits in 64 bits
/// as bytes.
pub open spec fn total_ram_defined(meminfo: Seq<char>) -> bool {
    first_field(lines_spec(meminfo), "MemTotal:"@) matches Some(kb) ==> kb * 1024 <= u64::MAX
}

/// Total memory in bytes: the first `MemTotal:` value in kibibytes times
/// 1024, or zero.
pub open spec fn total_ram_spec(meminfo: Seq<char>) -> u64 {
    match first_field(lines_spec(meminfo), "MemTotal:"@) {
        Some(kb) => (kb * 1024) as u64,
        None => 0,
    }
}

fn first_mem_total(meminfo: &str) -> (r: Option<u64>)
    ensures
        r == first_field(lines_spec(meminfo@), "MemTotal:"@),
{
    let ls = lines(meminfo);
    let n = ls.len();
    let ghost lv = views(ls@);
    let key = chars_of("MemTotal:");
    let mut i: usize = 0;
    assert(lv.skip(0) =~= lv);
    while i < n
        invariant
            n == ls@.len(),
            lv == views(ls@),
            key@ == "MemTotal:"@,
            lv == lines_spec(meminfo@),
            i <= n,
            first_field(lv, key@) == first_field(lv.skip(i as int), key@),
        decreases n - i,
    {
        proof {
            assert(lv.skip(i as int).drop_first() =~= lv.skip(i + 1));
            assert(lv.skip(i as int)[0] == ls@[i as int]@);
            assert(lv.skip(i as int).len() > 0);
        }
        match meminfo_field_of(ls[i].as_slice(), key.as_slice()) {
            Some(kb) => {
                return Some(kb);
            },
            None => {},
        }
        i = i + 1;
    }
    None
}

/// Whether `total_ram` is defined on `meminfo` (see `total_ram_defined`).
pub fn total_ram_is_defined(meminfo: &str) -> (r: bool)
    ensures
        r == total_ram_defined(meminfo@),
{
    match first_mem_total(meminfo) {
        Some(kb) => kb <= u64::MAX / 1024,
        None => true,
    }
}

/// Total memory in bytes from the text of `/proc/meminfo`.
pub fn total_ram(meminfo: &str) -> (r: u64)
    requires
        total_ram_defined(meminfo@),
    ensures
        r == total_ram_spec(meminfo@),
{
    match first_mem_total(meminfo) {
        Some(kb) => kb * 1024,
        None => 0,
    }
}

// ---------------------------------------------------------------------------
// /sys/devices/system/cpu
// ---------------------------------------------------------------------------

/// A directory `cpu` followed by one or more decimal digits.
pub open spec fn is_cpu_dir_name_spec(name: Seq<char>) -> bool {
    name.len() > 3 && starts_with_spec(name, "cpu"@) && all_digits(name.skip(3))
}

/// Whether a directory of `/sys/devices/system/cpu` is one CPU's.
pub fn is_cpu_dir_name(name: &str) -> (r: bool)
    ensures
        r == is_cpu_dir_name_spec(name@),
{
    let v = chars_of(name);
    let cpu = chars_of("cpu");
    if v.len() <= 3 || !starts_with(v.as_slice(), cpu.as_slice()) {
        return false;
    }
    let mut i: usize = 3;
    while i < v.len()
        invariant
            3 <= i <= v@.len(),
            v@ == name@,
            starts_with_spec(v@, "cpu"@),
            forall|j: int| 3 <= j < i ==> #[trigger] crate::text::is_digit(v@[j]),
        decreases v@.len() - i,
    {
        let u = v[i] as u32;
        if u < 0x30 || u > 0x39 {
            assert(v@.skip(3)[i - 3] == v@[i as int]);
            assert(!crate::text::is_digit(v@[i as int]));
            return false;
        }
        i = i + 1;
    }
    assert forall|j: int| 0 <= j < v@.skip(3).len() implies crate::text::is_digit(
        #[trigger] v@.skip(3)[j],
    ) by {
        assert(v@.skip(3)[j] == v@[j + 3]);
    }
    true
}

// ---------------------------------------------------------------------------
// Graphics cards
// ---------------------------------------------------------------------------

/// A graphics card: its name, its vendor, and whether it is built into
/// the processor.
#[derive(Debug, Clone)]
pub struct GpuInfo {
    pub name: String,
    pub vendor: String,
    pub is_integrated: bool,
}

/// The plain contents of a `GpuInfo`.
pub open spec fn gpu_view(g: GpuInfo) -> (Seq<char>, Seq<char>, bool) {
    (g.name@, g.vendor@, g.is_integrated)
}

pub open spec fn gpu_views(gs: Seq<GpuInfo>) -> Seq<(Seq<char>, Seq<char>, bool)> {
    gs.map_values(|g: GpuInfo| gpu_view(g))
}

/// The directories of `/sys/class/drm` that are cards.
pub open spec fn card_pattern() -> Seq<char> {
    "^card\\d+$"@
}

/// Which of the entries of `/sys/class/drm` are cards (`None` where the
/// pattern does not compile).
pub fn card_entries(names: &Vec<String>) -> (r: Option<Vec<usize>>)
    ensures
        r is None <==> !regex_compiles(card_pattern()),
        r matches Some(idx) ==> idx@ == matching_indices(string_views(names@), card_pattern()),
{
    matching_entries("^card\\d+$", names)
}

/// The vendor named by a PCI vendor id: NVIDIA, AMD and Intel by name,
/// any other by its id.
pub open spec fn vendor_label_spec(vendor_id: Seq<char>) -> Seq<char> {
    if vendor_id == "0x10de"@ {
        "NVIDIA"@
    } else if vendor_id == "0x1002"@ {
        "AMD"@
    } else if vendor_id == "0x8086"@ {
        "Intel"@
    } else {
        vendor_id
    }
}

/// The vendor named by a PCI vendor id.
pub fn vendor_label(vendor_id: &str) -> (r: String)
    ensures
        r@ == vendor_label_spec(vendor_id@),
{
    let v = chars_of(vendor_id);
    let nvidia = chars_of("0x10de");
    let amd = chars_of("0x1002");
    let intel = chars_of("0x8086");
    if equals(v.as_slice(), nvidia.as_slice()) {
        String::from_str("NVIDIA")
    } else if equals(v.as_slice(), amd.as_slice()) {
        String::from_str("AMD")
    } else if equals(v.as_slice(), intel.as_slice()) {
        String::from_str("Intel")
    } else {
        String::from_str(vendor_id)
    }
}

/// What identifies a card among those already listed:
/// `vendor:device`.
pub open spec fn card_key(vendor_id: Seq<char>, device_id: Seq<char>) -> Seq<char> {
    vendor_id + ":"@ + device_id
}

/// The entry for a card with this vendor id, named by `lspci` where it
/// gave a name, else `<vendor> GPU`; it is integrated where the vendor is
/// Intel (`0x8086`).
pub open spec fn drm_gpu(vendor_id: Seq<char>, pci_name: Option<Seq<char>>) -> (
    Seq<char>,
    Seq<char>,
    bool,
) {
    (
        match pci_name {
            Some(n) => n,
            None => vendor_label_spec(vendor_id) + " GPU"@,
        },
        vendor_label_spec(vendor_id),
        vendor_id == "0x8086"@,
    )
}

/// A card found under `/sys/class/drm` is integrated exactly when its
/// vendor id is Intel's, `0x8086`: NVIDIA (`0x10de`) and AMD (`0x1002`)
/// cards never are. Such a card bears its vendor's name, and is named by
/// `lspci` where it gave a name. A card listed from plain `lspci` output is
/// integrated exactly when its vendor is Intel.
pub proof fn integrated_only_intel(vendor_id: Seq<char>, pci_name: Option<Seq<char>>, line: Seq<char>)
    ensures
        drm_gpu(vendor_id, pci_name).2 <==> vendor_id == "0x8086"@,
        vendor_id == "0x10de"@ || vendor_id == "0x1002"@ ==> !drm_gpu(vendor_id, pci_name).2,
        vendor_id == "0x10de"@ ==> drm_gpu(vendor_id, pci_name).1 == "NVIDIA"@,
        vendor_id == "0x1002"@ ==> drm_gpu(vendor_id, pci_name).1 == "AMD"@,
        vendor_id == "0x8086"@ ==> drm_gpu(vendor_id, pci_name).1 == "Intel"@,
        pci_name matches Some(n) ==> drm_gpu(vendor_id, pci_name).0 == n,
        lspci_gpu(line) matches Some(g) ==> (g.2 <==> g.1 == "Intel"@),
{
    reveal_strlit("0x8086");
    reveal_strlit("0x10de");
    reveal_strlit("0x1002");
    assert("0x10de"@[2] != "0x8086"@[2]);
    assert("0x1002"@[2] != "0x8086"@[2]);
    assert("0x1002"@[5] != "0x10de"@[5]);
}

/// The cards found so far under `/sys/class/drm`, and the
/// `vendor:device` keys already taken.
pub struct GpuScan {
    gpus: Vec<GpuInfo>,
    seen: Vec<String>,
}

impl GpuScan {
    /// The cards listed so far, in order.
    pub closed spec fn listed(self) -> Seq<(Seq<char>, Seq<char>, bool)> {
        gpu_views(self.gpus@)
    }

    /// The keys taken so far, in order.
    pub closed spec fn keys(self) -> Seq<Seq<char>> {
        string_views(self.seen@)
    }

    /// A scan that has found nothing yet.
    pub fn new() -> (r: Self)
        ensures
            r.listed() == Seq::<(Seq<char>, Seq<char>, bool)>::empty(),
            r.keys() == Seq::<Seq<char>>::empty(),
    {
        let r = GpuScan { gpus: Vec::new(), seen: Vec::new() };
        assert(r.listed() =~= Seq::<(Seq<char>, Seq<char>, bool)>::empty());
        assert(r.keys() =~= Seq::<Seq<char>>::empty());
        r
    }

    /// Takes the key of a card with these ids: `true` where it was not
    /// taken before (the card is new), `false` for a card already seen.
    pub fn claim_key(&mut self, vendor_id: &str, device_id: &str) -> (fresh: bool)
        ensures
            fresh == !old(self).keys().contains(card_key(vendor_id@, device_id@)),
            final(self).keys() == if fresh {
                old(self).keys().push(card_key(vendor_id@, device_id@))
            } else {
                old(self).keys()
            },
            final(self).listed() == old(self).listed(),
    {
        let mut key = String::new();
        push_str(&mut key, vendor_id);
        push_str(&mut key, ":");
        push_str(&mut key, device_id);
        assert(key@ =~= card_key(vendor_id@, device_id@));
        let n = self.seen.len();
        let mut i: usize = 0;
        while i < n
            invariant
                n == self.seen@.len(),
                key@ == card_key(vendor_id@, device_id@),
                i <= n,
                forall|j: int| 0 <= j < i ==> self.keys()[j] != key@,
            decreases n - i,
        {
            if self.seen[i] == key {
                assert(self.keys()[i as int] == key@);
                return false;
            }
            i = i + 1;
        }
        let ghost before = self.seen@;
        self.seen.push(key);
        assert(string_views(self.seen@) =~= string_views(before).push(key@));
        true
    }

    /// Lists a card with this vendor id and the name `lspci` gave it, if
    /// any.
    pub fn add(&mut self, vendor_id: &str, pci_name: Option<String>)
        ensures
            final(self).listed() == old(self).listed().push(drm_gpu(vendor_id@, opt_view(pci_name))),
            final(self).keys() == old(self).keys(),
    {
        let vendor = vendor_label(vendor_id);
        let v = chars_of(vendor_id);
        let intel = chars_of("0x8086");
        let is_integrated = equals(v.as_slice(), intel.as_slice());
        let name = match pci_name {
            Some(n) => n,
            None => {
                let mut n = String::from_str(vendor.as_str());
                push_str(&mut n, " GPU");
                n
            },
        };
        let ghost before = self.gpus@;
        self.gpus.push(GpuInfo { name, vendor, is_integrated });
        assert(gpu_views(self.gpus@) =~= gpu_views(before).push(
            drm_gpu(vendor_id@, opt_view(pci_name)),
        ));
    }

    /// The cards listed, in order.
    pub fn into_gpus(self) -> (r: Vec<GpuInfo>)
        ensures
            gpu_views(r@) == self.listed(),
    {
        self.gpus
    }

    /// Whether the scan found no card, so that the plain output of `lspci`
    /// is to be asked for instead.
    pub fn wants_lspci(&self) -> (r: bool)
        ensures
            r == (self.listed().len() == 0),
    {
        self.gpus.len() == 0
    }

    /// The cards found: those listed where there are any; otherwise those
    /// that `lspci_output` (the plain output of `lspci`, where it ran and
    /// succeeded) lists; otherwise none.
    pub fn finish(self, lspci_output: Option<&str>) -> (r: Vec<GpuInfo>)
        ensures
            gpu_views(r@) == if self.listed().len() > 0 {
                self.listed()
            } else {
                match lspci_output {
                    Some(out) => lspci_gpus(lines_spec(out@)),
                    None => Seq::empty(),
                }
            },
    {
        if self.gpus.len() > 0 {
            return self.gpus;
        }
        match lspci_output {
            Some(out) => gpus_from_lspci(out),
            None => self.gpus,
        }
    }
}

/// Taking keys keeps them distinct: a card whose key is taken is never
/// taken again, so no two listed cards share a `vendor:device` key.
pub proof fn claimed_keys_stay_distinct(keys: Seq<Seq<char>>, key: Seq<char>)
    requires
        keys.no_duplicates(),
    ensures
        (if keys.contains(key) {
            keys
        } else {
            keys.push(key)
        }).no_duplicates(),
{
    if !keys.contains(key) {
        assert forall|i: int, j: int|
            0 <= i < keys.push(key).len() && 0 <= j < keys.push(key).len() && i != j implies keys.push(
            key,
        )[i] != keys.push(key)[j] by {
            if i == keys.len() as int {
                assert(keys[j] != key);
            } else if j == keys.len() as int {
                assert(keys[i] != key);
            }
        }
    }
}

/// The trailing revision that `lspci` adds to device names.
pub open spec fn revision_pattern() -> Seq<char> {
    "\\s*\\(rev\\s+[0-9a-fA-F]+\\)\\s*$"@
}

/// The device name on one line of `lspci` output: the trimmed text after
/// the first `": "`.
pub open spec fn lspci_line_name(line: Seq<char>) -> Option<Seq<char>> {
    match split_once_spec(line, ": "@) {
        Some((_, rest)) => Some(trim_spec(rest)),
        None => None,
    }
}

/// The device name on the first line of `lines` that has one.
pub open spec fn first_lspci_name(lines: Seq<Seq<char>>) -> Option<Seq<char>>
    decreases lines.len(),
{
    if lines.len() == 0 {
        None
    } else {
        match lspci_line_name(lines[0]) {
            Some(n) => Some(n),
            None => first_lspci_name(lines.drop_first()),
        }
    }
}

/// The device name in the output of `lspci -d vendor:device`: the name on
/// the first line that has one, without its trailing revision; `None`
/// where no line has one; an error where the revision pattern does not
/// compile.
pub fn pci_name_from_lspci(stdout: &str) -> (r: Result<Option<String>, InvalidPattern>)
    ensures
        match first_lspci_name(lines_spec(stdout@)) {
            None => r matches Ok(None),
            Some(n) => if regex_compiles(revision_pattern()) {
                r matches Ok(Some(s)) && s@ == regex_replace(revision_pattern(), n, ""@)
            } else {
                r is Err
            },
        },
{
    let ls = lines(stdout);
    let n = ls.len();
    let ghost lv = views(ls@);
    let sep = chars_of(": ");
    let mut i: usize = 0;
    assert(lv.skip(0) =~= lv);
    while i < n
        invariant
            n == ls@.len(),
            lv == views(ls@),
            lv == lines_spec(stdout@),
            sep@ == ": "@,
            i <= n,
            first_lspci_name(lv) == first_lspci_name(lv.skip(i as int)),
        decreases n - i,
    {
        proof {
            assert(lv.skip(i as int).drop_first() =~= lv.skip(i + 1));
            assert(lv.skip(i as int)[0] == ls@[i as int]@);
            assert(lv.skip(i as int).len() > 0);
        }
        match split_once(ls[i].as_slice(), sep.as_slice()) {
            Some((_, rest)) => {
                let name = string_of(trim(rest));
                let re = match compile("\\s*\\(rev\\s+[0-9a-fA-F]+\\)\\s*$") {
                    Some(re) => re,
                    None => return Err(InvalidPattern),
                };
                let cleaned = replace(&re, name.as_str(), "");
                return Ok(Some(cleaned));
            },
            None => {},
        }
        i = i + 1;
    }
    Ok(None)
}

/// The vendor whose lowercase name occurs in a lowercase device name:
/// NVIDIA, AMD or Intel, in that order of preference, else none (empty).
pub open spec fn vendor_in(lower_name: Seq<char>) -> Seq<char> {
    if contains_spec(lower_name, lowercase("NVIDIA"@)) {
        "NVIDIA"@
    } else if contains_spec(lower_name, lowercase("AMD"@)) {
        "AMD"@
    } else if contains_spec(lower_name, lowercase("Intel"@)) {
        "Intel"@
    } else {
        Seq::empty()
    }
}

/// Whether a lowercase `lspci` line describes a display controller: it
/// mentions `vga`, `3d` or `display`.
pub open spec fn is_display_line(lower: Seq<char>) -> bool {
    contains_spec(lower, "vga"@) || contains_spec(lower, "3d"@) || contains_spec(lower, "display"@)
}

/// The card described by one line of `lspci` output, if it describes a
/// display controller and has a `": "`: named by the trimmed text after
/// it, with the vendor that name mentions, integrated where that is Intel.
pub open spec fn lspci_gpu(line: Seq<char>) -> Option<(Seq<char>, Seq<char>, bool)> {
    if is_display_line(lowercase(line)) {
        match split_once_spec(line, ": "@) {
            Some((_, rest)) => {
                let name = trim_spec(rest);
                let vendor = vendor_in(lowercase(name));
                Some((name, vendor, vendor == "Intel"@))
            },
            None => None,
        }
    } else {
        None
    }
}

/// The cards described by `lines`, in order.
pub open spec fn lspci_gpus(lines: Seq<Seq<char>>) -> Seq<(Seq<char>, Seq<char>, bool)>
    decreases lines.len(),
{
    if lines.len() == 0 {
        Seq::empty()
    } else {
        let rest = lspci_gpus(lines.drop_last());
        match lspci_gpu(lines.last()) {
            Some(g) => rest.push(g),
            None => rest,
        }
    }
}

fn vendor_in_exec(lower_name: &[char]) -> (r: String)
    ensures
        r@ == vendor_in(lower_name@),
{
    let nv = to_lowercase("NVIDIA");
    let amd = to_lowercase("AMD");
    let intel = to_lowercase("Intel");
    let nvc = chars_of(nv.as_str());
    let amdc = chars_of(amd.as_str());
    let intelc = chars_of(intel.as_str());
    if contains(lower_name, nvc.as_slice()) {
        String::from_str("NVIDIA")
    } else if contains(lower_name, amdc.as_slice()) {
        String::from_str("AMD")
    } else if contains(lower_name, intelc.as_slice()) {
        String::from_str("Intel")
    } else {
        String::new()
    }
}

fn lspci_gpu_exec(line: &[char]) -> (r: Option<GpuInfo>)
    ensures
        match r {
            Some(g) => lspci_gpu(line@) == Some(gpu_view(g)),
            None => lspci_gpu(line@) is None,
        },
{
    let line_str = string_of(line);
    let lower = to_lowercase(line_str.as_str());
    let lc = chars_of(lower.as_str());
    let vga = chars_of("vga");
    let d3 = chars_of("3d");
    let display = chars_of("display");
    if !(contains(lc.as_slice(), vga.as_slice()) || contains(lc.as_slice(), d3.as_slice())
        || contains(lc.as_slice(), display.as_slice())) {
        return None;
    }
    let sep = chars_of(": ");
    match split_once(line, sep.as_slice()) {
        Some((_, rest)) => {
            let name = string_of(trim(rest));
            let lname = to_lowercase(name.as_str());
            let lnc = chars_of(lname.as_str());
            let vendor = vendor_in_exec(lnc.as_slice());
            let vc = chars_of(vendor.as_str());
            let intel = chars_of("Intel");
            let is_integrated = equals(vc.as_slice(), intel.as_slice());
            Some(GpuInfo { name, vendor, is_integrated })
        },
        None => None,
    }
}

/// The cards that the output of a plain `lspci` lists (see `lspci_gpu`).
pub fn gpus_from_lspci(stdout: &str) -> (r: Vec<GpuInfo>)
    ensures
        gpu_views(r@) == lspci_gpus(lines_spec(stdout@)),
{
    let ls = lines(stdout);
    let n = ls.len();
    let ghost lv = views(ls@);
    let mut out: Vec<GpuInfo> = Vec::new();
    let mut i: usize = 0;
    assert(lv.take(0) =~= Seq::<Seq<char>>::empty());
    assert(gpu_views(out@) =~= Seq::<(Seq<char>, Seq<char>, bool)>::empty());
    while i < n
        invariant
            n == ls@.len(),
            lv == views(ls@),
            i <= n,
            gpu_views(out@) == lspci_gpus(lv.take(i as int)),
        decreases n - i,
    {
        proof {
            assert(lv.take(i + 1).drop_last() =~= lv.take(i as int));
            assert(lv.take(i + 1).last() == ls@[i as int]@);
        }
        match lspci_gpu_exec(ls[i].as_slice()) {
            Some(g) => {
                let ghost before = out@;
                out.push(g);
                assert(gpu_views(out@) =~= gpu_views(before).push(gpu_view(g)));
            },
            None => {},
        }
        i = i + 1;
    }
    assert(lv.take(n as int) =~= lv);
    out
}

// ---------------------------------------------------------------------------
// The specs report
// ---------------------------------------------------------------------------

/// What the machine is: system, processor, graphics and memory. (The
/// processor's top frequency, a floating-point figure, is kept beside it by
/// the application.)
#[derive(Debug, Clone)]
pub struct SystemSpecs {
    pub os_name: String,
    pub os_version: String,
    pub kernel: String,
    pub cpu_model: String,
    pub cpu_cores_physical: usize,
    pub cpu_cores_logical: usize,
    pub gpus: Vec<GpuInfo>,
    pub ram_total_bytes: u64,
}

/// The system as the report shows it: the name, followed by the version
/// where there is one that the name does not already contain.
pub open spec fn os_display(name: Seq<char>, version: Seq<char>) -> Seq<char> {
    if version.len() > 0 && !contains_spec(name, version) {
        name + " "@ + version
    } else {
        name
    }
}

/// The report line of card number `i`.
pub open spec fn gpu_line(i: nat, g: (Seq<char>, Seq<char>, bool)) -> Seq<char> {
    "GPU "@ + decimal(i) + ": "@ + g.0 + if g.2 {
        " (integrated)"@
    } else {
        Seq::empty()
    }
}

/// The report lines of the cards, each ended by a newline.
pub open spec fn gpu_block(gs: Seq<(Seq<char>, Seq<char>, bool)>) -> Seq<char>
    decreases gs.len(),
{
    if gs.len() == 0 {
        Seq::empty()
    } else {
        gpu_block(gs.drop_last()) + gpu_line((gs.len() - 1) as nat, gs.last()) + "\n"@
    }
}

/// The plain-text report of `s`, its lines joined by newlines: a title, a
/// blank line, the system, the kernel, the processor with its cores,
/// threads and top frequency `freq_ghz`, one line per card (or
/// `GPU: Unknown`), and the memory `ram_gb`.
pub open spec fn report_spec(s: SystemSpecs, freq_ghz: Seq<char>, ram_gb: Seq<char>) -> Seq<char> {
    "System Specs\n\nOS: "@ + os_display(s.os_name@, s.os_version@) + "\nKernel: "@ + s.kernel@
        + "\nCPU: "@ + s.cpu_model@ + " ("@ + decimal(s.cpu_cores_physical as nat) + "C/"@
        + decimal(s.cpu_cores_logical as nat) + "T @ "@ + freq_ghz + " GHz)\n"@ + (if s.gpus@.len()
        == 0 {
        "GPU: Unknown\n"@
    } else {
        gpu_block(gpu_views(s.gpus@))
    }) + "RAM: "@ + ram_gb + " GB"@
}

/// The version is shown once: where the name already holds it, the
/// system shows as the name alone, and the report's OS line is `OS: ` and
/// the name; a version that the name lacks follows it after a space; no
/// version, no addition.
pub proof fn os_version_shown_once(
    s: SystemSpecs,
    freq_ghz: Seq<char>,
    ram_gb: Seq<char>,
    a: Seq<char>,
    b: Seq<char>,
    name: Seq<char>,
    version: Seq<char>,
)
    ensures
        os_display(a + version + b, version) == a + version + b,
        version.len() > 0 && (forall|i: int|
            0 <= i <= name.len() - version.len() ==> #[trigger] name.subrange(i, i + version.len())
                != version) ==> os_display(name, version) == name + " "@ + version,
        os_display(name, Seq::empty()) == name,
        s.os_name@ == a + s.os_version@ + b ==> starts_with_spec(
            report_spec(s, freq_ghz, ram_gb),
            "System Specs\n\nOS: "@ + s.os_name@ + "\nKernel: "@ + s.kernel@,
        ),
{
    lemma_contains_occurrence(a, version, b);
    if version.len() > 0 && (forall|i: int|
        0 <= i <= name.len() - version.len() ==> #[trigger] name.subrange(i, i + version.len())
            != version) {
        lemma_no_occurrence(name, version);
    }
    if s.os_name@ == a + s.os_version@ + b {
        lemma_contains_occurrence(a, s.os_version@, b);
        let p = "System Specs\n\nOS: "@ + s.os_name@ + "\nKernel: "@ + s.kernel@;
        let r = report_spec(s, freq_ghz, ram_gb);
        assert(os_display(s.os_name@, s.os_version@) == s.os_name@);
        assert(r.take(p.len() as int) =~= p);
    }
}

impl SystemSpecs {
    /// The plain-text report of these specs, with the top frequency in GHz
    /// and the memory in GB already written out by the caller.
    pub fn to_plain_text(&self, freq_ghz: &str, ram_gb: &str) -> (r: String)
        ensures
            r@ == report_spec(*self, freq_ghz@, ram_gb@),
    {
        let mut out = String::new();
        push_str(&mut out, "System Specs\n\nOS: ");
        let name = chars_of(self.os_name.as_str());
        let version = chars_of(self.os_version.as_str());
        if version.len() > 0 && !contains(name.as_slice(), version.as_slice()) {
            push_str(&mut out, self.os_name.as_str());
            push_str(&mut out, " ");
            push_str(&mut out, self.os_version.as_str());
        } else {
            push_str(&mut out, self.os_name.as_str());
        }
        push_str(&mut out, "\nKernel: ");
        push_str(&mut out, self.kernel.as_str());
        push_str(&mut out, "\nCPU: ");
        push_str(&mut out, self.cpu_model.as_str());
        push_str(&mut out, " (");
        push_decimal(&mut out, self.cpu_cores_physical as u64);
        push_str(&mut out, "C/");
        push_decimal(&mut out, self.cpu_cores_logical as u64);
        push_str(&mut out, "T @ ");
        push_str(&mut out, freq_ghz);
        push_str(&mut out, " GHz)\n");
        let ghost head = out@;
        assert(head =~= "System Specs\n\nOS: "@ + os_display(self.os_name@, self.os_version@)
            + "\nKernel: "@ + self.kernel@ + "\nCPU: "@ + self.cpu_model@ + " ("@ + decimal(
            self.cpu_cores_physical as nat,
        ) + "C/"@ + decimal(self.cpu_cores_logical as nat) + "T @ "@ + freq_ghz@ + " GHz)\n"@);
        let n = self.gpus.len();
        if n == 0 {
            push_str(&mut out, "GPU: Unknown\n");
        } else {
            let ghost gs = gpu_views(self.gpus@);
            let mut i: usize = 0;
            assert(gs.take(0) =~= Seq::<(Seq<char>, Seq<char>, bool)>::empty());
            assert(out@ =~= head + gpu_block(gs.take(0)));
            while i < n
                invariant
                    n == self.gpus@.len(),
                    gs == gpu_views(self.gpus@),
                    i <= n,
                    out@ == head + gpu_block(gs.take(i as int)),
                decreases n - i,
            {
                let g = &self.gpus[i];
                let ghost before = out@;
                push_str(&mut out, "GPU ");
                push_decimal(&mut out, i as u64);
                push_str(&mut out, ": ");
                push_str(&mut out, g.name.as_str());
                if g.is_integrated {
                    push_str(&mut out, " (integrated)");
                }
                push_str(&mut out, "\n");
                proof {
                    assert(gs.take(i + 1).drop_last() =~= gs.take(i as int));
                    assert(gs.take(i + 1).last() == gpu_view(*g));
                    if g.is_integrated {
                        assert(out@ =~= before + gpu_line(i as nat, gpu_view(*g)) + "\n"@);
                    } else {
                        assert(out@ =~= before + gpu_line(i as nat, gpu_view(*g)) + "\n"@);
                    }
                    assert(out@ =~= head + gpu_block(gs.take(i + 1)));
                }
                i = i + 1;
            }
            assert(gs.take(n as int) =~= gs);
        }
        let ghost mid = out@;
        push_str(&mut out, "RAM: ");
        push_str(&mut out, ram_gb);
        push_str(&mut out, " GB");
        assert(out@ =~= mid + "RAM: "@ + ram_gb@ + " GB"@);
        out
    }
}

/// The cores row of the specs view: `<physical> cores, <logical> threads`.
pub open spec fn cores_text_spec(physical: nat, logical: nat) -> Seq<char> {
    decimal(physical) + " cores, "@ + decimal(logical) + " threads"@
}

/// The cores row of the specs view.
pub fn cores_text(physical: usize, logical: usize) -> (r: String)
    ensures
        r@ == cores_text_spec(physical as nat, logical as nat),
{
    let mut out = String::new();
    push_decimal(&mut out, physical as u64);
    push_str(&mut out, " cores, ");
    push_decimal(&mut out, logical as u64);
    push_str(&mut out, " threads");
    assert(out@ =~= cores_text_spec(physical as nat, logical as nat));
    out
}

/// The subtitle of a card in the specs view: its vendor, where known, and
/// `Integrated` for a built-in card, joined by ` · `.
pub open spec fn gpu_subtitle_spec(vendor: Seq<char>, integrated: bool) -> Seq<char> {
    if vendor.len() > 0 && integrated {
        vendor + " · Integrated"@
    } else if vendor.len() > 0 {
        vendor
    } else if integrated {
        "Integrated"@
    } else {
        Seq::empty()
    }
}

/// The subtitle of a card in the specs view.
pub fn gpu_subtitle(gpu: &GpuInfo) -> (r: String)
    ensures
        r@ == gpu_subtitle_spec(gpu.vendor@, gpu.is_integrated),
{
    let mut out = String::new();
    let has_vendor = chars_of(gpu.vendor.as_str()).len() > 0;
    if has_vendor {
        push_str(&mut out, gpu.vendor.as_str());
        if gpu.is_integrated {
            push_str(&mut out, " · Integrated");
        }
    } else if gpu.is_integrated {
        push_str(&mut out, "Integrated");
    }
    assert(out@ =~= gpu_subtitle_spec(gpu.vendor@, gpu.is_integrated));
    out
}

} // verus!
