//! The rules of the stress-test view: its durations and temperature
//! limits, the clock on its button, and the notices it sends.
use vstd::prelude::*;

use crate::monitor::string_views;
use crate::stress::{model_begin_stop, model_finish, Elapsed, StressModel, StressState};
use crate::text::{chars_of, decimal, decimal2, equals, push_decimal, push_decimal2, push_str};

verus! {

/// The durations offered, in seconds (zero: until stopped).
pub open spec fn durations() -> Seq<u64> {
    seq![300, 600, 1800, 0]
}

/// The labels of the durations offered.
pub open spec fn duration_labels() -> Seq<Seq<char>> {
    seq!["5 minutes"@, "10 minutes"@, "30 minutes"@, "Until stopped"@]
}

/// The temperature limits offered, in degrees Celsius.
pub open spec fn temp_limits() -> Seq<u64> {
    seq![100, 95, 90]
}

/// Every offered duration agrees with its label: a timed choice lasts
/// sixty seconds for each minute its label names (its label is the
/// duration's whole minutes followed by ` minutes`), and the choice
/// `Until stopped` sets no limit.
pub proof fn durations_match_labels()
    ensures
        durations().len() == DURATION_COUNT,
        duration_labels().len() == DURATION_COUNT,
        forall|i: int|
            0 <= i < 3 ==> {
                &&& #[trigger] durations()[i] % 60 == 0
                &&& durations()[i] > 0
                &&& duration_labels()[i] == decimal((durations()[i] / 60) as nat) + " minutes"@
            },
        durations()[3] == 0,
        duration_labels()[3] == "Until stopped"@,
{
    reveal_strlit("5 minutes");
    reveal_strlit("10 minutes");
    reveal_strlit("30 minutes");
    reveal_strlit(" minutes");
    reveal_strlit("Until stopped");
    assert(decimal(5) =~= seq!['5']);
    assert(decimal(1) =~= seq!['1']);
    assert(decimal(3) =~= seq!['3']);
    assert(decimal(0) =~= seq!['0']);
    assert(decimal(10) =~= seq!['1', '0']);
    assert(decimal(30) =~= seq!['3', '0']);
    assert(duration_labels()[0] =~= decimal(5) + " minutes"@);
    assert(duration_labels()[1] =~= decimal(10) + " minutes"@);
    assert(duration_labels()[2] =~= decimal(30) + " minutes"@);
}

/// How many durations are offered.
pub const DURATION_COUNT: usize = 4;

/// How many temperature limits are offered.
pub const TEMP_LIMIT_COUNT: usize = 3;

/// The duration offered at `index`, in seconds.
pub fn duration_at(index: usize) -> (r: u64)
    requires
        index < DURATION_COUNT,
    ensures
        r == durations()[index as int],
{
    if index == 0 {
        300
    } else if index == 1 {
        600
    } else if index == 2 {
        1800
    } else {
        0
    }
}

/// The label of the duration offered at `index`.
pub fn duration_label_at(index: usize) -> (r: String)
    requires
        index < DURATION_COUNT,
    ensures
        r@ == duration_labels()[index as int],
{
    if index == 0 {
        String::from_str("5 minutes")
    } else if index == 1 {
        String::from_str("10 minutes")
    } else if index == 2 {
        String::from_str("30 minutes")
    } else {
        String::from_str("Until stopped")
    }
}

/// The temperature limit offered at `index`, in degrees Celsius.
pub fn temp_limit_at(index: usize) -> (r: u64)
    requires
        index < TEMP_LIMIT_COUNT,
    ensures
        r == temp_limits()[index as int],
{
    if index == 0 {
        100
    } else if index == 1 {
        95
    } else {
        90
    }
}

/// The label of the temperature limit offered at `index`: `<degrees>C`.
pub fn temp_limit_label_at(index: usize) -> (r: String)
    requires
        index < TEMP_LIMIT_COUNT,
    ensures
        r@ == decimal(temp_limits()[index as int] as nat) + "C"@,
{
    let mut s = String::new();
    push_decimal(&mut s, temp_limit_at(index));
    push_str(&mut s, "C");
    s
}

/// Whole seconds as `mm:ss`, negative counted as zero; minutes are not
/// wrapped into hours.
pub open spec fn clock_spec(seconds: int) -> Seq<char> {
    let e: int = if seconds < 0 {
        0
    } else {
        seconds
    };
    decimal2((e / 60) as nat) + ":"@ + decimal2((e % 60) as nat)
}

/// Whole seconds as `mm:ss`.
pub fn format_elapsed(whole_seconds: i64) -> (r: String)
    ensures
        r@ == clock_spec(whole_seconds as int),
{
    let e: u64 = if whole_seconds < 0 {
        0
    } else {
        whole_seconds as u64
    };
    let mut s = String::new();
    push_decimal2(&mut s, e / 60);
    push_str(&mut s, ":");
    push_decimal2(&mut s, e % 60);
    s
}

/// The label of the button while a run goes on: `Stop Test  mm:ss`.
pub fn stop_button_label(whole_seconds: i64) -> (r: String)
    ensures
        r@ == "Stop Test  "@ + clock_spec(whole_seconds as int),
{
    let mut s = String::from_str("Stop Test  ");
    let clock = format_elapsed(whole_seconds);
    push_str(&mut s, clock.as_str());
    s
}

/// The notice for a run that ended while the view was not looking: by the
/// temperature limit, by completing, or otherwise.
pub open spec fn stop_notice_spec(cause: Option<Seq<char>>, clock: Seq<char>) -> Seq<char> {
    if cause == Some("overheat"@) {
        "Test stopped to prevent overheating (Elapsed: "@ + clock + ")"@
    } else if cause == Some("completed"@) {
        "Test completed successfully (Elapsed: "@ + clock + ")"@
    } else {
        "Test stopped (Elapsed: "@ + clock + ")"@
    }
}

/// The notice to send, if any, once a poll finds how the run stands: one
/// exactly when the run was going on before and no longer is.
pub fn stop_notice(was_running: bool, running_now: bool, cause: Option<&str>, clock: &str) -> (r:
    Option<String>)
    ensures
        was_running && !running_now ==> (r matches Some(s) && s@ == stop_notice_spec(
            match cause {
                Some(c) => Some(c@),
                None => None,
            },
            clock@,
        )),
        !(was_running && !running_now) ==> r is None,
{
    if !(was_running && !running_now) {
        return None;
    }
    let ghost cv = match cause {
        Some(c) => Some(c@),
        None => None::<Seq<char>>,
    };
    let overheat = chars_of("overheat");
    let completed = chars_of("completed");
    let (is_overheat, is_completed) = match cause {
        Some(c) => {
            let cc = chars_of(c);
            (equals(cc.as_slice(), overheat.as_slice()), equals(cc.as_slice(), completed.as_slice()))
        },
        None => (false, false),
    };
    let mut s = if is_overheat {
        String::from_str("Test stopped to prevent overheating (Elapsed: ")
    } else if is_completed {
        String::from_str("Test completed successfully (Elapsed: ")
    } else {
        String::from_str("Test stopped (Elapsed: ")
    };
    push_str(&mut s, clock);
    push_str(&mut s, ")");
    proof {
        if cv == Some("overheat"@) {
            assert(is_overheat);
        }
        if cv == Some("completed"@) {
            assert(is_completed);
        }
    }
    Some(s)
}

/// The notice for a run stopped from the button.
pub fn manual_stop_notice(clock: &str) -> (r: String)
    ensures
        r@ == "Test stopped manually (Elapsed: "@ + clock@ + ")"@,
{
    let mut s = String::from_str("Test stopped manually (Elapsed: ");
    push_str(&mut s, clock);
    push_str(&mut s, ")");
    s
}

/// What pressing the test button does.
#[derive(Debug, Clone, Copy, PartialEq, Eq, Structural)]
pub enum ButtonPress {
    /// Stop the test that runs, as a manual stop.
    StopManually,
    /// Start a test of this many seconds (zero: until stopped).
    Start { duration_seconds: u64 },
}

/// A press stops the test where one runs, and otherwise starts one of the
/// duration chosen at `duration_index`.
pub open spec fn button_press_spec(running: bool, duration_index: int) -> ButtonPress {
    if running {
        ButtonPress::StopManually
    } else {
        ButtonPress::Start { duration_seconds: durations()[duration_index] }
    }
}

/// What pressing the test button does (see `button_press_spec`); the
/// duration is looked up only where a test is to start.
pub fn button_press(running: bool, duration_index: usize) -> (r: ButtonPress)
    requires
        running || duration_index < DURATION_COUNT,
    ensures
        r == button_press_spec(running, duration_index as int),
{
    if running {
        ButtonPress::StopManually
    } else {
        ButtonPress::Start { duration_seconds: duration_at(duration_index) }
    }
}

/// What the view does once a press was carried out.
pub struct PressOutcome {
    /// Whether the view now counts a test as running.
    pub was_running: bool,
    /// Whether the button is to be redrawn.
    pub refresh: bool,
    /// The notice to send, if any.
    pub notice: Option<String>,
}

/// After a manual stop: no test counted as running, the button redrawn,
/// and the manual-stop notice with the clock sent. After a start that
/// worked: a test counted as running and the button redrawn. After a start
/// that failed: the count kept, the button left, and a notice that
/// `stress-ng` could not start.
pub open spec fn after_press_spec(
    press: ButtonPress,
    started: bool,
    was_running: bool,
    clock: Seq<char>,
) -> (bool, bool, Option<Seq<char>>) {
    match press {
        ButtonPress::StopManually => (
            false,
            true,
            Some("Test stopped manually (Elapsed: "@ + clock + ")"@),
        ),
        ButtonPress::Start { .. } => if started {
            (true, true, None)
        } else {
            (was_running, false, Some("Could not start stress-ng"@))
        },
    }
}

/// What the view does once `press` was carried out (see
/// `after_press_spec`); `started` tells whether a start worked and is not
/// read after a stop, `clock` is the elapsed time of a stopped test.
pub fn after_press(press: ButtonPress, started: bool, was_running: bool, clock: &str) -> (r:
    PressOutcome)
    ensures
        (r.was_running, r.refresh, match r.notice {
            Some(s) => Some(s@),
            None => None,
        }) == after_press_spec(press, started, was_running, clock@),
{
    match press {
        ButtonPress::StopManually => PressOutcome {
            was_running: false,
            refresh: true,
            notice: Some(manual_stop_notice(clock)),
        },
        ButtonPress::Start { .. } => {
            if started {
                PressOutcome { was_running: true, refresh: true, notice: None }
            } else {
                PressOutcome {
                    was_running,
                    refresh: false,
                    notice: Some(String::from_str("Could not start stress-ng")),
                }
            }
        },
    }
}

/// The settings schema directory to search: `dir`, followed by what was
/// already set where anything was.
pub open spec fn schema_dir_spec(dir: Seq<char>, existing: Seq<char>) -> Seq<char> {
    if existing.len() == 0 {
        dir
    } else {
        dir + ":"@ + existing
    }
}

/// The value of `GSETTINGS_SCHEMA_DIR` with `dir` put first.
pub fn schema_dir_value(dir: &str, existing: &str) -> (r: String)
    ensures
        r@ == schema_dir_spec(dir@, existing@),
{
    let mut s = String::from_str(dir);
    if chars_of(existing).len() > 0 {
        push_str(&mut s, ":");
        push_str(&mut s, existing);
    }
    s
}

/// The icon a gauge shows: with an icon theme to ask (`available` gives,
/// for each candidate, whether the theme has it), the first candidate the
/// theme has; otherwise the last candidate, or a generic icon where there
/// are none.
pub open spec fn pick_icon_spec(candidates: Seq<Seq<char>>, available: Option<Seq<bool>>) -> Seq<
    char,
> {
    let fallback = if candidates.len() > 0 {
        candidates.last()
    } else {
        "dialog-information-symbolic"@
    };
    match available {
        Some(av) => match first_true(av, candidates.len() as int) {
            Some(i) => candidates[i],
            None => fallback,
        },
        None => fallback,
    }
}

/// The first index below `n` at which `av` holds `true`.
pub open spec fn first_true(av: Seq<bool>, n: int) -> Option<int>
    decreases n,
{
    if n <= 0 {
        None
    } else {
        match first_true(av, n - 1) {
            Some(i) => Some(i),
            None => if n - 1 < av.len() && av[n - 1] {
                Some(n - 1)
            } else {
                None
            },
        }
    }
}

proof fn lemma_first_true(av: Seq<bool>, n: int)
    requires
        n >= 0,
    ensures
        match first_true(av, n) {
            Some(k) => 0 <= k < n && k < av.len() && av[k] && forall|j: int|
                0 <= j < k && j < av.len() ==> !av[j],
            None => forall|j: int| 0 <= j < n && j < av.len() ==> !av[j],
        },
    decreases n,
{
    if n > 0 {
        lemma_first_true(av, n - 1);
    }
}

/// Picks the icon of a gauge (see `pick_icon_spec`).
pub fn pick_icon_name(candidates: &Vec<String>, available: Option<Vec<bool>>) -> (r: String)
    ensures
        r@ == pick_icon_spec(
            string_views(candidates@),
            match available {
                Some(v) => Some(v@),
                None => None,
            },
        ),
{
    let n = candidates.len();
    let ghost cs = string_views(candidates@);
    let ghost avs = match &available {
        Some(v) => Some(v@),
        None => None,
    };
    if let Some(av) = &available {
        let mut i: usize = 0;
        while i < n
            invariant
                n == candidates@.len(),
                cs == string_views(candidates@),
                avs == Some(av@),
                avs == match available {
                    Some(v) => Some(v@),
                    None => None::<Seq<bool>>,
                },
                i <= n,
                forall|j: int| 0 <= j < i && j < av@.len() ==> !av@[j],
            decreases n - i,
        {
            if i < av.len() && av[i] {
                proof {
                    lemma_first_true(av@, n as int);
                    assert(cs[i as int] == candidates@[i as int]@);
                }
                return candidates[i].clone();
            }
            i = i + 1;
        }
        proof {
            lemma_first_true(av@, n as int);
        }
    }
    if n > 0 {
        candidates[n - 1].clone()
    } else {
        String::from_str("dialog-information-symbolic")
    }
}

/// The icon of a row in the specs view: where an icon theme could be
/// asked, the named icon if the theme has it, else a generic computer;
/// without a theme, the named icon.
pub open spec fn row_icon_spec(name: Seq<char>, theme_has: Option<bool>) -> Seq<char> {
    match theme_has {
        Some(false) => "computer-symbolic"@,
        _ => name,
    }
}

/// Picks the icon of a row in the specs view.
pub fn row_icon(name: &str, theme_has: Option<bool>) -> (r: String)
    ensures
        r@ == row_icon_spec(name@, theme_has),
{
    match theme_has {
        Some(false) => String::from_str("computer-symbolic"),
        _ => String::from_str(name),
    }
}

/// Whether a poll must stop the run for overheating: the run goes on, the
/// limit switch is on, and the temperature, in tenths of a degree, has
/// reached the limit chosen at `limit_index`.
pub open spec fn overheat_due_spec(
    running: bool,
    stop_at_limit: bool,
    temp_tenths: Option<i64>,
    limit_index: int,
) -> bool {
    running && stop_at_limit && match temp_tenths {
        Some(t) => t >= temp_limits()[limit_index] * 10,
        None => false,
    }
}

/// The limit is looked up only once the run goes on, the switch is on and
/// there is a temperature; then it must be one of those offered.
pub open spec fn overheat_check_defined(
    running: bool,
    stop_at_limit: bool,
    temp_tenths: Option<i64>,
    limit_index: int,
) -> bool {
    (running && stop_at_limit && temp_tenths is Some) ==> 0 <= limit_index < TEMP_LIMIT_COUNT
}

/// Whether a poll must stop the run for overheating (see
/// `overheat_due_spec`).
pub fn overheat_stop_due(
    running: bool,
    stop_at_limit: bool,
    temp_tenths: Option<i64>,
    limit_index: usize,
) -> (r: bool)
    requires
        overheat_check_defined(running, stop_at_limit, temp_tenths, limit_index as int),
    ensures
        r == overheat_due_spec(running, stop_at_limit, temp_tenths, limit_index as int),
{
    if !(running && stop_at_limit) {
        return false;
    }
    match temp_tenths {
        Some(t) => {
            let limit = temp_limit_at(limit_index);
            t >= (limit as i64) * 10
        },
        None => false,
    }
}

/// The safety cut-off: with the limit switch on, a running test whose
/// temperature reaches the chosen limit is stopped, the manager ends idle
/// with the cause `overheat`, and the notice sent says that the test was
/// stopped to prevent overheating.
pub proof fn overheat_stops_the_test(
    m: StressModel,
    temp_tenths: i64,
    limit_index: int,
    elapsed: Option<Elapsed>,
    clock: Seq<char>,
)
    requires
        m.state == StressState::Running,
        m.has_process,
        0 <= limit_index < TEMP_LIMIT_COUNT,
        temp_tenths >= temp_limits()[limit_index] * 10,
    ensures
        overheat_due_spec(true, true, Some(temp_tenths), limit_index),
        model_finish(model_begin_stop(m, "overheat"@, elapsed)).state == StressState::Idle,
        model_finish(model_begin_stop(m, "overheat"@, elapsed)).cause == Some("overheat"@),
        stop_notice_spec(model_finish(model_begin_stop(m, "overheat"@, elapsed)).cause, clock)
            == "Test stopped to prevent overheating (Elapsed: "@ + clock + ")"@,
{
}

/// Below the limit, or with the switch off, or while no test runs, the
/// cut-off never fires.
pub proof fn no_cutoff_below_limit(
    running: bool,
    stop_at_limit: bool,
    temp_tenths: Option<i64>,
    limit_index: int,
)
    requires
        !running || !stop_at_limit || temp_tenths is None || temp_tenths->0 < temp_limits()[limit_index] * 10,
    ensures
        !overheat_due_spec(running, stop_at_limit, temp_tenths, limit_index),
{
}

/// The clock shows the minutes and seconds it was given: for any
/// non-negative count, minutes times sixty plus seconds is the count, and
/// the seconds stay below sixty.
pub proof fn clock_splits_exactly(seconds: int)
    requires
        seconds >= 0,
    ensures
        (seconds / 60) * 60 + seconds % 60 == seconds,
        0 <= seconds % 60 < 60,
        clock_spec(seconds) == decimal2((seconds / 60) as nat) + ":"@ + decimal2(
            (seconds % 60) as nat,
        ),
{
}

} // verus!
