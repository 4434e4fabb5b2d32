//! Job triggers: when a cron, interval or one-shot trigger fires next, the
//! bounded preview of a job's next fire times, the table of registered
//! triggers, and the timer that sleeps towards each fire time.  Times are
//! UTC instants in nanoseconds since the Unix epoch.  Cron expressions and
//! time-zone names are read by `croner` and `chrono-tz`.

use vstd::prelude::*;

use crate::instant::{
    instant_nanos, instant_of, instant_parts, lemma_instant_parts, split_instant, valid_instant, MAX_UTC_NANOS,
    MIN_UTC_NANOS,
};
use crate::text::{chars_of, str_eq};

verus! {

/// The longest interval, in whole seconds, that converts into a signed
/// time delta (`i64::MAX` milliseconds).
pub const MAX_DELTA_SECONDS: u64 = 9223372036854775;

/// One sleep of a timer lasts at most an hour (in nanoseconds), so that a
/// far-away one-shot still notices that it was unregistered.
pub const MAX_SLEEP_NANOS: u64 = 3600000000000;

/// A preview lists at most this many fire times.
pub const PREVIEW_COUNT_LIMIT: u16 = 100;

/// A preview looks at most five years (of 365 days) ahead.
pub const PREVIEW_HORIZON_NANOS: i128 = 157680000000000000;

/// When a job is started by the scheduler.
#[derive(Debug)]
pub enum ScheduleTrigger {
    /// A cron expression, read in the job's time zone.
    Cron(String),
    /// Every so many seconds.
    Interval(u64),
    /// Once, at this instant.
    OneShot(i128),
    /// After the named jobs complete; never timed here.
    DependsOn(Vec<String>),
}

/// A trigger as plain values.
pub enum TriggerView {
    Cron(Seq<char>),
    Interval(u64),
    OneShot(i128),
    DependsOn(Seq<Seq<char>>),
}

impl View for ScheduleTrigger {
    type V = TriggerView;

    open spec fn view(&self) -> TriggerView {
        match self {
            ScheduleTrigger::Cron(e) => TriggerView::Cron(e@),
            ScheduleTrigger::Interval(s) => TriggerView::Interval(*s),
            ScheduleTrigger::OneShot(at) => TriggerView::OneShot(*at),
            ScheduleTrigger::DependsOn(jobs) => TriggerView::DependsOn(
                jobs@.map_values(|j: String| j@),
            ),
        }
    }
}

fn clone_names(names: &Vec<String>) -> (r: Vec<String>)
    ensures
        r@.map_values(|j: String| j@) == names@.map_values(|j: String| j@),
{
    let mut r: Vec<String> = Vec::new();
    let mut i: usize = 0;
    while i < names.len()
        invariant
            i <= names.len(),
            r@.map_values(|j: String| j@) == names@.take(i as int).map_values(|j: String| j@),
        decreases names.len() - i,
    {
        let name = names[i].clone();
        let ghost before = r@;
        r.push(name);
        proof {
            assert(name@ == names@[i as int]@);
            assert(names@.take(i + 1) =~= names@.take(i as int).push(names@[i as int]));
            assert(r@ =~= before.push(name));
            assert(r@.map_values(|j: String| j@) =~= before.map_values(|j: String| j@).push(name@));
            assert(r@.map_values(|j: String| j@) =~= names@.take(i + 1).map_values(|j: String| j@));
        }
        i += 1;
    }
    proof {
        assert(names@.take(names@.len() as int) =~= names@);
    }
    r
}

impl Clone for ScheduleTrigger {
    fn clone(&self) -> (r: Self)
        ensures
            r@ == self@,
    {
        match self {
            ScheduleTrigger::Cron(e) => ScheduleTrigger::Cron(e.clone()),
            ScheduleTrigger::Interval(s) => ScheduleTrigger::Interval(*s),
            ScheduleTrigger::OneShot(at) => ScheduleTrigger::OneShot(*at),
            ScheduleTrigger::DependsOn(jobs) => ScheduleTrigger::DependsOn(clone_names(jobs)),
        }
    }
}

/// A trigger whose one-shot instant is one that a date-time can hold.
pub open spec fn trigger_wf(t: TriggerView) -> bool {
    t matches TriggerView::OneShot(at) ==> valid_instant(at as int)
}

/// Why the scheduler refused a request.
#[derive(Debug, PartialEq, Eq)]
pub enum SchedulerError {
    InvalidCron(String),
    InvalidTimezone(String),
    PreviewBounded(String),
}

/// What `croner` makes of a cron expression: nothing, or the text of its
/// error.
pub uninterp spec fn cron_parse(expr: Seq<char>) -> Result<(), Seq<char>>;

/// Whether `chrono-tz` knows a time-zone name.
pub uninterp spec fn known_timezone(name: Seq<char>) -> bool;

/// The first instant strictly after `after` (whole seconds and nanoseconds
/// past them) that a cron expression matches in a time zone, as `croner`
/// finds it, in the same form.
pub uninterp spec fn cron_next(expr: Seq<char>, seconds: i64, nanos: u32, timezone: Seq<char>) -> Option<(i64, u32)>;

/// `croner::Cron::parse` on `Cron::new(expr)`: the contract claims only
/// that the outcome, with the error's text, is `cron_parse(expr)`.
#[verifier::external_body]
fn parse_cron(expr: &str) -> (r: Result<(), String>)
    ensures
        cron_parse(expr@) == (match r {
            Ok(u) => Ok::<(), Seq<char>>(u),
            Err(m) => Err::<(), Seq<char>>(m@),
        }),
{
    match croner::Cron::new(expr).parse() {
        Ok(_) => Ok(()),
        Err(error) => Err(format!("{error}")),
    }
}

/// `<chrono_tz::Tz as FromStr>::from_str`: the contract claims only that
/// the name parses exactly when `known_timezone(name)`.
#[verifier::external_body]
fn timezone_exists(name: &str) -> (r: bool)
    ensures
        r == known_timezone(name@),
{
    name.parse::<chrono_tz::Tz>().is_ok()
}

/// `croner::Cron::find_next_occurrence` (not inclusive) on the expression
/// parsed by `croner`, from `after` seen in the time zone that `chrono-tz`
/// names.  The contract claims that the result is `cron_next(..)` of the
/// arguments, that an expression or zone that does not parse gives `None`,
/// that a found instant is one a date-time holds, and that in UTC it lies
/// after `after` (the search starts one second later and only moves
/// forward).  It does not say which instant the search finds, nor that it
/// lies after `after` in other zones: where a local time occurs twice the
/// search takes its earlier occurrence, which may precede `after`.
#[verifier::external_body]
fn find_next_cron(expr: &str, seconds: i64, nanos: u32, timezone: &str) -> (r: Option<(i64, u32)>)
    ensures
        r == cron_next(expr@, seconds, nanos, timezone@),
        cron_parse(expr@) is Err ==> r is None,
        !known_timezone(timezone@) ==> r is None,
        r matches Some((s, n)) ==> valid_instant(instant_nanos(s, n) as int),
        timezone@ == "UTC"@ ==> (r matches Some((s, n)) ==> instant_nanos(s, n) > instant_nanos(seconds, nanos)),
{
    let zone = timezone.parse::<chrono_tz::Tz>().ok()?;
    let cron = croner::Cron::new(expr).parse().ok()?;
    let start = chrono::DateTime::from_timestamp(seconds, nanos)?.with_timezone(&zone);
    cron.find_next_occurrence(&start, false).ok().map(|t| {
        let utc = t.with_timezone(&chrono::Utc);
        (utc.timestamp(), utc.timestamp_subsec_nanos())
    })
}

/// The next cron fire time after an instant, in nanoseconds.
pub open spec fn cron_next_instant(expr: Seq<char>, after: i128, timezone: Seq<char>) -> Option<int> {
    match instant_parts(after) {
        Some((s, n)) => match cron_next(expr, s, n, timezone) {
            Some((rs, rn)) => Some(instant_nanos(rs, rn) as int),
            None => None,
        },
        None => None,
    }
}

/// An interval added to an instant: `None` when the interval does not
/// convert into a time delta.
pub open spec fn interval_next(after: int, every: u64) -> Option<int> {
    if every > MAX_DELTA_SECONDS {
        None
    } else {
        Some(after + every * 1000000000)
    }
}

/// Adding the interval stays within the instants a date-time holds (the
/// addition panics otherwise).
pub open spec fn interval_in_range(t: TriggerView, after: int) -> bool {
    t matches TriggerView::Interval(every) ==> (every > MAX_DELTA_SECONDS || after + every
        * 1000000000 <= MAX_UTC_NANOS)
}

/// The next fire time of a trigger after `after`, in a time zone.
pub open spec fn next_fire(t: TriggerView, after: i128, timezone: Seq<char>) -> Option<int> {
    match t {
        TriggerView::Cron(e) => cron_next_instant(e, after, timezone),
        TriggerView::Interval(every) => interval_next(after as int, every),
        TriggerView::OneShot(at) => if at > after {
            Some(at as int)
        } else {
            None
        },
        TriggerView::DependsOn(_) => None,
    }
}

pub open spec fn opt_int(o: Option<i128>) -> Option<int> {
    match o {
        Some(v) => Some(v as int),
        None => None,
    }
}

/// Whether every fire time found lies after the instant it was searched
/// from: cron expressions read in UTC, intervals longer than zero, one-shot
/// times.
pub open spec fn advances(t: TriggerView, timezone: Seq<char>) -> bool {
    match t {
        TriggerView::Cron(_) => timezone == "UTC"@,
        TriggerView::Interval(every) => every > 0,
        _ => true,
    }
}

/// The next fire time of a trigger after `after`, with cron expressions
/// read in `timezone`.
pub fn next_for_in_timezone(trigger: &ScheduleTrigger, after: i128, timezone: &str) -> (r: Option<
    i128,
>)
    requires
        valid_instant(after as int),
        interval_in_range(trigger@, after as int),
    ensures
        opt_int(r) == next_fire(trigger@, after, timezone@),
        r matches Some(t) ==> (valid_instant(t as int) || trigger@ == TriggerView::OneShot(t)),
        advances(trigger@, timezone@) ==> (r matches Some(t) ==> t > after),
{
    match trigger {
        ScheduleTrigger::Cron(expr) => {
            proof {
                lemma_instant_parts(after);
            }
            match split_instant(after) {
                Some((secs, nanos)) => match find_next_cron(expr.as_str(), secs, nanos, timezone) {
                    Some((rs, rn)) => Some(instant_of(rs, rn)),
                    None => None,
                },
                None => None,
            }
        },
        ScheduleTrigger::Interval(every) => {
            if *every > MAX_DELTA_SECONDS {
                None
            } else {
                let wide: i128 = after as i128 + (*every as i128) * 1000000000;
                Some(wide as i128)
            }
        },
        ScheduleTrigger::OneShot(at) => {
            if *at > after {
                Some(*at)
            } else {
                None
            }
        },
        ScheduleTrigger::DependsOn(_) => None,
    }
}

/// The next fire time of a trigger after `after`, with cron expressions
/// read in UTC.
pub fn next_for(trigger: &ScheduleTrigger, after: i128) -> (r: Option<i128>)
    requires
        valid_instant(after as int),
        interval_in_range(trigger@, after as int),
    ensures
        opt_int(r) == next_fire(trigger@, after, "UTC"@),
{
    next_for_in_timezone(trigger, after, "UTC")
}

/// What the scheduler reads of a job: its name, trigger and time zone.
pub struct JobSchedule {
    pub name: String,
    pub trigger: ScheduleTrigger,
    pub timezone: String,
}

/// The fire times that follow `cursor`, at most `remaining` of them, each
/// found after the one before; `Err` when one lies beyond the preview
/// horizon from `after`.
pub open spec fn preview_from(
    t: TriggerView,
    timezone: Seq<char>,
    after: int,
    cursor: i128,
    remaining: nat,
) -> Result<Seq<int>, ()>
    decreases remaining,
{
    if remaining == 0 {
        Ok(Seq::empty())
    } else {
        match next_fire(t, cursor, timezone) {
            None => Ok(Seq::empty()),
            Some(n) => if n - after > PREVIEW_HORIZON_NANOS {
                Err(())
            } else {
                match preview_from(t, timezone, after, n as i128, (remaining - 1) as nat) {
                    Ok(rest) => Ok(seq![n] + rest),
                    Err(e) => Err(e),
                }
            },
        }
    }
}

pub open spec fn prefixed(found: Seq<int>, rest: Result<Seq<int>, ()>) -> Result<Seq<int>, ()> {
    match rest {
        Ok(s) => Ok(found + s),
        Err(e) => Err(e),
    }
}

/// The `k`-th fire time of an interval trigger after `after`.
pub open spec fn interval_fire(after: int, step: int, k: int) -> int {
    after + k * step
}

/// Every fire time an interval preview computes stays within the instants a
/// date-time holds (the addition panics otherwise): while the `k`-th fire
/// time is within the horizon and more are wanted, the next one fits.
pub open spec fn preview_in_range(t: TriggerView, after: int, count: nat) -> bool {
    t matches TriggerView::Interval(every) ==> (every > MAX_DELTA_SECONDS || forall|k: int|
        0 <= k < count && k * (every * 1000000000) <= PREVIEW_HORIZON_NANOS ==> #[trigger] interval_fire(
            after,
            every * 1000000000,
            k + 1,
        ) <= MAX_UTC_NANOS)
}

pub open spec fn times_of(v: Seq<i128>) -> Seq<int> {
    v.map_values(|x: i128| x as int)
}

/// The next `count` fire times of a job after `after` (at most 100, at
/// most five years ahead), in the job's time zone.
pub fn preview(job: &JobSchedule, after: i128, count: u16) -> (r: Result<Vec<i128>, SchedulerError>)
    requires
        valid_instant(after as int),
        trigger_wf(job.trigger@),
        preview_in_range(job.trigger@, after as int, count as nat),
    ensures
        count > PREVIEW_COUNT_LIMIT ==> (r matches Err(SchedulerError::PreviewBounded(m)) && m@
            == "count exceeds 100"@),
        count <= PREVIEW_COUNT_LIMIT && !known_timezone(job.timezone@) ==> (r matches Err(
            SchedulerError::InvalidTimezone(z),
        ) && z@ == job.timezone@),
        count <= PREVIEW_COUNT_LIMIT && known_timezone(job.timezone@) ==> match preview_from(
            job.trigger@,
            job.timezone@,
            after as int,
            after,
            count as nat,
        ) {
            Ok(times) => r matches Ok(v) && times_of(v@) == times,
            Err(_) => r matches Err(SchedulerError::PreviewBounded(m)) && m@
                == "search horizon exceeds 5 years"@,
        },
        advances(job.trigger@, job.timezone@) ==> (r matches Ok(v) ==> {
            &&& forall|j: int| 0 <= j < v@.len() ==> after < #[trigger] v@[j]
            &&& forall|j: int, k: int| 0 <= j < k < v@.len() ==> v@[j] < v@[k]
        }),
{
    if count > PREVIEW_COUNT_LIMIT {
        return Err(SchedulerError::PreviewBounded("count exceeds 100".to_string()));
    }
    if !timezone_exists(job.timezone.as_str()) {
        return Err(SchedulerError::InvalidTimezone(job.timezone.clone()));
    }
    let ghost t = job.trigger@;
    let ghost tz = job.timezone@;
    let ghost whole = preview_from(t, tz, after as int, after, count as nat);
    let mut results: Vec<i128> = Vec::new();
    let mut cursor: i128 = after;
    let mut i: u16 = 0;
    while i < count
        invariant
            i <= count <= PREVIEW_COUNT_LIMIT,
            t == job.trigger@,
            tz == job.timezone@,
            known_timezone(tz),
            trigger_wf(t),
            preview_in_range(t, after as int, count as nat),
            valid_instant(after as int),
            valid_instant(cursor as int),
            whole == preview_from(t, tz, after as int, after, count as nat),
            whole == prefixed(times_of(results@), preview_from(t, tz, after as int, cursor, (count - i) as nat)),
            t matches TriggerView::Interval(every) ==> (every <= MAX_DELTA_SECONDS ==> cursor
                == interval_fire(after as int, every * 1000000000, i as int) && i * (every * 1000000000)
                <= PREVIEW_HORIZON_NANOS),
            advances(t, tz) ==> {
                &&& forall|j: int| 0 <= j < results@.len() ==> after < #[trigger] results@[j] <= cursor
                &&& forall|j: int, k: int| 0 <= j < k < results@.len() ==> results@[j] < results@[k]
                &&& after <= cursor
            },
        decreases count - i,
    {
        proof {
            if let TriggerView::Interval(every) = t {
                if every <= MAX_DELTA_SECONDS {
                    assert(interval_fire(after as int, every * 1000000000, i + 1) <= MAX_UTC_NANOS);
                    assert(interval_fire(after as int, every * 1000000000, i + 1) == cursor + every
                        * 1000000000) by (nonlinear_arith)
                        requires
                            cursor == interval_fire(after as int, every * 1000000000, i as int),
                    ;
                }
            }
        }
        let next = next_for_in_timezone(&job.trigger, cursor, job.timezone.as_str());
        match next {
            None => {
                proof {
                    assert(times_of(results@) + Seq::<int>::empty() =~= times_of(results@));
                }
                return Ok(results);
            },
            Some(n) => {
                let gap: i128 = n as i128 - after as i128;
                if gap > PREVIEW_HORIZON_NANOS as i128 {
                    return Err(
                        SchedulerError::PreviewBounded("search horizon exceeds 5 years".to_string()),
                    );
                }
                let ghost before = results@;
                results.push(n);
                proof {
                    assert(times_of(results@) =~= times_of(before).push(n as int));
                    let rest = preview_from(t, tz, after as int, n, (count - i - 1) as nat);
                    match rest {
                        Ok(s) => {
                            assert(times_of(before) + (seq![n as int] + s) =~= times_of(results@)
                                + s);
                        },
                        Err(_) => {},
                    }
                    if let TriggerView::Interval(every) = t {
                        if every <= MAX_DELTA_SECONDS {
                            assert(interval_fire(after as int, every * 1000000000, i + 1) == cursor
                                + every * 1000000000) by (nonlinear_arith)
                                requires
                                    cursor == interval_fire(after as int, every * 1000000000, i as int),
                            ;
                            assert((i + 1) * (every * 1000000000) == n - after) by (nonlinear_arith)
                                requires
                                    n == interval_fire(after as int, every * 1000000000, i + 1),
                            ;
                        }
                    }
                }
                cursor = n;
                i += 1;
            },
        }
    }
    proof {
        assert(times_of(results@) + Seq::<int>::empty() =~= times_of(results@));
    }
    Ok(results)
}

/// `a` comes before `b` in character order, a proper prefix first (the
/// order of `str`).
pub open spec fn name_less(a: Seq<char>, b: Seq<char>) -> bool
    decreases a.len(),
{
    if a.len() == 0 {
        b.len() > 0
    } else if b.len() == 0 {
        false
    } else if a[0] != b[0] {
        (a[0] as int) < (b[0] as int)
    } else {
        name_less(a.drop_first(), b.drop_first())
    }
}

/// No name comes before itself.
pub proof fn lemma_name_less_irreflexive(a: Seq<char>)
    ensures
        !name_less(a, a),
    decreases a.len(),
{
    if a.len() > 0 {
        lemma_name_less_irreflexive(a.drop_first());
    }
}

/// The character order is transitive.
pub proof fn lemma_name_less_transitive(a: Seq<char>, b: Seq<char>, c: Seq<char>)
    requires
        name_less(a, b),
        name_less(b, c),
    ensures
        name_less(a, c),
    decreases a.len(),
{
    if a.len() > 0 && b.len() > 0 && c.len() > 0 && a[0] == b[0] && b[0] == c[0] {
        lemma_name_less_transitive(a.drop_first(), b.drop_first(), c.drop_first());
    }
}

/// Of two different names, one comes first.
pub proof fn lemma_name_less_total(a: Seq<char>, b: Seq<char>)
    requires
        a != b,
    ensures
        name_less(a, b) || name_less(b, a),
    decreases a.len(),
{
    if a.len() == 0 && b.len() == 0 {
        assert(a =~= b);
    } else if a.len() > 0 && b.len() > 0 {
        if a[0] == b[0] {
            if a.drop_first() =~= b.drop_first() {
                assert forall|i: int| 0 <= i < a.len() implies a[i] == b[i] by {
                    if i > 0 {
                        assert(a[i] == a.drop_first()[i - 1]);
                        assert(b[i] == b.drop_first()[i - 1]);
                    }
                }
                assert(a =~= b);
            }
            lemma_name_less_total(a.drop_first(), b.drop_first());
        } else {
            assert((a[0] as int) != (b[0] as int));
        }
    }
}

proof fn lemma_name_less_asymmetric(a: Seq<char>, b: Seq<char>)
    requires
        name_less(a, b),
    ensures
        !name_less(b, a),
        a != b,
{
    lemma_name_less_irreflexive(a);
    if name_less(b, a) {
        lemma_name_less_transitive(a, b, a);
    }
}

/// Whether `a` comes before `b` in character order.
pub fn name_before(a: &str, b: &str) -> (r: bool)
    ensures
        r == name_less(a@, b@),
{
    let x = chars_of(a);
    let y = chars_of(b);
    let mut i: usize = 0;
    proof {
        assert(a@.skip(0) =~= a@);
        assert(b@.skip(0) =~= b@);
    }
    while i < x.len() && i < y.len()
        invariant
            i <= x@.len(),
            i <= y@.len(),
            x@ == a@,
            y@ == b@,
            name_less(a@, b@) == name_less(a@.skip(i as int), b@.skip(i as int)),
        decreases x@.len() - i,
    {
        if x[i] != y[i] {
            let less = x[i] < y[i];
            proof {
                assert(a@.skip(i as int)[0] == x@[i as int]);
                assert(b@.skip(i as int)[0] == y@[i as int]);
            }
            return less;
        }
        proof {
            assert(a@.skip(i as int).drop_first() =~= a@.skip(i + 1));
            assert(b@.skip(i as int).drop_first() =~= b@.skip(i + 1));
        }
        i += 1;
    }
    i < y.len()
}

/// A registered trigger: a job's name and when it fires.
#[derive(Debug)]
pub struct ScheduledJob {
    pub name: String,
    pub trigger: ScheduleTrigger,
}

impl Clone for ScheduledJob {
    fn clone(&self) -> (r: Self)
        ensures
            entry_of(r) == entry_of(*self),
    {
        ScheduledJob { name: self.name.clone(), trigger: self.trigger.clone() }
    }
}

/// A registered trigger as plain values.
pub open spec fn entry_of(j: ScheduledJob) -> (Seq<char>, TriggerView) {
    (j.name@, j.trigger@)
}

pub open spec fn entries_of(s: Seq<ScheduledJob>) -> Seq<(Seq<char>, TriggerView)> {
    s.map_values(|j: ScheduledJob| entry_of(j))
}

/// Entries whose names strictly increase.
pub open spec fn sorted_by_name(s: Seq<(Seq<char>, TriggerView)>) -> bool {
    forall|i: int, j: int| 0 <= i < j < s.len() ==> name_less(#[trigger] s[i].0, #[trigger] s[j].0)
}

/// The entries with `e` stored under its name: replacing the entry of that
/// name, or placed before the first entry whose name comes after it.
pub open spec fn upsert(s: Seq<(Seq<char>, TriggerView)>, e: (Seq<char>, TriggerView)) -> Seq<
    (Seq<char>, TriggerView),
>
    decreases s.len(),
{
    if s.len() == 0 {
        seq![e]
    } else if s[0].0 == e.0 {
        seq![e] + s.drop_first()
    } else if name_less(e.0, s[0].0) {
        seq![e] + s
    } else {
        seq![s[0]] + upsert(s.drop_first(), e)
    }
}

/// The entries without those named `n`.
pub open spec fn without(s: Seq<(Seq<char>, TriggerView)>, n: Seq<char>) -> Seq<
    (Seq<char>, TriggerView),
>
    decreases s.len(),
{
    if s.len() == 0 {
        s
    } else if s[0].0 == n {
        without(s.drop_first(), n)
    } else {
        seq![s[0]] + without(s.drop_first(), n)
    }
}

/// The trigger of the first entry named `n`.
pub open spec fn lookup(s: Seq<(Seq<char>, TriggerView)>, n: Seq<char>) -> Option<TriggerView>
    decreases s.len(),
{
    if s.len() == 0 {
        None
    } else if s[0].0 == n {
        Some(s[0].1)
    } else {
        lookup(s.drop_first(), n)
    }
}

/// Entries stored one after another into an empty table.
pub open spec fn upsert_all(s: Seq<(Seq<char>, TriggerView)>) -> Seq<(Seq<char>, TriggerView)>
    decreases s.len(),
{
    if s.len() == 0 {
        Seq::empty()
    } else {
        upsert(upsert_all(s.drop_last()), s.last())
    }
}

/// A registration of the trigger may proceed: a cron expression parses.
pub open spec fn cron_ok(t: TriggerView) -> bool {
    t matches TriggerView::Cron(e) ==> cron_parse(e) is Ok
}

pub open spec fn all_cron_ok(s: Seq<(Seq<char>, TriggerView)>) -> bool {
    forall|k: int| 0 <= k < s.len() ==> cron_ok(#[trigger] s[k].1)
}

proof fn lemma_sorted_tail(s: Seq<(Seq<char>, TriggerView)>)
    requires
        sorted_by_name(s),
        s.len() > 0,
    ensures
        sorted_by_name(s.drop_first()),
        forall|j: int| 0 <= j < s.drop_first().len() ==> name_less(s[0].0, #[trigger] s.drop_first()[j].0),
{
    assert forall|i: int, j: int| 0 <= i < j < s.drop_first().len() implies name_less(
        #[trigger] s.drop_first()[i].0,
        #[trigger] s.drop_first()[j].0,
    ) by {
        assert(s.drop_first()[i] == s[i + 1] && s.drop_first()[j] == s[j + 1]);
    }
    assert forall|j: int| 0 <= j < s.drop_first().len() implies name_less(
        s[0].0,
        #[trigger] s.drop_first()[j].0,
    ) by {
        assert(s.drop_first()[j] == s[j + 1]);
    }
}

/// Storing an entry into sorted entries updates the entry of its name, or
/// inserts it at the first entry whose name does not come before it.
proof fn lemma_upsert_at(s: Seq<(Seq<char>, TriggerView)>, e: (Seq<char>, TriggerView), i: int)
    requires
        sorted_by_name(s),
        0 <= i <= s.len(),
        forall|j: int| 0 <= j < i ==> name_less(#[trigger] s[j].0, e.0),
        i < s.len() ==> !name_less(s[i].0, e.0),
    ensures
        upsert(s, e) == (if i < s.len() && s[i].0 == e.0 {
            s.update(i, e)
        } else {
            s.insert(i, e)
        }),
    decreases i,
{
    if s.len() == 0 {
        assert(upsert(s, e) =~= s.insert(0, e));
    } else if i == 0 {
        if s[0].0 == e.0 {
            assert(upsert(s, e) =~= s.update(0, e));
        } else {
            lemma_name_less_total(s[0].0, e.0);
            assert(upsert(s, e) =~= s.insert(0, e));
        }
    } else {
        lemma_name_less_asymmetric(s[0].0, e.0);
        lemma_sorted_tail(s);
        let t = s.drop_first();
        assert forall|j: int| 0 <= j < i - 1 implies name_less(#[trigger] t[j].0, e.0) by {
            assert(t[j] == s[j + 1]);
        }
        lemma_upsert_at(t, e, i - 1);
        if i < s.len() && s[i].0 == e.0 {
            assert(upsert(s, e) =~= s.update(i, e));
        } else {
            assert(upsert(s, e) =~= s.insert(i, e));
        }
    }
}

/// What a lookup finds after an entry was stored.
pub proof fn lemma_lookup_upsert(s: Seq<(Seq<char>, TriggerView)>, e: (Seq<char>, TriggerView), n: Seq<char>)
    ensures
        lookup(upsert(s, e), n) == (if n == e.0 {
            Some(e.1)
        } else {
            lookup(s, n)
        }),
    decreases s.len(),
{
    let u = upsert(s, e);
    if s.len() == 0 {
        assert(u =~= seq![e]);
        assert(u.drop_first() =~= Seq::<(Seq<char>, TriggerView)>::empty());
        assert(lookup(u, n) == (if n == e.0 { Some(e.1) } else { lookup(u.drop_first(), n) }));
    } else if s[0].0 == e.0 {
        assert(u == seq![e] + s.drop_first());
        assert(u[0] == e);
        assert(u.drop_first() =~= s.drop_first());
        assert(lookup(u, n) == (if n == e.0 { Some(e.1) } else { lookup(u.drop_first(), n) }));
    } else if name_less(e.0, s[0].0) {
        assert(u == seq![e] + s);
        assert(u[0] == e);
        assert(u.drop_first() =~= s);
        assert(lookup(u, n) == (if n == e.0 { Some(e.1) } else { lookup(u.drop_first(), n) }));
    } else {
        lemma_lookup_upsert(s.drop_first(), e, n);
        assert(u == seq![s[0]] + upsert(s.drop_first(), e));
        assert(u[0] == s[0]);
        assert(u.drop_first() =~= upsert(s.drop_first(), e));
        assert(lookup(u, n) == (if n == s[0].0 { Some(s[0].1) } else { lookup(u.drop_first(), n) }));
    }
}

/// What a lookup finds after the entries of a name were dropped.
pub proof fn lemma_lookup_without(s: Seq<(Seq<char>, TriggerView)>, n: Seq<char>, m: Seq<char>)
    ensures
        lookup(without(s, n), m) == (if m == n {
            None
        } else {
            lookup(s, m)
        }),
    decreases s.len(),
{
    if s.len() > 0 {
        lemma_lookup_without(s.drop_first(), n, m);
        if s[0].0 != n {
            assert((seq![s[0]] + without(s.drop_first(), n)).drop_first() =~= without(s.drop_first(), n));
        }
    }
}

proof fn lemma_without_absent(s: Seq<(Seq<char>, TriggerView)>, n: Seq<char>)
    requires
        forall|j: int| 0 <= j < s.len() ==> #[trigger] s[j].0 != n,
    ensures
        without(s, n) == s,
    decreases s.len(),
{
    if s.len() > 0 {
        assert(s[0].0 != n);
        assert forall|j: int| 0 <= j < s.drop_first().len() implies #[trigger] s.drop_first()[j].0 != n by {
            assert(s.drop_first()[j] == s[j + 1]);
        }
        lemma_without_absent(s.drop_first(), n);
        assert(seq![s[0]] + s.drop_first() =~= s);
    }
}

proof fn lemma_without_at(s: Seq<(Seq<char>, TriggerView)>, n: Seq<char>, i: int)
    requires
        sorted_by_name(s),
        0 <= i < s.len(),
        s[i].0 == n,
    ensures
        without(s, n) == s.remove(i),
    decreases i,
{
    lemma_sorted_tail(s);
    let t = s.drop_first();
    if i == 0 {
        assert forall|j: int| 0 <= j < t.len() implies #[trigger] t[j].0 != n by {
            lemma_name_less_asymmetric(s[0].0, t[j].0);
        }
        lemma_without_absent(t, n);
        assert(s.remove(0) =~= t);
    } else {
        lemma_name_less_asymmetric(s[0].0, s[i].0);
        assert(t[i - 1] == s[i]);
        lemma_without_at(t, n, i - 1);
        assert(s.remove(i) =~= seq![s[0]] + t.remove(i - 1));
    }
}

proof fn lemma_insert_sorted(s: Seq<(Seq<char>, TriggerView)>, e: (Seq<char>, TriggerView), i: int)
    requires
        sorted_by_name(s),
        0 <= i <= s.len(),
        forall|j: int| 0 <= j < i ==> name_less(#[trigger] s[j].0, e.0),
        i < s.len() ==> name_less(e.0, s[i].0),
    ensures
        sorted_by_name(s.insert(i, e)),
{
    let u = s.insert(i, e);
    assert forall|a: int, b: int| 0 <= a < b < u.len() implies name_less(#[trigger] u[a].0, #[trigger] u[b].0) by {
        if b < i {
            assert(u[a] == s[a] && u[b] == s[b]);
        } else if b == i {
            assert(u[a] == s[a]);
        } else if a == i {
            assert(u[b] == s[b - 1]);
            if b - 1 > i {
                lemma_name_less_transitive(e.0, s[i].0, s[b - 1].0);
            }
        } else if a < i {
            assert(u[a] == s[a] && u[b] == s[b - 1]);
        } else {
            assert(u[a] == s[a - 1] && u[b] == s[b - 1]);
        }
    }
}

/// Restoring a snapshot of a table (its entries in name order) reproduces
/// the table.
pub proof fn lemma_snapshot_restores(s: Seq<(Seq<char>, TriggerView)>)
    requires
        sorted_by_name(s),
    ensures
        upsert_all(s) == s,
    decreases s.len(),
{
    if s.len() > 0 {
        let d = s.drop_last();
        assert(sorted_by_name(d)) by {
            assert forall|i: int, j: int| 0 <= i < j < d.len() implies name_less(#[trigger] d[i].0, #[trigger] d[j].0) by {
                assert(d[i] == s[i] && d[j] == s[j]);
            }
        }
        lemma_snapshot_restores(d);
        assert forall|j: int| 0 <= j < d.len() implies name_less(#[trigger] d[j].0, s.last().0) by {
            assert(d[j] == s[j]);
        }
        lemma_upsert_at(d, s.last(), d.len() as int);
        assert(d.insert(d.len() as int, s.last()) =~= s);
    }
}

/// The triggers registered with the scheduler, one per job name, kept in
/// name order.
pub struct ScheduleTable {
    entries: Vec<ScheduledJob>,
}

impl ScheduleTable {
    /// The registered triggers, in name order.
    pub closed spec fn view(&self) -> Seq<(Seq<char>, TriggerView)> {
        entries_of(self.entries@)
    }

    /// The registered names strictly increase, and every registered cron
    /// expression parses.
    pub closed spec fn wf(&self) -> bool {
        &&& sorted_by_name(self@)
        &&& all_cron_ok(self@)
    }

    /// A table with nothing registered.
    pub fn new() -> (t: Self)
        ensures
            t.wf(),
            t@ == Seq::<(Seq<char>, TriggerView)>::empty(),
    {
        let t = ScheduleTable { entries: Vec::new() };
        proof {
            assert(t@ =~= Seq::<(Seq<char>, TriggerView)>::empty());
        }
        t
    }

    /// Stores a trigger under a job's name, replacing what was registered
    /// under that name.
    fn store(&mut self, job: ScheduledJob)
        requires
            old(self).wf(),
            cron_ok(job.trigger@),
        ensures
            final(self).wf(),
            final(self)@ == upsert(old(self)@, entry_of(job)),
    {
        let ghost s = self@;
        let ghost e = entry_of(job);
        let mut i: usize = 0;
        while i < self.entries.len()
            invariant
                i <= self.entries@.len(),
                s == self@,
                e == entry_of(job),
                sorted_by_name(s),
                forall|j: int| 0 <= j < i ==> name_less(#[trigger] s[j].0, e.0),
            ensures
                i <= self.entries@.len(),
                forall|j: int| 0 <= j < i ==> name_less(#[trigger] s[j].0, e.0),
                i < s.len() ==> !name_less(s[i as int].0, e.0),
            decreases self.entries@.len() - i,
        {
            if !name_before(self.entries[i].name.as_str(), job.name.as_str()) {
                proof {
                    assert(s[i as int] == entry_of(self.entries@[i as int]));
                }
                break;
            }
            proof {
                assert(s[i as int] == entry_of(self.entries@[i as int]));
            }
            i += 1;
        }
        proof {
            if i < s.len() {
                assert(s[i as int] == entry_of(self.entries@[i as int]));
            }
            lemma_upsert_at(s, e, i as int);
        }
        if i < self.entries.len() && str_eq(self.entries[i].name.as_str(), job.name.as_str()) {
            self.entries.set(i, job);
            proof {
                assert(self@ =~= s.update(i as int, e));
                assert forall|k: int| 0 <= k < self@.len() implies cron_ok(#[trigger] self@[k].1) by {
                    if k != i {
                        assert(self@[k] == s[k]);
                    }
                }
                assert forall|a: int, b: int| 0 <= a < b < self@.len() implies name_less(
                    #[trigger] self@[a].0,
                    #[trigger] self@[b].0,
                ) by {
                    assert(s[a].0 == self@[a].0 && s[b].0 == self@[b].0);
                }
            }
        } else {
            proof {
                if i < s.len() {
                    assert(s[i as int] == entry_of(self.entries@[i as int]));
                    lemma_name_less_total(s[i as int].0, e.0);
                }
                lemma_insert_sorted(s, e, i as int);
            }
            self.entries.insert(i, job);
            proof {
                assert(self@ =~= s.insert(i as int, e));
                assert forall|k: int| 0 <= k < self@.len() implies cron_ok(#[trigger] self@[k].1) by {
                    if k < i {
                        assert(self@[k] == s[k]);
                    } else if k > i {
                        assert(self@[k] == s[k - 1]);
                    }
                }
            }
        }
    }

    /// Registers a trigger under a job's name; a cron expression must
    /// parse.
    pub fn register(&mut self, name: &str, trigger: &ScheduleTrigger) -> (r: Result<(), SchedulerError>)
        requires
            old(self).wf(),
        ensures
            final(self).wf(),
            r is Ok <==> cron_ok(trigger@),
            r is Ok ==> final(self)@ == upsert(old(self)@, (name@, trigger@)),
            r matches Err(error) ==> final(self)@ == old(self)@ && (trigger@ matches TriggerView::Cron(e)
                && error matches SchedulerError::InvalidCron(m) && cron_parse(e) == Err::<(), Seq<char>>(m@)),
    {
        if let ScheduleTrigger::Cron(expr) = trigger {
            match parse_cron(expr.as_str()) {
                Ok(()) => {},
                Err(message) => {
                    return Err(SchedulerError::InvalidCron(message));
                },
            }
        }
        let name_text = name.to_string();
        self.store(ScheduledJob { name: name_text, trigger: trigger.clone() });
        Ok(())
    }

    /// Registers a job's trigger; a cron expression must parse and the
    /// job's time zone must be known.
    pub fn register_job(&mut self, job: &JobSchedule) -> (r: Result<(), SchedulerError>)
        requires
            old(self).wf(),
        ensures
            final(self).wf(),
            r is Ok <==> cron_ok(job.trigger@) && (job.trigger@ is Cron ==> known_timezone(job.timezone@)),
            r is Ok ==> final(self)@ == upsert(old(self)@, (job.name@, job.trigger@)),
            r is Err ==> final(self)@ == old(self)@,
            r matches Err(SchedulerError::InvalidTimezone(z)) ==> z@ == job.timezone@,
            r matches Err(error) ==> (job.trigger@ matches TriggerView::Cron(e) && (match error {
                SchedulerError::InvalidCron(m) => cron_parse(e) == Err::<(), Seq<char>>(m@),
                SchedulerError::InvalidTimezone(_) => cron_parse(e) is Ok && !known_timezone(job.timezone@),
                SchedulerError::PreviewBounded(_) => false,
            })),
    {
        if let ScheduleTrigger::Cron(expr) = &job.trigger {
            match parse_cron(expr.as_str()) {
                Ok(()) => {},
                Err(message) => {
                    return Err(SchedulerError::InvalidCron(message));
                },
            }
            if !timezone_exists(job.timezone.as_str()) {
                return Err(SchedulerError::InvalidTimezone(job.timezone.clone()));
            }
        }
        self.store(ScheduledJob { name: job.name.clone(), trigger: job.trigger.clone() });
        Ok(())
    }

    /// Drops what was registered under a job's name.
    pub fn unregister(&mut self, name: &str)
        requires
            old(self).wf(),
        ensures
            final(self).wf(),
            final(self)@ == without(old(self)@, name@),
    {
        let ghost s = self@;
        let ghost old_entries = self.entries@;
        let mut i: usize = 0;
        while i < self.entries.len()
            invariant
                i <= self.entries@.len(),
                s == self@,
                old_entries == self.entries@,
                s == entries_of(old_entries),
                s == old(self)@,
                sorted_by_name(s),
                all_cron_ok(s),
                forall|j: int| 0 <= j < i ==> #[trigger] s[j].0 != name@,
            decreases self.entries@.len() - i,
        {
            if str_eq(self.entries[i].name.as_str(), name) {
                let _ = self.entries.remove(i);
                proof {
                    assert(self.entries@ == old_entries.remove(i as int));
                    assert(s[i as int] == entry_of(old_entries[i as int]));
                    lemma_without_at(s, name@, i as int);
                    assert(self@ =~= s.remove(i as int));
                    assert forall|a: int, b: int| 0 <= a < b < self@.len() implies name_less(
                        #[trigger] self@[a].0,
                        #[trigger] self@[b].0,
                    ) by {
                        if b < i {
                        } else if a < i {
                            assert(self@[b] == s[b + 1]);
                        } else {
                            assert(self@[a] == s[a + 1] && self@[b] == s[b + 1]);
                        }
                    }
                    assert forall|k: int| 0 <= k < self@.len() implies cron_ok(#[trigger] self@[k].1) by {
                        if k >= i {
                            assert(self@[k] == s[k + 1]);
                        }
                    }
                }
                return;
            }
            proof {
                assert(s[i as int] == entry_of(self.entries@[i as int]));
            }
            i += 1;
        }
        proof {
            lemma_without_absent(s, name@);
        }
    }

    /// The registered triggers, in name order.
    pub fn snapshot(&self) -> (r: Vec<ScheduledJob>)
        requires
            self.wf(),
        ensures
            entries_of(r@) == self@,
            sorted_by_name(entries_of(r@)),
            all_cron_ok(entries_of(r@)),
    {
        let mut r: Vec<ScheduledJob> = Vec::new();
        let mut i: usize = 0;
        while i < self.entries.len()
            invariant
                i <= self.entries@.len(),
                entries_of(r@) == entries_of(self.entries@.take(i as int)),
            decreases self.entries@.len() - i,
        {
            let job = self.entries[i].clone();
            let ghost before = r@;
            let ghost job_entry = entry_of(job);
            r.push(job);
            proof {
                assert(job_entry == entry_of(self.entries@[i as int]));
                assert(self.entries@.take(i + 1) =~= self.entries@.take(i as int).push(self.entries@[i as int]));
                assert(entries_of(r@) =~= entries_of(before).push(job_entry));
                assert(entries_of(self.entries@.take(i + 1)) =~= entries_of(self.entries@.take(i as int)).push(job_entry));
            }
            i += 1;
        }
        proof {
            assert(self.entries@.take(self.entries@.len() as int) =~= self.entries@);
        }
        r
    }

    /// Replaces everything registered by the triggers of a snapshot, in
    /// its order; stops at the first whose cron expression does not parse.
    pub fn restore(&mut self, snapshot: &Vec<ScheduledJob>) -> (r: Result<(), SchedulerError>)
        requires
            old(self).wf(),
        ensures
            final(self).wf(),
            r is Ok ==> (forall|k: int| 0 <= k < snapshot@.len() ==> cron_ok(#[trigger] snapshot@[k].trigger@))
                && final(self)@ == upsert_all(entries_of(snapshot@)),
            r matches Err(error) ==> exists|k: int|
                0 <= k < snapshot@.len()
                && (forall|j: int| 0 <= j < k ==> cron_ok(#[trigger] snapshot@[j].trigger@))
                && !cron_ok(#[trigger] snapshot@[k].trigger@)
                && final(self)@ == upsert_all(entries_of(snapshot@).take(k))
                && (snapshot@[k].trigger@ matches TriggerView::Cron(e) && error matches SchedulerError::InvalidCron(m)
                    && cron_parse(e) == Err::<(), Seq<char>>(m@)),
    {
        self.entries.clear();
        proof {
            assert(self@ =~= Seq::<(Seq<char>, TriggerView)>::empty());
            assert(entries_of(snapshot@).take(0) =~= Seq::<(Seq<char>, TriggerView)>::empty());
        }
        let mut k: usize = 0;
        while k < snapshot.len()
            invariant
                k <= snapshot@.len(),
                self.wf(),
                forall|j: int| 0 <= j < k ==> cron_ok(#[trigger] snapshot@[j].trigger@),
                self@ == upsert_all(entries_of(snapshot@).take(k as int)),
            decreases snapshot@.len() - k,
        {
            let entry = &snapshot[k];
            match self.register(entry.name.as_str(), &entry.trigger) {
                Ok(()) => {},
                Err(error) => {
                    return Err(error);
                },
            }
            proof {
                let es = entries_of(snapshot@);
                assert(es.take(k + 1).drop_last() =~= es.take(k as int));
                assert(es.take(k + 1).last() == entry_of(snapshot@[k as int]));
            }
            k += 1;
        }
        proof {
            assert(entries_of(snapshot@).take(snapshot@.len() as int) =~= entries_of(snapshot@));
        }
        Ok(())
    }
}

/// What a trigger's timer does next.
#[derive(Debug, Clone, Copy, PartialEq, Eq, Structural)]
pub enum TimerAction {
    /// Sleep this many nanoseconds, then report the time.
    Sleep(u64),
    /// Send the fire event of this instant, then report whether it was
    /// delivered.
    Fire(i128),
    /// The timer ends.
    Stop,
}

/// How long a timer sleeps towards `target` at `now`: at most an hour.
pub open spec fn sleep_span(now: int, target: int) -> int {
    if target - now > MAX_SLEEP_NANOS {
        MAX_SLEEP_NANOS as int
    } else {
        target - now
    }
}

/// What a timer with its next fire time at `target` does at `now`.
pub open spec fn toward(target: int, now: int) -> TimerAction {
    if now >= target {
        TimerAction::Fire(target as i128)
    } else {
        TimerAction::Sleep(sleep_span(now, target) as u64)
    }
}

/// The timer of one registered trigger: it finds the next fire time, sleeps
/// towards it an hour at most at a time, fires, and starts over (a one-shot
/// fires once).
pub struct TriggerTimer {
    trigger: ScheduleTrigger,
    timezone: String,
    target: Option<i128>,
}

impl TriggerTimer {
    pub closed spec fn trigger(&self) -> TriggerView {
        self.trigger@
    }

    pub closed spec fn timezone(&self) -> Seq<char> {
        self.timezone@
    }

    /// The fire time the timer is sleeping towards, once found.
    pub closed spec fn target(&self) -> Option<i128> {
        self.target
    }

    /// A timer for a trigger whose cron expressions are read in `timezone`.
    pub fn new(trigger: ScheduleTrigger, timezone: String) -> (t: Self)
        ensures
            t.trigger() == trigger@,
            t.timezone() == timezone@,
            t.target() is None,
    {
        TriggerTimer { trigger, timezone, target: None }
    }

    /// The time is `now`: find the next fire time if there is none yet, and
    /// say whether to fire, sleep towards it, or stop (no next fire time).
    pub fn tick(&mut self, now: i128) -> (action: TimerAction)
        requires
            valid_instant(now as int),
            interval_in_range(old(self).trigger(), now as int),
        ensures
            final(self).trigger() == old(self).trigger(),
            final(self).timezone() == old(self).timezone(),
            match old(self).target() {
                Some(t) => final(self).target() == Some(t) && action == toward(t as int, now as int),
                None => match next_fire(old(self).trigger(), now, old(self).timezone()) {
                    None => final(self).target() is None && action == TimerAction::Stop,
                    Some(n) => final(self).target() == Some(n as i128) && n == n as i128
                        && action == toward(n, now as int),
                },
            },
    {
        let target = match self.target {
            Some(t) => t,
            None => match next_for_in_timezone(&self.trigger, now, self.timezone.as_str()) {
                None => {
                    return TimerAction::Stop;
                },
                Some(n) => {
                    self.target = Some(n);
                    n
                },
            },
        };
        if now >= target {
            TimerAction::Fire(target)
        } else {
            match target.checked_sub(now) {
                Some(gap) => {
                    if gap > MAX_SLEEP_NANOS as i128 {
                        TimerAction::Sleep(MAX_SLEEP_NANOS)
                    } else {
                        TimerAction::Sleep(gap as u64)
                    }
                },
                None => TimerAction::Sleep(MAX_SLEEP_NANOS),
            }
        }
    }

    /// The fire event was sent (`delivered` is false when nobody receives
    /// events any more): whether the timer ends, which it does after a
    /// one-shot or when nobody receives; otherwise it looks for the next
    /// fire time at its next tick.
    pub fn fired(&mut self, delivered: bool) -> (stop: bool)
        ensures
            final(self).trigger() == old(self).trigger(),
            final(self).timezone() == old(self).timezone(),
            stop == (!delivered || old(self).trigger() is OneShot),
            final(self).target() is None,
    {
        self.target = None;
        if !delivered {
            return true;
        }
        match self.trigger {
            ScheduleTrigger::OneShot(_) => true,
            _ => false,
        }
    }
}


} // verus!
