//! Asana's side: its tasks as this library reads them, and the due date that
//! a mirror task is given.

use crate::error::SyncError;
use crate::text::digit_char;
use vstd::prelude::*;

verus! {

/// The calendar date of a due time is taken at this offset from UTC, in
/// hours.
pub const REFERENCE_OFFSET_HOURS: i8 = -6;

/// Tasks completed longer ago than this many hours are not asked for.
pub const WINDOW_HOURS: i64 = 24;

/// The earliest second since the Unix epoch that an `Instant` can hold.
pub const MIN_SECOND: i64 = -377705023201;

/// The latest second since the Unix epoch that an `Instant` can hold.
pub const MAX_SECOND: i64 = 253402207200;

/// A calendar date as three numbers.
pub struct DateView {
    pub year: int,
    pub month: int,
    pub day: int,
}

/// Whether `year` has a 29th of February.
pub open spec fn is_leap_year(year: int) -> bool {
    year % 4 == 0 && (year % 100 != 0 || year % 400 == 0)
}

/// The number of days of `month` in `year`.
pub open spec fn days_in_month(year: int, month: int) -> int {
    if month == 2 {
        if is_leap_year(year) {
            29
        } else {
            28
        }
    } else if month == 4 || month == 6 || month == 9 || month == 11 {
        30
    } else {
        31
    }
}

/// Whether `date` is a day of the proleptic Gregorian calendar in the years
/// -9999 to 9999.
pub open spec fn valid_date(date: DateView) -> bool {
    &&& -9999 <= date.year <= 9999
    &&& 1 <= date.month <= 12
    &&& 1 <= date.day <= days_in_month(date.year, date.month)
}

/// A date of the calendar, without a time of day or a zone.
#[derive(Clone, Copy, Debug, PartialEq, Eq)]
pub struct CivilDate {
    year: i16,
    month: i8,
    day: i8,
}

impl View for CivilDate {
    type V = DateView;

    closed spec fn view(&self) -> DateView {
        DateView { year: self.year as int, month: self.month as int, day: self.day as int }
    }
}

impl DeepView for CivilDate {
    type V = DateView;

    open spec fn deep_view(&self) -> DateView {
        self.view()
    }
}

impl CivilDate {
    #[verifier::type_invariant]
    spec fn is_valid(self) -> bool {
        valid_date(self@)
    }

    /// The date with these numbers, where there is such a day.
    pub fn new(year: i16, month: i8, day: i8) -> (date: Option<CivilDate>)
        ensures
            date is Some <==> valid_date(
                DateView { year: year as int, month: month as int, day: day as int },
            ),
            date matches Some(d) ==> d@ == (DateView {
                year: year as int,
                month: month as int,
                day: day as int,
            }),
    {
        if year < -9999 || year > 9999 || month < 1 || month > 12 || day < 1 {
            return None;
        }
        let shifted: i32 = year as i32 + 10000;
        let leap = shifted % 4 == 0 && (shifted % 100 != 0 || shifted % 400 == 0);
        assert(leap == is_leap_year(year as int));
        let last: i8 = if month == 2 {
            if leap {
                29
            } else {
                28
            }
        } else if month == 4 || month == 6 || month == 9 || month == 11 {
            30
        } else {
            31
        };
        if day > last {
            return None;
        }
        Some(CivilDate { year, month, day })
    }

    /// The year, from -9999 to 9999.
    pub fn year(&self) -> (year: i16)
        ensures
            year == self@.year,
    {
        self.year
    }

    /// The month, from 1 to 12.
    pub fn month(&self) -> (month: i8)
        ensures
            month == self@.month,
    {
        self.month
    }

    /// The day of the month, from 1.
    pub fn day(&self) -> (day: i8)
        ensures
            day == self@.day,
    {
        self.day
    }
}

/// A point in time as it is counted from the Unix epoch.
pub struct InstantView {
    pub seconds: int,
    pub nanos: int,
}

/// Whether a count of seconds and nanoseconds names a point in time between
/// the first second of the year -9999 and the last of the year 9999, in
/// every zone.
pub open spec fn valid_instant(at: InstantView) -> bool {
    &&& MIN_SECOND <= at.seconds <= MAX_SECOND
    &&& -999_999_999 <= at.nanos <= 999_999_999
    &&& at.seconds == MIN_SECOND ==> at.nanos >= 0
}

/// A point in time: seconds since the Unix epoch, and nanoseconds to add to
/// them.
#[derive(Clone, Copy, Debug, PartialEq, Eq)]
pub struct Instant {
    seconds: i64,
    nanos: i32,
}

impl View for Instant {
    type V = InstantView;

    closed spec fn view(&self) -> InstantView {
        InstantView { seconds: self.seconds as int, nanos: self.nanos as int }
    }
}

impl DeepView for Instant {
    type V = InstantView;

    open spec fn deep_view(&self) -> InstantView {
        self.view()
    }
}

impl Instant {
    #[verifier::type_invariant]
    spec fn is_valid(self) -> bool {
        valid_instant(self@)
    }

    /// The point in time `seconds` and `nanos` after the Unix epoch, where
    /// it lies in the years that a date can name.
    pub fn new(seconds: i64, nanos: i32) -> (at: Option<Instant>)
        ensures
            at is Some <==> valid_instant(
                InstantView { seconds: seconds as int, nanos: nanos as int },
            ),
            at matches Some(i) ==> i@ == (InstantView {
                seconds: seconds as int,
                nanos: nanos as int,
            }),
    {
        if seconds < MIN_SECOND || seconds > MAX_SECOND {
            return None;
        }
        if nanos < -999_999_999 || nanos > 999_999_999 {
            return None;
        }
        if seconds == MIN_SECOND && nanos < 0 {
            return None;
        }
        Some(Instant { seconds, nanos })
    }

    /// Seconds since the Unix epoch.
    pub fn seconds(&self) -> (seconds: i64)
        ensures
            seconds == self@.seconds,
    {
        self.seconds
    }

    /// Nanoseconds to add to the seconds.
    pub fn nanos(&self) -> (nanos: i32)
        ensures
            nanos == self@.nanos,
    {
        self.nanos
    }
}

/// The calendar date on which the point in time `seconds` and `nanos` after
/// the Unix epoch falls where the clocks stand `offset_hours` hours from
/// UTC, as `jiff` computes it.
pub uninterp spec fn date_at_offset(seconds: int, nanos: int, offset_hours: int) -> DateView;

/// Two decimal digits for a number below 100.
pub open spec fn two_digits(n: int) -> Seq<char> {
    seq![digit_char(n / 10), digit_char(n % 10)]
}

/// Four decimal digits for a number below 10000.
pub open spec fn four_digits(n: int) -> Seq<char> {
    seq![digit_char(n / 1000), digit_char(n / 100 % 10), digit_char(n / 10 % 10), digit_char(n % 10)]
}

/// A date written as year, month and day with hyphens between them: four
/// digits for a year from 0 on, and `-00` before four digits for a year
/// before that.
pub open spec fn date_text(date: DateView) -> Seq<char> {
    let year = if date.year < 0 {
        seq!['-', '0', '0'] + four_digits(-date.year)
    } else {
        four_digits(date.year)
    };
    year + seq!['-'] + two_digits(date.month) + seq!['-'] + two_digits(date.day)
}

/// A date written as the midnight that begins it in UTC.
pub open spec fn midnight_text(date: DateView) -> Seq<char> {
    date_text(date) + seq!['T', '0', '0', ':', '0', '0', ':', '0', '0', 'Z']
}

/// Makes a `jiff::Timestamp` of `seconds` and `nanos`, a `jiff::Zoned` of
/// it by `Timestamp::to_zoned` in the zone `TimeZone::fixed` of
/// `tz::offset(offset_hours)`, and hands out the year, month and day of
/// `Zoned::date`. The claim: they are what `date_at_offset` names, and they
/// form a date of the calendar, as every `jiff::civil::Date` does.
#[verifier::external_body]
fn zoned_date(seconds: i64, nanos: i32, offset_hours: i8) -> (date: (i16, i8, i8))
    requires
        valid_instant(InstantView { seconds: seconds as int, nanos: nanos as int }),
        -25 <= offset_hours <= 25,
    ensures
        (DateView { year: date.0 as int, month: date.1 as int, day: date.2 as int })
            == date_at_offset(seconds as int, nanos as int, offset_hours as int),
        valid_date(DateView { year: date.0 as int, month: date.1 as int, day: date.2 as int }),
{
    let zone = jiff::tz::TimeZone::fixed(jiff::tz::offset(offset_hours));
    let date = jiff::Timestamp::constant(seconds, nanos).to_zoned(zone).date();
    (date.year(), date.month(), date.day())
}

/// Writes out the `jiff::civil::Date` of `year`, `month` and `day` through
/// its `Display`. The claim: the text is `date_text` of the three numbers.
#[verifier::external_body]
fn date_string(year: i16, month: i8, day: i8) -> (text: String)
    requires
        valid_date(DateView { year: year as int, month: month as int, day: day as int }),
    ensures
        text@ == date_text(DateView { year: year as int, month: month as int, day: day as int }),
{
    jiff::civil::date(year, month, day).to_string()
}

/// The calendar date of `at` in the reference zone.
pub fn local_date(at: &Instant) -> (date: CivilDate)
    ensures
        date@ == date_at_offset(at@.seconds, at@.nanos, REFERENCE_OFFSET_HOURS as int),
{
    proof {
        use_type_invariant(at);
    }
    let (year, month, day) = zoned_date(at.seconds, at.nanos, REFERENCE_OFFSET_HOURS);
    CivilDate { year, month, day }
}

/// `date` as the due value of a mirror task: the midnight that begins it.
pub fn midnight_string(date: &CivilDate) -> (due: String)
    ensures
        due@ == midnight_text(date@),
{
    proof {
        use_type_invariant(date);
        reveal_strlit("T00:00:00Z");
        assert("T00:00:00Z"@ == seq!['T', '0', '0', ':', '0', '0', ':', '0', '0', 'Z']);
    }
    let mut due = date_string(date.year, date.month, date.day);
    due.append("T00:00:00Z");
    due
}

/// The due value that stands for the point in time `ts`: the midnight that
/// begins its calendar date in the reference zone. The time of day is lost.
pub fn timestamp_to_local_date(ts: &Instant) -> (due: String)
    ensures
        due@ == midnight_text(
            date_at_offset(ts@.seconds, ts@.nanos, REFERENCE_OFFSET_HOURS as int),
        ),
{
    let date = local_date(ts);
    midnight_string(&date)
}

/// An Asana task, as far as this library reads it.
#[derive(Clone, Debug, PartialEq, Eq)]
pub struct Task {
    /// Asana's id of the task.
    pub gid: String,
    pub name: String,
    pub notes: String,
    /// The day on which the task is due, where only a day was given.
    pub due_on: Option<CivilDate>,
    /// The point in time at which the task is due.
    pub due_at: Option<Instant>,
    /// When the task was completed; `None` while it is not.
    pub completed_at: Option<Instant>,
}

/// What a `Task` holds.
pub struct TaskView {
    pub gid: Seq<char>,
    pub name: Seq<char>,
    pub notes: Seq<char>,
    pub due_on: Option<DateView>,
    pub due_at: Option<InstantView>,
    pub completed_at: Option<InstantView>,
}

impl View for Task {
    type V = TaskView;

    open spec fn view(&self) -> TaskView {
        TaskView {
            gid: self.gid@,
            name: self.name@,
            notes: self.notes@,
            due_on: self.due_on.deep_view(),
            due_at: self.due_at.deep_view(),
            completed_at: self.completed_at.deep_view(),
        }
    }
}

impl DeepView for Task {
    type V = TaskView;

    open spec fn deep_view(&self) -> TaskView {
        self.view()
    }
}

/// The tasks that Asana reported, by whether they are completed.
#[derive(Clone, Debug, PartialEq, Eq)]
pub struct TaskResult {
    pub incomplete: Vec<Task>,
    pub complete: Vec<Task>,
}

/// What a `TaskResult` holds.
pub struct TaskResultView {
    pub incomplete: Seq<TaskView>,
    pub complete: Seq<TaskView>,
}

impl View for TaskResult {
    type V = TaskResultView;

    open spec fn view(&self) -> TaskResultView {
        TaskResultView {
            incomplete: self.incomplete.deep_view(),
            complete: self.complete.deep_view(),
        }
    }
}

impl DeepView for TaskResult {
    type V = TaskResultView;

    open spec fn deep_view(&self) -> TaskResultView {
        self.view()
    }
}

/// Whether a task has a due day or a due time.
pub open spec fn has_due(task: TaskView) -> bool {
    task.due_on is Some || task.due_at is Some
}

/// Of `data`, the tasks with a due date that are not completed, in their
/// order.
pub open spec fn open_tasks(data: Seq<TaskView>) -> Seq<TaskView> {
    data.filter(|task: TaskView| has_due(task) && task.completed_at is None)
}

/// Of `data`, the tasks with a due date that are completed, in their order.
pub open spec fn done_tasks(data: Seq<TaskView>) -> Seq<TaskView> {
    data.filter(|task: TaskView| has_due(task) && task.completed_at is Some)
}

impl TaskResult {
    /// The tasks of one answer of Asana, `data`, by whether they are
    /// completed. Tasks without a due date are left out. Fails with
    /// `UnsupportedPagination` where the answer says that more tasks follow
    /// on a further page.
    pub fn from_response(data: Vec<Task>, has_next_page: bool) -> (result: Result<
        TaskResult,
        SyncError,
    >)
        ensures
            has_next_page ==> result == Err::<TaskResult, SyncError>(
                SyncError::UnsupportedPagination,
            ),
            !has_next_page ==> (result matches Ok(tasks) && tasks@ == (TaskResultView {
                incomplete: open_tasks(data.deep_view()),
                complete: done_tasks(data.deep_view()),
            })),
    {
        if has_next_page {
            return Err(SyncError::UnsupportedPagination);
        }
        let ghost all = data.deep_view();
        let mut incomplete: Vec<Task> = Vec::new();
        let mut complete: Vec<Task> = Vec::new();
        proof {
            reveal(Seq::filter);
            assert(open_tasks(all.take(0)) == Seq::<TaskView>::empty());
            assert(done_tasks(all.take(0)) == Seq::<TaskView>::empty());
        }
        for task in it: data.into_iter()
            invariant
                it.seq().len() == all.len(),
                forall|j: int| 0 <= j < all.len() ==> (#[trigger] it.seq()[j])@ == all[j],
                incomplete.deep_view() == open_tasks(all.take(it.index() as int)),
                complete.deep_view() == done_tasks(all.take(it.index() as int)),
        {
            let ghost i = it.index() as int;
            let ghost open_before = incomplete.deep_view();
            let ghost done_before = complete.deep_view();
            proof {
                assert(all.take(i + 1) == all.take(i).push(task@));
                all.take(i).lemma_filter_push(
                    task@,
                    |task: TaskView| has_due(task) && task.completed_at is None,
                );
                all.take(i).lemma_filter_push(
                    task@,
                    |task: TaskView| has_due(task) && task.completed_at is Some,
                );
            }
            if task.due_at.is_some() || task.due_on.is_some() {
                if task.completed_at.is_none() {
                    incomplete.push(task);
                    assert(incomplete.deep_view() == open_before.push(task@));
                } else {
                    complete.push(task);
                    assert(complete.deep_view() == done_before.push(task@));
                }
            }
        }
        assert(all.take(all.len() as int) == all);
        Ok(TaskResult { incomplete, complete })
    }
}

/// The address at which the tasks of a user task list are asked for.
pub open spec fn tasks_url_text(list: Seq<char>, since: Seq<char>) -> Seq<char> {
    "https://app.asana.com/api/1.0/user_task_lists/"@ + list
        + "/tasks?opt_fields=name,notes,due_on,due_at,completed_at&completed_since="@ + since
        + "&limit=100"@
}

/// The address at which Asana is asked for the tasks of the user task list
/// `project_me` that are not completed, or were completed since
/// `completed_since`: their name, notes, due day, due time and time of
/// completion, at most 100 of them.
pub fn tasks_url(project_me: &str, completed_since: &str) -> (url: String)
    ensures
        url@ == tasks_url_text(project_me@, completed_since@),
{
    let mut url = "https://app.asana.com/api/1.0/user_task_lists/".to_owned();
    url.append(project_me);
    url.append("/tasks?opt_fields=name,notes,due_on,due_at,completed_at&completed_since=");
    url.append(completed_since);
    url.append("&limit=100");
    url
}

/// The address of the task `task_gid`, to which its completion is sent.
pub fn task_url(task_gid: &str) -> (url: String)
    ensures
        url@ == "https://app.asana.com/api/1.0/tasks/"@ + task_gid@,
{
    let mut url = "https://app.asana.com/api/1.0/tasks/".to_owned();
    url.append(task_gid);
    url
}

/// The value of the header that authorises a request with a personal
/// access token.
pub fn bearer(personal_token: &str) -> (value: String)
    ensures
        value@ == "Bearer "@ + personal_token@,
{
    let mut value = "Bearer ".to_owned();
    value.append(personal_token);
    value
}

/// Whether a request was answered with success: a status from 200 to 299.
pub open spec fn is_success(status: u16) -> bool {
    200 <= status < 300
}

/// Accepts the status of the answer to a read request, or fails with
/// `FetchFailed` and the status.
pub fn check_fetched(status: u16) -> (outcome: Result<(), SyncError>)
    ensures
        outcome == if is_success(status) {
            Ok::<(), SyncError>(())
        } else {
            Err::<(), SyncError>(SyncError::FetchFailed { status })
        },
{
    if 200 <= status && status < 300 {
        Ok(())
    } else {
        Err(SyncError::FetchFailed { status })
    }
}

/// Accepts the status of the answer to an update request, or fails with
/// `PutFailed` and the status.
pub fn check_put(status: u16) -> (outcome: Result<(), SyncError>)
    ensures
        outcome == if is_success(status) {
            Ok::<(), SyncError>(())
        } else {
            Err::<(), SyncError>(SyncError::PutFailed { status })
        },
{
    if 200 <= status && status < 300 {
        Ok(())
    } else {
        Err(SyncError::PutFailed { status })
    }
}

/// The calendar date on which a task is due: that of its due time in the
/// reference zone where it has one, else its due day.
pub open spec fn due_date(task: TaskView) -> Option<DateView> {
    match (task.due_on, task.due_at) {
        (_, Some(at)) => Some(date_at_offset(at.seconds, at.nanos, REFERENCE_OFFSET_HOURS as int)),
        (Some(on), None) => Some(on),
        (None, None) => None,
    }
}

/// The due value of the mirror of a task, where the task has a due date.
pub open spec fn due_text(task: TaskView) -> Option<Seq<char>> {
    match due_date(task) {
        Some(date) => Some(midnight_text(date)),
        None => None,
    }
}

/// The due value that the mirror of `atask` is given. Fails with
/// `MissingDue` where the task has neither a due day nor a due time.
pub fn asana_due_to_string(atask: &Task) -> (due: Result<String, SyncError>)
    ensures
        match due_text(atask@) {
            Some(text) => due matches Ok(s) && s@ == text,
            None => due == Err::<String, SyncError>(SyncError::MissingDue),
        },
{
    match (&atask.due_on, &atask.due_at) {
        (None, None) => Err(SyncError::MissingDue),
        (_, Some(due_at)) => Ok(timestamp_to_local_date(due_at)),
        (Some(due_on), None) => Ok(midnight_string(due_on)),
    }
}

} // verus!
