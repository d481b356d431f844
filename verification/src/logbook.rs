//! The logbook: a record of when each schedule was started and completed.

use chrono::Local;
use vstd::prelude::*;
use vstd::std_specs::convert::FromSpecImpl;

verus! {

/// What a record says, as mathematical values.
pub struct RecordModel {
    pub name: Seq<char>,
    pub started: Option<Seq<char>>,
    pub completed: Option<Seq<char>>,
}

/// The view of a time stamp that may be missing.
pub open spec fn stamp_view(stamp: Option<String>) -> Option<Seq<char>> {
    match stamp {
        Some(s) => Some(s@),
        None => None,
    }
}

/// A record of when a schedule was started and completed.
#[derive(Debug, PartialEq)]
pub struct Record {
    /// The name of the schedule this record tracks.
    pub name: String,
    /// The time when this schedule was started or `None` if it was not started.
    pub started: Option<String>,
    /// The time when this schedule was completed or `None` if it was not completed.
    pub completed: Option<String>,
}

impl View for Record {
    type V = RecordModel;

    open spec fn view(&self) -> RecordModel {
        RecordModel {
            name: self.name@,
            started: stamp_view(self.started),
            completed: stamp_view(self.completed),
        }
    }
}

/// A copy of a time stamp that may be missing.
fn clone_stamp(stamp: &Option<String>) -> (r: Option<String>)
    ensures
        stamp_view(r) == stamp_view(*stamp),
{
    match stamp {
        Some(s) => Some(s.clone()),
        None => None,
    }
}

impl Clone for Record {
    fn clone(&self) -> (r: Self)
        ensures
            r@ == self@,
    {
        Record {
            name: self.name.clone(),
            started: clone_stamp(&self.started),
            completed: clone_stamp(&self.completed),
        }
    }
}

impl Record {
    /// A record for the schedule of that name, neither started nor
    /// completed.
    pub fn new(name: String) -> (r: Record)
        ensures
            r == (Record { name, started: None, completed: None }),
    {
        Record { name, started: None, completed: None }
    }
}

impl From<&str> for Record {
    fn from(s: &str) -> (r: Record)
        ensures
            r@ == (RecordModel { name: s@, started: None, completed: None }),
    {
        Record::new(s.to_owned())
    }
}

impl FromSpecImpl<&str> for Record {
    open spec fn obeys_from_spec() -> bool {
        false
    }

    open spec fn from_spec(s: &str) -> Record {
        choose|r: Record| r@ == (RecordModel { name: s@, started: None, completed: None })
    }
}

impl From<String> for Record {
    fn from(s: String) -> (r: Record) {
        Record::new(s)
    }
}

impl FromSpecImpl<String> for Record {
    open spec fn obeys_from_spec() -> bool {
        true
    }

    open spec fn from_spec(s: String) -> Record {
        Record { name: s, started: None, completed: None }
    }
}

/// The models of a list of records, in order.
pub open spec fn record_models(v: Seq<Record>) -> Seq<RecordModel> {
    Seq::new(v.len(), |i: int| v[i]@)
}

/// The models of a list of borrowed records, in order.
pub open spec fn borrowed_models(v: Seq<&Record>) -> Seq<RecordModel> {
    Seq::new(v.len(), |i: int| v[i]@)
}

/// Where the latest record of the schedule of that name stands, if there is
/// one.
pub open spec fn most_recent(s: Seq<RecordModel>, name: Seq<char>) -> Option<int>
    decreases s.len(),
{
    if s.len() == 0 {
        None
    } else if s.last().name == name {
        Some(s.len() - 1)
    } else {
        most_recent(s.drop_last(), name)
    }
}

/// The records that were not completed, in the order of the list.
pub open spec fn incomplete(s: Seq<RecordModel>) -> Seq<RecordModel>
    decreases s.len(),
{
    if s.len() == 0 {
        Seq::empty()
    } else if s.last().completed is None {
        incomplete(s.drop_last()).push(s.last())
    } else {
        incomplete(s.drop_last())
    }
}

/// The list after the schedule of that name was started at `now`: one more
/// record, started and not completed.
pub open spec fn after_start(s: Seq<RecordModel>, name: Seq<char>, now: Seq<char>) -> Seq<
    RecordModel,
> {
    s.push(RecordModel { name, started: Some(now), completed: None })
}

/// Why a run cannot be marked as completed.
#[derive(Debug, Clone, Copy, PartialEq, Eq, Structural)]
pub enum LogbookError {
    /// The logbook holds no record of the schedule.
    NeverStarted,
    /// The latest record of the schedule has a completion time already.
    AlreadyCompleted,
}

impl LogbookError {
    /// The error in words.
    pub fn message(self) -> (r: &'static str)
        ensures
            r@ == (match self {
                LogbookError::NeverStarted => "never started"@,
                LogbookError::AlreadyCompleted => "already completed"@,
            }),
    {
        match self {
            LogbookError::NeverStarted => "never started",
            LogbookError::AlreadyCompleted => "already completed",
        }
    }
}

/// What marking the schedule of that name as completed at `now` does to
/// the list, or why it cannot be done: the latest record of that name gets
/// the completion time, unless there is none or it has one.
pub open spec fn after_completion(s: Seq<RecordModel>, name: Seq<char>, now: Seq<char>) -> Result<
    Seq<RecordModel>,
    LogbookError,
> {
    match most_recent(s, name) {
        None => Err(LogbookError::NeverStarted),
        Some(i) => if s[i].completed is Some {
            Err(LogbookError::AlreadyCompleted)
        } else {
            Ok(s.update(i, RecordModel { completed: Some(now), ..s[i] }))
        },
    }
}

/// The latest record of a name, where there is one, stands within the list,
/// has that name, and no later record has it.
pub proof fn lemma_most_recent_is_latest(s: Seq<RecordModel>, name: Seq<char>)
    ensures
        match most_recent(s, name) {
            Some(i) => 0 <= i < s.len() && s[i].name == name && forall|j: int|
                i < j < s.len() ==> (#[trigger] s[j]).name != name,
            None => forall|j: int| 0 <= j < s.len() ==> (#[trigger] s[j]).name != name,
        },
    decreases s.len(),
{
    if s.len() > 0 && s.last().name != name {
        let t = s.drop_last();
        lemma_most_recent_is_latest(t, name);
        assert forall|j: int| 0 <= j < t.len() implies t[j] == s[j] by {}
        match most_recent(t, name) {
            Some(i) => {
                assert forall|j: int| i < j < s.len() implies (#[trigger] s[j]).name != name by {
                    if j < t.len() {
                        assert(t[j].name != name);
                    }
                }
            },
            None => {
                assert forall|j: int| 0 <= j < s.len() implies (#[trigger] s[j]).name != name by {
                    if j < t.len() {
                        assert(t[j].name != name);
                    }
                }
            },
        }
    }
}

/// Records after `k` that have another name do not change which record is
/// the latest of `name`.
proof fn lemma_most_recent_skips(s: Seq<RecordModel>, name: Seq<char>, k: int)
    requires
        0 <= k <= s.len(),
        forall|j: int| k <= j < s.len() ==> (#[trigger] s[j]).name != name,
    ensures
        most_recent(s, name) == most_recent(s.take(k), name),
    decreases s.len(),
{
    if k == s.len() {
        assert(s.take(k) =~= s);
    } else {
        assert(s[s.len() - 1].name != name);
        lemma_most_recent_skips(s.drop_last(), name, k);
        assert(s.drop_last().take(k) =~= s.take(k));
    }
}

/// The records that the logbook caches.
#[derive(Debug, PartialEq)]
pub struct LogbookData {
    records: Vec<Record>,
}

impl View for LogbookData {
    type V = Seq<RecordModel>;

    closed spec fn view(&self) -> Seq<RecordModel> {
        record_models(self.records@)
    }
}

impl LogbookData {
    /// No records.
    pub fn new() -> (r: LogbookData)
        ensures
            r@.len() == 0,
    {
        LogbookData { records: Vec::new() }
    }

    /// The data that holds these records, in their order.
    pub fn from_records(records: Vec<Record>) -> (r: LogbookData)
        ensures
            r@ == record_models(records@),
    {
        LogbookData { records }
    }

    /// The records, oldest first.
    pub fn records(&self) -> (r: &[Record])
        ensures
            record_models(r@) == self@,
    {
        self.records.as_slice()
    }

    /// Where the latest record of the schedule of that name stands.
    fn most_recent_index(&self, name: &String) -> (r: Option<usize>)
        ensures
            match r {
                Some(i) => most_recent(self@, name@) == Some(i as int) && i < self.records@.len(),
                None => most_recent(self@, name@) is None,
            },
    {
        let ghost s = self@;
        let mut i: usize = self.records.len();
        while i > 0
            invariant
                i <= s.len(),
                s == self@,
                s == record_models(self.records@),
                forall|j: int| i <= j < s.len() ==> (#[trigger] s[j]).name != name@,
            decreases i,
        {
            i -= 1;
            if self.records[i].name == *name {
                proof {
                    lemma_most_recent_skips(s, name@, i + 1);
                    assert(s.take(i + 1).last() == s[i as int]);
                }
                return Some(i);
            }
        }
        proof {
            lemma_most_recent_skips(s, name@, 0);
        }
        None
    }

    /// Finds the most recent `Record` for a schedule by name.
    ///
    /// Returns `None` if there are no records for the given schedule.
    pub fn find_most_recent(&self, name: &String) -> (r: Option<&Record>)
        ensures
            match r {
                Some(record) => most_recent(self@, name@) matches Some(i) && record@ == self@[i],
                None => most_recent(self@, name@) is None,
            },
    {
        match self.most_recent_index(name) {
            Some(i) => Some(&self.records[i]),
            None => None,
        }
    }

    /// Finds the most recent `Record` for a schedule by name, to be changed
    /// in place.
    ///
    /// Returns `None` if there are no records for the given schedule.
    pub fn find_most_recent_mut(&mut self, name: &String) -> (r: Option<&mut Record>)
        ensures
            match r {
                Some(record) => most_recent(old(self)@, name@) matches Some(i) && record@ == old(
                    self,
                )@[i] && final(self)@ == old(self)@.update(i, final(record)@),
                None => most_recent(old(self)@, name@) is None && final(self)@ == old(self)@,
            },
    {
        match self.most_recent_index(name) {
            Some(i) => Some(&mut self.records[i]),
            None => None,
        }
    }
}

/// The current local time as chrono's `Local::now()` gives it, written in
/// the form of RFC 2822 by chrono's `DateTime::to_rfc2822`. Nothing is claimed
/// of the text. chrono gives up where the system clock stands before 1970 or
/// after the year 9999.
#[verifier::external_body]
fn local_time_rfc2822() -> String {
    Local::now().to_rfc2822()
}

/// Structure for tracking runs and completions of schedules.
#[derive(Debug)]
pub struct Logbook {
    cache: LogbookData,
}

impl View for Logbook {
    type V = Seq<RecordModel>;

    closed spec fn view(&self) -> Seq<RecordModel> {
        self.cache@
    }
}

impl Logbook {
    /// Create a new, empty logbook.
    pub fn new() -> (r: Logbook)
        ensures
            r@.len() == 0,
    {
        Logbook { cache: LogbookData::new() }
    }

    /// Marks the schedule as started at the time `now`.
    pub fn mark_started_at(&mut self, schedule_name: &String, now: String)
        ensures
            final(self)@ == after_start(old(self)@, schedule_name@, now@),
    {
        let mut new_record = Record::new(schedule_name.clone());
        new_record.started = Some(now);
        self.cache.records.push(new_record);
        assert(self@ =~= after_start(old(self)@, schedule_name@, now@));
    }

    /// Marks the schedule as started, recording the current time as the start time.
    pub fn mark_started(&mut self, schedule_name: &String)
        ensures
            exists|now: Seq<char>|
                final(self)@ == #[trigger] after_start(old(self)@, schedule_name@, now),
    {
        let now = local_time_rfc2822();
        self.mark_started_at(schedule_name, now);
    }

    /// Marks the schedule as completed at the time `now`. The latest record
    /// of the schedule gets the completion time; where there is none, or it
    /// has one already, the logbook stays as it is.
    pub fn mark_completed_at(&mut self, schedule_name: &String, now: String) -> (r: Result<
        (),
        LogbookError,
    >)
        ensures
            match after_completion(old(self)@, schedule_name@, now@) {
                Ok(s) => r is Ok && final(self)@ == s,
                Err(e) => r == Err::<(), LogbookError>(e) && final(self)@ == old(self)@,
            },
    {
        proof {
            lemma_most_recent_is_latest(self@, schedule_name@);
        }
        // Find the record for start time
        match self.cache.find_most_recent_mut(schedule_name) {
            Some(record) => {
                // Ensure it was not already marked as complete
                if record.completed.is_some() {
                    proof {
                        let i = most_recent(old(self)@, schedule_name@)->0;
                        assert(old(self)@.update(i, record@) =~= old(self)@);
                    }
                    return Err(LogbookError::AlreadyCompleted);
                }
                record.completed = Some(now);
                Ok(())
            },
            None => Err(LogbookError::NeverStarted),
        }
    }

    /// Marks the schedule as completed, recording the current time as the finish time.
    pub fn mark_completed(&mut self, schedule_name: &String) -> (r: Result<(), LogbookError>)
        ensures
            exists|now: Seq<char>|
                match #[trigger] after_completion(old(self)@, schedule_name@, now) {
                    Ok(s) => r is Ok && final(self)@ == s,
                    Err(e) => r == Err::<(), LogbookError>(e) && final(self)@ == old(self)@,
                },
    {
        let now = local_time_rfc2822();
        let ghost stamp = now@;
        let r = self.mark_completed_at(schedule_name, now);
        assert(after_completion(old(self)@, schedule_name@, stamp) is Ok ==> r is Ok);
        r
    }

    /// Initializes the in-memory records cache, usually on upstart.
    pub fn initialize(&mut self, data: LogbookData)
        ensures
            final(self)@ == data@,
    {
        self.cache = data;
    }

    /// The cached records, as they are to be written to storage.
    pub fn cache(&self) -> (r: &LogbookData)
        ensures
            r@ == self@,
    {
        &self.cache
    }

    /// Returns an iterator over the records.
    pub fn iter(&self) -> (r: Iter<'_>)
        ensures
            r.position() == 0,
            r.records() == self@,
    {
        Iter::new(self)
    }

    /// Returns the incomplete records, oldest first.
    pub fn iter_incomplete<'a>(&'a self) -> (r: Vec<&'a Record>)
        ensures
            borrowed_models(r@) == incomplete(self@),
    {
        let ghost s = self@;
        let records = &self.cache.records;
        let mut r: Vec<&'a Record> = Vec::new();
        let mut i: usize = 0;
        while i < records.len()
            invariant
                i <= records@.len(),
                s == record_models(records@),
                borrowed_models(r@) == incomplete(s.take(i as int)),
            decreases records@.len() - i,
        {
            let record = &records[i];
            proof {
                assert(s.take(i + 1).drop_last() =~= s.take(i as int));
                assert(s.take(i + 1).last() == record@);
            }
            if record.completed.is_none() {
                r.push(record);
                assert(borrowed_models(r@) =~= incomplete(s.take(i as int)).push(record@));
            }
            i += 1;
        }
        assert(s.take(i as int) =~= s);
        r
    }
}

/// A walk over the records of a logbook, oldest first.
pub struct Iter<'a> {
    data: &'a Logbook,
    i: usize,
}

impl<'a> Iter<'a> {
    /// How many records the walk has handed out.
    pub closed spec fn position(&self) -> nat {
        self.i as nat
    }

    /// The records that the walk goes over.
    pub closed spec fn records(&self) -> Seq<RecordModel> {
        self.data@
    }

    /// A walk that starts at the oldest record.
    pub fn new(data: &'a Logbook) -> (r: Iter<'a>)
        ensures
            r.position() == 0,
            r.records() == data@,
    {
        Iter { data, i: 0 }
    }

    /// Hands out the next record and steps on, or `None` once all records
    /// were handed out.
    pub fn next(&mut self) -> (r: Option<&'a Record>)
        ensures
            final(self).records() == old(self).records(),
            match r {
                Some(record) => old(self).position() < old(self).records().len() && record@ == old(
                    self,
                ).records()[old(self).position() as int] && final(self).position() == old(
                    self,
                ).position() + 1,
                None => old(self).position() >= old(self).records().len() && final(self).position()
                    == old(self).position(),
            },
    {
        let records = &self.data.cache.records;
        if self.i < records.len() {
            let r = &records[self.i];
            self.i += 1;
            Some(r)
        } else {
            None
        }
    }
}

} // verus!
