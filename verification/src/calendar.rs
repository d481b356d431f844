//! The calendar: the named schedules that are configured, held in the
//! persisted configuration.

use crate::config_persist::{models_of, names_of, upsert, without, ConfigModel, ConfigPersist,
    ScheduleModel, SchedulePersist};
use vstd::prelude::*;
use vstd::std_specs::convert::FromSpecImpl;

verus! {

/// When a set of valves runs: from an offset into the day, for a duration,
/// every so many days.
#[derive(Debug)]
pub struct Schedule {
    pub name: String,
    pub start_offset_min: u64,
    pub duration_min: u64,
    pub repeat_period_days: u64,
    pub valves: Vec<String>,
}

impl View for Schedule {
    type V = ScheduleModel;

    open spec fn view(&self) -> ScheduleModel {
        ScheduleModel {
            name: self.name@,
            start_offset_min: self.start_offset_min,
            duration_min: self.duration_min,
            repeat_period_days: self.repeat_period_days,
            valves: names_of(self.valves@),
        }
    }
}

impl Clone for Schedule {
    fn clone(&self) -> (r: Self)
        ensures
            r@ == self@,
    {
        Schedule {
            name: self.name.clone(),
            start_offset_min: self.start_offset_min,
            duration_min: self.duration_min,
            repeat_period_days: self.repeat_period_days,
            valves: crate::config_persist::clone_names(&self.valves),
        }
    }
}

impl From<SchedulePersist> for Schedule {
    fn from(p: SchedulePersist) -> (r: Schedule) {
        Schedule {
            name: p.name,
            start_offset_min: p.start_offset_min,
            duration_min: p.duration_min,
            repeat_period_days: p.repeat_period_days,
            valves: p.valves,
        }
    }
}

impl FromSpecImpl<SchedulePersist> for Schedule {
    open spec fn obeys_from_spec() -> bool {
        true
    }

    open spec fn from_spec(p: SchedulePersist) -> Schedule {
        Schedule {
            name: p.name,
            start_offset_min: p.start_offset_min,
            duration_min: p.duration_min,
            repeat_period_days: p.repeat_period_days,
            valves: p.valves,
        }
    }
}

impl From<Schedule> for SchedulePersist {
    fn from(p: Schedule) -> (r: SchedulePersist) {
        SchedulePersist {
            name: p.name,
            start_offset_min: p.start_offset_min,
            duration_min: p.duration_min,
            repeat_period_days: p.repeat_period_days,
            valves: p.valves,
        }
    }
}

impl FromSpecImpl<Schedule> for SchedulePersist {
    open spec fn obeys_from_spec() -> bool {
        true
    }

    open spec fn from_spec(p: Schedule) -> SchedulePersist {
        SchedulePersist {
            name: p.name,
            start_offset_min: p.start_offset_min,
            duration_min: p.duration_min,
            repeat_period_days: p.repeat_period_days,
            valves: p.valves,
        }
    }
}

/// The models of a list of schedules, in order.
pub open spec fn schedule_models(v: Seq<Schedule>) -> Seq<ScheduleModel> {
    Seq::new(v.len(), |i: int| v[i]@)
}

/// The configured schedules, cached in memory in the form in which they are
/// persisted.
#[derive(Debug)]
pub struct Calendar {
    cache: ConfigPersist,
}

impl View for Calendar {
    type V = ConfigModel;

    closed spec fn view(&self) -> ConfigModel {
        self.cache@
    }
}

impl Calendar {
    /// The cached configuration keeps its schedules sorted by name.
    pub closed spec fn well_formed(&self) -> bool {
        self.cache.well_formed()
    }

    /// Creates a new, empty Calendar.
    pub fn new() -> (r: Calendar)
        ensures
            r.well_formed(),
            r@.version == "0.1"@,
            r@.valves.len() == 0,
            r@.schedules.len() == 0,
    {
        Calendar { cache: ConfigPersist::new("0.1".to_owned()) }
    }

    /// Add a new schedule or overwrite an existing one with the same name
    pub fn create_or_replace_schedule(&mut self, schedule: Schedule)
        requires
            old(self).well_formed(),
        ensures
            final(self).well_formed(),
            final(self)@ == (ConfigModel {
                schedules: upsert(old(self)@.schedules, schedule@),
                ..old(self)@
            }),
    {
        let persisted = SchedulePersist::from(schedule);
        self.cache.create_or_replace_schedule(persisted);
    }

    /// Removes the schedule of that name, if there is one.
    pub fn delete_schedule(&mut self, name: &str)
        requires
            old(self).well_formed(),
        ensures
            final(self).well_formed(),
            final(self)@ == (ConfigModel {
                schedules: without(old(self)@.schedules, name@),
                ..old(self)@
            }),
    {
        self.cache.delete_schedule(name);
    }

    /// The schedules, in the order of their names.
    pub fn list(&self) -> (r: Vec<Schedule>)
        ensures
            schedule_models(r@) == self@.schedules,
    {
        let stored = self.cache.iter_schedules();
        let mut r: Vec<Schedule> = Vec::new();
        let mut i: usize = 0;
        while i < stored.len()
            invariant
                i <= stored@.len(),
                r@.len() == i,
                forall|j: int| 0 <= j < i ==> r@[j]@ == stored@[j]@,
            decreases stored@.len() - i,
        {
            r.push(Schedule::from(stored[i].clone()));
            i += 1;
        }
        assert(schedule_models(r@) =~= models_of(stored@));
        r
    }

    /// Replaces the cached configuration by one that was read back from
    /// storage.
    pub fn initialize(&mut self, data: ConfigPersist)
        requires
            data.well_formed(),
        ensures
            final(self).well_formed(),
            final(self)@ == data@,
    {
        self.cache = data;
    }

    /// The cached configuration, as it is to be written to storage.
    pub fn cache(&self) -> (r: &ConfigPersist)
        ensures
            r.well_formed() == self.well_formed(),
            r@ == self@,
    {
        &self.cache
    }
}

} // verus!
