//! The persisted configuration: its version, the valves, and the schedules
//! kept sorted by name so that each name occurs once.

use crate::text::{lemma_lex_irreflexive, lemma_lex_total, lemma_lex_transitive, lex_less,
    str_equal, str_less};
use std::cmp::Ordering;
use vstd::prelude::*;
use vstd::std_specs::cmp::{PartialEqSpecImpl, PartialOrdSpecImpl};

verus! {

/// What a schedule says, as mathematical values.
pub struct ScheduleModel {
    pub name: Seq<char>,
    pub start_offset_min: u64,
    pub duration_min: u64,
    pub repeat_period_days: u64,
    pub valves: Seq<Seq<char>>,
}

/// The views of a list of strings, in order.
pub open spec fn names_of(v: Seq<String>) -> Seq<Seq<char>> {
    Seq::new(v.len(), |i: int| v[i]@)
}

/// A valve as it is persisted: its name and the GPIO pin that drives it.
#[derive(Debug, PartialEq)]
pub struct ValvePersist {
    pub name: String,
    pub pin: u64,
}

/// A schedule as it is persisted.
#[derive(Debug)]
pub struct SchedulePersist {
    pub name: String,
    pub start_offset_min: u64,
    pub duration_min: u64,
    pub repeat_period_days: u64,
    pub valves: Vec<String>,
}

impl View for SchedulePersist {
    type V = ScheduleModel;

    open spec fn view(&self) -> ScheduleModel {
        ScheduleModel {
            name: self.name@,
            start_offset_min: self.start_offset_min,
            duration_min: self.duration_min,
            repeat_period_days: self.repeat_period_days,
            valves: names_of(self.valves@),
        }
    }
}

/// A copy of a list of strings.
pub fn clone_names(v: &Vec<String>) -> (r: Vec<String>)
    ensures
        names_of(r@) == names_of(v@),
{
    let mut r: Vec<String> = Vec::new();
    let mut i: usize = 0;
    while i < v.len()
        invariant
            i <= v@.len(),
            r@.len() == i,
            forall|j: int| 0 <= j < i ==> r@[j]@ == v@[j]@,
        decreases v@.len() - i,
    {
        r.push(v[i].clone());
        i += 1;
    }
    assert(names_of(r@) =~= names_of(v@));
    r
}

impl Clone for SchedulePersist {
    fn clone(&self) -> (r: Self)
        ensures
            r@ == self@,
    {
        SchedulePersist {
            name: self.name.clone(),
            start_offset_min: self.start_offset_min,
            duration_min: self.duration_min,
            repeat_period_days: self.repeat_period_days,
            valves: clone_names(&self.valves),
        }
    }
}

/// Two persisted schedules are equal when they have the same name.
impl PartialEq for SchedulePersist {
    fn eq(&self, other: &Self) -> (r: bool) {
        str_equal(self.name.as_str(), other.name.as_str())
    }
}

impl PartialEqSpecImpl for SchedulePersist {
    open spec fn obeys_eq_spec() -> bool {
        true
    }

    open spec fn eq_spec(&self, other: &Self) -> bool {
        self.name@ == other.name@
    }
}

impl Eq for SchedulePersist {

}

/// Persisted schedules are ordered by their names.
impl PartialOrd for SchedulePersist {
    fn partial_cmp(&self, other: &Self) -> (r: Option<Ordering>) {
        if str_less(self.name.as_str(), other.name.as_str()) {
            Some(Ordering::Less)
        } else if str_equal(self.name.as_str(), other.name.as_str()) {
            Some(Ordering::Equal)
        } else {
            Some(Ordering::Greater)
        }
    }
}

impl PartialOrdSpecImpl for SchedulePersist {
    open spec fn obeys_partial_cmp_spec() -> bool {
        true
    }

    open spec fn partial_cmp_spec(&self, other: &Self) -> Option<Ordering> {
        if lex_less(self.name@, other.name@) {
            Some(Ordering::Less)
        } else if self.name@ == other.name@ {
            Some(Ordering::Equal)
        } else {
            Some(Ordering::Greater)
        }
    }
}

/// The models of a list of persisted schedules, in order.
pub open spec fn models_of(v: Seq<SchedulePersist>) -> Seq<ScheduleModel> {
    Seq::new(v.len(), |i: int| v[i]@)
}

/// Names strictly ascend along the list, so no name occurs twice.
pub open spec fn sorted_by_name(s: Seq<ScheduleModel>) -> bool {
    forall|i: int, j: int| 0 <= i < j < s.len() ==> lex_less(#[trigger] s[i].name, #[trigger] s[j].name)
}

/// How many schedules of the list have a name that comes before `name`. In a
/// sorted list this is where a schedule of that name stands or would stand.
pub open spec fn rank(s: Seq<ScheduleModel>, name: Seq<char>) -> int
    decreases s.len(),
{
    if s.len() == 0 {
        0
    } else {
        rank(s.drop_last(), name) + if lex_less(s.last().name, name) {
            1int
        } else {
            0int
        }
    }
}

/// Whether the list holds a schedule of that name.
pub open spec fn has_name(s: Seq<ScheduleModel>, name: Seq<char>) -> bool {
    exists|i: int| 0 <= i < s.len() && #[trigger] s[i].name == name
}

/// The list with `x` in place of the schedule of its name, or added at its
/// rank where the name is new.
pub open spec fn upsert(s: Seq<ScheduleModel>, x: ScheduleModel) -> Seq<ScheduleModel> {
    let k = rank(s, x.name);
    if k < s.len() && s[k].name == x.name {
        s.update(k, x)
    } else {
        s.insert(k, x)
    }
}

/// The list without the schedule of that name, if it holds one.
pub open spec fn without(s: Seq<ScheduleModel>, name: Seq<char>) -> Seq<ScheduleModel> {
    let k = rank(s, name);
    if k < s.len() && s[k].name == name {
        s.remove(k)
    } else {
        s
    }
}

/// The rank lies within the list's bounds.
pub proof fn lemma_rank_bounds(s: Seq<ScheduleModel>, name: Seq<char>)
    ensures
        0 <= rank(s, name) <= s.len(),
    decreases s.len(),
{
    if s.len() > 0 {
        lemma_rank_bounds(s.drop_last(), name);
    }
}

/// Where everything before `k` comes before `name` and nothing from `k` on
/// does, `k` is the rank of `name`.
pub proof fn lemma_rank_at_boundary(s: Seq<ScheduleModel>, name: Seq<char>, k: int)
    requires
        0 <= k <= s.len(),
        forall|i: int| 0 <= i < k ==> lex_less(#[trigger] s[i].name, name),
        forall|i: int| k <= i < s.len() ==> !lex_less(#[trigger] s[i].name, name),
    ensures
        rank(s, name) == k,
    decreases s.len(),
{
    if s.len() > 0 {
        let t = s.drop_last();
        assert forall|i: int| 0 <= i < t.len() implies t[i] == s[i] by {}
        if k == s.len() {
            assert(lex_less(s[k - 1].name, name));
            lemma_rank_at_boundary(t, name, k - 1);
        } else {
            assert(!lex_less(s[s.len() - 1].name, name));
            lemma_rank_at_boundary(t, name, k);
        }
    }
}

/// In a sorted list the rank of `name` splits it: the names before the rank
/// come before `name`, the others do not.
pub proof fn lemma_rank_splits(s: Seq<ScheduleModel>, name: Seq<char>)
    requires
        sorted_by_name(s),
    ensures
        0 <= rank(s, name) <= s.len(),
        forall|i: int| 0 <= i < rank(s, name) ==> lex_less(#[trigger] s[i].name, name),
        forall|i: int| rank(s, name) <= i < s.len() ==> !lex_less(#[trigger] s[i].name, name),
    decreases s.len(),
{
    if s.len() > 0 {
        let t = s.drop_last();
        let n = s.len() - 1;
        assert forall|i: int| 0 <= i < t.len() implies t[i] == s[i] by {}
        assert(sorted_by_name(t));
        lemma_rank_splits(t, name);
        lemma_rank_bounds(t, name);
        if lex_less(s[n].name, name) {
            assert forall|i: int| 0 <= i < n implies lex_less(#[trigger] s[i].name, name) by {
                lemma_lex_transitive(s[i].name, s[n].name, name);
            }
            lemma_rank_at_boundary(t, name, n);
        }
    }
}

/// A sorted list holds `name` exactly when the schedule at its rank has it.
pub proof fn lemma_has_name_at_rank(s: Seq<ScheduleModel>, name: Seq<char>)
    requires
        sorted_by_name(s),
    ensures
        has_name(s, name) <==> (rank(s, name) < s.len() && s[rank(s, name)].name == name),
{
    lemma_rank_splits(s, name);
    let k = rank(s, name);
    if has_name(s, name) {
        let i = choose|i: int| 0 <= i < s.len() && #[trigger] s[i].name == name;
        lemma_lex_irreflexive(name);
        if i < k {
            assert(lex_less(s[i].name, name));
        }
        if i > k {
            assert(lex_less(s[k].name, s[i].name));
            assert(!lex_less(s[k].name, name));
        }
    }
}

/// Putting a schedule into a sorted list leaves the list sorted.
pub proof fn lemma_upsert_keeps_sorted(s: Seq<ScheduleModel>, x: ScheduleModel)
    requires
        sorted_by_name(s),
    ensures
        sorted_by_name(upsert(s, x)),
{
    lemma_rank_splits(s, x.name);
    let k = rank(s, x.name);
    let r = upsert(s, x);
    if k < s.len() && s[k].name == x.name {
        assert forall|i: int, j: int| 0 <= i < j < r.len() implies lex_less(
            #[trigger] r[i].name,
            #[trigger] r[j].name,
        ) by {
            assert(r[i].name == s[i].name);
            assert(r[j].name == s[j].name);
        }
    } else {
        assert forall|i: int| k <= i < s.len() implies lex_less(x.name, #[trigger] s[i].name) by {
            lemma_lex_total(x.name, s[i].name);
            if s[i].name == x.name {
                lemma_has_name_at_rank(s, x.name);
            }
        }
        assert forall|i: int, j: int| 0 <= i < j < r.len() implies lex_less(
            #[trigger] r[i].name,
            #[trigger] r[j].name,
        ) by {
            if j < k {
                assert(r[i] == s[i] && r[j] == s[j]);
            } else if j == k {
                assert(r[i] == s[i] && r[j] == x);
            } else if i < k {
                assert(r[i] == s[i] && r[j] == s[j - 1]);
            } else if i == k {
                assert(r[i] == x && r[j] == s[j - 1]);
            } else {
                assert(r[i] == s[i - 1] && r[j] == s[j - 1]);
            }
        }
    }
}

/// Taking a schedule out of a sorted list leaves the list sorted.
pub proof fn lemma_without_keeps_sorted(s: Seq<ScheduleModel>, name: Seq<char>)
    requires
        sorted_by_name(s),
    ensures
        sorted_by_name(without(s, name)),
{
    lemma_rank_bounds(s, name);
    let k = rank(s, name);
    let r = without(s, name);
    if k < s.len() && s[k].name == name {
        assert forall|i: int, j: int| 0 <= i < j < r.len() implies lex_less(
            #[trigger] r[i].name,
            #[trigger] r[j].name,
        ) by {
            let si = if i < k { i } else { i + 1 };
            let sj = if j < k { j } else { j + 1 };
            assert(r[i] == s[si] && r[j] == s[sj]);
        }
    }
}

/// What a persisted valve says, as mathematical values.
pub struct ValveModel {
    pub name: Seq<char>,
    pub pin: u64,
}

impl View for ValvePersist {
    type V = ValveModel;

    open spec fn view(&self) -> ValveModel {
        ValveModel { name: self.name@, pin: self.pin }
    }
}

/// What a persisted configuration says, as mathematical values.
pub struct ConfigModel {
    pub version: Seq<char>,
    pub valves: Seq<ValveModel>,
    pub schedules: Seq<ScheduleModel>,
}

/// The configuration that is kept on persistent storage.
#[derive(Debug, PartialEq)]
pub struct ConfigPersist {
    version: String,
    valves: Vec<ValvePersist>,
    /// All configured schedules, sorted by name
    schedules: Vec<SchedulePersist>,
}

impl View for ConfigPersist {
    type V = ConfigModel;

    closed spec fn view(&self) -> ConfigModel {
        ConfigModel {
            version: self.version@,
            valves: Seq::new(self.valves@.len(), |i: int| self.valves@[i]@),
            schedules: models_of(self.schedules@),
        }
    }
}

/// Whether the names strictly ascend along the list.
fn ascending(schedules: &Vec<SchedulePersist>) -> (r: bool)
    ensures
        r == sorted_by_name(models_of(schedules@)),
{
    let ghost s = models_of(schedules@);
    let mut i: usize = 1;
    while i < schedules.len()
        invariant
            1 <= i,
            s == models_of(schedules@),
            forall|a: int, b: int|
                0 <= a < b < i && b < s.len() ==> lex_less(#[trigger] s[a].name, #[trigger] s[b].name),
        decreases schedules@.len() - i,
    {
        if !str_less(schedules[i - 1].name.as_str(), schedules[i].name.as_str()) {
            assert(!lex_less(s[i - 1].name, s[i as int].name));
            return false;
        }
        assert forall|a: int, b: int| 0 <= a < b < i + 1 && b < s.len() implies lex_less(
            #[trigger] s[a].name,
            #[trigger] s[b].name,
        ) by {
            if b == i && a < i - 1 {
                lemma_lex_transitive(s[a].name, s[i - 1].name, s[b].name);
            }
        }
        i += 1;
    }
    true
}

impl ConfigPersist {
    /// The schedules are sorted by name.
    pub open spec fn well_formed(&self) -> bool {
        sorted_by_name(self@.schedules)
    }

    /// Creates a new, empty persist cache.
    pub fn new(version: String) -> (r: ConfigPersist)
        ensures
            r@.version == version@,
            r@.valves.len() == 0,
            r@.schedules.len() == 0,
            r.well_formed(),
    {
        ConfigPersist { version, valves: Vec::new(), schedules: Vec::new() }
    }

    /// Puts a configuration together from its parts, as read back from
    /// storage. The schedules must come sorted by name, else there is no
    /// configuration.
    pub fn from_parts(
        version: String,
        valves: Vec<ValvePersist>,
        schedules: Vec<SchedulePersist>,
    ) -> (r: Option<ConfigPersist>)
        ensures
            r is Some <==> sorted_by_name(models_of(schedules@)),
            r matches Some(c) ==> c.well_formed() && c@ == (ConfigModel {
                version: version@,
                valves: Seq::new(valves@.len(), |i: int| valves@[i]@),
                schedules: models_of(schedules@),
            }),
    {
        if ascending(&schedules) {
            Some(ConfigPersist { version, valves, schedules })
        } else {
            None
        }
    }

    /// The version of the configuration's format.
    pub fn version(&self) -> (r: &str)
        ensures
            r@ == self@.version,
    {
        self.version.as_str()
    }

    /// The configured valves, in the order in which they are stored.
    pub fn valves(&self) -> (r: &[ValvePersist])
        ensures
            r@.len() == self@.valves.len(),
            forall|i: int| 0 <= i < r@.len() ==> r@[i]@ == self@.valves[i],
    {
        self.valves.as_slice()
    }

    /// Finds by binary search where a schedule of that name stands or would
    /// stand, and whether one stands there.
    fn locate(&self, name: &str) -> (r: (usize, bool))
        requires
            self.well_formed(),
        ensures
            r.0 == rank(self@.schedules, name@),
            r.0 <= self@.schedules.len(),
            r.1 == has_name(self@.schedules, name@),
            r.1 ==> r.0 < self@.schedules.len() && self@.schedules[r.0 as int].name == name@,
    {
        let ghost s = self@.schedules;
        let mut lo: usize = 0;
        let mut hi: usize = self.schedules.len();
        while lo < hi
            invariant
                0 <= lo <= hi <= s.len(),
                s == self@.schedules,
                s == models_of(self.schedules@),
                sorted_by_name(s),
                forall|i: int| 0 <= i < lo ==> lex_less(#[trigger] s[i].name, name@),
                forall|i: int| hi <= i < s.len() ==> !lex_less(#[trigger] s[i].name, name@),
            decreases hi - lo,
        {
            let mid = lo + (hi - lo) / 2;
            if str_less(self.schedules[mid].name.as_str(), name) {
                assert forall|i: int| 0 <= i < mid + 1 implies lex_less(
                    #[trigger] s[i].name,
                    name@,
                ) by {
                    if i < mid {
                        lemma_lex_transitive(s[i].name, s[mid as int].name, name@);
                    }
                }
                lo = mid + 1;
            } else {
                assert forall|i: int| mid <= i < s.len() implies !lex_less(
                    #[trigger] s[i].name,
                    name@,
                ) by {
                    if i > mid && lex_less(s[i].name, name@) {
                        lemma_lex_transitive(s[mid as int].name, s[i].name, name@);
                    }
                }
                hi = mid;
            }
        }
        proof {
            lemma_rank_at_boundary(s, name@, lo as int);
            lemma_has_name_at_rank(s, name@);
        }
        let found = lo < self.schedules.len() && str_equal(self.schedules[lo].name.as_str(), name);
        (lo, found)
    }

    /// Adds a schedule, or puts it in the place of the one with the same name.
    pub fn create_or_replace_schedule(&mut self, schedule: SchedulePersist)
        requires
            old(self).well_formed(),
        ensures
            final(self).well_formed(),
            final(self)@ == (ConfigModel {
                schedules: upsert(old(self)@.schedules, schedule@),
                ..old(self)@
            }),
    {
        let ghost before = self@.schedules;
        let (idx, found) = self.locate(schedule.name.as_str());
        if found {
            // Exists, replace the entry
            self.schedules.set(idx, schedule);
        } else {
            // New entry, the index is where it can be inserted to maintain sorted
            self.schedules.insert(idx, schedule);
        }
        proof {
            assert(self@.schedules =~= upsert(before, schedule@));
            lemma_upsert_keeps_sorted(before, schedule@);
        }
    }

    /// Remove the schedule by name if it exists.
    pub fn delete_schedule(&mut self, name: &str)
        requires
            old(self).well_formed(),
        ensures
            final(self).well_formed(),
            final(self)@ == (ConfigModel {
                schedules: without(old(self)@.schedules, name@),
                ..old(self)@
            }),
    {
        let ghost before = self@.schedules;
        let (idx, found) = self.locate(name);
        if found {
            self.schedules.remove(idx);
        }
        proof {
            assert(self@.schedules =~= without(before, name@));
            lemma_without_keeps_sorted(before, name@);
        }
    }

    /// The schedules in the order of their names.
    pub fn iter_schedules(&self) -> (r: &[SchedulePersist])
        ensures
            models_of(r@) == self@.schedules,
    {
        self.schedules.as_slice()
    }
}

} // verus!
