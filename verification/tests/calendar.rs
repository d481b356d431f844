use irrigation::calendar::{Calendar, Schedule};
use irrigation::config_persist::{ConfigPersist, SchedulePersist};

fn any_schedule(name: &String) -> Schedule {
    Schedule {
        name: name.clone(),
        start_offset_min: 1440,
        duration_min: 60,
        repeat_period_days: 3,
        valves: Vec::new(),
    }
}

#[test]
fn create_and_list_new_schedule() {
    let mut c = Calendar::new();
    let schedule_name = String::from("test schedule");
    let new_schedule = any_schedule(&schedule_name);

    c.create_or_replace_schedule(new_schedule.clone());

    assert!(c.list().iter().find(|s| schedule_name == s.name).is_some());
}

#[test]
fn delete_schedule() {
    let mut c = Calendar::new();
    let schedule_name = String::from("test schedule");
    let new_schedule = any_schedule(&schedule_name);

    c.create_or_replace_schedule(new_schedule.clone());
    assert!(c.list().len() == 1);
    assert!(c.list().iter().find(|s| schedule_name == s.name).is_some());

    c.delete_schedule(&schedule_name);
    assert!(c.list().is_empty());
    assert!(c.list().iter().find(|s| schedule_name == s.name).is_none());
}

#[test]
fn create_syncs() {
    let mut c = Calendar::new();
    let schedule_name = String::from("test schedule");
    let new_schedule = any_schedule(&schedule_name);

    c.create_or_replace_schedule(new_schedule.clone());

    let p = c.cache();

    assert!(p.iter_schedules().iter().find(|s| s.name == schedule_name).is_some());
    assert_eq!(p.version(), "0.1");
}

#[test]
fn delete_syncs() {
    let mut c = Calendar::new();
    let schedule_name = String::from("test schedule");
    let new_schedule = any_schedule(&schedule_name);

    c.create_or_replace_schedule(new_schedule.clone());
    assert!(c.cache().iter_schedules().len() == 1);

    c.delete_schedule(&schedule_name);

    let p = c.cache();
    assert!(p.iter_schedules().iter().find(|s| s.name == schedule_name).is_none());
    assert!(p.iter_schedules().is_empty());
}

#[test]
fn list_is_in_the_order_of_the_names_and_keeps_every_field() {
    let mut c = Calendar::new();
    for (name, duration_min) in [("trees", 5), ("beds", 6), ("lawn", 7), ("beds", 8)] {
        c.create_or_replace_schedule(Schedule {
            name: String::from(name),
            start_offset_min: 1440,
            duration_min,
            repeat_period_days: 3,
            valves: vec![String::from("front")],
        });
    }
    let listed = c.list();
    let names: Vec<&str> = listed.iter().map(|s| s.name.as_str()).collect();
    assert_eq!(names, vec!["beds", "lawn", "trees"]);
    assert_eq!(listed[0].duration_min, 8);
    assert_eq!(listed[0].start_offset_min, 1440);
    assert_eq!(listed[0].repeat_period_days, 3);
    assert_eq!(listed[0].valves, vec!["front"]);
}

#[test]
fn initialize_replaces_the_cache() {
    let mut c = Calendar::new();
    c.create_or_replace_schedule(any_schedule(&String::from("old")));
    let stored = vec![SchedulePersist {
        name: String::from("new"),
        start_offset_min: 1,
        duration_min: 2,
        repeat_period_days: 3,
        valves: Vec::new(),
    }];
    let data = ConfigPersist::from_parts(String::from("0.3"), Vec::new(), stored).expect("sorted");
    c.initialize(data);
    let listed = c.list();
    assert_eq!(listed.len(), 1);
    assert_eq!(listed[0].name, "new");
    assert_eq!(c.cache().version(), "0.3");
}

#[test]
fn schedules_convert_to_and_from_their_persisted_form() {
    let schedule = Schedule {
        name: String::from("beds"),
        start_offset_min: 1,
        duration_min: 2,
        repeat_period_days: 3,
        valves: vec![String::from("front")],
    };
    let persisted = SchedulePersist::from(schedule.clone());
    assert_eq!(persisted.name, "beds");
    assert_eq!(persisted.start_offset_min, 1);
    assert_eq!(persisted.duration_min, 2);
    assert_eq!(persisted.repeat_period_days, 3);
    assert_eq!(persisted.valves, vec!["front"]);
    let back = Schedule::from(persisted);
    assert_eq!(back.name, schedule.name);
    assert_eq!(back.start_offset_min, 1);
    assert_eq!(back.duration_min, 2);
    assert_eq!(back.repeat_period_days, 3);
    assert_eq!(back.valves, schedule.valves);
}
