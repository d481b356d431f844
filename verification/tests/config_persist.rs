use irrigation::config_persist::{clone_names, ConfigPersist, SchedulePersist, ValvePersist};
use std::cmp::Ordering;

fn schedule(name: &str, duration_min: u64) -> SchedulePersist {
    SchedulePersist {
        name: String::from(name),
        start_offset_min: 30,
        duration_min,
        repeat_period_days: 1,
        valves: vec![String::from("front"), String::from("back")],
    }
}

fn names(config: &ConfigPersist) -> Vec<String> {
    config.iter_schedules().iter().map(|s| s.name.clone()).collect()
}

#[test]
fn new_config_is_empty() {
    let config = ConfigPersist::new(String::from("0.1"));
    assert_eq!(config.version(), "0.1");
    assert!(config.valves().is_empty());
    assert!(config.iter_schedules().is_empty());
}

#[test]
fn schedules_are_kept_sorted_by_name() {
    let mut config = ConfigPersist::new(String::from("0.1"));
    for name in ["lawn", "beds", "trees", "hedge", "", "lawns", "Lawn"] {
        config.create_or_replace_schedule(schedule(name, 10));
    }
    assert_eq!(names(&config), vec!["", "Lawn", "beds", "hedge", "lawn", "lawns", "trees"]);
}

#[test]
fn names_are_ordered_by_code_point() {
    let mut config = ConfigPersist::new(String::from("0.1"));
    for name in ["\u{e9}t\u{e9}", "z", "\u{1f4a7}", "a", "\u{4e2d}"] {
        config.create_or_replace_schedule(schedule(name, 10));
    }
    assert_eq!(names(&config), vec!["a", "z", "\u{e9}t\u{e9}", "\u{4e2d}", "\u{1f4a7}"]);
}

#[test]
fn schedule_of_the_same_name_is_replaced() {
    let mut config = ConfigPersist::new(String::from("0.1"));
    config.create_or_replace_schedule(schedule("beds", 10));
    config.create_or_replace_schedule(schedule("lawn", 20));
    config.create_or_replace_schedule(schedule("beds", 30));
    assert_eq!(names(&config), vec!["beds", "lawn"]);
    assert_eq!(config.iter_schedules()[0].duration_min, 30);
    assert_eq!(config.iter_schedules()[1].duration_min, 20);
    assert_eq!(config.iter_schedules()[0].valves, vec!["front", "back"]);
}

#[test]
fn deleting_takes_out_the_named_schedule_only() {
    let mut config = ConfigPersist::new(String::from("0.1"));
    for name in ["a", "b", "c"] {
        config.create_or_replace_schedule(schedule(name, 10));
    }
    config.delete_schedule("b");
    assert_eq!(names(&config), vec!["a", "c"]);
    config.delete_schedule("b");
    config.delete_schedule("bb");
    config.delete_schedule("");
    assert_eq!(names(&config), vec!["a", "c"]);
    config.delete_schedule("a");
    config.delete_schedule("c");
    assert!(config.iter_schedules().is_empty());
}

#[test]
fn parts_must_come_sorted() {
    let valves = vec![ValvePersist { name: String::from("front"), pin: 17 }];
    let sorted = vec![schedule("a", 1), schedule("b", 2)];
    let config = ConfigPersist::from_parts(String::from("0.2"), valves, sorted).expect("sorted");
    assert_eq!(config.version(), "0.2");
    assert_eq!(config.valves(), &[ValvePersist { name: String::from("front"), pin: 17 }][..]);
    assert_eq!(names(&config), vec!["a", "b"]);

    let unsorted = vec![schedule("b", 1), schedule("a", 2)];
    assert!(ConfigPersist::from_parts(String::from("0.2"), Vec::new(), unsorted).is_none());
    let repeated = vec![schedule("a", 1), schedule("a", 2)];
    assert!(ConfigPersist::from_parts(String::from("0.2"), Vec::new(), repeated).is_none());
    let late = vec![schedule("a", 1), schedule("c", 2), schedule("b", 3)];
    assert!(ConfigPersist::from_parts(String::from("0.2"), Vec::new(), late).is_none());
    assert!(ConfigPersist::from_parts(String::from("0.2"), Vec::new(), Vec::new()).is_some());
}

#[test]
fn persisted_schedules_compare_by_name() {
    assert!(schedule("a", 1) == schedule("a", 2));
    assert!(schedule("a", 1) != schedule("b", 1));
    assert_eq!(schedule("a", 1).partial_cmp(&schedule("b", 1)), Some(Ordering::Less));
    assert_eq!(schedule("b", 1).partial_cmp(&schedule("a", 9)), Some(Ordering::Greater));
    assert_eq!(schedule("a", 1).partial_cmp(&schedule("a", 9)), Some(Ordering::Equal));
    assert!(schedule("ab", 1) > schedule("a", 1));
}

#[test]
fn copies_keep_every_field() {
    let first = schedule("beds", 45);
    let copy = first.clone();
    assert_eq!(copy.name, "beds");
    assert_eq!(copy.start_offset_min, 30);
    assert_eq!(copy.duration_min, 45);
    assert_eq!(copy.repeat_period_days, 1);
    assert_eq!(copy.valves, first.valves);
    assert_eq!(clone_names(&first.valves), vec!["front", "back"]);
}
