use kim_temp::work::{
    copy_unit, is_system_unit, rank_by_cpu_time, select_listed, select_waking, summarize,
    take_first, total_wakeups, WorkUnit, HIGH_WAKEUPS, LIST_LIMIT,
};

fn unit(name: &str, cpu_time: i64, wakeups: i64) -> WorkUnit {
    WorkUnit { name: name.to_string(), cpu_time, wakeups }
}

fn names(units: &[WorkUnit]) -> Vec<&str> {
    units.iter().map(|u| u.name.as_str()).collect()
}

#[test]
fn ranking_is_descending_and_stable() {
    let units = [
        unit("a", 5_000, 0),
        unit("b", 9_000, 0),
        unit("c", 5_000, 0),
        unit("d", 1_000, 0),
        unit("e", 9_000, 0),
        unit("f", 5_000, 0),
    ];
    let ranked = rank_by_cpu_time(&units);
    assert_eq!(names(&ranked), ["b", "e", "a", "c", "f", "d"]);
    assert_eq!(ranked.len(), units.len());
    assert!(rank_by_cpu_time(&[]).is_empty());
    assert_eq!(rank_by_cpu_time(&units[..1]), vec![units[0].clone()]);
}

#[test]
fn ranking_handles_the_ends_of_the_range() {
    let units = [unit("low", i64::MIN, 0), unit("high", i64::MAX, 0), unit("zero", 0, 0)];
    assert_eq!(names(&rank_by_cpu_time(&units)), ["high", "zero", "low"]);
}

#[test]
fn first_units() {
    let units = [unit("a", 3, 0), unit("b", 2, 0), unit("c", 1, 0)];
    assert_eq!(names(&take_first(&units, 2)), ["a", "b"]);
    assert_eq!(names(&take_first(&units, 3)), ["a", "b", "c"]);
    assert_eq!(names(&take_first(&units, 7)), ["a", "b", "c"]);
    assert!(take_first(&units, 0).is_empty());
    assert!(take_first(&[], 5).is_empty());
}

#[test]
fn waking_units_are_above_the_bound() {
    let units = [unit("a", 0, 50_000), unit("b", 0, 50_001), unit("c", 0, -1), unit("d", 0, 90_000)];
    assert_eq!(names(&select_waking(&units, HIGH_WAKEUPS)), ["b", "d"]);
    assert_eq!(names(&select_waking(&units, -2)), ["a", "b", "c", "d"]);
    assert!(select_waking(&units, i64::MAX).is_empty());
}

#[test]
fn system_units_are_not_listed() {
    for name in ["kernel_task", "powerd", "powermetrics", "launchd"] {
        assert!(is_system_unit(&name.to_string()));
    }
    for name in ["kernel_tas", "kernel_task2", "Powerd", "", "launch", "editor"] {
        assert!(!is_system_unit(&name.to_string()));
    }
    let units = [unit("launchd", 1, 1), unit("editor", 2, 2), unit("powerd", 3, 3)];
    assert_eq!(names(&select_listed(&units)), ["editor"]);
}

#[test]
fn wakeups_are_summed_over_all_units() {
    let units = [unit("launchd", 1, 1_500), unit("editor", 2, 2_500), unit("x", 3, -1_000)];
    assert_eq!(total_wakeups(&units), 3_000);
    assert_eq!(total_wakeups(&[]), 0);
    let big = [unit("a", 0, i64::MAX), unit("b", 0, i64::MAX), unit("c", 0, i64::MAX)];
    assert_eq!(total_wakeups(&big), 3 * (i64::MAX as i128));
}

#[test]
fn copy_is_equal() {
    let first = unit("editor", 12_000, 60_000);
    assert_eq!(copy_unit(&first), first);
}

#[test]
fn summary_of_one_sample() {
    assert_eq!(LIST_LIMIT, 5);
    assert_eq!(HIGH_WAKEUPS, 50_000);
    let units = [
        unit("kernel_task", 900_000, 800_000),
        unit("editor", 12_000, 60_000),
        unit("browser", 30_000, 10_000),
        unit("mail", 2_000, 55_000),
        unit("music", 8_000, 51_000),
        unit("chat", 12_000, 70_000),
        unit("sync", 1_000, 200_000),
        unit("index", 500, 99_000),
        unit("clock", 100, 50_000),
        unit("backup", 50, 75_000),
        unit("launchd", 700, 1_000),
    ];
    let summary = summarize(&units);
    assert_eq!(summary.wakeups, 1_471_000);
    assert_eq!(names(&summary.top_cpu), ["browser", "editor", "chat", "music", "mail"]);
    // By processor time, and only the first five of those that wake often.
    assert_eq!(names(&summary.high_wakeups), ["editor", "chat", "music", "mail", "sync"]);

    let empty = summarize(&[]);
    assert_eq!(empty.wakeups, 0);
    assert!(empty.top_cpu.is_empty());
    assert!(empty.high_wakeups.is_empty());
}
