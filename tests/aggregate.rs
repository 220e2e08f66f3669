use time_tracking::aggregate::{breakdown_by_project, calculate_entries_duration, entry_duration, group_by_calendar_day};
use time_tracking::db::{Project, TimeEntry};

// 2024-01-15T10:00:00Z, a Monday
const T0: i64 = 1_705_312_800;
const DAY: i64 = 86_400;

fn entry(id: i64, project_id: Option<i64>, start: i64, end: Option<i64>) -> TimeEntry {
    TimeEntry { id, project_id, description: format!("e{}", id), start_time: start, end_time: end, created_at: start }
}

fn project(id: i64, name: &str, color: &str) -> Project {
    Project { id, name: name.to_string(), color: color.to_string(), created_at: 0 }
}

#[test]
fn weekly_aggregation() {
    let entries = vec![
        entry(1, Some(1), T0, Some(T0 + 3600)),
        entry(2, Some(2), T0 + DAY, Some(T0 + DAY + 1800)),
        entry(3, Some(2), T0 + 2 * DAY, Some(T0 + 2 * DAY + 900)),
    ];
    let projects = vec![project(1, "Work", "#3498db"), project(2, "Home", "#e74c3c")];
    let rows = breakdown_by_project(&entries, &projects, T0 + 3 * DAY);
    assert_eq!(rows.len(), 2);
    assert_eq!(rows[0].name, "Work");
    assert_eq!(rows[0].color, "#3498db");
    assert_eq!(rows[0].seconds, 3600);
    assert_eq!(rows[1].name, "Home");
    assert_eq!(rows[1].seconds, 2700);
    assert_eq!(rows[0].seconds + rows[1].seconds, 6300);
    assert_eq!(calculate_entries_duration(&entries, T0 + 3 * DAY), 6300);
}

#[test]
fn negative_interval_counts_zero() {
    let e = entry(1, None, T0, Some(T0 - 500));
    assert_eq!(entry_duration(&e, T0 + 1000), 0);
    let entries = vec![e, entry(2, None, T0, Some(T0 + 40))];
    assert_eq!(calculate_entries_duration(&entries, T0), 40);
}

#[test]
fn running_entry_counts_up_to_now() {
    let e = entry(1, None, T0, None);
    assert_eq!(entry_duration(&e, T0 + 125), 125);
    assert_eq!(entry_duration(&e, T0 - 125), 0);
}

#[test]
fn total_of_nothing_is_zero() {
    assert_eq!(calculate_entries_duration(&Vec::new(), T0), 0);
    assert!(breakdown_by_project(&Vec::new(), &Vec::new(), T0).is_empty());
}

#[test]
fn huge_totals_are_held_at_the_maximum() {
    let entries = vec![entry(1, None, i64::MIN, Some(i64::MAX)), entry(2, None, 0, Some(10))];
    assert_eq!(entry_duration(&entries[0], 0), i64::MAX);
    assert_eq!(calculate_entries_duration(&entries, 0), i64::MAX);
}

#[test]
fn breakdown_ties_keep_first_seen_order_and_label_missing_projects() {
    let entries = vec![
        entry(1, Some(9), T0, Some(T0 + 100)),
        entry(2, None, T0, Some(T0 + 100)),
        entry(3, Some(1), T0, Some(T0 + 300)),
        entry(4, Some(1), T0, Some(T0 - 50)),
    ];
    let projects = vec![project(1, "Work", "#3498db")];
    let rows = breakdown_by_project(&entries, &projects, T0);
    assert_eq!(rows.len(), 3);
    assert_eq!((rows[0].project_id, rows[0].seconds), (Some(1), 300));
    assert_eq!(rows[0].name, "Work");
    assert_eq!((rows[1].project_id, rows[1].seconds), (Some(9), 100));
    assert_eq!(rows[1].name, "No Project");
    assert_eq!(rows[1].color, "#888888");
    assert_eq!((rows[2].project_id, rows[2].seconds), (None, 100));
    assert_eq!(rows[2].name, "No Project");
}

#[test]
fn days_are_grouped_latest_first() {
    let entries = vec![
        entry(1, None, T0, None),
        entry(2, None, T0 + 2 * DAY, None),
        entry(3, None, T0 + 3600, None),
        entry(4, None, T0 - DAY, None),
    ];
    let days: Vec<i64> = entries.iter().map(|e| e.start_time.div_euclid(DAY)).collect();
    let groups = group_by_calendar_day(&entries, &days);
    let monday = T0.div_euclid(DAY);
    let days: Vec<i64> = groups.iter().map(|g| g.day).collect();
    assert_eq!(days, vec![monday + 2, monday, monday - 1]);
    let monday_ids: Vec<i64> = groups[1].entries.iter().map(|e| e.id).collect();
    assert_eq!(monday_ids, vec![1, 3]);
    assert_eq!(groups[0].entries[0].id, 2);
}

#[test]
fn day_groups_follow_the_given_days() {
    // 23:30 UTC is the next day one hour east of UTC.
    let late = T0 + 13 * 3600 + 1800;
    let entries = vec![entry(1, None, T0, None), entry(2, None, late, None)];
    let utc: Vec<i64> = entries.iter().map(|e| e.start_time.div_euclid(DAY)).collect();
    let east: Vec<i64> = entries.iter().map(|e| (e.start_time + 3600).div_euclid(DAY)).collect();
    assert_eq!(group_by_calendar_day(&entries, &utc).len(), 1);
    assert_eq!(group_by_calendar_day(&entries, &east).len(), 2);
    assert!(group_by_calendar_day(&Vec::new(), &Vec::new()).is_empty());
}
