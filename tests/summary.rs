use rusqlite::Connection;
use time_tracking::calendar::day_of_instant;
use time_tracking::db::{create_entry, create_project, create_tables, stop_entry};
use time_tracking::summary::week_summary;

// 2024-01-17T10:00:00Z, a Wednesday
const WED: i64 = 1_705_485_600;
const DAY: i64 = 86_400;

#[test]
fn week_summary_collects_the_week() {
    let mut conn = Connection::open_in_memory().unwrap();
    create_tables(&mut conn).unwrap();
    let work = create_project(&mut conn, "Work", "#3498db").unwrap();
    let home = create_project(&mut conn, "Home", "#e74c3c").unwrap();
    let a = create_entry(&mut conn, Some(work.id), "a", WED - 2 * DAY).unwrap();
    stop_entry(&mut conn, a.id, WED - 2 * DAY + 3600).unwrap();
    let b = create_entry(&mut conn, Some(home.id), "b", WED).unwrap();
    stop_entry(&mut conn, b.id, WED + 1800).unwrap();
    let c = create_entry(&mut conn, Some(home.id), "c", WED + 3600).unwrap();
    stop_entry(&mut conn, c.id, WED + 4500).unwrap();
    // Outside the week: the Sunday before and the Monday after.
    create_entry(&mut conn, None, "before", WED - 3 * DAY).unwrap();
    create_entry(&mut conn, None, "after", WED + 5 * DAY).unwrap();

    let today = day_of_instant(WED, 0);
    let week = week_summary(&conn, today, &|s: i64| s.div_euclid(DAY), WED + DAY).unwrap();
    assert_eq!(week.first_day, today - 2);
    assert_eq!(week.last_day, today + 4);
    assert_eq!(week.entries.len(), 3);
    assert_eq!(week.entries[0].id, c.id);
    assert_eq!(week.total_seconds, 6300);
    assert_eq!(week.breakdown.len(), 2);
    assert_eq!(week.breakdown[0].name, "Work");
    assert_eq!(week.breakdown[0].seconds, 3600);
    assert_eq!(week.breakdown[1].name, "Home");
    assert_eq!(week.breakdown[1].seconds, 2700);
    assert_eq!(week.days.len(), 2);
    assert_eq!(week.days[0].day, today);
    assert_eq!(week.day_totals, vec![2700, 3600]);
}

#[test]
fn week_days_follow_each_entry_own_offset() {
    let mut conn = Connection::open_in_memory().unwrap();
    create_tables(&mut conn).unwrap();
    // Two entries at 23:30 UTC on Tuesday and on Thursday; the zone is UTC
    // until Wednesday noon and one hour east of it afterwards.
    let tue_late = WED - DAY + 13 * 3600 + 1800;
    let thu_late = WED + DAY + 13 * 3600 + 1800;
    let a = create_entry(&mut conn, None, "tue", tue_late).unwrap();
    let b = create_entry(&mut conn, None, "thu", thu_late).unwrap();
    let switch = WED + 2 * 3600;
    let local_day = |s: i64| if s < switch { s.div_euclid(DAY) } else { (s + 3600).div_euclid(DAY) };
    let today = day_of_instant(WED, 0);
    let week = week_summary(&conn, today, &local_day, WED + 3 * DAY).unwrap();
    assert_eq!(week.days.len(), 2);
    assert_eq!(week.days[0].day, today + 2);
    assert_eq!(week.days[0].entries[0].id, b.id);
    assert_eq!(week.days[1].day, today - 1);
    assert_eq!(week.days[1].entries[0].id, a.id);
    assert_eq!(week.day_totals.iter().sum::<i64>(), week.total_seconds);
}
