use pbs_store::prune::{compute_prune_info, removal_order, LocalTime, PruneEntry, PruneOptions};

fn day(d: u32, protected: bool) -> PruneEntry {
    // January 2024: the 1st is a Monday, so days 1-7 are ISO week 1 and 8-14 week 2.
    let iso_week = if d <= 7 { 1 } else { 2 };
    PruneEntry {
        time: LocalTime { year: 2024, month: 1, day: d, hour: 12, iso_year: 2024, iso_week },
        protected,
    }
}

fn ten_days() -> Vec<PruneEntry> {
    (1..=10).rev().map(|d| day(d, false)).collect()
}

fn none() -> PruneOptions {
    PruneOptions { keep_last: None, keep_hourly: None, keep_daily: None, keep_weekly: None, keep_monthly: None, keep_yearly: None }
}

fn kept(list: &[PruneEntry], mark: &[bool]) -> Vec<PruneEntry> {
    list.iter().zip(mark.iter()).filter(|(_, k)| **k).map(|(e, _)| *e).collect()
}

#[test]
fn prune_last_and_weekly() {
    let list = ten_days();
    let opts = PruneOptions { keep_last: Some(3), keep_weekly: Some(1), ..none() };
    let mark = compute_prune_info(&list, &opts);
    // D1-D3 by keep-last; their ISO week is covered, so the weekly slot goes
    // to D4, the newest snapshot of the first week among the rest
    assert_eq!(mark, vec![true, true, true, true, false, false, false, false, false, false]);
    let once = kept(&list, &mark);
    let again = compute_prune_info(&once, &opts);
    assert!(again.iter().all(|k| *k));
}

#[test]
fn prune_weekly_two_weeks() {
    let list = ten_days();
    let opts = PruneOptions { keep_last: Some(3), keep_weekly: Some(2), ..none() };
    let mark = compute_prune_info(&list, &opts);
    // only ISO week 1 is left uncovered after keep-last; D4 is its newest
    assert_eq!(mark, vec![true, true, true, true, false, false, false, false, false, false]);
}

#[test]
fn prune_daily_and_protected() {
    let mut list = ten_days();
    list[9].protected = true;
    let opts = PruneOptions { keep_daily: Some(2), ..none() };
    let mark = compute_prune_info(&list, &opts);
    assert_eq!(mark, vec![true, true, false, false, false, false, false, false, false, true]);
}

#[test]
fn prune_keeps_all_without_options() {
    let list = ten_days();
    let mark = compute_prune_info(&list, &none());
    assert!(mark.iter().all(|k| *k));
}

#[test]
fn prune_hourly_same_hour() {
    let list = vec![day(5, false), day(5, false), day(4, false)];
    let opts = PruneOptions { keep_hourly: Some(5), ..none() };
    assert_eq!(compute_prune_info(&list, &opts), vec![true, false, true]);
    // monthly keeps the first; yearly then walks the snapshots not kept yet
    // and keeps the newest of them, though the first shares its year
    let opts = PruneOptions { keep_monthly: Some(1), keep_yearly: Some(1), ..none() };
    assert_eq!(compute_prune_info(&list, &opts), vec![true, true, false]);
}

#[test]
fn prune_is_idempotent_on_example() {
    let list = ten_days();
    let opts = PruneOptions { keep_last: Some(1), keep_daily: Some(4), keep_weekly: Some(2), ..none() };
    let mark = compute_prune_info(&list, &opts);
    let once = kept(&list, &mark);
    assert!(compute_prune_info(&once, &opts).iter().all(|k| *k));
}

#[test]
fn removal_is_oldest_first() {
    let mark = vec![true, false, true, false, false];
    assert_eq!(removal_order(&mark), vec![4, 3, 1]);
    assert_eq!(removal_order(&vec![true, true]), Vec::<usize>::new());
}

#[test]
fn newest_first_orders_by_time() {
    let times = vec![100, 300, 200, 300];
    let order = pbs_store::prune::newest_first(&times);
    assert_eq!(order, vec![1, 3, 2, 0]);
    assert_eq!(pbs_store::prune::newest_first(&vec![]), Vec::<usize>::new());
}

#[test]
fn prune_group_keeps_last_and_protected() {
    let day = 86400i64;
    let base = 1_700_000_000i64;
    // oldest first on input; the group decision orders them newest first
    let times: Vec<i64> = (0..5).map(|i| base + i * day).collect();
    let protected = vec![true, false, false, false, false];
    let opts = PruneOptions { keep_last: Some(2), ..none() };
    let (marks, remove) = pbs_store::prune::prune_group(&times, &protected, &opts).unwrap();
    assert_eq!(marks, vec![(4, true), (3, true), (2, false), (1, false), (0, true)]);
    assert_eq!(remove, vec![1, 2]);
}

#[test]
fn prune_group_keeps_everything_without_options() {
    let times = vec![10, 20, 30];
    let (marks, remove) = pbs_store::prune::prune_group(&times, &vec![false; 3], &none()).unwrap();
    assert!(marks.iter().all(|(_, k)| *k));
    assert!(remove.is_empty());
    let (marks, remove) = pbs_store::prune::prune_group(&vec![], &vec![], &none()).unwrap();
    assert!(marks.is_empty() && remove.is_empty());
}

#[test]
fn prune_weekly_counts_week_of_kept_snapshots_not() {
    // D1..D7 are the 14th..8th (ISO week 2), D8..D10 the 7th..5th (week 1)
    let list: Vec<PruneEntry> = (5..=14).rev().map(|d| day(d, false)).collect();
    let opts = PruneOptions { keep_last: Some(3), keep_weekly: Some(1), ..none() };
    let mark = compute_prune_info(&list, &opts);
    // the weekly slot goes to D4, the newest snapshot not kept yet
    assert_eq!(mark, vec![true, true, true, true, false, false, false, false, false, false]);
    let once = kept(&list, &mark);
    assert!(compute_prune_info(&once, &opts).iter().all(|k| *k));
}
