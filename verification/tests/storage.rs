use penlight_dream_box::storage::{
    active_monthlies, active_monthly_id, border_batch, collect_top_points, first_bucket, is_event_border_tier,
    is_monthly_border_tier, is_music_border_tier, player_docs, series_write, server_array, sort_cutoffs_by_time,
    top_points, utc_bucket, BorderKind, CutoffPoint, MonthlyInfoDoc, PlayerDoc, SeriesWrite, TopPoint,
};
use penlight_dream_box::upstream::{MonthlyRankingInfo, RankingUser};

fn user(uid: i64, tier: i64, point: i64) -> RankingUser {
    RankingUser {
        uid,
        name: format!("user{uid}"),
        introduction: String::new(),
        rank: 10,
        sid: 3,
        strained: 1,
        degrees: vec![4],
        tier,
        point,
    }
}

fn info(id: i64, start: i64, end: i64) -> MonthlyRankingInfo {
    MonthlyRankingInfo {
        monthly_ranking_id: id,
        monthly_ranking_name: format!("month {id}"),
        asset_bundle_name: "monthly".to_string(),
        bgm_file_name: "bgm".to_string(),
        start_at: start,
        end_at: end,
        enable_flg: true,
        public_start_at: start,
        public_end_at: end,
        distribution_start_at: 0,
        distribution_end_at: 0,
        reception_end_at: 0,
        aggregate_end_at: 0,
        rewards: vec![],
        grades: vec![],
    }
}

#[test]
fn tier_lists_match_the_documented_whitelists() {
    for t in [20, 30, 40, 50, 100, 200, 300, 500, 1000, 2000, 3000, 4000, 5000] {
        assert!(is_monthly_border_tier(t));
    }
    assert!(!is_monthly_border_tier(1500));
    assert!(!is_monthly_border_tier(10000));
    assert!(is_event_border_tier(1500));
    assert!(is_event_border_tier(100000));
    assert!(!is_event_border_tier(60));
    assert!(is_music_border_tier(50000));
    assert!(!is_music_border_tier(1500));
    assert!(!is_music_border_tier(3000));
}

#[test]
fn days_are_utc_buckets() {
    assert_eq!(utc_bucket(0), 0);
    assert_eq!(utc_bucket(86_399_999), 0);
    assert_eq!(utc_bucket(86_400_000), 1);
    assert_eq!(utc_bucket(-1), -1);
    assert_eq!(utc_bucket(-86_400_000), -1);
    assert_eq!(utc_bucket(-86_400_001), -2);
    assert_eq!(utc_bucket(1_786_844_093_675), 20_681);
    assert_eq!(first_bucket(1_786_844_093_675), Some(20_681));
    assert_eq!(first_bucket(0), None);
    assert_eq!(first_bucket(-5), None);
}

#[test]
fn series_writes_append_newer_batches_and_replace_others() {
    assert_eq!(series_write(None, 5), SeriesWrite::Insert);
    assert_eq!(series_write(Some(Some(4)), 5), SeriesWrite::Append);
    assert_eq!(series_write(Some(Some(5)), 5), SeriesWrite::Refresh);
    assert_eq!(series_write(Some(Some(9)), 5), SeriesWrite::Replace);
    assert_eq!(series_write(Some(None), 5), SeriesWrite::Append);
    assert_eq!(series_write(Some(None), 0), SeriesWrite::Refresh);
    assert_eq!(series_write(Some(None), -3), SeriesWrite::Replace);
}

#[test]
fn top_snapshots_give_points_and_players() {
    let users = vec![user(1, 1, 100), user(2, 2, 90)];
    let points = top_points(&users, 77);
    assert_eq!(points, vec![TopPoint { time: 77, uid: 1, value: 100 }, TopPoint { time: 77, uid: 2, value: 90 }]);
    let docs: Vec<PlayerDoc> = player_docs(0, &users, 77);
    assert_eq!(docs.len(), 2);
    assert_eq!(docs[1].uid, 2);
    assert_eq!(docs[1].name, "user2");
    assert_eq!(docs[1].degrees, vec![4]);
    assert_eq!(docs[1].updated_at, 77);
}

#[test]
fn border_batches_group_valid_tiers_in_ascending_order() {
    let users = vec![user(1, 100, 500), user(2, 20, 900), user(3, 60, 400), user(4, 100, 450)];
    let batch = border_batch(&users, 9, BorderKind::Monthly);
    assert_eq!(batch.written, 3);
    assert_eq!(batch.groups.len(), 2);
    assert_eq!(batch.groups[0].0, 20);
    assert_eq!(batch.groups[0].1, vec![CutoffPoint { time: 9, ep: 900 }]);
    assert_eq!(batch.groups[1].0, 100);
    assert_eq!(batch.groups[1].1, vec![CutoffPoint { time: 9, ep: 500 }, CutoffPoint { time: 9, ep: 450 }]);
    let music = border_batch(&users, 9, BorderKind::Music);
    assert_eq!(music.written, 3);
}

#[test]
fn top_history_filters_since_and_sorts_by_time() {
    let p = |time, uid| TopPoint { time, uid, value: time };
    let batches = vec![vec![p(30, 1), p(30, 2)], vec![p(10, 2), p(40, 3)], vec![p(20, 1)]];
    let all = collect_top_points(&batches, 0);
    assert_eq!(all.points, vec![p(10, 2), p(20, 1), p(30, 1), p(30, 2), p(40, 3)]);
    assert_eq!(all.uids, vec![1, 2, 3]);
    let recent = collect_top_points(&batches, 25);
    assert_eq!(recent.points, vec![p(30, 1), p(30, 2), p(40, 3)]);
    assert_eq!(recent.uids, vec![1, 2, 3]);
}

#[test]
fn cutoffs_sort_stably_by_time() {
    let c = |time, ep| CutoffPoint { time, ep };
    let sorted = sort_cutoffs_by_time(&vec![c(3, 1), c(1, 2), c(3, 0), c(2, 5)]);
    assert_eq!(sorted, vec![c(1, 2), c(2, 5), c(3, 1), c(3, 0)]);
}

#[test]
fn active_monthlies_include_the_post_end_window() {
    let docs: Vec<MonthlyInfoDoc> = vec![
        MonthlyInfoDoc::from_info(&info(1, 1_000, 2_000)),
        MonthlyInfoDoc::from_info(&info(2, 1_500, 0)),
        MonthlyInfoDoc::from_info(&info(3, 9_000, 10_000)),
    ];
    let now = 3_000;
    let active = active_monthlies(&docs, now, 1);
    assert_eq!(active, vec![(1, 2_000), (2, 0)]);
    assert_eq!(active_monthly_id(&active), Some(2));
    assert_eq!(active_monthlies(&docs, now, 0), vec![(2, 0)]);
    assert_eq!(active_monthly_id(&vec![]), None);
}

#[test]
fn server_arrays_hold_jp_in_slot_zero() {
    let a = server_array(7i64);
    assert_eq!(a, vec![Some(7), None, None, None, None]);
    let doc = MonthlyInfoDoc::from_info(&info(4, 1, 2));
    assert_eq!(doc.monthly_ranking_name[0].as_deref(), Some("month 4"));
    assert_eq!(doc.end_at, vec![Some(2), None, None, None, None]);
}
