use onbrix::date::{Date, Stamp};
use onbrix::scheduler::session_request_for;
use onbrix::store::{DbRequest, DbResponse, Store, StoreError};
use onbrix::types::{CrawlResult, ManagedProduct, ProductItem, ReviewItem};

fn at(y: i32, m: u8, d: u8, hour: u8) -> Stamp {
    Stamp { date: Date { year: y, month: m, day: d }, hour, minute: 0, second: 0 }
}

fn item(rank: i32, pid: &str, brand: &str) -> ProductItem {
    ProductItem {
        rank,
        product_id: pid.to_string(),
        product_name: format!("product {pid}"),
        brand_name: brand.to_string(),
        price: 1000,
        product_link: format!("https://shop.example/{pid}"),
        img_thumb: None,
    }
}

fn managed(pid: &str, brand_id: &str, active: bool) -> ManagedProduct {
    ManagedProduct {
        product_id: pid.to_string(),
        product_name: format!("managed {pid}"),
        product_image_url: None,
        brand_id: brand_id.to_string(),
        brand_name: "Brandy".to_string(),
        is_active: active,
        last_updated_at: None,
    }
}

fn review(date: &str, writer: &str, rating: i32, content: &str) -> ReviewItem {
    ReviewItem {
        review_date: date.to_string(),
        writer_name: writer.to_string(),
        rating,
        content: content.to_string(),
        images: vec![],
    }
}

#[test]
fn session_ids_grow_and_records_stay_apart() {
    let mut store = Store::new();
    let now = at(2026, 1, 20, 9);
    let id1 = store
        .save_session(4, "u1".into(), "SUCCESS".into(), 1, None, vec![item(1, "a", "X")], now)
        .unwrap();
    let id2 = store
        .save_session(4, "u2".into(), "SUCCESS".into(), 1, None, vec![item(2, "b", "Y")], now)
        .unwrap();
    assert!(id1 < id2);
    let hist_a = store.get_history("a");
    let hist_b = store.get_history("b");
    assert_eq!(hist_a.len(), 1);
    assert_eq!(hist_a[0].rank, 1);
    assert_eq!(hist_b.len(), 1);
    assert_eq!(hist_b[0].rank, 2);
    assert_eq!(hist_a[0].date, "2026-01-20 09:00:00");
}

#[test]
fn search_matches_latest_success_case_insensitively() {
    let mut store = Store::new();
    let now = at(2026, 1, 20, 9);
    assert!(store.search_brand("any").is_empty());
    store
        .save_session(
            4,
            "u1".into(),
            "SUCCESS".into(),
            2,
            None,
            vec![item(9, "old", "Stale Brand")],
            now,
        )
        .unwrap();
    store
        .save_session(
            4,
            "u2".into(),
            "SUCCESS".into(),
            3,
            None,
            vec![item(3, "c", "COOL Brand"), item(1, "a", "Other"), item(2, "b", "cool brand")],
            now,
        )
        .unwrap();
    store
        .save_session(4, "u3".into(), "FAILED".into(), 0, Some("boom".into()), vec![], now)
        .unwrap();
    // The failed session is ignored; the latest SUCCESS one is searched.
    let hits = store.search_brand("  cool  ");
    assert_eq!(hits.len(), 2);
    assert_eq!(hits[0].product_id, "b");
    assert_eq!(hits[1].product_id, "c");
    // An empty (or all-space) search keeps the whole session, rank-ordered.
    let all = store.search_brand("   ");
    assert_eq!(all.len(), 3);
    assert_eq!(all[0].rank, 1);
    assert_eq!(all[1].rank, 2);
    assert_eq!(all[2].rank, 3);
    // No record of the older session shows up.
    assert!(store.search_brand("Stale").is_empty());
}

#[test]
fn upsert_overwrites_but_keeps_identity() {
    let mut store = Store::new();
    let t1 = at(2026, 1, 19, 8);
    let t2 = at(2026, 1, 20, 8);
    let n = store.upsert_managed_products(vec![managed("p1", "brand9", true)], t1);
    assert_eq!(n, 1);
    // Same external id again: name, active flag and stamp are overwritten,
    // the group id is not; no second row appears.
    let mut changed = managed("p1", "other-brand", false);
    changed.product_name = "renamed".to_string();
    store.upsert_managed_products(vec![changed], t2);
    assert!(store.get_active_product_ids().is_empty());
    assert_eq!(store.get_last_managed_sync("brand9"), Some("2026-01-20 08:00:00".to_string()));
    assert_eq!(store.get_last_managed_sync("other-brand"), None);
}

#[test]
fn upserting_the_same_batch_twice_changes_nothing_more() {
    let mut store = Store::new();
    let t = at(2026, 1, 20, 8);
    let batch = || vec![managed("p1", "b", true), managed("p2", "b", true)];
    store.upsert_managed_products(batch(), t);
    let once = store.get_active_product_ids();
    store.upsert_managed_products(batch(), t);
    let twice = store.get_active_product_ids();
    assert_eq!(once, vec!["p1".to_string(), "p2".to_string()]);
    assert_eq!(once, twice);
}

#[test]
fn ranks_join_the_two_latest_success_sessions() {
    let mut store = Store::new();
    let now = at(2026, 1, 20, 9);
    store.upsert_managed_products(
        vec![managed("e", "b", true), managed("ghost", "b", true), managed("off", "b", false)],
        now,
    );
    // Second-newest SUCCESS session: E ranked 7.
    store
        .save_session(4, "u1".into(), "SUCCESS".into(), 1, None, vec![item(7, "e", "B")], now)
        .unwrap();
    // Newest SUCCESS session: E ranked 3.
    store
        .save_session(4, "u2".into(), "SUCCESS".into(), 1, None, vec![item(3, "e", "B")], now)
        .unwrap();
    let rows = store.get_managed_products_with_rank();
    assert_eq!(rows.len(), 2);
    // E is ranked, so it sorts before the unranked entity.
    assert_eq!(rows[0].product_id, "e");
    assert_eq!(rows[0].current_rank, Some(3));
    assert_eq!(rows[0].previous_rank, Some(7));
    assert_eq!(rows[1].product_id, "ghost");
    assert_eq!(rows[1].current_rank, None);
    assert_eq!(rows[1].previous_rank, None);
}

#[test]
fn failed_harvest_records_a_failed_session_and_the_loop_goes_on() {
    let mut store = Store::new();
    let now = at(2026, 1, 20, 9);
    // The harvester fails with a network error: a FAILED session with zero
    // records and the error text is recorded.
    let req = session_request_for(4, Err("network unreachable".to_string()));
    match store.apply(req, now) {
        DbResponse::SessionSaved(Ok(id)) => assert_eq!(id, 1),
        other => panic!("unexpected reply: {other:?}"),
    }
    // The next tick needs nothing reset: the following firing succeeds.
    let ok = session_request_for(
        4,
        Ok(CrawlResult {
            category_id: 4,
            source_url: "u".into(),
            items: vec![item(1, "a", "B")],
        }),
    );
    match store.apply(ok, now) {
        DbResponse::SessionSaved(Ok(id)) => assert_eq!(id, 2),
        other => panic!("unexpected reply: {other:?}"),
    }
    // The failed session carried nothing; the successful one is searchable.
    let hits = store.search_brand("");
    assert_eq!(hits.len(), 1);
    assert_eq!(hits[0].product_id, "a");
}

#[test]
fn reviews_deduplicate_on_their_key() {
    let mut store = Store::new();
    let t1 = at(2026, 1, 20, 0);
    let t2 = at(2026, 1, 21, 0);
    let r = || review("2026-01-19", "kim", 5, "great");
    assert_eq!(store.save_reviews("p1", vec![r()], t1), Ok(1));
    // The same record again, later: no second row.
    assert_eq!(store.save_reviews("p1", vec![r()], t2), Ok(0));
    assert_eq!(store.get_product_reviews("p1", None).len(), 1);
    // Two records differing only in content are two rows.
    let other = review("2026-01-19", "kim", 5, "really great");
    assert_eq!(store.save_reviews("p1", vec![other], t2), Ok(1));
    assert_eq!(store.get_product_reviews("p1", None).len(), 2);
    // The same key under another entity is its own row.
    assert_eq!(store.save_reviews("p2", vec![r()], t2), Ok(1));
    assert_eq!(store.get_product_reviews("p2", None).len(), 1);
}

#[test]
fn interrupted_ingestion_reruns_without_duplicates() {
    let mut store = Store::new();
    let day = at(2026, 1, 20, 0);
    let pids: Vec<String> = (0..10).map(|i| format!("p{i}")).collect();
    // Before anything ran today there is no marker, so the job is due.
    assert_eq!(store.get_last_review_crawl(), None);
    assert!(!onbrix::scheduler::is_synced_on(&store.get_last_review_crawl(), &day.date));
    // The run is killed after three of ten entities.
    for pid in &pids[..3] {
        let batch = vec![review("2026-01-19", "kim", 4, &format!("about {pid}"))];
        assert_eq!(store.save_reviews(pid, batch, day), Ok(1));
    }
    // On restart the job re-processes all ten entities; the three rows that
    // were already saved are not duplicated.
    let mut inserted = 0;
    for pid in &pids {
        let batch = vec![review("2026-01-19", "kim", 4, &format!("about {pid}"))];
        inserted += store.save_reviews(pid, batch, day).unwrap();
    }
    assert_eq!(inserted, 7);
    for pid in &pids {
        assert_eq!(store.get_product_reviews(pid, None).len(), 1);
    }
}

#[test]
fn reviews_read_back_most_recent_first_and_capped() {
    let mut store = Store::new();
    let t = at(2026, 1, 20, 0);
    store
        .save_reviews(
            "p",
            vec![
                review("2026-01-17", "a", 3, "x"),
                review("2026-01-19", "b", 4, "y"),
                review("2026-01-19", "c", 5, "z"),
                review("2026-01-18", "d", 2, "w"),
            ],
            t,
        )
        .unwrap();
    let all = store.get_product_reviews("p", None);
    let writers: Vec<&str> = all.iter().map(|r| r.writer_name.as_str()).collect();
    // Later dates first; among equal dates the newer row first.
    assert_eq!(writers, vec!["c", "b", "d", "a"]);
    assert_eq!(all[0].review_date, "2026-01-19");
    assert_eq!(all[0].crawled_at, "2026-01-20 00:00:00");
    assert_eq!(store.get_product_reviews("p", Some(2)).len(), 2);
    assert_eq!(store.get_product_reviews("p", Some(0)).len(), 0);
    assert_eq!(store.get_product_reviews("p", Some(-1)).len(), 4);
    assert_eq!(store.get_product_reviews("p", Some(99)).len(), 4);
}

#[test]
fn malformed_reviews_reject_the_whole_batch() {
    let mut store = Store::new();
    let t = at(2026, 1, 20, 0);
    let bad_date = vec![review("2026-01-19", "a", 5, "ok"), review("yesterday", "b", 5, "bad")];
    assert_eq!(store.save_reviews("p", bad_date, t), Err(StoreError::InvalidReviewDate));
    let bad_rating = vec![review("2026-01-19", "a", 0, "ok")];
    assert_eq!(store.save_reviews("p", bad_rating, t), Err(StoreError::InvalidRating));
    // Nothing of a rejected batch is stored.
    assert!(store.get_product_reviews("p", None).is_empty());
}

#[test]
fn stats_split_all_time_and_target_date() {
    let mut store = Store::new();
    let t = at(2026, 1, 20, 0);
    store
        .save_reviews(
            "p",
            vec![
                review("2026-01-19", "a", 5, "x"),
                review("2026-01-19", "b", 4, "y"),
                review("2026-01-10", "c", 1, "z"),
            ],
            t,
        )
        .unwrap();
    store.save_reviews("q", vec![review("2026-01-19", "a", 2, "other")], t).unwrap();
    let s = store.get_review_stats("p", Date { year: 2026, month: 1, day: 19 });
    assert_eq!(s.total_count, 3);
    assert_eq!(s.rating_total, 10);
    assert_eq!(s.yesterday_count, 2);
    assert_eq!(s.yesterday_rating_total, 9);
    let empty = store.get_review_stats("nobody", Date { year: 2026, month: 1, day: 19 });
    assert_eq!(empty.total_count, 0);
    assert_eq!(empty.rating_total, 0);
}

#[test]
fn markers_track_the_latest_write() {
    let mut store = Store::new();
    store.upsert_managed_products(vec![managed("p1", "b9", true)], at(2026, 1, 18, 8));
    store.upsert_managed_products(vec![managed("p2", "b9", true)], at(2026, 1, 19, 8));
    store.upsert_managed_products(vec![managed("p3", "other", true)], at(2026, 1, 21, 8));
    assert_eq!(store.get_last_managed_sync("b9"), Some("2026-01-19 08:00:00".to_string()));
    store.save_reviews("p1", vec![review("2026-01-18", "a", 3, "x")], at(2026, 1, 19, 2)).unwrap();
    store.save_reviews("p2", vec![review("2026-01-18", "b", 3, "y")], at(2026, 1, 19, 1)).unwrap();
    assert_eq!(store.get_last_review_crawl(), Some("2026-01-19 02:00:00".to_string()));
}

#[test]
fn the_actor_answers_every_request_kind() {
    let mut store = Store::new();
    let now = at(2026, 1, 20, 9);
    match store.apply(DbRequest::GetActiveProductIds, now) {
        DbResponse::ActiveIds(ids) => assert!(ids.is_empty()),
        other => panic!("unexpected reply: {other:?}"),
    }
    match store.apply(
        DbRequest::UpsertManagedProducts { products: vec![managed("p", "b", true)] },
        now,
    ) {
        DbResponse::Upserted(n) => assert_eq!(n, 1),
        other => panic!("unexpected reply: {other:?}"),
    }
    match store.apply(DbRequest::GetLastManagedSync { brand_id: "b".into() }, now) {
        DbResponse::LastSync(m) => assert_eq!(m, Some("2026-01-20 09:00:00".to_string())),
        other => panic!("unexpected reply: {other:?}"),
    }
    // A refused request is a reply, not a stop: the next request still runs.
    match store.apply(
        DbRequest::SaveReviews {
            product_id: "p".into(),
            reviews: vec![review("bad", "a", 5, "x")],
        },
        now,
    ) {
        DbResponse::ReviewsSaved(r) => assert_eq!(r, Err(StoreError::InvalidReviewDate)),
        other => panic!("unexpected reply: {other:?}"),
    }
    match store.apply(DbRequest::GetActiveProductIds, now) {
        DbResponse::ActiveIds(ids) => assert_eq!(ids, vec!["p".to_string()]),
        other => panic!("unexpected reply: {other:?}"),
    }
}
