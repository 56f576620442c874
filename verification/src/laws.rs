//! Laws of the store: properties that relate several operations, proved
//! over the store's model.

use vstd::prelude::*;

use crate::date::{spec_parse_ymd, Stamp};
use crate::store::{
    inv, same_review_key, spec_has_key, spec_record_session, spec_records_of, spec_refresh_row,
    spec_review_from, spec_save_reviews, spec_tag_rankings, spec_upsert_batch, spec_upsert_row,
    ManagedRowV, RankingV, ReviewRowV, StoreModel,
};
use crate::types::{ManagedProductV, ProductItemV, ReviewItemV};

verus! {

proof fn lemma_records_of_concat(a: Seq<RankingV>, b: Seq<RankingV>, sid: int)
    ensures
        spec_records_of(a + b, sid) == spec_records_of(a, sid) + spec_records_of(b, sid),
    decreases b.len(),
{
    if b.len() == 0 {
        assert(a + b =~= a);
        assert(spec_records_of(a, sid) + spec_records_of(b, sid) =~= spec_records_of(a, sid));
    } else {
        lemma_records_of_concat(a, b.drop_last(), sid);
        assert((a + b).drop_last() =~= a + b.drop_last());
        assert((a + b).last() == b.last());
        if b.last().session_id == sid {
            assert(spec_records_of(a + b, sid) =~= spec_records_of(a, sid) + spec_records_of(
                b,
                sid,
            ));
        } else {
            assert(spec_records_of(a + b, sid) =~= spec_records_of(a, sid) + spec_records_of(
                b,
                sid,
            ));
        }
    }
}

proof fn lemma_records_of_tag(items: Seq<ProductItemV>, sid: int, q: int)
    ensures
        q == sid ==> spec_records_of(spec_tag_rankings(items, sid), q) == items,
        q != sid ==> spec_records_of(spec_tag_rankings(items, sid), q) == Seq::<
            ProductItemV,
        >::empty(),
    decreases items.len(),
{
    if items.len() == 0 {
        assert(spec_tag_rankings(items, sid) =~= Seq::<RankingV>::empty());
    } else {
        lemma_records_of_tag(items.drop_last(), sid, q);
        assert(spec_tag_rankings(items, sid).drop_last() =~= spec_tag_rankings(
            items.drop_last(),
            sid,
        ));
        assert(spec_tag_rankings(items, sid).last() == RankingV {
            session_id: sid,
            item: items.last(),
        });
        if q == sid {
            assert(spec_records_of(spec_tag_rankings(items, sid), q) =~= items);
        }
    }
}

proof fn lemma_records_of_absent(rankings: Seq<RankingV>, sid: int)
    requires
        forall|i: int| 0 <= i < rankings.len() ==> (#[trigger] rankings[i]).session_id != sid,
    ensures
        spec_records_of(rankings, sid) == Seq::<ProductItemV>::empty(),
    decreases rankings.len(),
{
    if rankings.len() > 0 {
        lemma_records_of_absent(rankings.drop_last(), sid);
    }
}

/// Law: recording two sessions one after the other yields strictly
/// increasing session identities, and afterwards each of the two sessions
/// holds exactly the records submitted with it — no record of one batch
/// ends up under the other identity, and earlier records stay untouched.
pub proof fn lemma_session_isolation(
    m: StoreModel,
    cat1: int,
    url1: Seq<char>,
    st1: Seq<char>,
    tot1: int,
    err1: Option<Seq<char>>,
    items1: Seq<ProductItemV>,
    now1: Stamp,
    cat2: int,
    url2: Seq<char>,
    st2: Seq<char>,
    tot2: int,
    err2: Option<Seq<char>>,
    items2: Seq<ProductItemV>,
    now2: Stamp,
)
    requires
        inv(m),
    ensures
        ({
            let (m1, id1) = spec_record_session(m, cat1, url1, st1, tot1, err1, items1, now1);
            let (m2, id2) = spec_record_session(m1, cat2, url2, st2, tot2, err2, items2, now2);
            &&& id1 < id2
            &&& spec_records_of(m2.rankings, id1) == items1
            &&& spec_records_of(m2.rankings, id2) == items2
            &&& spec_records_of(m2.rankings, id1) == spec_records_of(m1.rankings, id1)
        }),
{
    let (m1, id1) = spec_record_session(m, cat1, url1, st1, tot1, err1, items1, now1);
    let (m2, id2) = spec_record_session(m1, cat2, url2, st2, tot2, err2, items2, now2);
    let t1 = spec_tag_rankings(items1, id1);
    let t2 = spec_tag_rankings(items2, id2);
    assert(m1.rankings == m.rankings + t1);
    assert(m2.rankings == (m.rankings + t1) + t2);
    lemma_records_of_concat(m.rankings, t1, id1);
    lemma_records_of_concat(m.rankings + t1, t2, id1);
    lemma_records_of_concat(m.rankings, t1, id2);
    lemma_records_of_concat(m.rankings + t1, t2, id2);
    lemma_records_of_absent(m.rankings, id1);
    lemma_records_of_absent(m.rankings, id2);
    lemma_records_of_tag(items1, id1, id1);
    lemma_records_of_tag(items1, id1, id2);
    lemma_records_of_tag(items2, id2, id1);
    lemma_records_of_tag(items2, id2, id2);
    assert(spec_records_of(m2.rankings, id1) =~= items1);
    assert(spec_records_of(m2.rankings, id2) =~= items2);
    assert(spec_records_of(m1.rankings, id1) =~= items1);
}

/// One record-session request, as the actor accepts it.
pub ghost struct SessionReq {
    pub category_id: int,
    pub source_url: Seq<char>,
    pub status: Seq<char>,
    pub total_items: int,
    pub error_message: Option<Seq<char>>,
    pub items: Seq<ProductItemV>,
    pub now: Stamp,
}

/// Recording a whole sequence of session requests, in acceptance order.
pub open spec fn spec_record_all(m: StoreModel, reqs: Seq<SessionReq>) -> StoreModel
    decreases reqs.len(),
{
    if reqs.len() == 0 {
        m
    } else {
        let r = reqs.first();
        spec_record_all(
            spec_record_session(
                m,
                r.category_id,
                r.source_url,
                r.status,
                r.total_items,
                r.error_message,
                r.items,
                r.now,
            ).0,
            reqs.drop_first(),
        )
    }
}

proof fn lemma_record_step_inv(
    m: StoreModel,
    cat: int,
    url: Seq<char>,
    st: Seq<char>,
    tot: int,
    err: Option<Seq<char>>,
    items: Seq<ProductItemV>,
    now: Stamp,
)
    requires
        inv(m),
        crate::date::valid_stamp(now),
        m.next_session_id < i64::MAX,
    ensures
        inv(spec_record_session(m, cat, url, st, tot, err, items, now).0),
{
    let m1 = spec_record_session(m, cat, url, st, tot, err, items, now).0;
    let t = spec_tag_rankings(items, m.next_session_id);
    assert(forall|i: int|
        0 <= i < t.len() ==> (#[trigger] t[i]).session_id == m.next_session_id);
    assert(forall|i: int|
        0 <= i < m1.rankings.len() ==> 1 <= (#[trigger] m1.rankings[i]).session_id
            < m1.next_session_id) by {
        assert(forall|i: int|
            0 <= i < m.rankings.len() ==> #[trigger] m1.rankings[i] == m.rankings[i]);
        assert(forall|i: int|
            m.rankings.len() <= i < m1.rankings.len() ==> #[trigger] m1.rankings[i] == t[i
                - m.rankings.len()]);
    }
}

proof fn lemma_record_all_frame(m: StoreModel, reqs: Seq<SessionReq>, sid: int)
    requires
        inv(m),
        forall|t: int| 0 <= t < reqs.len() ==> crate::date::valid_stamp((#[trigger] reqs[t]).now),
        m.next_session_id + reqs.len() <= i64::MAX,
        sid < m.next_session_id,
    ensures
        inv(spec_record_all(m, reqs)),
        spec_record_all(m, reqs).next_session_id == m.next_session_id + reqs.len(),
        spec_records_of(spec_record_all(m, reqs).rankings, sid) == spec_records_of(
            m.rankings,
            sid,
        ),
    decreases reqs.len(),
{
    if reqs.len() > 0 {
        let r = reqs.first();
        let (m1, id) = spec_record_session(
            m,
            r.category_id,
            r.source_url,
            r.status,
            r.total_items,
            r.error_message,
            r.items,
            r.now,
        );
        lemma_record_step_inv(
            m,
            r.category_id,
            r.source_url,
            r.status,
            r.total_items,
            r.error_message,
            r.items,
            r.now,
        );
        lemma_records_of_concat(m.rankings, spec_tag_rankings(r.items, id), sid);
        lemma_records_of_tag(r.items, id, sid);
        assert(spec_records_of(m1.rankings, sid) =~= spec_records_of(m.rankings, sid));
        assert(forall|t: int|
            0 <= t < reqs.drop_first().len() ==> #[trigger] reqs.drop_first()[t] == reqs[t + 1]);
        lemma_record_all_frame(m1, reqs.drop_first(), sid);
    }
}

/// Law: over any sequence of accepted record-session requests, the
/// identities assigned are consecutive — strictly increasing in acceptance
/// order — and afterwards the session of the `k`-th request holds exactly
/// the records submitted with it, whatever the other requests carried.
pub proof fn lemma_sessions_isolated(m: StoreModel, reqs: Seq<SessionReq>, k: int)
    requires
        inv(m),
        forall|t: int| 0 <= t < reqs.len() ==> crate::date::valid_stamp((#[trigger] reqs[t]).now),
        m.next_session_id + reqs.len() <= i64::MAX,
        0 <= k < reqs.len(),
    ensures
        spec_record_all(m, reqs).next_session_id == m.next_session_id + reqs.len(),
        spec_records_of(spec_record_all(m, reqs).rankings, m.next_session_id + k)
            == reqs[k].items,
    decreases reqs.len(),
{
    let r = reqs.first();
    let (m1, id) = spec_record_session(
        m,
        r.category_id,
        r.source_url,
        r.status,
        r.total_items,
        r.error_message,
        r.items,
        r.now,
    );
    lemma_record_step_inv(
        m,
        r.category_id,
        r.source_url,
        r.status,
        r.total_items,
        r.error_message,
        r.items,
        r.now,
    );
    assert(forall|t: int|
        0 <= t < reqs.drop_first().len() ==> #[trigger] reqs.drop_first()[t] == reqs[t + 1]);
    if k == 0 {
        lemma_records_of_concat(m.rankings, spec_tag_rankings(r.items, id), id);
        lemma_records_of_absent(m.rankings, id);
        lemma_records_of_tag(r.items, id, id);
        assert(spec_records_of(m1.rankings, id) =~= r.items);
        lemma_record_all_frame(m1, reqs.drop_first(), id);
        assert(spec_records_of(spec_record_all(m1, reqs.drop_first()).rankings, id) =~= r.items);
    } else {
        lemma_sessions_isolated(m1, reqs.drop_first(), k - 1);
    }
}

/// Law: saving the same review (same entity, date, author, content) twice
/// leaves exactly the rows of the first save — the second call inserts
/// nothing, whenever it runs and whatever its stamp. The first call inserts
/// the row exactly when its key was not yet stored.
pub proof fn lemma_review_dedup(
    m: StoreModel,
    pid: Seq<char>,
    r: ReviewItemV,
    now1: Stamp,
    now2: Stamp,
)
    requires
        spec_parse_ymd(r.review_date) is Some,
    ensures
        ({
            let d = spec_parse_ymd(r.review_date)->Some_0;
            let cand1 = spec_review_from(pid, r, d, m.next_review_id, now1);
            let (rows1, nid1, c1) = spec_save_reviews(
                m.reviews,
                pid,
                seq![r],
                now1,
                m.next_review_id,
            );
            let (rows2, nid2, c2) = spec_save_reviews(rows1, pid, seq![r], now2, nid1);
            &&& !spec_has_key(m.reviews, cand1) ==> rows1 == m.reviews.push(cand1) && c1 == 1
            &&& spec_has_key(m.reviews, cand1) ==> rows1 == m.reviews && c1 == 0
            &&& rows2 == rows1
            &&& c2 == 0
            &&& nid2 == nid1
        }),
{
    reveal_with_fuel(spec_save_reviews, 4);
    let d = spec_parse_ymd(r.review_date)->Some_0;
    let cand1 = spec_review_from(pid, r, d, m.next_review_id, now1);
    assert(seq![r].first() == r);
    assert(seq![r].drop_first() =~= Seq::<ReviewItemV>::empty());
    let (rows1, nid1, c1) = spec_save_reviews(m.reviews, pid, seq![r], now1, m.next_review_id);
    if spec_has_key(m.reviews, cand1) {
        assert(rows1 == m.reviews);
        let cand2 = spec_review_from(pid, r, d, nid1, now2);
        assert(same_review_key(cand1, cand2));
        let i = choose|i: int| 0 <= i < m.reviews.len() && same_review_key(m.reviews[i], cand1);
        assert(same_review_key(rows1[i], cand2));
        assert(spec_has_key(rows1, cand2));
    } else {
        assert(rows1 == m.reviews.push(cand1));
        let cand2 = spec_review_from(pid, r, d, nid1, now2);
        assert(same_review_key(rows1[rows1.len() - 1], cand2));
        assert(spec_has_key(rows1, cand2));
    }
}

/// Law: saving two reviews that differ only in content stores two rows —
/// the deduplication key tells them apart.
pub proof fn lemma_review_distinct_content(
    m: StoreModel,
    pid: Seq<char>,
    r1: ReviewItemV,
    r2: ReviewItemV,
    now: Stamp,
)
    requires
        spec_parse_ymd(r1.review_date) is Some,
        r2.review_date == r1.review_date,
        r2.writer_name == r1.writer_name,
        r2.content != r1.content,
        !spec_has_key(
            m.reviews,
            spec_review_from(
                pid,
                r1,
                spec_parse_ymd(r1.review_date)->Some_0,
                m.next_review_id,
                now,
            ),
        ),
        !spec_has_key(
            m.reviews,
            spec_review_from(
                pid,
                r2,
                spec_parse_ymd(r2.review_date)->Some_0,
                m.next_review_id,
                now,
            ),
        ),
    ensures
        ({
            let d = spec_parse_ymd(r1.review_date)->Some_0;
            let cand1 = spec_review_from(pid, r1, d, m.next_review_id, now);
            let cand2 = spec_review_from(pid, r2, d, m.next_review_id + 1, now);
            let (rows, nid, c) = spec_save_reviews(
                m.reviews,
                pid,
                seq![r1, r2],
                now,
                m.next_review_id,
            );
            &&& rows == m.reviews.push(cand1).push(cand2)
            &&& c == 2
            &&& nid == m.next_review_id + 2
        }),
{
    reveal_with_fuel(spec_save_reviews, 4);
    let d = spec_parse_ymd(r1.review_date)->Some_0;
    let cand1 = spec_review_from(pid, r1, d, m.next_review_id, now);
    let cand2 = spec_review_from(pid, r2, d, m.next_review_id + 1, now);
    assert(seq![r1, r2].first() == r1);
    assert(seq![r1, r2].drop_first() =~= seq![r2]);
    assert(seq![r2].first() == r2);
    assert(seq![r2].drop_first() =~= Seq::<ReviewItemV>::empty());
    let mid = m.reviews.push(cand1);
    assert(!same_review_key(cand1, cand2));
    assert(!spec_has_key(mid, cand2)) by {
        assert(forall|i: int|
            0 <= i < m.reviews.len() ==> mid[i] == #[trigger] m.reviews[i]);
        let c2u = spec_review_from(pid, r2, d, m.next_review_id, now);
        assert(forall|i: int|
            0 <= i < m.reviews.len() ==> !same_review_key(#[trigger] m.reviews[i], c2u)
                ==> !same_review_key(m.reviews[i], cand2));
        assert forall|i: int| 0 <= i < mid.len() implies !same_review_key(
            #[trigger] mid[i],
            cand2,
        ) by {
            if i < m.reviews.len() {
                assert(!same_review_key(m.reviews[i], c2u));
            } else {
                assert(mid[i] == cand1);
            }
        }
    }
}

/// No two rows share an external id.
pub open spec fn pid_unique(ps: Seq<ManagedRowV>) -> bool {
    forall|i: int, j: int|
        0 <= i < ps.len() && 0 <= j < ps.len() && i != j ==> ps[i].product_id != ps[j].product_id
}

/// Whether a stored row carries exactly what upserting `p` at `now` writes:
/// its key, every overwritten field, and the stamp. Its group id is the one
/// field an upsert never writes on an existing row.
pub open spec fn refreshed_by(row: ManagedRowV, p: ManagedProductV, now: Stamp) -> bool {
    &&& row.product_id == p.product_id
    &&& row.product_name == p.product_name
    &&& row.product_image_url == p.product_image_url
    &&& row.brand_name == p.brand_name
    &&& row.is_active == p.is_active
    &&& row.last_updated_at == now
}

/// Whether the first row carrying `p`'s key exists and is refreshed by `p`.
pub open spec fn first_match_refreshed(ps: Seq<ManagedRowV>, p: ManagedProductV, now: Stamp) -> bool {
    exists|i: int|
        0 <= i < ps.len() && #[trigger] refreshed_by(ps[i], p, now) && forall|j: int|
            0 <= j < i ==> (#[trigger] ps[j]).product_id != p.product_id
}

proof fn lemma_upsert_row_refreshes(ps: Seq<ManagedRowV>, p: ManagedProductV, now: Stamp)
    ensures
        first_match_refreshed(spec_upsert_row(ps, p, now), p, now),
    decreases ps.len(),
{
    let out = spec_upsert_row(ps, p, now);
    if ps.len() == 0 {
        assert(refreshed_by(out[0], p, now));
    } else if ps.first().product_id == p.product_id {
        assert(out[0] == spec_refresh_row(ps.first(), p, now));
        assert(refreshed_by(out[0], p, now));
    } else {
        lemma_upsert_row_refreshes(ps.drop_first(), p, now);
        let sub = spec_upsert_row(ps.drop_first(), p, now);
        let i = choose|i: int|
            0 <= i < sub.len() && #[trigger] refreshed_by(sub[i], p, now) && forall|j: int|
                0 <= j < i ==> (#[trigger] sub[j]).product_id != p.product_id;
        assert(out == seq![ps.first()] + sub);
        assert(out[i + 1] == sub[i]);
        assert(refreshed_by(out[i + 1], p, now));
        assert(forall|j: int| 1 <= j < i + 1 ==> (#[trigger] out[j]) == sub[j - 1]);
        assert(forall|j: int| 0 <= j < i + 1 ==> (#[trigger] out[j]).product_id != p.product_id);
    }
}

proof fn lemma_upsert_row_keeps_match(
    ws: Seq<ManagedRowV>,
    p: ManagedProductV,
    now: Stamp,
    q: ManagedProductV,
    now2: Stamp,
)
    requires
        first_match_refreshed(ws, p, now),
        q.product_id != p.product_id,
    ensures
        first_match_refreshed(spec_upsert_row(ws, q, now2), p, now),
    decreases ws.len(),
{
    let out = spec_upsert_row(ws, q, now2);
    let i = choose|i: int|
        0 <= i < ws.len() && #[trigger] refreshed_by(ws[i], p, now) && forall|j: int|
            0 <= j < i ==> (#[trigger] ws[j]).product_id != p.product_id;
    if ws.first().product_id == q.product_id {
        assert(out == seq![spec_refresh_row(ws.first(), q, now2)] + ws.drop_first());
        assert(i != 0);
        assert(out[i] == ws[i]);
        assert(refreshed_by(out[i], p, now));
        assert(out[0].product_id == q.product_id);
        assert(forall|j: int| 1 <= j < i ==> (#[trigger] out[j]) == ws[j]);
        assert(forall|j: int| 0 <= j < i ==> (#[trigger] out[j]).product_id != p.product_id);
    } else if i == 0 {
        assert(out == seq![ws.first()] + spec_upsert_row(ws.drop_first(), q, now2));
        assert(refreshed_by(out[0], p, now));
    } else {
        assert(first_match_refreshed(ws.drop_first(), p, now)) by {
            assert(refreshed_by(ws.drop_first()[i - 1], p, now));
            assert(forall|j: int|
                0 <= j < i - 1 ==> (#[trigger] ws.drop_first()[j]).product_id != p.product_id);
        }
        lemma_upsert_row_keeps_match(ws.drop_first(), p, now, q, now2);
        let sub = spec_upsert_row(ws.drop_first(), q, now2);
        let i2 = choose|i2: int|
            0 <= i2 < sub.len() && #[trigger] refreshed_by(sub[i2], p, now) && forall|j: int|
                0 <= j < i2 ==> (#[trigger] sub[j]).product_id != p.product_id;
        assert(out == seq![ws.first()] + sub);
        assert(out[i2 + 1] == sub[i2]);
        assert(refreshed_by(out[i2 + 1], p, now));
        assert(forall|j: int| 1 <= j < i2 + 1 ==> (#[trigger] out[j]) == sub[j - 1]);
        assert(forall|j: int|
            0 <= j < i2 + 1 ==> (#[trigger] out[j]).product_id != p.product_id);
    }
}

proof fn lemma_batch_keeps_match(
    ws: Seq<ManagedRowV>,
    p: ManagedProductV,
    now: Stamp,
    items: Seq<ManagedProductV>,
    now2: Stamp,
)
    requires
        first_match_refreshed(ws, p, now),
        forall|t: int| 0 <= t < items.len() ==> (#[trigger] items[t]).product_id != p.product_id,
    ensures
        first_match_refreshed(spec_upsert_batch(ws, items, now2), p, now),
    decreases items.len(),
{
    if items.len() > 0 {
        lemma_upsert_row_keeps_match(ws, p, now, items.first(), now2);
        assert(forall|t: int|
            0 <= t < items.drop_first().len() ==> (#[trigger] items.drop_first()[t]).product_id
                == items[t + 1].product_id);
        lemma_batch_keeps_match(
            spec_upsert_row(ws, items.first(), now2),
            p,
            now,
            items.drop_first(),
            now2,
        );
    }
}

proof fn lemma_upsert_row_noop(ws: Seq<ManagedRowV>, p: ManagedProductV, now: Stamp)
    requires
        first_match_refreshed(ws, p, now),
    ensures
        spec_upsert_row(ws, p, now) == ws,
    decreases ws.len(),
{
    let i = choose|i: int|
        0 <= i < ws.len() && #[trigger] refreshed_by(ws[i], p, now) && forall|j: int|
            0 <= j < i ==> (#[trigger] ws[j]).product_id != p.product_id;
    if i == 0 {
        assert(ws.first().product_id == p.product_id);
        assert(spec_refresh_row(ws.first(), p, now) == ws.first());
        assert(spec_upsert_row(ws, p, now) =~= ws);
    } else {
        assert(ws.first().product_id != p.product_id);
        assert(first_match_refreshed(ws.drop_first(), p, now)) by {
            assert(refreshed_by(ws.drop_first()[i - 1], p, now));
            assert(forall|j: int|
                0 <= j < i - 1 ==> (#[trigger] ws.drop_first()[j]).product_id != p.product_id);
        }
        lemma_upsert_row_noop(ws.drop_first(), p, now);
        assert(spec_upsert_row(ws, p, now) =~= ws);
    }
}

/// Law: upserting an item whose external id is already stored keeps the
/// stored row's identity and group id, overwrites its name, image, group
/// name, active flag and stamp, and touches no other row — the store is the
/// old store with that one row updated in place.
pub proof fn lemma_upsert_overwrites_in_place(
    ps: Seq<ManagedRowV>,
    p: ManagedProductV,
    now: Stamp,
    idx: int,
)
    requires
        pid_unique(ps),
        0 <= idx < ps.len(),
        ps[idx].product_id == p.product_id,
    ensures
        spec_upsert_row(ps, p, now) == ps.update(idx, spec_refresh_row(ps[idx], p, now)),
        spec_refresh_row(ps[idx], p, now).product_id == ps[idx].product_id,
        spec_refresh_row(ps[idx], p, now).brand_id == ps[idx].brand_id,
        refreshed_by(spec_refresh_row(ps[idx], p, now), p, now),
{
    crate::store::lemma_upsert_row_update(ps, p, now, idx);
}

/// Law: upserting the same batch twice is idempotent — the second pass
/// rewrites every row to the value it already has, so the final state is
/// identical and no duplicate rows appear. Stated for batches that name each
/// external id once, as a catalog snapshot does.
pub proof fn lemma_upsert_idempotent(
    ps: Seq<ManagedRowV>,
    items: Seq<ManagedProductV>,
    now: Stamp,
)
    requires
        forall|i: int, j: int|
            0 <= i < items.len() && 0 <= j < items.len() && i != j ==> items[i].product_id
                != items[j].product_id,
    ensures
        spec_upsert_batch(spec_upsert_batch(ps, items, now), items, now) == spec_upsert_batch(
            ps,
            items,
            now,
        ),
    decreases items.len(),
{
    if items.len() == 0 {
    } else {
        let p = items.first();
        let rest = items.drop_first();
        let ps1 = spec_upsert_row(ps, p, now);
        let s = spec_upsert_batch(ps1, rest, now);
        assert(spec_upsert_batch(ps, items, now) == s);
        assert(forall|t: int|
            0 <= t < rest.len() ==> (#[trigger] rest[t]).product_id == items[t + 1].product_id);
        assert(forall|t: int| 0 <= t < rest.len() ==> rest[t].product_id != p.product_id);
        lemma_upsert_row_refreshes(ps, p, now);
        lemma_batch_keeps_match(ps1, p, now, rest, now);
        lemma_upsert_row_noop(s, p, now);
        assert(spec_upsert_batch(s, items, now) == spec_upsert_batch(
            spec_upsert_row(s, p, now),
            rest,
            now,
        ));
        assert(spec_upsert_row(s, p, now) == s);
        assert(forall|i: int, j: int|
            0 <= i < rest.len() && 0 <= j < rest.len() && i != j ==> rest[i].product_id
                != rest[j].product_id);
        lemma_upsert_idempotent(ps1, rest, now);
    }
}

} // verus!
