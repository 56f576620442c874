//! The record store: every operation of the persistence core, with exact
//! semantics over a mathematical model of its four tables.
//!
//! One instance is meant to be owned by a single consumer that applies
//! requests strictly one after another; each operation here is atomic by
//! construction (it either performs its whole effect or, on a rejected
//! input, leaves the store untouched), which gives that consumer the
//! transactional behaviour the design asks for.

use vstd::prelude::*;

use crate::date::{
    format_stamp, format_ymd, parse_ymd, spec_date_lt, spec_fmt_stamp, spec_fmt_ymd,
    spec_parse_ymd, spec_stamp_le, valid_date, valid_stamp, Date, Stamp,
};
use crate::text::{spec_contains_ci, spec_trim, str_eq, trim_spaces};
use crate::types::{
    ManagedProduct, ManagedProductV, ManagedProductWithRank, ManagedProductWithRankV, ProductItem,
    ProductItemV, RankHistory, RankHistoryV, ReviewItem, ReviewItemV, ReviewStats, ReviewWithMeta,
    ReviewWithMetaV,
};

verus! {

/// Most reviews the store accepts; a batch that would take the count past
/// this bound is rejected whole, the way a full storage medium would.
pub const REVIEW_CAPACITY: usize = 0x4000_0000;

/// Why the store refused an operation. Every refusal leaves it unchanged.
#[derive(Clone, Copy, Debug, PartialEq, Eq, Structural)]
pub enum StoreError {
    /// No identity or room is left for another row.
    CapacityExhausted,
    /// A review's date is not a `YYYY-MM-DD` calendar date.
    InvalidReviewDate,
    /// A review's rating lies outside 1 to 5.
    InvalidRating,
}

/// The views of a sequence of viewable records.
pub open spec fn views_of<T: View>(s: Seq<T>) -> Seq<T::V> {
    s.map_values(|x: T| x@)
}

/// One stored acquisition session.
pub struct SessionRow {
    pub id: i64,
    pub category_id: i32,
    pub source_url: String,
    pub status: String,
    pub total_items: i32,
    pub error_message: Option<String>,
    pub created_at: Stamp,
}

#[verifier::ext_equal]
pub ghost struct SessionV {
    pub id: int,
    pub category_id: int,
    pub source_url: Seq<char>,
    pub status: Seq<char>,
    pub total_items: int,
    pub error_message: Option<Seq<char>>,
    pub created_at: Stamp,
}

impl View for SessionRow {
    type V = SessionV;

    open spec fn view(&self) -> SessionV {
        SessionV {
            id: self.id as int,
            category_id: self.category_id as int,
            source_url: self.source_url@,
            status: self.status@,
            total_items: self.total_items as int,
            error_message: match self.error_message {
                Option::Some(s) => Option::Some(s@),
                Option::None => Option::None,
            },
            created_at: self.created_at,
        }
    }
}

/// One stored ranked record, owned by the session that captured it.
pub struct RankingRow {
    pub session_id: i64,
    pub item: ProductItem,
}

#[verifier::ext_equal]
pub ghost struct RankingV {
    pub session_id: int,
    pub item: ProductItemV,
}

impl View for RankingRow {
    type V = RankingV;

    open spec fn view(&self) -> RankingV {
        RankingV { session_id: self.session_id as int, item: self.item@ }
    }
}

/// One stored catalog item; its external id is the upsert key.
pub struct ManagedRow {
    pub product_id: String,
    pub product_name: String,
    pub product_image_url: Option<String>,
    pub brand_id: String,
    pub brand_name: String,
    pub is_active: bool,
    pub last_updated_at: Stamp,
}

#[verifier::ext_equal]
pub ghost struct ManagedRowV {
    pub product_id: Seq<char>,
    pub product_name: Seq<char>,
    pub product_image_url: Option<Seq<char>>,
    pub brand_id: Seq<char>,
    pub brand_name: Seq<char>,
    pub is_active: bool,
    pub last_updated_at: Stamp,
}

impl View for ManagedRow {
    type V = ManagedRowV;

    open spec fn view(&self) -> ManagedRowV {
        ManagedRowV {
            product_id: self.product_id@,
            product_name: self.product_name@,
            product_image_url: match self.product_image_url {
                Option::Some(s) => Option::Some(s@),
                Option::None => Option::None,
            },
            brand_id: self.brand_id@,
            brand_name: self.brand_name@,
            is_active: self.is_active,
            last_updated_at: self.last_updated_at,
        }
    }
}

/// One stored review; (entity, date, author, content) is the dedup key.
pub struct ReviewRow {
    pub id: i64,
    pub product_id: String,
    pub review_date: Date,
    pub writer_name: String,
    pub rating: i32,
    pub content: String,
    pub images: Vec<String>,
    pub crawled_at: Stamp,
}

#[verifier::ext_equal]
pub ghost struct ReviewRowV {
    pub id: int,
    pub product_id: Seq<char>,
    pub review_date: Date,
    pub writer_name: Seq<char>,
    pub rating: int,
    pub content: Seq<char>,
    pub images: Seq<Seq<char>>,
    pub crawled_at: Stamp,
}

impl View for ReviewRow {
    type V = ReviewRowV;

    open spec fn view(&self) -> ReviewRowV {
        ReviewRowV {
            id: self.id as int,
            product_id: self.product_id@,
            review_date: self.review_date,
            writer_name: self.writer_name@,
            rating: self.rating as int,
            content: self.content@,
            images: self.images.deep_view(),
            crawled_at: self.crawled_at,
        }
    }
}

/// Whether two reviews coincide on the deduplication key.
pub open spec fn same_review_key(a: ReviewRowV, b: ReviewRowV) -> bool {
    &&& a.product_id == b.product_id
    &&& a.review_date == b.review_date
    &&& a.writer_name == b.writer_name
    &&& a.content == b.content
}

/// The abstract state of the store.
#[verifier::ext_equal]
pub ghost struct StoreModel {
    pub sessions: Seq<SessionV>,
    pub rankings: Seq<RankingV>,
    pub products: Seq<ManagedRowV>,
    pub reviews: Seq<ReviewRowV>,
    pub next_session_id: int,
    pub next_review_id: int,
}

/// The state of a freshly opened store.
pub open spec fn empty_model() -> StoreModel {
    StoreModel {
        sessions: Seq::empty(),
        rankings: Seq::empty(),
        products: Seq::empty(),
        reviews: Seq::empty(),
        next_session_id: 1,
        next_review_id: 1,
    }
}

/// The store's structural invariant: identities grow and are never reused,
/// catalog keys and review keys are unique, and every stored value is
/// well formed.
pub open spec fn inv(m: StoreModel) -> bool {
    &&& 1 <= m.next_session_id <= i64::MAX
    &&& 1 <= m.next_review_id <= i64::MAX
    &&& forall|i: int, j: int|
        0 <= i < j < m.sessions.len() ==> m.sessions[i].id < m.sessions[j].id
    &&& forall|i: int|
        0 <= i < m.sessions.len() ==> 1 <= #[trigger] m.sessions[i].id < m.next_session_id
    &&& forall|i: int| 0 <= i < m.sessions.len() ==> valid_stamp(#[trigger] m.sessions[i].created_at)
    &&& forall|i: int|
        0 <= i < m.rankings.len() ==> 1 <= #[trigger] m.rankings[i].session_id < m.next_session_id
    &&& forall|i: int, j: int|
        0 <= i < m.products.len() && 0 <= j < m.products.len() && i != j
            ==> m.products[i].product_id != m.products[j].product_id
    &&& forall|i: int|
        0 <= i < m.products.len() ==> valid_stamp(#[trigger] m.products[i].last_updated_at)
    &&& forall|i: int, j: int|
        0 <= i < j < m.reviews.len() ==> m.reviews[i].id < m.reviews[j].id
    &&& forall|i: int|
        0 <= i < m.reviews.len() ==> 1 <= #[trigger] m.reviews[i].id < m.next_review_id
    &&& forall|i: int, j: int|
        0 <= i < m.reviews.len() && 0 <= j < m.reviews.len() && i != j ==> !same_review_key(
            m.reviews[i],
            m.reviews[j],
        )
    &&& forall|i: int| 0 <= i < m.reviews.len() ==> valid_date(#[trigger] m.reviews[i].review_date)
    &&& forall|i: int| 0 <= i < m.reviews.len() ==> 1 <= #[trigger] m.reviews[i].rating <= 5
    &&& forall|i: int| 0 <= i < m.reviews.len() ==> valid_stamp(#[trigger] m.reviews[i].crawled_at)
    &&& m.reviews.len() <= REVIEW_CAPACITY
}

/// The records stored under one session identity, in storage order.
pub open spec fn spec_records_of(rankings: Seq<RankingV>, sid: int) -> Seq<ProductItemV>
    decreases rankings.len(),
{
    if rankings.len() == 0 {
        Seq::empty()
    } else {
        let rest = spec_records_of(rankings.drop_last(), sid);
        if rankings.last().session_id == sid {
            rest.push(rankings.last().item)
        } else {
            rest
        }
    }
}

/// The ranked records of one batch, tagged with their owning session.
pub open spec fn spec_tag_rankings(items: Seq<ProductItemV>, sid: int) -> Seq<RankingV> {
    items.map_values(|it: ProductItemV| RankingV { session_id: sid, item: it })
}

/// Recording a session appends it under the next identity, appends its
/// records tagged with that identity, and advances the identity counter.
pub open spec fn spec_record_session(
    m: StoreModel,
    category_id: int,
    source_url: Seq<char>,
    status: Seq<char>,
    total_items: int,
    error_message: Option<Seq<char>>,
    items: Seq<ProductItemV>,
    now: Stamp,
) -> (StoreModel, int) {
    let id = m.next_session_id;
    let session = SessionV {
        id,
        category_id,
        source_url,
        status,
        total_items,
        error_message,
        created_at: now,
    };
    (
        StoreModel {
            sessions: m.sessions.push(session),
            rankings: m.rankings + spec_tag_rankings(items, id),
            next_session_id: id + 1,
            ..m
        },
        id,
    )
}

/// The identities of the active catalog items, in storage order.
pub open spec fn spec_active_ids(ps: Seq<ManagedRowV>) -> Seq<Seq<char>>
    decreases ps.len(),
{
    if ps.len() == 0 {
        Seq::empty()
    } else {
        let rest = spec_active_ids(ps.drop_last());
        if ps.last().is_active {
            rest.push(ps.last().product_id)
        } else {
            rest
        }
    }
}

/// The latest update stamp among catalog items of one group.
pub open spec fn spec_last_sync(ps: Seq<ManagedRowV>, brand_id: Seq<char>) -> Option<Stamp>
    decreases ps.len(),
{
    if ps.len() == 0 {
        Option::None
    } else {
        let rest = spec_last_sync(ps.drop_last(), brand_id);
        if ps.last().brand_id == brand_id {
            match rest {
                Option::None => Option::Some(ps.last().last_updated_at),
                Option::Some(s) => Option::Some(
                    if spec_stamp_le(s, ps.last().last_updated_at) {
                        ps.last().last_updated_at
                    } else {
                        s
                    },
                ),
            }
        } else {
            rest
        }
    }
}

/// The latest ingestion stamp among all stored reviews.
pub open spec fn spec_last_crawl(rs: Seq<ReviewRowV>) -> Option<Stamp>
    decreases rs.len(),
{
    if rs.len() == 0 {
        Option::None
    } else {
        let rest = spec_last_crawl(rs.drop_last());
        match rest {
            Option::None => Option::Some(rs.last().crawled_at),
            Option::Some(s) => Option::Some(
                if spec_stamp_le(s, rs.last().crawled_at) {
                    rs.last().crawled_at
                } else {
                    s
                },
            ),
        }
    }
}

/// Count and rating total of one entity's reviews: over all of them, and
/// restricted to one target date.
pub open spec fn spec_review_stats(rs: Seq<ReviewRowV>, pid: Seq<char>, target: Date) -> (
    int,
    int,
    int,
    int,
)
    decreases rs.len(),
{
    if rs.len() == 0 {
        (0int, 0int, 0int, 0int)
    } else {
        let (tc, tt, yc, yt) = spec_review_stats(rs.drop_last(), pid, target);
        let r = rs.last();
        if r.product_id == pid {
            if r.review_date == target {
                (tc + 1, tt + r.rating, yc + 1, yt + r.rating)
            } else {
                (tc + 1, tt + r.rating, yc, yt)
            }
        } else {
            (tc, tt, yc, yt)
        }
    }
}

/// The stored row a catalog item gets when its key is new.
pub open spec fn spec_fresh_row(p: ManagedProductV, now: Stamp) -> ManagedRowV {
    ManagedRowV {
        product_id: p.product_id,
        product_name: p.product_name,
        product_image_url: p.product_image_url,
        brand_id: p.brand_id,
        brand_name: p.brand_name,
        is_active: p.is_active,
        last_updated_at: now,
    }
}

/// The stored row after an upsert hits an existing key: identity and group
/// id stay, the rest is overwritten and the stamp refreshed.
pub open spec fn spec_refresh_row(row: ManagedRowV, p: ManagedProductV, now: Stamp) -> ManagedRowV {
    ManagedRowV {
        product_id: row.product_id,
        product_name: p.product_name,
        product_image_url: p.product_image_url,
        brand_id: row.brand_id,
        brand_name: p.brand_name,
        is_active: p.is_active,
        last_updated_at: now,
    }
}

/// Upserting one item refreshes the row holding its key, or appends a fresh
/// row when no row holds it.
pub open spec fn spec_upsert_row(ps: Seq<ManagedRowV>, p: ManagedProductV, now: Stamp) -> Seq<
    ManagedRowV,
>
    decreases ps.len(),
{
    if ps.len() == 0 {
        seq![spec_fresh_row(p, now)]
    } else if ps.first().product_id == p.product_id {
        seq![spec_refresh_row(ps.first(), p, now)] + ps.drop_first()
    } else {
        seq![ps.first()] + spec_upsert_row(ps.drop_first(), p, now)
    }
}

/// Upserting a batch applies its items in order.
pub open spec fn spec_upsert_batch(
    ps: Seq<ManagedRowV>,
    items: Seq<ManagedProductV>,
    now: Stamp,
) -> Seq<ManagedRowV>
    decreases items.len(),
{
    if items.len() == 0 {
        ps
    } else {
        spec_upsert_batch(spec_upsert_row(ps, items.first(), now), items.drop_first(), now)
    }
}

/// On a present key (first at `idx`, keys before it differ), an upsert is an
/// in-place refresh.
pub proof fn lemma_upsert_row_update(ps: Seq<ManagedRowV>, p: ManagedProductV, now: Stamp, idx: int)
    requires
        0 <= idx < ps.len(),
        ps[idx].product_id == p.product_id,
        forall|j: int| 0 <= j < idx ==> ps[j].product_id != p.product_id,
    ensures
        spec_upsert_row(ps, p, now) =~= ps.update(idx, spec_refresh_row(ps[idx], p, now)),
    decreases idx,
{
    if idx == 0 {
        assert(spec_upsert_row(ps, p, now) =~= ps.update(0, spec_refresh_row(ps[0], p, now)));
    } else {
        lemma_upsert_row_update(ps.drop_first(), p, now, idx - 1);
        assert(forall|j: int|
            0 <= j < idx - 1 ==> ps.drop_first()[j] == ps[j + 1] && ps[j + 1].product_id
                != p.product_id);
        assert(spec_upsert_row(ps, p, now) =~= ps.update(idx, spec_refresh_row(ps[idx], p, now)));
    }
}

/// On an absent key, an upsert is an append.
pub proof fn lemma_upsert_row_append(ps: Seq<ManagedRowV>, p: ManagedProductV, now: Stamp)
    requires
        forall|j: int| 0 <= j < ps.len() ==> ps[j].product_id != p.product_id,
    ensures
        spec_upsert_row(ps, p, now) =~= ps.push(spec_fresh_row(p, now)),
    decreases ps.len(),
{
    if ps.len() == 0 {
        assert(spec_upsert_row(ps, p, now) =~= ps.push(spec_fresh_row(p, now)));
    } else {
        lemma_upsert_row_append(ps.drop_first(), p, now);
        assert(spec_upsert_row(ps, p, now) =~= ps.push(spec_fresh_row(p, now)));
    }
}

/// The stored row a review gets on insertion.
pub open spec fn spec_review_from(
    pid: Seq<char>,
    r: ReviewItemV,
    d: Date,
    id: int,
    now: Stamp,
) -> ReviewRowV {
    ReviewRowV {
        id,
        product_id: pid,
        review_date: d,
        writer_name: r.writer_name,
        rating: r.rating,
        content: r.content,
        images: r.images,
        crawled_at: now,
    }
}

/// Whether some stored review already carries this deduplication key.
pub open spec fn spec_has_key(rs: Seq<ReviewRowV>, k: ReviewRowV) -> bool {
    exists|i: int| 0 <= i < rs.len() && same_review_key(rs[i], k)
}

/// Why a review batch is rejected, if it is: the first item whose date is
/// not a calendar date, or failing that whose rating is out of range,
/// decides.
pub open spec fn spec_review_rejection(items: Seq<ReviewItemV>) -> Option<StoreError>
    decreases items.len(),
{
    if items.len() == 0 {
        Option::None
    } else if spec_parse_ymd(items.first().review_date) is None {
        Option::Some(StoreError::InvalidReviewDate)
    } else if !(1 <= items.first().rating <= 5) {
        Option::Some(StoreError::InvalidRating)
    } else {
        spec_review_rejection(items.drop_first())
    }
}

/// Saving a batch walks it in order; an item whose key is already present
/// (in the store or earlier in the batch) is ignored, any other is appended
/// under the next identity. Yields the rows, the next identity, and how many
/// were inserted.
pub open spec fn spec_save_reviews(
    rs: Seq<ReviewRowV>,
    pid: Seq<char>,
    items: Seq<ReviewItemV>,
    now: Stamp,
    next_id: int,
) -> (Seq<ReviewRowV>, int, int)
    decreases items.len(),
{
    if items.len() == 0 {
        (rs, next_id, 0int)
    } else {
        let r = items.first();
        let d = spec_parse_ymd(r.review_date)->Some_0;
        let cand = spec_review_from(pid, r, d, next_id, now);
        if spec_has_key(rs, cand) {
            spec_save_reviews(rs, pid, items.drop_first(), now, next_id)
        } else {
            let (rows, nid, c) = spec_save_reviews(
                rs.push(cand),
                pid,
                items.drop_first(),
                now,
                next_id + 1,
            );
            (rows, nid, c + 1)
        }
    }
}

/// The sessions with status `SUCCESS`, in storage (and so identity) order.
pub open spec fn spec_successes(s: Seq<SessionV>) -> Seq<SessionV>
    decreases s.len(),
{
    if s.len() == 0 {
        Seq::empty()
    } else {
        let rest = spec_successes(s.drop_last());
        if s.last().status == "SUCCESS"@ {
            rest.push(s.last())
        } else {
            rest
        }
    }
}

/// The records of one session whose group name contains the (folded) search
/// text; an empty search text keeps every record of the session.
pub open spec fn spec_search_items(
    rankings: Seq<RankingV>,
    sid: int,
    brand: Seq<char>,
) -> Seq<ProductItemV>
    decreases rankings.len(),
{
    if rankings.len() == 0 {
        Seq::empty()
    } else {
        let rest = spec_search_items(rankings.drop_last(), sid, brand);
        let r = rankings.last();
        if r.session_id == sid && (brand.len() == 0 || spec_contains_ci(
            r.item.brand_name,
            brand,
        )) {
            rest.push(r.item)
        } else {
            rest
        }
    }
}

/// The rank history points one session contributes for one entity.
pub open spec fn spec_history_rows(
    rankings: Seq<RankingV>,
    sid: int,
    pid: Seq<char>,
    date: Seq<char>,
) -> Seq<RankHistoryV>
    decreases rankings.len(),
{
    if rankings.len() == 0 {
        Seq::empty()
    } else {
        let rest = spec_history_rows(rankings.drop_last(), sid, pid, date);
        let r = rankings.last();
        if r.session_id == sid && r.item.product_id == pid {
            rest.push(RankHistoryV { date, rank: r.item.rank })
        } else {
            rest
        }
    }
}

/// One entity's (date, rank) series, sessions in identity (and so time)
/// order, each dated with its session's creation stamp.
pub open spec fn spec_history(
    sessions: Seq<SessionV>,
    rankings: Seq<RankingV>,
    pid: Seq<char>,
) -> Seq<RankHistoryV>
    decreases sessions.len(),
{
    if sessions.len() == 0 {
        Seq::empty()
    } else {
        spec_history(sessions.drop_last(), rankings, pid) + spec_history_rows(
            rankings,
            sessions.last().id,
            pid,
            spec_fmt_stamp(sessions.last().created_at),
        )
    }
}

/// Insertion into a rank-ascending sequence, after any equal rank.
pub open spec fn spec_insert_by_rank(s: Seq<ProductItemV>, x: ProductItemV) -> Seq<ProductItemV>
    decreases s.len(),
{
    if s.len() == 0 {
        seq![x]
    } else if s.first().rank <= x.rank {
        seq![s.first()] + spec_insert_by_rank(s.drop_first(), x)
    } else {
        seq![x] + s
    }
}

/// Stable sort by ascending rank.
pub open spec fn spec_sort_by_rank(s: Seq<ProductItemV>) -> Seq<ProductItemV>
    decreases s.len(),
{
    if s.len() == 0 {
        Seq::empty()
    } else {
        spec_insert_by_rank(spec_sort_by_rank(s.drop_last()), s.last())
    }
}

proof fn lemma_insert_by_rank_at(s: Seq<ProductItemV>, x: ProductItemV, pos: int)
    requires
        0 <= pos <= s.len(),
        forall|j: int| 0 <= j < pos ==> (#[trigger] s[j]).rank <= x.rank,
        pos < s.len() ==> s[pos].rank > x.rank,
    ensures
        spec_insert_by_rank(s, x) =~= s.insert(pos, x),
    decreases pos,
{
    if pos == 0 {
        assert(spec_insert_by_rank(s, x) =~= s.insert(0, x));
    } else {
        lemma_insert_by_rank_at(s.drop_first(), x, pos - 1);
        assert(spec_insert_by_rank(s, x) =~= s.insert(pos, x));
    }
}

/// The identity of the most recent `SUCCESS` session, if any.
pub open spec fn spec_latest_id(sessions: Seq<SessionV>) -> Option<int> {
    let ss = spec_successes(sessions);
    if ss.len() >= 1 {
        Option::Some(ss[ss.len() - 1].id)
    } else {
        Option::None
    }
}

/// The identity of the second most recent `SUCCESS` session, if any.
pub open spec fn spec_prev_id(sessions: Seq<SessionV>) -> Option<int> {
    let ss = spec_successes(sessions);
    if ss.len() >= 2 {
        Option::Some(ss[ss.len() - 2].id)
    } else {
        Option::None
    }
}

/// A session identity option as the model sees it.
pub open spec fn spec_opt_id(o: Option<i64>) -> Option<int> {
    match o {
        Option::Some(v) => Option::Some(v as int),
        Option::None => Option::None,
    }
}

/// Whether a ranked record belongs to the given session and entity.
pub open spec fn spec_rank_match(r: RankingV, sid: Option<int>, pid: Seq<char>) -> bool {
    sid matches Some(s) && r.session_id == s && r.item.product_id == pid
}

/// The rank of an entity in a session: the first matching record's rank, or
/// `None` when the session is absent or holds no record of the entity.
pub open spec fn spec_rank_in(rankings: Seq<RankingV>, sid: Option<int>, pid: Seq<char>) -> Option<
    int,
>
    decreases rankings.len(),
{
    if rankings.len() == 0 {
        Option::None
    } else if spec_rank_match(rankings.first(), sid, pid) {
        Option::Some(rankings.first().item.rank)
    } else {
        spec_rank_in(rankings.drop_first(), sid, pid)
    }
}

proof fn lemma_rank_in_at(rankings: Seq<RankingV>, sid: Option<int>, pid: Seq<char>, k: int)
    requires
        0 <= k < rankings.len(),
        spec_rank_match(rankings[k], sid, pid),
        forall|j: int| 0 <= j < k ==> !spec_rank_match(#[trigger] rankings[j], sid, pid),
    ensures
        spec_rank_in(rankings, sid, pid) == Option::Some(rankings[k].item.rank),
    decreases k,
{
    if k == 0 {
    } else {
        lemma_rank_in_at(rankings.drop_first(), sid, pid, k - 1);
        assert(forall|j: int|
            0 <= j < k - 1 ==> rankings.drop_first()[j] == #[trigger] rankings[j + 1]);
    }
}

proof fn lemma_rank_in_none(rankings: Seq<RankingV>, sid: Option<int>, pid: Seq<char>)
    requires
        forall|j: int|
            0 <= j < rankings.len() ==> !spec_rank_match(#[trigger] rankings[j], sid, pid),
    ensures
        spec_rank_in(rankings, sid, pid) is None,
    decreases rankings.len(),
{
    if rankings.len() > 0 {
        lemma_rank_in_none(rankings.drop_first(), sid, pid);
        assert(forall|j: int|
            0 <= j < rankings.len() - 1 ==> rankings.drop_first()[j] == #[trigger] rankings[j
                + 1]);
    }
}

/// The active catalog items joined with their rank in the latest and second
/// latest `SUCCESS` sessions.
pub open spec fn spec_with_ranks(
    products: Seq<ManagedRowV>,
    rankings: Seq<RankingV>,
    latest: Option<int>,
    prev: Option<int>,
) -> Seq<ManagedProductWithRankV>
    decreases products.len(),
{
    if products.len() == 0 {
        Seq::empty()
    } else {
        let rest = spec_with_ranks(products.drop_last(), rankings, latest, prev);
        let p = products.last();
        if p.is_active {
            rest.push(
                ManagedProductWithRankV {
                    product_id: p.product_id,
                    product_name: p.product_name,
                    product_image_url: p.product_image_url,
                    brand_name: p.brand_name,
                    is_active: p.is_active,
                    current_rank: spec_rank_in(rankings, latest, p.product_id),
                    previous_rank: spec_rank_in(rankings, prev, p.product_id),
                },
            )
        } else {
            rest
        }
    }
}

/// The sort key of a joined row: its current rank, or 9999 while unranked.
pub open spec fn spec_coalesced(r: ManagedProductWithRankV) -> int {
    match r.current_rank {
        Option::Some(v) => v,
        Option::None => 9999,
    }
}

/// Insertion into a sequence ascending by coalesced rank, after equals.
pub open spec fn spec_insert_by_coalesced(
    s: Seq<ManagedProductWithRankV>,
    x: ManagedProductWithRankV,
) -> Seq<ManagedProductWithRankV>
    decreases s.len(),
{
    if s.len() == 0 {
        seq![x]
    } else if spec_coalesced(s.first()) <= spec_coalesced(x) {
        seq![s.first()] + spec_insert_by_coalesced(s.drop_first(), x)
    } else {
        seq![x] + s
    }
}

/// Stable sort by ascending coalesced rank.
pub open spec fn spec_sort_by_coalesced(s: Seq<ManagedProductWithRankV>) -> Seq<
    ManagedProductWithRankV,
>
    decreases s.len(),
{
    if s.len() == 0 {
        Seq::empty()
    } else {
        spec_insert_by_coalesced(spec_sort_by_coalesced(s.drop_last()), s.last())
    }
}

proof fn lemma_insert_by_coalesced_at(
    s: Seq<ManagedProductWithRankV>,
    x: ManagedProductWithRankV,
    pos: int,
)
    requires
        0 <= pos <= s.len(),
        forall|j: int| 0 <= j < pos ==> spec_coalesced(#[trigger] s[j]) <= spec_coalesced(x),
        pos < s.len() ==> spec_coalesced(s[pos]) > spec_coalesced(x),
    ensures
        spec_insert_by_coalesced(s, x) =~= s.insert(pos, x),
    decreases pos,
{
    if pos == 0 {
        assert(spec_insert_by_coalesced(s, x) =~= s.insert(0, x));
    } else {
        lemma_insert_by_coalesced_at(s.drop_first(), x, pos - 1);
        assert(spec_insert_by_coalesced(s, x) =~= s.insert(pos, x));
    }
}

/// The stored reviews of one entity, in storage order.
pub open spec fn spec_reviews_for(rs: Seq<ReviewRowV>, pid: Seq<char>) -> Seq<ReviewRowV>
    decreases rs.len(),
{
    if rs.len() == 0 {
        Seq::empty()
    } else {
        let rest = spec_reviews_for(rs.drop_last(), pid);
        if rs.last().product_id == pid {
            rest.push(rs.last())
        } else {
            rest
        }
    }
}

/// Whether review `a` comes strictly before `b` when reading most recent
/// first: later date first, and newer identity first among equal dates.
pub open spec fn spec_newer(a: ReviewRowV, b: ReviewRowV) -> bool {
    if a.review_date != b.review_date {
        spec_date_lt(b.review_date, a.review_date)
    } else {
        b.id < a.id
    }
}

/// Insertion into a most-recent-first sequence.
pub open spec fn spec_insert_desc(s: Seq<ReviewRowV>, x: ReviewRowV) -> Seq<ReviewRowV>
    decreases s.len(),
{
    if s.len() == 0 {
        seq![x]
    } else if spec_newer(x, s.first()) {
        seq![x] + s
    } else {
        seq![s.first()] + spec_insert_desc(s.drop_first(), x)
    }
}

/// Sort most recent first (later date, then newer identity).
pub open spec fn spec_sort_desc(s: Seq<ReviewRowV>) -> Seq<ReviewRowV>
    decreases s.len(),
{
    if s.len() == 0 {
        Seq::empty()
    } else {
        spec_insert_desc(spec_sort_desc(s.drop_last()), s.last())
    }
}

proof fn lemma_insert_desc_at(s: Seq<ReviewRowV>, x: ReviewRowV, pos: int)
    requires
        0 <= pos <= s.len(),
        forall|j: int| 0 <= j < pos ==> !spec_newer(x, #[trigger] s[j]),
        pos < s.len() ==> spec_newer(x, s[pos]),
    ensures
        spec_insert_desc(s, x) =~= s.insert(pos, x),
    decreases pos,
{
    if pos == 0 {
        assert(spec_insert_desc(s, x) =~= s.insert(0, x));
    } else {
        lemma_insert_desc_at(s.drop_first(), x, pos - 1);
        assert(spec_insert_desc(s, x) =~= s.insert(pos, x));
    }
}

/// The result cap: a non-negative cap keeps the first so many rows, no cap
/// or a negative one keeps them all.
pub open spec fn spec_limited(s: Seq<ReviewRowV>, limit: Option<i32>) -> Seq<ReviewRowV> {
    match limit {
        Option::None => s,
        Option::Some(l) => if l < 0 {
            s
        } else if (l as int) < s.len() {
            s.take(l as int)
        } else {
            s
        },
    }
}

/// How a stored review reads back.
pub open spec fn spec_meta_of(row: ReviewRowV) -> ReviewWithMetaV {
    ReviewWithMetaV {
        id: row.id,
        product_id: row.product_id,
        review_date: spec_fmt_ymd(row.review_date),
        writer_name: row.writer_name,
        rating: row.rating,
        content: row.content,
        images: row.images,
        crawled_at: spec_fmt_stamp(row.crawled_at),
    }
}

/// One operation request, as the persistence actor receives it. The reply
/// channel of the transport layer is not part of the request value.
#[derive(Debug)]
pub enum DbRequest {
    SaveSession {
        category_id: i32,
        source_url: String,
        status: String,
        total_items: i32,
        error_message: Option<String>,
        items: Vec<ProductItem>,
    },
    SearchBrandLatest { brand_name: String },
    GetHistory { product_id: String },
    UpsertManagedProducts { products: Vec<ManagedProduct> },
    GetManagedProductsWithRank,
    GetLastManagedSync { brand_id: String },
    SaveReviews { product_id: String, reviews: Vec<ReviewItem> },
    GetProductReviews { product_id: String, limit: Option<i32> },
    GetReviewStats { product_id: String, target_date: Date },
    GetLastReviewCrawl,
    GetActiveProductIds,
}

/// The reply to one request. A failed operation is a value here, never a
/// stop: the actor answers it and goes on to the next request.
#[derive(Debug)]
pub enum DbResponse {
    SessionSaved(Result<i64, StoreError>),
    Items(Vec<ProductItem>),
    History(Vec<RankHistory>),
    Upserted(usize),
    ItemsWithRank(Vec<ManagedProductWithRank>),
    LastSync(Option<String>),
    ReviewsSaved(Result<usize, StoreError>),
    Reviews(Vec<ReviewWithMeta>),
    Stats(ReviewStats),
    LastCrawl(Option<String>),
    ActiveIds(Vec<String>),
}

/// The executable sort key of a joined row.
fn coalesced_key(r: &ManagedProductWithRank) -> (k: i32)
    ensures
        k as int == spec_coalesced(r@),
{
    match r.current_rank {
        Some(v) => v,
        None => 9999,
    }
}

/// A sort key for reading reviews back: date, identity, storage position.
#[derive(Clone, Copy)]
struct RevKey {
    date: Date,
    id: i64,
    idx: usize,
}

/// Whether key `a` comes strictly before key `b`, most recent first.
fn newer_key(a: &RevKey, b: &RevKey) -> (r: bool)
    ensures
        r == (if a.date != b.date {
            spec_date_lt(b.date, a.date)
        } else {
            b.id < a.id
        }),
{
    if a.date.year != b.date.year || a.date.month != b.date.month || a.date.day != b.date.day {
        a.date.on_or_after(&b.date)
    } else {
        b.id < a.id
    }
}

/// Copies a list of texts.
fn clone_strings(v: &Vec<String>) -> (r: Vec<String>)
    ensures
        r.deep_view() == v.deep_view(),
{
    let mut out: Vec<String> = Vec::new();
    let n = v.len();
    let mut i: usize = 0;
    while i < n
        invariant
            0 <= i <= n == v@.len(),
            out@.len() == i,
            out.deep_view() =~= v.deep_view().take(i as int),
        decreases n - i,
    {
        out.push(v[i].clone());
        proof {
            assert(out.deep_view() =~= v.deep_view().take(i as int + 1));
        }
        i = i + 1;
    }
    proof {
        assert(v.deep_view().take(v@.len() as int) =~= v.deep_view());
    }
    out
}

/// The record store. All access is meant to go through one owner at a time.
pub struct Store {
    sessions: Vec<SessionRow>,
    rankings: Vec<RankingRow>,
    products: Vec<ManagedRow>,
    reviews: Vec<ReviewRow>,
    next_session_id: i64,
    next_review_id: i64,
}

impl View for Store {
    type V = StoreModel;

    closed spec fn view(&self) -> StoreModel {
        StoreModel {
            sessions: views_of(self.sessions@),
            rankings: views_of(self.rankings@),
            products: views_of(self.products@),
            reviews: views_of(self.reviews@),
            next_session_id: self.next_session_id as int,
            next_review_id: self.next_review_id as int,
        }
    }
}

impl Store {
    /// The invariant, phrased on the store itself.
    pub open spec fn wf(&self) -> bool {
        inv(self@)
    }

    /// Opens an empty store.
    pub fn new() -> (s: Store)
        ensures
            s.wf(),
            s@ == empty_model(),
    {
        let s = Store {
            sessions: Vec::new(),
            rankings: Vec::new(),
            products: Vec::new(),
            reviews: Vec::new(),
            next_session_id: 1,
            next_review_id: 1,
        };
        proof {
            assert(s@ =~= empty_model());
        }
        s
    }

    /// Records one acquisition session with its ranked records, atomically,
    /// and returns the new session's identity. Refused only when the
    /// identity space is exhausted.
    pub fn save_session(
        &mut self,
        category_id: i32,
        source_url: String,
        status: String,
        total_items: i32,
        error_message: Option<String>,
        items: Vec<ProductItem>,
        now: Stamp,
    ) -> (r: Result<i64, StoreError>)
        requires
            old(self).wf(),
            valid_stamp(now),
        ensures
            final(self).wf(),
            old(self)@.next_session_id == i64::MAX ==> r == Result::<i64, StoreError>::Err(
                StoreError::CapacityExhausted,
            ) && final(self)@ == old(self)@,
            old(self)@.next_session_id < i64::MAX ==> ({
                let (m2, id) = spec_record_session(
                    old(self)@,
                    category_id as int,
                    source_url@,
                    status@,
                    total_items as int,
                    match error_message {
                        Option::Some(e) => Option::Some(e@),
                        Option::None => Option::None,
                    },
                    views_of(items@),
                    now,
                );
                r == Result::<i64, StoreError>::Ok(id as i64) && final(self)@ == m2
            }),
    {
        if self.next_session_id == i64::MAX {
            return Err(StoreError::CapacityExhausted);
        }
        let ghost items0 = views_of(items@);
        let ghost m2 = spec_record_session(
            self@,
            category_id as int,
            source_url@,
            status@,
            total_items as int,
            match error_message {
                Option::Some(ref e) => Option::Some(e@),
                Option::None => Option::None,
            },
            items0,
            now,
        ).0;
        let id = self.next_session_id;
        let row = SessionRow {
            id,
            category_id,
            source_url,
            status,
            total_items,
            error_message,
            created_at: now,
        };
        self.sessions.push(row);
        let ghost mpre = self@;
        let items_len = items.len();
        let mut items_in = items;
        let mut k: usize = 0;
        while items_in.len() > 0
            invariant
                items0.len() == items_len,
                k as int + items_in@.len() == items0.len(),
                views_of(items_in@) =~= items0.skip(k as int),
                self@.sessions == mpre.sessions,
                self@.products == mpre.products,
                self@.reviews == mpre.reviews,
                self@.next_session_id == mpre.next_session_id,
                self@.next_review_id == mpre.next_review_id,
                self@.rankings =~= mpre.rankings + spec_tag_rankings(
                    items0.take(k as int),
                    id as int,
                ),
            decreases items_in@.len(),
        {
            let ghost prev = items_in@;
            let item = items_in.remove(0);
            proof {
                assert(item@ == views_of(prev)[0]);
                assert(item@ == items0[k as int]);
                assert(views_of(items_in@) =~= items0.skip(k as int + 1)) by {
                    assert(forall|j: int|
                        0 <= j < items_in@.len() ==> #[trigger] items_in@[j] == prev[j + 1]);
                    assert(forall|j: int|
                        0 <= j < items_in@.len() ==> #[trigger] views_of(items_in@)[j] == views_of(
                            prev,
                        )[j + 1]);
                }
            }
            let ghost rprev = self.rankings@;
            let rrow = RankingRow { session_id: id, item };
            let ghost rv = rrow@;
            self.rankings.push(rrow);
            proof {
                assert(rv == RankingV { session_id: id as int, item: item@ });
                assert(self.rankings@ == rprev.push(rrow));
                assert(views_of(self.rankings@) =~= views_of(rprev).push(rv));
                assert(spec_tag_rankings(items0.take(k as int + 1), id as int) =~= spec_tag_rankings(
                    items0.take(k as int),
                    id as int,
                ).push(rv));
                assert(views_of(self.rankings@) =~= (mpre.rankings + spec_tag_rankings(
                    items0.take(k as int),
                    id as int,
                )).push(rv));
                assert((mpre.rankings + spec_tag_rankings(items0.take(k as int), id as int)).push(
                    rv,
                ) =~= mpre.rankings + spec_tag_rankings(items0.take(k as int + 1), id as int));
            }
            k = k + 1;
        }
        self.next_session_id = self.next_session_id + 1;
        proof {
            assert(items0.take(items0.len() as int) =~= items0);
            assert(self@ =~= m2);
        }
        Ok(id)
    }

    /// The identities of the catalog items still marked active.
    pub fn get_active_product_ids(&self) -> (r: Vec<String>)
        ensures
            views_of(r@) == spec_active_ids(self@.products),
    {
        let mut out: Vec<String> = Vec::new();
        let n = self.products.len();
        let mut i: usize = 0;
        while i < n
            invariant
                0 <= i <= n == self.products@.len(),
                views_of(out@) =~= spec_active_ids(self@.products.take(i as int)),
            decreases n - i,
        {
            proof {
                assert(self@.products.take(i as int + 1).drop_last() =~= self@.products.take(
                    i as int,
                ));
                assert(self@.products.take(i as int + 1).last() == self.products@[i as int]@);
            }
            let p = &self.products[i];
            if p.is_active {
                let ghost oprev = out@;
                out.push(p.product_id.clone());
                proof {
                    assert(views_of(out@) =~= views_of(oprev).push(p.product_id@));
                }
            }
            i = i + 1;
        }
        proof {
            assert(self@.products.take(self.products@.len() as int) =~= self@.products);
        }
        out
    }

    /// The most recent update stamp among catalog items of one group,
    /// rendered as a `YYYY-MM-DD HH:MM:SS` marker; `None` when the group has
    /// no item yet.
    pub fn get_last_managed_sync(&self, brand_id: &str) -> (r: Option<String>)
        requires
            self.wf(),
        ensures
            (r is None) == (spec_last_sync(self@.products, brand_id@) is None),
            r matches Some(s) ==> spec_last_sync(self@.products, brand_id@) matches Some(st)
                && s@ == spec_fmt_stamp(st),
    {
        let mut best: Option<Stamp> = None;
        let n = self.products.len();
        let mut i: usize = 0;
        while i < n
            invariant
                0 <= i <= n == self.products@.len(),
                self.wf(),
                best == spec_last_sync(self@.products.take(i as int), brand_id@),
                best matches Some(b) ==> valid_stamp(b),
            decreases n - i,
        {
            proof {
                assert(self@.products.take(i as int + 1).drop_last() =~= self@.products.take(
                    i as int,
                ));
                assert(self@.products.take(i as int + 1).last() == self.products@[i as int]@);
                assert(valid_stamp(self@.products[i as int].last_updated_at));
            }
            let p = &self.products[i];
            if str_eq(p.brand_id.as_str(), brand_id) {
                let st = p.last_updated_at;
                best = match best {
                    None => Some(st),
                    Some(b) => if b.le(&st) {
                        Some(st)
                    } else {
                        Some(b)
                    },
                };
            }
            i = i + 1;
        }
        proof {
            assert(self@.products.take(self.products@.len() as int) =~= self@.products);
        }
        match best {
            None => None,
            Some(st) => Some(format_stamp(&st)),
        }
    }

    /// The most recent ingestion stamp among all stored reviews, rendered as
    /// a `YYYY-MM-DD HH:MM:SS` marker; `None` while no review is stored.
    pub fn get_last_review_crawl(&self) -> (r: Option<String>)
        requires
            self.wf(),
        ensures
            (r is None) == (spec_last_crawl(self@.reviews) is None),
            r matches Some(s) ==> spec_last_crawl(self@.reviews) matches Some(st) && s@
                == spec_fmt_stamp(st),
    {
        let mut best: Option<Stamp> = None;
        let n = self.reviews.len();
        let mut i: usize = 0;
        while i < n
            invariant
                0 <= i <= n == self.reviews@.len(),
                self.wf(),
                best == spec_last_crawl(self@.reviews.take(i as int)),
                best matches Some(b) ==> valid_stamp(b),
            decreases n - i,
        {
            proof {
                assert(self@.reviews.take(i as int + 1).drop_last() =~= self@.reviews.take(
                    i as int,
                ));
                assert(self@.reviews.take(i as int + 1).last() == self.reviews@[i as int]@);
                assert(valid_stamp(self@.reviews[i as int].crawled_at));
            }
            let st = self.reviews[i].crawled_at;
            best = match best {
                None => Some(st),
                Some(b) => if b.le(&st) {
                    Some(st)
                } else {
                    Some(b)
                },
            };
            i = i + 1;
        }
        proof {
            assert(self@.reviews.take(self.reviews@.len() as int) =~= self@.reviews);
        }
        match best {
            None => None,
            Some(st) => Some(format_stamp(&st)),
        }
    }

    /// Review count and rating total for one entity, over all time and
    /// restricted to `target` (the caller's notion of yesterday).
    pub fn get_review_stats(&self, product_id: &str, target: Date) -> (r: ReviewStats)
        requires
            self.wf(),
        ensures
            ({
                let (tc, tt, yc, yt) = spec_review_stats(self@.reviews, product_id@, target);
                &&& r.total_count as int == tc
                &&& r.rating_total as int == tt
                &&& r.yesterday_count as int == yc
                &&& r.yesterday_rating_total as int == yt
            }),
    {
        let mut tc: i32 = 0;
        let mut tt: i64 = 0;
        let mut yc: i32 = 0;
        let mut yt: i64 = 0;
        let n = self.reviews.len();
        let mut i: usize = 0;
        while i < n
            invariant
                0 <= i <= n == self.reviews@.len(),
                self.wf(),
                (tc as int, tt as int, yc as int, yt as int) == spec_review_stats(
                    self@.reviews.take(i as int),
                    product_id@,
                    target,
                ),
                0 <= tc as int <= i as int,
                0 <= tt as int <= 5 * i as int,
                0 <= yc <= tc,
                0 <= yt <= tt,
            decreases n - i,
        {
            proof {
                assert(self@.reviews.take(i as int + 1).drop_last() =~= self@.reviews.take(
                    i as int,
                ));
                assert(self@.reviews.take(i as int + 1).last() == self.reviews@[i as int]@);
                assert(1 <= self@.reviews[i as int].rating <= 5);
                assert(self@.reviews.len() <= REVIEW_CAPACITY);
            }
            let row = &self.reviews[i];
            if str_eq(row.product_id.as_str(), product_id) {
                tc = tc + 1;
                tt = tt + row.rating as i64;
                if row.review_date.year == target.year && row.review_date.month == target.month
                    && row.review_date.day == target.day {
                    yc = yc + 1;
                    yt = yt + row.rating as i64;
                }
            }
            i = i + 1;
        }
        proof {
            assert(self@.reviews.take(self.reviews@.len() as int) =~= self@.reviews);
        }
        ReviewStats {
            total_count: tc,
            rating_total: tt,
            yesterday_count: yc,
            yesterday_rating_total: yt,
        }
    }

    /// Bulk upsert keyed on the external id: an existing row keeps its key
    /// and group id and gets name, image, group name, active flag and stamp
    /// overwritten; a new key is appended. Returns how many items were
    /// processed.
    pub fn upsert_managed_products(&mut self, products: Vec<ManagedProduct>, now: Stamp) -> (r:
        usize)
        requires
            old(self).wf(),
            valid_stamp(now),
        ensures
            final(self).wf(),
            final(self)@.products == spec_upsert_batch(
                old(self)@.products,
                views_of(products@),
                now,
            ),
            final(self)@.sessions == old(self)@.sessions,
            final(self)@.rankings == old(self)@.rankings,
            final(self)@.reviews == old(self)@.reviews,
            final(self)@.next_session_id == old(self)@.next_session_id,
            final(self)@.next_review_id == old(self)@.next_review_id,
            r == products@.len(),
    {
        let ghost items0 = views_of(products@);
        let ghost mpre = self@;
        let count = products.len();
        let mut rest = products;
        while rest.len() > 0
            invariant
                self.wf(),
                valid_stamp(now),
                spec_upsert_batch(mpre.products, items0, now) =~= spec_upsert_batch(
                    self@.products,
                    views_of(rest@),
                    now,
                ),
                self@.sessions == mpre.sessions,
                self@.rankings == mpre.rankings,
                self@.reviews == mpre.reviews,
                self@.next_session_id == mpre.next_session_id,
                self@.next_review_id == mpre.next_review_id,
            decreases rest@.len(),
        {
            let ghost restprev = rest@;
            let p = rest.remove(0);
            proof {
                assert(p@ == views_of(restprev)[0]);
                assert(views_of(rest@) =~= views_of(restprev).drop_first()) by {
                    assert(forall|j: int|
                        0 <= j < rest@.len() ==> #[trigger] rest@[j] == restprev[j + 1]);
                    assert(forall|j: int|
                        0 <= j < rest@.len() ==> #[trigger] views_of(rest@)[j] == views_of(
                            restprev,
                        )[j + 1]);
                }
            }
            let ghost psprev = self@.products;
            let n = self.products.len();
            let mut i: usize = 0;
            let mut found: Option<usize> = None;
            while i < n && found.is_none()
                invariant
                    0 <= i <= n == self.products@.len(),
                    found is None ==> forall|j: int|
                        0 <= j < i ==> (#[trigger] self@.products[j].product_id) != p@.product_id,
                    found matches Some(ix) ==> 0 <= ix < n && self@.products[
                        ix as int
                    ].product_id == p@.product_id && forall|j: int|
                        0 <= j < ix ==> (#[trigger] self@.products[j].product_id) != p@.product_id,
                decreases n - i, (if found is None { 1int } else { 0int }),
            {
                if str_eq(self.products[i].product_id.as_str(), p.product_id.as_str()) {
                    found = Some(i);
                } else {
                    i = i + 1;
                }
            }
            match found {
                Some(ix) => {
                    let stored_id = self.products[ix].product_id.clone();
                    let stored_brand = self.products[ix].brand_id.clone();
                    let row = ManagedRow {
                        product_id: stored_id,
                        product_name: p.product_name,
                        product_image_url: p.product_image_url,
                        brand_id: stored_brand,
                        brand_name: p.brand_name,
                        is_active: p.is_active,
                        last_updated_at: now,
                    };
                    let ghost rowv = row@;
                    self.products[ix] = row;
                    proof {
                        lemma_upsert_row_update(psprev, p@, now, ix as int);
                        assert(rowv == spec_refresh_row(psprev[ix as int], p@, now));
                        assert(views_of(self.products@) =~= psprev.update(ix as int, rowv));
                        assert(self@.products =~= spec_upsert_row(psprev, p@, now));
                    }
                },
                None => {
                    let row = ManagedRow {
                        product_id: p.product_id,
                        product_name: p.product_name,
                        product_image_url: p.product_image_url,
                        brand_id: p.brand_id,
                        brand_name: p.brand_name,
                        is_active: p.is_active,
                        last_updated_at: now,
                    };
                    let ghost rowv = row@;
                    self.products.push(row);
                    proof {
                        lemma_upsert_row_append(psprev, p@, now);
                        assert(rowv == spec_fresh_row(p@, now));
                        assert(views_of(self.products@) =~= psprev.push(rowv));
                        assert(self@.products =~= spec_upsert_row(psprev, p@, now));
                    }
                },
            }
            proof {
                assert(spec_upsert_batch(psprev, views_of(restprev), now) == spec_upsert_batch(
                    self@.products,
                    views_of(rest@),
                    now,
                )) by {
                    assert(views_of(restprev).first() == p@);
                    assert(views_of(restprev).drop_first() =~= views_of(rest@));
                }
            }
        }
        proof {
            assert(spec_upsert_batch(self@.products, views_of(rest@), now) == self@.products);
            assert(self@.products =~= spec_upsert_batch(mpre.products, items0, now));
        }
        count
    }

    /// Bulk review insert with ignore-on-duplicate semantics, atomic as a
    /// whole: a malformed item or a full store rejects the entire batch and
    /// changes nothing. Returns how many rows were actually inserted.
    pub fn save_reviews(&mut self, product_id: &str, reviews: Vec<ReviewItem>, now: Stamp) -> (r:
        Result<usize, StoreError>)
        requires
            old(self).wf(),
            valid_stamp(now),
        ensures
            final(self).wf(),
            final(self)@.sessions == old(self)@.sessions,
            final(self)@.rankings == old(self)@.rankings,
            final(self)@.products == old(self)@.products,
            final(self)@.next_session_id == old(self)@.next_session_id,
            ({
                let m = old(self)@;
                let items = views_of(reviews@);
                if m.reviews.len() + items.len() > REVIEW_CAPACITY || m.next_review_id
                    + items.len() > i64::MAX {
                    &&& r == Result::<usize, StoreError>::Err(StoreError::CapacityExhausted)
                    &&& final(self)@ == m
                } else if spec_review_rejection(items) is Some {
                    r == Result::<usize, StoreError>::Err(spec_review_rejection(items)->Some_0)
                        && final(self)@ == m
                } else {
                    let (rows, nid, c) = spec_save_reviews(
                        m.reviews,
                        product_id@,
                        items,
                        now,
                        m.next_review_id,
                    );
                    &&& r matches Ok(cnt) && cnt as int == c
                    &&& final(self)@.reviews == rows
                    &&& final(self)@.next_review_id == nid
                }
            }),
    {
        let ghost items0 = views_of(reviews@);
        let ghost mpre = self@;
        if reviews.len() > REVIEW_CAPACITY - self.reviews.len() {
            return Err(StoreError::CapacityExhausted);
        }
        if (reviews.len() as i64) > i64::MAX - self.next_review_id {
            return Err(StoreError::CapacityExhausted);
        }
        proof {
            assert(items0.skip(0) =~= items0);
            assert(items0.len() <= REVIEW_CAPACITY);
        }
        // Validate the whole batch up front, collecting the parsed dates.
        let mut dates: Vec<Date> = Vec::new();
        let n = reviews.len();
        let mut i: usize = 0;
        while i < n
            invariant
                0 <= i <= n == reviews@.len(),
                items0 == views_of(reviews@),
                old(self).wf(),
                self@ == old(self)@,
                old(self)@.reviews.len() + items0.len() <= REVIEW_CAPACITY,
                old(self)@.next_review_id + items0.len() <= i64::MAX,
                dates@.len() == i,
                forall|j: int|
                    0 <= j < i ==> spec_parse_ymd(items0[j].review_date) == Option::Some(
                        #[trigger] dates@[j],
                    ),
                forall|j: int| 0 <= j < i ==> 1 <= (#[trigger] items0[j]).rating <= 5,
                spec_review_rejection(items0) == spec_review_rejection(items0.skip(i as int)),
            decreases n - i,
        {
            proof {
                assert(items0.skip(i as int).first() == items0[i as int]);
                assert(items0.skip(i as int).drop_first() =~= items0.skip(i as int + 1));
                assert(items0[i as int] == reviews@[i as int]@);
            }
            let item = &reviews[i];
            match parse_ymd(item.review_date.as_str()) {
                None => {
                    proof {
                        assert(spec_review_rejection(items0.skip(i as int)) == Option::Some(
                            StoreError::InvalidReviewDate,
                        ));
                    }
                    return Err(StoreError::InvalidReviewDate);
                },
                Some(d) => {
                    if item.rating < 1 || item.rating > 5 {
                        proof {
                            assert(spec_review_rejection(items0.skip(i as int)) == Option::Some(
                                StoreError::InvalidRating,
                            ));
                        }
                        return Err(StoreError::InvalidRating);
                    }
                    dates.push(d);
                },
            }
            i = i + 1;
        }
        proof {
            assert(items0.skip(n as int) =~= Seq::<ReviewItemV>::empty());
        }
        // Insert, skipping keys that are already present.
        let mut rest = reviews;
        let mut rest_dates = dates;
        let mut count: usize = 0;
        while rest.len() > 0
            invariant
                self.wf(),
                valid_stamp(now),
                self@.sessions == mpre.sessions,
                self@.rankings == mpre.rankings,
                self@.products == mpre.products,
                self@.next_session_id == mpre.next_session_id,
                rest_dates@.len() == rest@.len(),
                items0.len() <= REVIEW_CAPACITY,
                count as int + rest@.len() <= items0.len(),
                forall|j: int|
                    0 <= j < rest@.len() ==> spec_parse_ymd(
                        (#[trigger] views_of(rest@)[j]).review_date,
                    ) == Option::Some(rest_dates@[j]) && 1 <= views_of(rest@)[j].rating <= 5,
                self@.reviews.len() + rest@.len() <= REVIEW_CAPACITY,
                self@.next_review_id + rest@.len() <= i64::MAX,
                spec_save_reviews(mpre.reviews, product_id@, items0, now, mpre.next_review_id) == ({
                    let (rows, nid, c) = spec_save_reviews(
                        self@.reviews,
                        product_id@,
                        views_of(rest@),
                        now,
                        self@.next_review_id,
                    );
                    (rows, nid, c + count as int)
                }),
            decreases rest@.len(),
        {
            let ghost restprev = rest@;
            let ghost restv = views_of(rest@);
            let item = rest.remove(0);
            let d = rest_dates.remove(0);
            proof {
                assert(item@ == restv[0]);
                assert(views_of(rest@) =~= restv.drop_first()) by {
                    assert(forall|j: int|
                        0 <= j < rest@.len() ==> #[trigger] rest@[j] == restprev[j + 1]);
                    assert(forall|j: int|
                        0 <= j < rest@.len() ==> #[trigger] views_of(rest@)[j] == restv[j + 1]);
                }
            }
            let ghost cand = spec_review_from(
                product_id@,
                item@,
                d,
                self@.next_review_id,
                now,
            );
            let rn = self.reviews.len();
            let mut k: usize = 0;
            let mut present = false;
            while k < rn && !present
                invariant
                    0 <= k <= rn == self.reviews@.len(),
                    cand.product_id == product_id@,
                    cand.review_date == d,
                    cand.writer_name == item@.writer_name,
                    cand.content == item@.content,
                    !present ==> forall|j: int|
                        0 <= j < k ==> !same_review_key(#[trigger] self@.reviews[j], cand),
                    present ==> spec_has_key(self@.reviews, cand),
                decreases rn - k, (if present { 0int } else { 1int }),
            {
                proof {
                    assert(self@.reviews[k as int] == self.reviews@[k as int]@);
                }
                let row = &self.reviews[k];
                if str_eq(row.product_id.as_str(), product_id) && row.review_date.year == d.year
                    && row.review_date.month == d.month && row.review_date.day == d.day && str_eq(
                    row.writer_name.as_str(),
                    item.writer_name.as_str(),
                ) && str_eq(row.content.as_str(), item.content.as_str()) {
                    present = true;
                    proof {
                        assert(same_review_key(self@.reviews[k as int], cand));
                    }
                } else {
                    k = k + 1;
                }
            }
            if !present {
                let ghost rvprev = self@.reviews;
                let row = ReviewRow {
                    id: self.next_review_id,
                    product_id: product_id.to_owned(),
                    review_date: d,
                    writer_name: item.writer_name,
                    rating: item.rating,
                    content: item.content,
                    images: item.images,
                    crawled_at: now,
                };
                let ghost rowv = row@;
                self.reviews.push(row);
                self.next_review_id = self.next_review_id + 1;
                count = count + 1;
                proof {
                    assert(rowv == cand);
                    assert(self@.reviews =~= rvprev.push(cand));
                }
            }
            proof {
                assert(restv.first() == item@);
                assert(spec_parse_ymd(item@.review_date) == Option::Some(d));
            }
        }
        proof {
            assert(views_of(rest@) =~= Seq::<ReviewItemV>::empty());
            assert(spec_save_reviews(
                self@.reviews,
                product_id@,
                views_of(rest@),
                now,
                self@.next_review_id,
            ) == (self@.reviews, self@.next_review_id, 0int));
        }
        Ok(count)
    }

    /// The identities of the most recent and second most recent `SUCCESS`
    /// sessions.
    fn latest_success_ids(&self) -> (r: (Option<i64>, Option<i64>))
        requires
            self.wf(),
        ensures
            ({
                let ss = spec_successes(self@.sessions);
                &&& (r.0 is None) == (ss.len() == 0)
                &&& r.0 matches Some(l) ==> ss.len() >= 1 && l as int == ss[ss.len() - 1].id
                &&& (r.1 is None) == (ss.len() <= 1)
                &&& r.1 matches Some(p) ==> ss.len() >= 2 && p as int == ss[ss.len() - 2].id
            }),
    {
        let mut latest: Option<i64> = None;
        let mut prev: Option<i64> = None;
        let n = self.sessions.len();
        let mut i: usize = 0;
        while i < n
            invariant
                0 <= i <= n == self.sessions@.len(),
                ({
                    let ss = spec_successes(self@.sessions.take(i as int));
                    &&& (latest is None) == (ss.len() == 0)
                    &&& latest matches Some(l) ==> ss.len() >= 1 && l as int == ss[ss.len() - 1].id
                    &&& (prev is None) == (ss.len() <= 1)
                    &&& prev matches Some(p) ==> ss.len() >= 2 && p as int == ss[ss.len() - 2].id
                }),
            decreases n - i,
        {
            proof {
                assert(self@.sessions.take(i as int + 1).drop_last() =~= self@.sessions.take(
                    i as int,
                ));
                assert(self@.sessions.take(i as int + 1).last() == self.sessions@[i as int]@);
            }
            let row = &self.sessions[i];
            if str_eq(row.status.as_str(), "SUCCESS") {
                prev = latest;
                latest = Some(row.id);
            }
            i = i + 1;
        }
        proof {
            assert(self@.sessions.take(self.sessions@.len() as int) =~= self@.sessions);
        }
        (latest, prev)
    }

    /// The records of the most recent `SUCCESS` session whose group name
    /// contains the search text (folded to ASCII lowercase, spaces trimmed),
    /// ordered by ascending rank; every record of that session when the
    /// trimmed text is empty; nothing while no `SUCCESS` session exists.
    pub fn search_brand(&self, brand_name: &str) -> (r: Vec<ProductItem>)
        requires
            self.wf(),
        ensures
            spec_successes(self@.sessions).len() == 0 ==> r@.len() == 0,
            spec_successes(self@.sessions).len() > 0 ==> views_of(r@) == spec_sort_by_rank(
                spec_search_items(
                    self@.rankings,
                    spec_successes(self@.sessions).last().id,
                    spec_trim(brand_name@),
                ),
            ),
    {
        let (latest, _prev) = self.latest_success_ids();
        let sid = match latest {
            None => {
                return Vec::new();
            },
            Some(sid) => sid,
        };
        let brand = trim_spaces(brand_name);
        let use_filter = brand.as_str().unicode_len() > 0;
        let ghost brandv = brand@;
        let mut out: Vec<ProductItem> = Vec::new();
        let n = self.rankings.len();
        let mut i: usize = 0;
        while i < n
            invariant
                0 <= i <= n == self.rankings@.len(),
                self.wf(),
                brandv == brand@,
                brandv == spec_trim(brand_name@),
                use_filter == (brandv.len() > 0),
                sid as int == spec_successes(self@.sessions).last().id,
                spec_successes(self@.sessions).len() > 0,
                views_of(out@) =~= spec_sort_by_rank(
                    spec_search_items(self@.rankings.take(i as int), sid as int, brandv),
                ),
            decreases n - i,
        {
            proof {
                assert(self@.rankings.take(i as int + 1).drop_last() =~= self@.rankings.take(
                    i as int,
                ));
                assert(self@.rankings.take(i as int + 1).last() == self.rankings@[i as int]@);
            }
            let row = &self.rankings[i];
            let keep = row.session_id == sid && (!use_filter || crate::text::contains_ci(
                row.item.brand_name.as_str(),
                brand.as_str(),
            ));
            if keep {
                let x = row.item.clone();
                let ghost xv = x@;
                let ghost sorted_prev = views_of(out@);
                let ghost matched = spec_search_items(
                    self@.rankings.take(i as int),
                    sid as int,
                    brandv,
                );
                let out_len = out.len();
                let mut pos: usize = 0;
                while pos < out_len && out[pos].rank <= x.rank
                    invariant
                        0 <= pos <= out_len == out@.len(),
                        xv == x@,
                        sorted_prev == views_of(out@),
                        forall|j: int|
                            0 <= j < pos ==> (#[trigger] views_of(out@)[j]).rank <= xv.rank,
                    decreases out_len - pos,
                {
                    proof {
                        assert(views_of(out@)[pos as int] == out@[pos as int]@);
                    }
                    pos = pos + 1;
                }
                proof {
                    assert(pos < out@.len() ==> views_of(out@)[pos as int].rank > xv.rank) by {
                        assert(pos < out@.len() ==> views_of(out@)[pos as int] == out@[
                            pos as int
                        ]@);
                    }
                    lemma_insert_by_rank_at(sorted_prev, xv, pos as int);
                }
                let ghost oprev = out@;
                out.insert(pos, x);
                proof {
                    assert(views_of(out@) =~= views_of(oprev).insert(pos as int, xv)) by {
                        assert(out@ =~= oprev.insert(pos as int, x));
                        oprev.insert_ensures(pos as int, x);
                        assert(forall|j: int|
                            0 <= j < out@.len() ==> #[trigger] views_of(out@)[j] == out@[j]@);
                        assert(forall|j: int|
                            0 <= j < oprev.len() ==> #[trigger] views_of(oprev)[j] == oprev[j]@);
                        views_of(oprev).insert_ensures(pos as int, xv);
                    }
                    assert(views_of(out@) =~= spec_insert_by_rank(sorted_prev, xv));
                    assert(spec_search_items(
                        self@.rankings.take(i as int + 1),
                        sid as int,
                        brandv,
                    ) =~= matched.push(xv));
                    assert(matched.push(xv).drop_last() =~= matched);
                    assert(matched.push(xv).last() == xv);
                    assert(spec_sort_by_rank(matched.push(xv)) == spec_insert_by_rank(
                        spec_sort_by_rank(matched),
                        xv,
                    ));
                    assert(views_of(out@) =~= spec_sort_by_rank(
                        spec_search_items(self@.rankings.take(i as int + 1), sid as int, brandv),
                    ));
                }
            } else {
                proof {
                    assert(spec_search_items(
                        self@.rankings.take(i as int + 1),
                        sid as int,
                        brandv,
                    ) =~= spec_search_items(self@.rankings.take(i as int), sid as int, brandv));
                }
            }
            i = i + 1;
        }
        proof {
            assert(self@.rankings.take(self.rankings@.len() as int) =~= self@.rankings);
        }
        out
    }

    /// One entity's time-ordered (date, rank) pairs, joined across all
    /// sessions in identity order.
    pub fn get_history(&self, product_id: &str) -> (r: Vec<RankHistory>)
        requires
            self.wf(),
        ensures
            views_of(r@) == spec_history(self@.sessions, self@.rankings, product_id@),
    {
        let mut out: Vec<RankHistory> = Vec::new();
        let ns = self.sessions.len();
        let mut i: usize = 0;
        while i < ns
            invariant
                0 <= i <= ns == self.sessions@.len(),
                self.wf(),
                views_of(out@) =~= spec_history(
                    self@.sessions.take(i as int),
                    self@.rankings,
                    product_id@,
                ),
            decreases ns - i,
        {
            proof {
                assert(self@.sessions.take(i as int + 1).drop_last() =~= self@.sessions.take(
                    i as int,
                ));
                assert(self@.sessions.take(i as int + 1).last() == self.sessions@[i as int]@);
                assert(valid_stamp(self@.sessions[i as int].created_at));
            }
            let srow = &self.sessions[i];
            let date_str = format_stamp(&srow.created_at);
            let sid = srow.id;
            let ghost datev = date_str@;
            proof {
                assert(spec_history(
                    self@.sessions.take(i as int + 1),
                    self@.rankings,
                    product_id@,
                ) == spec_history(self@.sessions.take(i as int), self@.rankings, product_id@)
                    + spec_history_rows(self@.rankings, sid as int, product_id@, datev));
            }
            let nr = self.rankings.len();
            let mut j: usize = 0;
            while j < nr
                invariant
                    0 <= j <= nr == self.rankings@.len(),
                    self.wf(),
                    date_str@ == datev,
                    spec_history(self@.sessions.take(i as int + 1), self@.rankings, product_id@)
                        == spec_history(
                        self@.sessions.take(i as int),
                        self@.rankings,
                        product_id@,
                    ) + spec_history_rows(self@.rankings, sid as int, product_id@, datev),
                    views_of(out@) =~= spec_history(
                        self@.sessions.take(i as int),
                        self@.rankings,
                        product_id@,
                    ) + spec_history_rows(
                        self@.rankings.take(j as int),
                        sid as int,
                        product_id@,
                        datev,
                    ),
                decreases nr - j,
            {
                proof {
                    assert(self@.rankings.take(j as int + 1).drop_last() =~= self@.rankings.take(
                        j as int,
                    ));
                    assert(self@.rankings.take(j as int + 1).last() == self.rankings@[j as int]@);
                }
                let rrow = &self.rankings[j];
                if rrow.session_id == sid && str_eq(rrow.item.product_id.as_str(), product_id) {
                    let ghost oprev = out@;
                    let point = RankHistory { date: date_str.clone(), rank: rrow.item.rank };
                    let ghost pv = point@;
                    out.push(point);
                    proof {
                        assert(pv == RankHistoryV { date: datev, rank: rrow.item.rank as int });
                        assert(views_of(out@) =~= views_of(oprev).push(pv));
                    }
                }
                j = j + 1;
            }
            proof {
                assert(self@.rankings.take(self.rankings@.len() as int) =~= self@.rankings);
                assert(views_of(out@) =~= spec_history(
                    self@.sessions.take(i as int + 1),
                    self@.rankings,
                    product_id@,
                ));
            }
            i = i + 1;
        }
        proof {
            assert(self@.sessions.take(self.sessions@.len() as int) =~= self@.sessions);
        }
        out
    }

    /// The rank of one entity in one session, if both exist.
    fn find_rank(&self, sid: Option<i64>, pid: &str) -> (r: Option<i32>)
        requires
            self.wf(),
        ensures
            spec_rank_in(self@.rankings, spec_opt_id(sid), pid@) == match r {
                Option::Some(v) => Option::Some(v as int),
                Option::None => Option::<int>::None,
            },
    {
        let s = match sid {
            None => {
                proof {
                    lemma_rank_in_none(self@.rankings, spec_opt_id(sid), pid@);
                }
                return None;
            },
            Some(s) => s,
        };
        let n = self.rankings.len();
        let mut k: usize = 0;
        while k < n
            invariant
                0 <= k <= n == self.rankings@.len(),
                self.wf(),
                spec_opt_id(sid) == Option::Some(s as int),
                forall|j: int|
                    0 <= j < k ==> !spec_rank_match(
                        #[trigger] self@.rankings[j],
                        spec_opt_id(sid),
                        pid@,
                    ),
            decreases n - k,
        {
            proof {
                assert(self@.rankings[k as int] == self.rankings@[k as int]@);
            }
            let row = &self.rankings[k];
            if row.session_id == s && str_eq(row.item.product_id.as_str(), pid) {
                proof {
                    lemma_rank_in_at(self@.rankings, spec_opt_id(sid), pid@, k as int);
                }
                return Some(row.item.rank);
            }
            k = k + 1;
        }
        proof {
            lemma_rank_in_none(self@.rankings, spec_opt_id(sid), pid@);
        }
        None
    }

    /// The active catalog items with their rank in the latest and second
    /// latest `SUCCESS` sessions (`None` where unranked there), ordered by
    /// current rank with unranked items last.
    pub fn get_managed_products_with_rank(&self) -> (r: Vec<ManagedProductWithRank>)
        requires
            self.wf(),
        ensures
            views_of(r@) == spec_sort_by_coalesced(
                spec_with_ranks(
                    self@.products,
                    self@.rankings,
                    spec_latest_id(self@.sessions),
                    spec_prev_id(self@.sessions),
                ),
            ),
    {
        let (latest, prev) = self.latest_success_ids();
        proof {
            assert(spec_opt_id(latest) == spec_latest_id(self@.sessions));
            assert(spec_opt_id(prev) == spec_prev_id(self@.sessions));
        }
        let mut out: Vec<ManagedProductWithRank> = Vec::new();
        let n = self.products.len();
        let mut i: usize = 0;
        while i < n
            invariant
                0 <= i <= n == self.products@.len(),
                self.wf(),
                spec_opt_id(latest) == spec_latest_id(self@.sessions),
                spec_opt_id(prev) == spec_prev_id(self@.sessions),
                views_of(out@) =~= spec_sort_by_coalesced(
                    spec_with_ranks(
                        self@.products.take(i as int),
                        self@.rankings,
                        spec_opt_id(latest),
                        spec_opt_id(prev),
                    ),
                ),
            decreases n - i,
        {
            proof {
                assert(self@.products.take(i as int + 1).drop_last() =~= self@.products.take(
                    i as int,
                ));
                assert(self@.products.take(i as int + 1).last() == self.products@[i as int]@);
            }
            let ghost matched = spec_with_ranks(
                self@.products.take(i as int),
                self@.rankings,
                spec_opt_id(latest),
                spec_opt_id(prev),
            );
            let p = &self.products[i];
            if p.is_active {
                let current = self.find_rank(latest, p.product_id.as_str());
                let previous = self.find_rank(prev, p.product_id.as_str());
                let x = ManagedProductWithRank {
                    product_id: p.product_id.clone(),
                    product_name: p.product_name.clone(),
                    product_image_url: match &p.product_image_url {
                        Some(u) => Some(u.clone()),
                        None => None,
                    },
                    brand_name: p.brand_name.clone(),
                    is_active: p.is_active,
                    current_rank: current,
                    previous_rank: previous,
                };
                let ghost xv = x@;
                let ghost sorted_prev = views_of(out@);
                let key: i32 = match current {
                    Some(v) => v,
                    None => 9999,
                };
                proof {
                    assert(key as int == spec_coalesced(xv));
                }
                let out_len = out.len();
                let mut pos: usize = 0;
                while pos < out_len && coalesced_key(&out[pos]) <= key
                    invariant
                        0 <= pos <= out_len == out@.len(),
                        key as int == spec_coalesced(xv),
                        sorted_prev == views_of(out@),
                        forall|j: int|
                            0 <= j < pos ==> spec_coalesced(#[trigger] views_of(out@)[j])
                                <= spec_coalesced(xv),
                    decreases out_len - pos,
                {
                    proof {
                        assert(views_of(out@)[pos as int] == out@[pos as int]@);
                    }
                    pos = pos + 1;
                }
                proof {
                    assert(pos < out@.len() ==> spec_coalesced(views_of(out@)[pos as int])
                        > spec_coalesced(xv)) by {
                        assert(pos < out@.len() ==> views_of(out@)[pos as int] == out@[
                            pos as int
                        ]@);
                    }
                    lemma_insert_by_coalesced_at(sorted_prev, xv, pos as int);
                }
                let ghost oprev = out@;
                out.insert(pos, x);
                proof {
                    assert(views_of(out@) =~= views_of(oprev).insert(pos as int, xv)) by {
                        assert(out@ =~= oprev.insert(pos as int, x));
                        oprev.insert_ensures(pos as int, x);
                        assert(forall|j: int|
                            0 <= j < out@.len() ==> #[trigger] views_of(out@)[j] == out@[j]@);
                        assert(forall|j: int|
                            0 <= j < oprev.len() ==> #[trigger] views_of(oprev)[j] == oprev[j]@);
                        views_of(oprev).insert_ensures(pos as int, xv);
                    }
                    assert(views_of(out@) =~= spec_insert_by_coalesced(sorted_prev, xv));
                    assert(spec_with_ranks(
                        self@.products.take(i as int + 1),
                        self@.rankings,
                        spec_opt_id(latest),
                        spec_opt_id(prev),
                    ) =~= matched.push(xv));
                    assert(matched.push(xv).drop_last() =~= matched);
                    assert(matched.push(xv).last() == xv);
                    assert(spec_sort_by_coalesced(matched.push(xv)) == spec_insert_by_coalesced(
                        spec_sort_by_coalesced(matched),
                        xv,
                    ));
                }
            } else {
                proof {
                    assert(spec_with_ranks(
                        self@.products.take(i as int + 1),
                        self@.rankings,
                        spec_opt_id(latest),
                        spec_opt_id(prev),
                    ) =~= matched);
                }
            }
            i = i + 1;
        }
        proof {
            assert(self@.products.take(self.products@.len() as int) =~= self@.products);
        }
        out
    }

    /// One entity's stored reviews, most recent first (later date first,
    /// newer row first among equal dates), capped at `limit` rows when that
    /// is non-negative.
    pub fn get_product_reviews(&self, product_id: &str, limit: Option<i32>) -> (r: Vec<
        ReviewWithMeta,
    >)
        requires
            self.wf(),
        ensures
            views_of(r@) == spec_limited(
                spec_sort_desc(spec_reviews_for(self@.reviews, product_id@)),
                limit,
            ).map_values(|row: ReviewRowV| spec_meta_of(row)),
    {
        let n = self.reviews.len();
        let mut keys: Vec<RevKey> = Vec::new();
        let ghost mut krows: Seq<ReviewRowV> = Seq::empty();
        let mut i: usize = 0;
        while i < n
            invariant
                0 <= i <= n == self.reviews@.len(),
                self.wf(),
                keys@.len() == krows.len(),
                forall|t: int|
                    0 <= t < krows.len() ==> {
                        let k = #[trigger] keys@[t];
                        &&& 0 <= k.idx < self.reviews@.len()
                        &&& krows[t] == self@.reviews[k.idx as int]
                        &&& krows[t].review_date == k.date
                        &&& krows[t].id == k.id as int
                    },
                krows =~= spec_sort_desc(
                    spec_reviews_for(self@.reviews.take(i as int), product_id@),
                ),
            decreases n - i,
        {
            proof {
                assert(self@.reviews.take(i as int + 1).drop_last() =~= self@.reviews.take(
                    i as int,
                ));
                assert(self@.reviews.take(i as int + 1).last() == self.reviews@[i as int]@);
            }
            let ghost matched = spec_reviews_for(self@.reviews.take(i as int), product_id@);
            let row = &self.reviews[i];
            if str_eq(row.product_id.as_str(), product_id) {
                let ghost xv = self@.reviews[i as int];
                let x = RevKey { date: row.review_date, id: row.id, idx: i };
                let ghost sorted_prev = krows;
                let keys_len = keys.len();
                let mut pos: usize = 0;
                while pos < keys_len && !newer_key(&x, &keys[pos])
                    invariant
                        0 <= pos <= keys_len == keys@.len() == sorted_prev.len(),
                        xv.review_date == x.date,
                        xv.id == x.id as int,
                        forall|t: int|
                            0 <= t < sorted_prev.len() ==> {
                                let k = #[trigger] keys@[t];
                                &&& sorted_prev[t].review_date == k.date
                                &&& sorted_prev[t].id == k.id as int
                            },
                        forall|j: int| 0 <= j < pos ==> !spec_newer(xv, #[trigger] sorted_prev[j]),
                    decreases keys_len - pos,
                {
                    pos = pos + 1;
                }
                proof {
                    assert(pos < sorted_prev.len() ==> spec_newer(xv, sorted_prev[pos as int]));
                    lemma_insert_desc_at(sorted_prev, xv, pos as int);
                }
                keys.insert(pos, x);
                proof {
                    krows = krows.insert(pos as int, xv);
                    assert(krows =~= spec_insert_desc(sorted_prev, xv));
                    assert(spec_reviews_for(self@.reviews.take(i as int + 1), product_id@)
                        =~= matched.push(xv));
                    assert(matched.push(xv).drop_last() =~= matched);
                    assert(matched.push(xv).last() == xv);
                    assert(spec_sort_desc(matched.push(xv)) == spec_insert_desc(
                        spec_sort_desc(matched),
                        xv,
                    ));
                    assert(forall|t: int|
                        0 <= t < sorted_prev.len() && t < pos ==> #[trigger] keys@.insert(
                            pos as int,
                            x,
                        )[t] == keys@[t]);
                }
            } else {
                proof {
                    assert(spec_reviews_for(self@.reviews.take(i as int + 1), product_id@)
                        =~= matched);
                }
            }
            i = i + 1;
        }
        proof {
            assert(self@.reviews.take(self.reviews@.len() as int) =~= self@.reviews);
        }
        let total = keys.len();
        let end: usize = match limit {
            None => total,
            Some(l) => if l < 0 {
                total
            } else if (l as usize) < total {
                l as usize
            } else {
                total
            },
        };
        let ghost target = spec_limited(
            spec_sort_desc(spec_reviews_for(self@.reviews, product_id@)),
            limit,
        );
        proof {
            assert(target =~= krows.take(end as int));
        }
        let mut out: Vec<ReviewWithMeta> = Vec::new();
        let mut t: usize = 0;
        while t < end
            invariant
                0 <= t <= end <= total == keys@.len() == krows.len(),
                self.wf(),
                target == krows.take(end as int),
                forall|u: int|
                    0 <= u < krows.len() ==> {
                        let k = #[trigger] keys@[u];
                        &&& 0 <= k.idx < self.reviews@.len()
                        &&& krows[u] == self@.reviews[k.idx as int]
                    },
                views_of(out@) =~= krows.take(t as int).map_values(
                    |row: ReviewRowV| spec_meta_of(row),
                ),
            decreases end - t,
        {
            let k = keys[t];
            proof {
                assert(krows[t as int] == self@.reviews[k.idx as int]);
                assert(valid_date(self@.reviews[k.idx as int].review_date));
                assert(valid_stamp(self@.reviews[k.idx as int].crawled_at));
                assert(self@.reviews[k.idx as int] == self.reviews@[k.idx as int]@);
            }
            let row = &self.reviews[k.idx];
            let meta = ReviewWithMeta {
                id: row.id,
                product_id: row.product_id.clone(),
                review_date: format_ymd(&row.review_date),
                writer_name: row.writer_name.clone(),
                rating: row.rating,
                content: row.content.clone(),
                images: clone_strings(&row.images),
                crawled_at: format_stamp(&row.crawled_at),
            };
            let ghost oprev = out@;
            let ghost mv = meta@;
            out.push(meta);
            proof {
                assert(mv == spec_meta_of(krows[t as int]));
                assert(views_of(out@) =~= views_of(oprev).push(mv));
                assert(krows.take(t as int + 1).drop_last() =~= krows.take(t as int));
                assert(krows.take(t as int + 1).map_values(|row: ReviewRowV| spec_meta_of(row))
                    =~= krows.take(t as int).map_values(|row: ReviewRowV| spec_meta_of(row)).push(
                    mv,
                ));
            }
            t = t + 1;
        }
        proof {
            assert(krows.take(end as int).map_values(|row: ReviewRowV| spec_meta_of(row))
                =~= views_of(out@));
        }
        out
    }

    /// Applies one request and yields its reply. Total: every request, also
    /// one the store refuses, produces a reply and leaves the store well
    /// formed, so a sequential consumer can run forever.
    pub fn apply(&mut self, req: DbRequest, now: Stamp) -> (resp: DbResponse)
        requires
            old(self).wf(),
            valid_stamp(now),
        ensures
            final(self).wf(),
            match req {
                DbRequest::SaveSession {
                    category_id,
                    source_url,
                    status,
                    total_items,
                    error_message,
                    items,
                } => ({
                    let m = old(self)@;
                    if m.next_session_id == i64::MAX {
                        &&& resp == DbResponse::SessionSaved(
                            Result::<i64, StoreError>::Err(StoreError::CapacityExhausted),
                        )
                        &&& final(self)@ == m
                    } else {
                        let (m2, id) = spec_record_session(
                            m,
                            category_id as int,
                            source_url@,
                            status@,
                            total_items as int,
                            match error_message {
                                Option::Some(e) => Option::Some(e@),
                                Option::None => Option::None,
                            },
                            views_of(items@),
                            now,
                        );
                        &&& resp == DbResponse::SessionSaved(
                            Result::<i64, StoreError>::Ok(id as i64),
                        )
                        &&& final(self)@ == m2
                    }
                }),
                DbRequest::SearchBrandLatest { brand_name } => ({
                    &&& final(self)@ == old(self)@
                    &&& resp matches DbResponse::Items(items)
                    &&& spec_successes(old(self)@.sessions).len() == 0 ==> (
                    resp matches DbResponse::Items(items) && items@.len() == 0)
                    &&& spec_successes(old(self)@.sessions).len() > 0 ==> (
                    resp matches DbResponse::Items(items) && views_of(items@) == spec_sort_by_rank(
                        spec_search_items(
                            old(self)@.rankings,
                            spec_successes(old(self)@.sessions).last().id,
                            spec_trim(brand_name@),
                        ),
                    ))
                }),
                DbRequest::GetHistory { product_id } => ({
                    &&& final(self)@ == old(self)@
                    &&& resp matches DbResponse::History(h) && views_of(h@) == spec_history(
                        old(self)@.sessions,
                        old(self)@.rankings,
                        product_id@,
                    )
                }),
                DbRequest::UpsertManagedProducts { products } => ({
                    &&& final(self)@.products == spec_upsert_batch(
                        old(self)@.products,
                        views_of(products@),
                        now,
                    )
                    &&& final(self)@.sessions == old(self)@.sessions
                    &&& final(self)@.rankings == old(self)@.rankings
                    &&& final(self)@.reviews == old(self)@.reviews
                    &&& final(self)@.next_session_id == old(self)@.next_session_id
                    &&& final(self)@.next_review_id == old(self)@.next_review_id
                    &&& resp == DbResponse::Upserted(products@.len() as usize)
                }),
                DbRequest::GetManagedProductsWithRank => ({
                    &&& final(self)@ == old(self)@
                    &&& resp matches DbResponse::ItemsWithRank(rows) && views_of(rows@)
                        == spec_sort_by_coalesced(
                        spec_with_ranks(
                            old(self)@.products,
                            old(self)@.rankings,
                            spec_latest_id(old(self)@.sessions),
                            spec_prev_id(old(self)@.sessions),
                        ),
                    )
                }),
                DbRequest::GetLastManagedSync { brand_id } => ({
                    &&& final(self)@ == old(self)@
                    &&& resp matches DbResponse::LastSync(last)
                    &&& resp matches DbResponse::LastSync(last) && ((last is None) == (
                    spec_last_sync(old(self)@.products, brand_id@) is None))
                    &&& resp matches DbResponse::LastSync(last) && (last matches Some(s)
                        ==> spec_last_sync(old(self)@.products, brand_id@) matches Some(st) && s@
                        == spec_fmt_stamp(st))
                }),
                DbRequest::SaveReviews { product_id, reviews } => ({
                    let m = old(self)@;
                    let items = views_of(reviews@);
                    &&& final(self)@.sessions == m.sessions
                    &&& final(self)@.rankings == m.rankings
                    &&& final(self)@.products == m.products
                    &&& final(self)@.next_session_id == m.next_session_id
                    &&& if m.reviews.len() + items.len() > REVIEW_CAPACITY || m.next_review_id
                        + items.len() > i64::MAX {
                        &&& resp == DbResponse::ReviewsSaved(
                            Result::<usize, StoreError>::Err(StoreError::CapacityExhausted),
                        )
                        &&& final(self)@ == m
                    } else if spec_review_rejection(items) is Some {
                        &&& resp == DbResponse::ReviewsSaved(
                            Result::<usize, StoreError>::Err(spec_review_rejection(items)->Some_0),
                        )
                        &&& final(self)@ == m
                    } else {
                        let (rows, nid, c) = spec_save_reviews(
                            m.reviews,
                            product_id@,
                            items,
                            now,
                            m.next_review_id,
                        );
                        &&& resp matches DbResponse::ReviewsSaved(r2) && r2 matches Ok(cnt)
                            && cnt as int == c
                        &&& final(self)@.reviews == rows
                        &&& final(self)@.next_review_id == nid
                    }
                }),
                DbRequest::GetProductReviews { product_id, limit } => ({
                    &&& final(self)@ == old(self)@
                    &&& resp matches DbResponse::Reviews(rows) && views_of(rows@) == spec_limited(
                        spec_sort_desc(spec_reviews_for(old(self)@.reviews, product_id@)),
                        limit,
                    ).map_values(|row: ReviewRowV| spec_meta_of(row))
                }),
                DbRequest::GetReviewStats { product_id, target_date } => ({
                    let (tc, tt, yc, yt) = spec_review_stats(
                        old(self)@.reviews,
                        product_id@,
                        target_date,
                    );
                    &&& final(self)@ == old(self)@
                    &&& resp matches DbResponse::Stats(s) && s.total_count as int == tc
                        && s.rating_total as int == tt && s.yesterday_count as int == yc
                        && s.yesterday_rating_total as int == yt
                }),
                DbRequest::GetLastReviewCrawl => ({
                    &&& final(self)@ == old(self)@
                    &&& resp matches DbResponse::LastCrawl(last) && ((last is None) == (
                    spec_last_crawl(old(self)@.reviews) is None))
                    &&& resp matches DbResponse::LastCrawl(last) && (last matches Some(s)
                        ==> spec_last_crawl(old(self)@.reviews) matches Some(st) && s@
                        == spec_fmt_stamp(st))
                }),
                DbRequest::GetActiveProductIds => ({
                    &&& final(self)@ == old(self)@
                    &&& resp matches DbResponse::ActiveIds(ids) && views_of(ids@)
                        == spec_active_ids(old(self)@.products)
                }),
            },
    {
        match req {
            DbRequest::SaveSession {
                category_id,
                source_url,
                status,
                total_items,
                error_message,
                items,
            } => DbResponse::SessionSaved(
                self.save_session(
                    category_id,
                    source_url,
                    status,
                    total_items,
                    error_message,
                    items,
                    now,
                ),
            ),
            DbRequest::SearchBrandLatest { brand_name } => DbResponse::Items(
                self.search_brand(brand_name.as_str()),
            ),
            DbRequest::GetHistory { product_id } => DbResponse::History(
                self.get_history(product_id.as_str()),
            ),
            DbRequest::UpsertManagedProducts { products } => DbResponse::Upserted(
                self.upsert_managed_products(products, now),
            ),
            DbRequest::GetManagedProductsWithRank => DbResponse::ItemsWithRank(
                self.get_managed_products_with_rank(),
            ),
            DbRequest::GetLastManagedSync { brand_id } => DbResponse::LastSync(
                self.get_last_managed_sync(brand_id.as_str()),
            ),
            DbRequest::SaveReviews { product_id, reviews } => DbResponse::ReviewsSaved(
                self.save_reviews(product_id.as_str(), reviews, now),
            ),
            DbRequest::GetProductReviews { product_id, limit } => DbResponse::Reviews(
                self.get_product_reviews(product_id.as_str(), limit),
            ),
            DbRequest::GetReviewStats { product_id, target_date } => DbResponse::Stats(
                self.get_review_stats(product_id.as_str(), target_date),
            ),
            DbRequest::GetLastReviewCrawl => DbResponse::LastCrawl(self.get_last_review_crawl()),
            DbRequest::GetActiveProductIds => DbResponse::ActiveIds(self.get_active_product_ids()),
        }
    }
}

} // verus!
