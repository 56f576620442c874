//! Records exchanged with the store, and their mathematical views.

use vstd::prelude::*;

verus! {

/// One ranked entity captured by a ranking acquisition.
#[derive(Debug)]
pub struct ProductItem {
    pub rank: i32,
    pub product_id: String,
    pub product_name: String,
    pub brand_name: String,
    pub price: i32,
    pub product_link: String,
    pub img_thumb: Option<String>,
}

#[verifier::ext_equal]
pub ghost struct ProductItemV {
    pub rank: int,
    pub product_id: Seq<char>,
    pub product_name: Seq<char>,
    pub brand_name: Seq<char>,
    pub price: int,
    pub product_link: Seq<char>,
    pub img_thumb: Option<Seq<char>>,
}

impl View for ProductItem {
    type V = ProductItemV;

    open spec fn view(&self) -> ProductItemV {
        ProductItemV {
            rank: self.rank as int,
            product_id: self.product_id@,
            product_name: self.product_name@,
            brand_name: self.brand_name@,
            price: self.price as int,
            product_link: self.product_link@,
            img_thumb: match self.img_thumb {
                Option::Some(s) => Option::Some(s@),
                Option::None => Option::None,
            },
        }
    }
}

impl Clone for ProductItem {
    /// A clone carries the same record.
    fn clone(&self) -> (res: Self)
        ensures
            res == *self,
    {
        ProductItem {
            rank: self.rank,
            product_id: self.product_id.clone(),
            product_name: self.product_name.clone(),
            brand_name: self.brand_name.clone(),
            price: self.price,
            product_link: self.product_link.clone(),
            img_thumb: match &self.img_thumb {
                Option::Some(s) => Option::Some(s.clone()),
                Option::None => Option::None,
            },
        }
    }
}

/// What one ranking acquisition hands back: the category it covered, the
/// address it read, and the ranked records found there.
#[derive(Clone, Debug)]
pub struct CrawlResult {
    pub category_id: i32,
    pub source_url: String,
    pub items: Vec<ProductItem>,
}

/// One point of a rank-over-time series.
#[derive(Clone, Debug)]
pub struct RankHistory {
    pub date: String,
    pub rank: i32,
}

#[verifier::ext_equal]
pub ghost struct RankHistoryV {
    pub date: Seq<char>,
    pub rank: int,
}

impl View for RankHistory {
    type V = RankHistoryV;

    open spec fn view(&self) -> RankHistoryV {
        RankHistoryV { date: self.date@, rank: self.rank as int }
    }
}

/// A first-party catalog item as the catalog source describes it.
#[derive(Clone, Debug)]
pub struct ManagedProduct {
    pub product_id: String,
    pub product_name: String,
    pub product_image_url: Option<String>,
    pub brand_id: String,
    pub brand_name: String,
    pub is_active: bool,
    pub last_updated_at: Option<String>,
}

#[verifier::ext_equal]
pub ghost struct ManagedProductV {
    pub product_id: Seq<char>,
    pub product_name: Seq<char>,
    pub product_image_url: Option<Seq<char>>,
    pub brand_id: Seq<char>,
    pub brand_name: Seq<char>,
    pub is_active: bool,
}

impl View for ManagedProduct {
    type V = ManagedProductV;

    open spec fn view(&self) -> ManagedProductV {
        ManagedProductV {
            product_id: self.product_id@,
            product_name: self.product_name@,
            product_image_url: match self.product_image_url {
                Option::Some(s) => Option::Some(s@),
                Option::None => Option::None,
            },
            brand_id: self.brand_id@,
            brand_name: self.brand_name@,
            is_active: self.is_active,
        }
    }
}

/// What the catalog source hands back for one group: its items.
#[derive(Debug)]
pub struct BrandCrawlResult {
    pub brand_id: String,
    pub items: Vec<ManagedProduct>,
}

/// A catalog item joined with its rank in the two most recent successful
/// ranking acquisitions; `None` means unranked there.
#[derive(Clone, Debug)]
pub struct ManagedProductWithRank {
    pub product_id: String,
    pub product_name: String,
    pub product_image_url: Option<String>,
    pub brand_name: String,
    pub is_active: bool,
    pub current_rank: Option<i32>,
    pub previous_rank: Option<i32>,
}

#[verifier::ext_equal]
pub ghost struct ManagedProductWithRankV {
    pub product_id: Seq<char>,
    pub product_name: Seq<char>,
    pub product_image_url: Option<Seq<char>>,
    pub brand_name: Seq<char>,
    pub is_active: bool,
    pub current_rank: Option<int>,
    pub previous_rank: Option<int>,
}

impl View for ManagedProductWithRank {
    type V = ManagedProductWithRankV;

    open spec fn view(&self) -> ManagedProductWithRankV {
        ManagedProductWithRankV {
            product_id: self.product_id@,
            product_name: self.product_name@,
            product_image_url: match self.product_image_url {
                Option::Some(s) => Option::Some(s@),
                Option::None => Option::None,
            },
            brand_name: self.brand_name@,
            is_active: self.is_active,
            current_rank: match self.current_rank {
                Option::Some(v) => Option::Some(v as int),
                Option::None => Option::None,
            },
            previous_rank: match self.previous_rank {
                Option::Some(v) => Option::Some(v as int),
                Option::None => Option::None,
            },
        }
    }
}

/// One review as the review source describes it; the date is `YYYY-MM-DD`.
#[derive(Clone, Debug)]
pub struct ReviewItem {
    pub review_date: String,
    pub writer_name: String,
    pub rating: i32,
    pub content: String,
    pub images: Vec<String>,
}

#[verifier::ext_equal]
pub ghost struct ReviewItemV {
    pub review_date: Seq<char>,
    pub writer_name: Seq<char>,
    pub rating: int,
    pub content: Seq<char>,
    pub images: Seq<Seq<char>>,
}

impl View for ReviewItem {
    type V = ReviewItemV;

    open spec fn view(&self) -> ReviewItemV {
        ReviewItemV {
            review_date: self.review_date@,
            writer_name: self.writer_name@,
            rating: self.rating as int,
            content: self.content@,
            images: self.images.deep_view(),
        }
    }
}

/// What one review acquisition hands back for one entity.
#[derive(Debug)]
pub struct ReviewCrawlResult {
    pub product_id: String,
    pub items: Vec<ReviewItem>,
}

/// Review counts and rating totals for one entity: all time, and restricted
/// to one target date. An average is a quotient of a total by its count.
#[derive(Clone, Copy, Debug, PartialEq, Eq, Structural)]
pub struct ReviewStats {
    pub total_count: i32,
    pub rating_total: i64,
    pub yesterday_count: i32,
    pub yesterday_rating_total: i64,
}

/// A stored review read back: the record plus its storage identity.
#[derive(Clone, Debug)]
pub struct ReviewWithMeta {
    pub id: i64,
    pub product_id: String,
    pub review_date: String,
    pub writer_name: String,
    pub rating: i32,
    pub content: String,
    pub images: Vec<String>,
    pub crawled_at: String,
}

#[verifier::ext_equal]
pub ghost struct ReviewWithMetaV {
    pub id: int,
    pub product_id: Seq<char>,
    pub review_date: Seq<char>,
    pub writer_name: Seq<char>,
    pub rating: int,
    pub content: Seq<char>,
    pub images: Seq<Seq<char>>,
    pub crawled_at: Seq<char>,
}

impl View for ReviewWithMeta {
    type V = ReviewWithMetaV;

    open spec fn view(&self) -> ReviewWithMetaV {
        ReviewWithMetaV {
            id: self.id as int,
            product_id: self.product_id@,
            review_date: self.review_date@,
            writer_name: self.writer_name@,
            rating: self.rating as int,
            content: self.content@,
            images: self.images.deep_view(),
            crawled_at: self.crawled_at@,
        }
    }
}

} // verus!
