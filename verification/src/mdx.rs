//! Rendering a post into an MDX document: a YAML-style front matter block
//! built from the post's metadata, followed by the content unchanged.

use vstd::prelude::*;

use crate::text::{fmt_i64, spec_dec_signed};

verus! {

/// What a post carries besides its body.
#[derive(Debug)]
pub struct PostMetadata {
    pub title: String,
    pub description: String,
    pub created_at: String,
    pub category: Option<String>,
    pub tags: Vec<String>,
    pub series: Option<String>,
    pub series_order: Option<i32>,
    pub cover: Option<String>,
    pub draft: bool,
}

#[verifier::ext_equal]
pub ghost struct PostMetadataV {
    pub title: Seq<char>,
    pub description: Seq<char>,
    pub created_at: Seq<char>,
    pub category: Option<Seq<char>>,
    pub tags: Seq<Seq<char>>,
    pub series: Option<Seq<char>>,
    pub series_order: Option<int>,
    pub cover: Option<Seq<char>>,
    pub draft: bool,
}

impl View for PostMetadata {
    type V = PostMetadataV;

    open spec fn view(&self) -> PostMetadataV {
        PostMetadataV {
            title: self.title@,
            description: self.description@,
            created_at: self.created_at@,
            category: match self.category {
                Option::Some(s) => Option::Some(s@),
                Option::None => Option::None,
            },
            tags: self.tags.deep_view(),
            series: match self.series {
                Option::Some(s) => Option::Some(s@),
                Option::None => Option::None,
            },
            series_order: match self.series_order {
                Option::Some(n) => Option::Some(n as int),
                Option::None => Option::None,
            },
            cover: match self.cover {
                Option::Some(s) => Option::Some(s@),
                Option::None => Option::None,
            },
            draft: self.draft,
        }
    }
}

/// The three lines every front matter opens with.
pub open spec fn spec_mdx_head(m: PostMetadataV) -> Seq<char> {
    "---\n"@ + "title: "@ + m.title + "\n"@ + "description: "@ + m.description + "\n"@
        + "createdAt: "@ + m.created_at + "\n"@
}

/// The category line, when a category is set.
pub open spec fn spec_mdx_category(m: PostMetadataV) -> Seq<char> {
    match m.category {
        Option::Some(c) => "category: "@ + c + "\n"@,
        Option::None => Seq::empty(),
    }
}

/// The series line, when a series is set.
pub open spec fn spec_mdx_series(m: PostMetadataV) -> Seq<char> {
    match m.series {
        Option::Some(s) => "series: "@ + s + "\n"@,
        Option::None => Seq::empty(),
    }
}

/// The series order line, when an order is set.
pub open spec fn spec_mdx_series_order(m: PostMetadataV) -> Seq<char> {
    match m.series_order {
        Option::Some(n) => "seriesOrder: "@ + spec_dec_signed(n) + "\n"@,
        Option::None => Seq::empty(),
    }
}

/// One indented list line per tag, in order.
pub open spec fn spec_tag_lines(tags: Seq<Seq<char>>) -> Seq<char>
    decreases tags.len(),
{
    if tags.len() == 0 {
        Seq::empty()
    } else {
        spec_tag_lines(tags.drop_last()) + "  - "@ + tags.last() + "\n"@
    }
}

/// The tag block, when any tag is set.
pub open spec fn spec_mdx_tags(m: PostMetadataV) -> Seq<char> {
    if m.tags.len() > 0 {
        "tags:\n"@ + spec_tag_lines(m.tags)
    } else {
        Seq::empty()
    }
}

/// The cover line, when a cover is set.
pub open spec fn spec_mdx_cover(m: PostMetadataV) -> Seq<char> {
    match m.cover {
        Option::Some(c) => "cover: "@ + c + "\n"@,
        Option::None => Seq::empty(),
    }
}

/// The draft marker, on drafts only.
pub open spec fn spec_mdx_draft(m: PostMetadataV) -> Seq<char> {
    if m.draft {
        "draft: true\n"@
    } else {
        Seq::empty()
    }
}

/// The whole document: front matter, closing fence, blank line, content.
pub open spec fn spec_mdx(m: PostMetadataV, content: Seq<char>) -> Seq<char> {
    spec_mdx_head(m) + spec_mdx_category(m) + spec_mdx_series(m) + spec_mdx_series_order(m)
        + spec_mdx_tags(m) + spec_mdx_cover(m) + spec_mdx_draft(m) + "---\n\n"@ + content
}

/// Renders a post as an MDX document with a front matter block.
#[verifier::rlimit(60)]
pub fn generate_mdx(metadata: &PostMetadata, content: &str) -> (r: String)
    ensures
        r@ == spec_mdx(metadata@, content@),
{
    let ghost m = metadata@;
    let mut out = "---\n".to_owned();
    out.append("title: ");
    out.append(metadata.title.as_str());
    out.append("\n");
    out.append("description: ");
    out.append(metadata.description.as_str());
    out.append("\n");
    out.append("createdAt: ");
    out.append(metadata.created_at.as_str());
    out.append("\n");
    proof {
        assert(out@ =~= spec_mdx_head(m));
    }
    let ghost p1 = spec_mdx_head(m);
    match &metadata.category {
        Some(c) => {
            out.append("category: ");
            out.append(c.as_str());
            out.append("\n");
        },
        None => {},
    }
    proof {
        assert(out@ =~= p1 + spec_mdx_category(m));
    }
    let ghost p2 = p1 + spec_mdx_category(m);
    match &metadata.series {
        Some(s) => {
            out.append("series: ");
            out.append(s.as_str());
            out.append("\n");
        },
        None => {},
    }
    proof {
        assert(out@ =~= p2 + spec_mdx_series(m));
    }
    let ghost p3 = p2 + spec_mdx_series(m);
    match metadata.series_order {
        Some(n) => {
            out.append("seriesOrder: ");
            out.append(fmt_i64(n as i64).as_str());
            out.append("\n");
        },
        None => {},
    }
    proof {
        assert(out@ =~= p3 + spec_mdx_series_order(m));
    }
    let ghost p4 = p3 + spec_mdx_series_order(m);
    let ntags = metadata.tags.len();
    if ntags > 0 {
        out.append("tags:\n");
        let mut i: usize = 0;
        while i < ntags
            invariant
                0 <= i <= ntags == metadata.tags@.len(),
                m == metadata@,
                out@ =~= p4 + "tags:\n"@ + spec_tag_lines(m.tags.take(i as int)),
            decreases ntags - i,
        {
            proof {
                assert(m.tags.take(i as int + 1).drop_last() =~= m.tags.take(i as int));
                assert(m.tags.take(i as int + 1).last() == metadata.tags@[i as int]@);
            }
            out.append("  - ");
            out.append(metadata.tags[i].as_str());
            out.append("\n");
            proof {
                assert(out@ =~= p4 + "tags:\n"@ + spec_tag_lines(m.tags.take(i as int + 1)));
            }
            i = i + 1;
        }
        proof {
            assert(m.tags.take(m.tags.len() as int) =~= m.tags);
        }
    }
    proof {
        assert(out@ =~= p4 + spec_mdx_tags(m));
    }
    let ghost p5 = p4 + spec_mdx_tags(m);
    match &metadata.cover {
        Some(c) => {
            out.append("cover: ");
            out.append(c.as_str());
            out.append("\n");
        },
        None => {},
    }
    proof {
        assert(out@ =~= p5 + spec_mdx_cover(m));
    }
    let ghost p6 = p5 + spec_mdx_cover(m);
    if metadata.draft {
        out.append("draft: true\n");
    }
    proof {
        assert(out@ =~= p6 + spec_mdx_draft(m));
    }
    out.append("---\n\n");
    out.append(content);
    proof {
        assert(out@ =~= spec_mdx(m, content@));
    }
    out
}

} // verus!
