use onbrix::date::{Date, Stamp};
use onbrix::mdx::{generate_mdx, PostMetadata};
use onbrix::publish::{
    authenticated_push_url, commit_message_for, markdown_image_path, webp_output_name,
};
use onbrix::slug::{generate_slug, slugify};

#[test]
fn test_generate_slug() {
    assert_eq!(generate_slug("Hello World"), "hello-world");
    assert_eq!(generate_slug("Next.js Tutorial"), "next_js-tutorial");
}

#[test]
fn test_generate_mdx() {
    let metadata = PostMetadata {
        title: "Test Post".to_string(),
        description: "A test post".to_string(),
        created_at: "2024-01-01".to_string(),
        category: None,
        tags: vec!["test".to_string(), "rust".to_string()],
        series: None,
        series_order: None,
        cover: None,
        draft: false,
    };

    let content = "# Hello\n\nThis is content.";
    let mdx = generate_mdx(&metadata, content);

    assert!(mdx.contains("title: Test Post"));
    assert!(mdx.contains("description: A test post"));
    assert!(mdx.contains("tags:"));
    assert!(mdx.contains("  - test"));
    assert!(mdx.contains("# Hello"));
}

#[test]
fn slugify_folds_separators() {
    assert_eq!(slugify("Hello World"), "hello-world");
    assert_eq!(slugify("Test_Image-01"), "test-image-01");
    // Per-character mapping: two non-ASCII characters, a space, three more.
    assert_eq!(slugify("한글 이미지"), "__-___");
}

#[test]
fn slug_collapses_and_trims_dashes() {
    assert_eq!(generate_slug(""), "");
    assert_eq!(generate_slug("---"), "");
    assert_eq!(generate_slug("  Hello   World  "), "hello-world");
    assert_eq!(generate_slug("A--B"), "a-b");
    // generate_slug keeps underscores as such; slugify folds them.
    assert_eq!(generate_slug("a_b c"), "a_b-c");
    assert_eq!(slugify("a_b c"), "a-b-c");
}

#[test]
fn mdx_renders_every_field_exactly() {
    let metadata = PostMetadata {
        title: "T".to_string(),
        description: "D".to_string(),
        created_at: "2024-02-03".to_string(),
        category: Some("cat".to_string()),
        tags: vec!["x".to_string()],
        series: Some("s".to_string()),
        series_order: Some(-2),
        cover: Some("c.png".to_string()),
        draft: true,
    };
    let mdx = generate_mdx(&metadata, "body");
    let expected = "---\n\
                    title: T\n\
                    description: D\n\
                    createdAt: 2024-02-03\n\
                    category: cat\n\
                    series: s\n\
                    seriesOrder: -2\n\
                    tags:\n  - x\n\
                    cover: c.png\n\
                    draft: true\n\
                    ---\n\nbody";
    assert_eq!(mdx, expected);
}

#[test]
fn push_url_carries_token() {
    assert_eq!(
        authenticated_push_url("https://github.com/me/repo.git", "tok"),
        "https://tok@github.com/me/repo.git"
    );
    assert_eq!(
        authenticated_push_url("git@github.com:me/repo.git", "tok"),
        "https://tok@github.com/me/repo.git"
    );
    assert_eq!(
        authenticated_push_url("https://example.com/me/repo.git", "tok"),
        "https://example.com/me/repo.git"
    );
}

#[test]
fn commit_message_names_the_post() {
    assert_eq!(commit_message_for("My Post"), "feat(blog): add post - My Post");
}

#[test]
fn image_names_are_exact() {
    let st = Stamp {
        date: Date { year: 2024, month: 1, day: 2 },
        hour: 3,
        minute: 4,
        second: 5,
    };
    assert_eq!(webp_output_name("img", &st), "img_20240102030405.webp");
    assert_eq!(markdown_image_path("img_x.webp"), "/images/posts/img_x.webp");
}
