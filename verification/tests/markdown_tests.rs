use bkmr::bookmark::Bookmark;
use bkmr::embeddings::{DummyAi, DummyEmbedding, OpenAi, OpenAiEmbedding};
use bkmr::markdown::{HeaderMatch, MarkdownAction, TocEntry};
use bkmr::repository::BookmarkStore;
use std::sync::Arc;

#[test]
fn given_header_text_when_generate_id_then_creates_valid_id() {
    let embedder = Arc::new(DummyEmbedding);
    let action = MarkdownAction::new(embedder);

    assert_eq!(action.generate_header_id("Simple Title"), "simple-title");

    assert_eq!(
        action.generate_header_id("Title with Special! @#$% Characters"),
        "title-with-special-characters"
    );

    assert_eq!(action.generate_header_id("Section 1.2.3"), "section-1-2-3");

    assert_eq!(
        action.generate_header_id("  Multiple   Spaces  and--Hyphens  "),
        "multiple-spaces-and-hyphens"
    );

    assert_eq!(
        action.generate_header_id("Title with <strong>HTML</strong> tags"),
        "title-with-html-tags"
    );
}

#[test]
fn given_empty_headers_when_generate_toc_then_returns_empty_html() {
    let embedder = Arc::new(DummyEmbedding);
    let action = MarkdownAction::new(embedder);
    let toc_entries = vec![];

    let toc_html = action.generate_toc_html(&toc_entries);

    assert_eq!(toc_html, "");
}

#[test]
fn given_header_entries_when_generate_toc_then_creates_html_list() {
    let embedder = Arc::new(DummyEmbedding);
    let action = MarkdownAction::new(embedder);
    let toc_entries = vec![
        TocEntry { level: 1, title: "Main Title".to_string(), id: "main-title".to_string() },
        TocEntry { level: 2, title: "Section 1".to_string(), id: "section-1".to_string() },
        TocEntry { level: 3, title: "Subsection 1.1".to_string(), id: "subsection-1-1".to_string() },
    ];

    let toc_html = action.generate_toc_html(&toc_entries);

    assert!(toc_html.contains("<nav class=\"toc-sidebar\" id=\"toc-sidebar\">"));
    assert!(toc_html.contains("Table of Contents"));
    assert!(toc_html.contains("<ul class=\"toc-list\">"));

    assert!(toc_html.contains("<li class=\"toc-item toc-h1\"><a href=\"#main-title\" class=\"toc-link\">Main Title</a></li>"));
    assert!(toc_html.contains("<li class=\"toc-item toc-h2\"><a href=\"#section-1\" class=\"toc-link\">Section 1</a></li>"));
    assert!(toc_html.contains("<li class=\"toc-item toc-h3\"><a href=\"#subsection-1-1\" class=\"toc-link\">Subsection 1.1</a></li>"));

    assert!(toc_html.contains("<button class=\"toc-mobile-toggle\" id=\"toc-mobile-toggle\">📋</button>"));
}

#[test]
fn given_special_characters_in_titles_when_generate_toc_then_escapes_html() {
    let embedder = Arc::new(DummyEmbedding);
    let action = MarkdownAction::new(embedder);
    let toc_entries = vec![TocEntry {
        level: 1,
        title: "Title with & < > \" characters".to_string(),
        id: "title-with-characters".to_string(),
    }];

    let toc_html = action.generate_toc_html(&toc_entries);

    assert!(toc_html.contains("Title with & < > \" characters"));
    assert!(toc_html.contains("href=\"#title-with-characters\""));
}

#[test]
fn given_html_content_when_clean_then_removes_tags() {
    let action = MarkdownAction::new(Arc::new(DummyEmbedding));

    assert_eq!(action.clean_html_content("<strong>Bold</strong> text"), "Bold text");
    assert_eq!(action.clean_html_content("<em>Italic</em> and <code>code</code>"), "Italic and code");
    assert_eq!(action.clean_html_content("<a href='#'>Link</a> text"), "Link text");
    assert_eq!(action.clean_html_content("<div><span>Nested</span> content</div>"), "Nested content");
    assert_eq!(action.clean_html_content("Plain text"), "Plain text");
    assert_eq!(action.clean_html_content("Text with <br/> break"), "Text with  break");
}

#[test]
fn toc_levels_beyond_three_count_as_top_level() {
    let action = MarkdownAction::new(Arc::new(DummyEmbedding));
    let html = action.generate_toc_html(&[TocEntry { level: 5, title: "T".to_string(), id: "t".to_string() }]);
    assert!(html.starts_with("<nav class=\"toc-sidebar\""));
    assert!(html.contains("<li class=\"toc-item toc-h1\"><a href=\"#t\" class=\"toc-link\">T</a></li>\n"));
    assert!(html.ends_with("📋</button>"));
}

#[test]
fn header_ids_of_unicode_and_empty_headers() {
    let action = MarkdownAction::new(Arc::new(DummyEmbedding));
    assert_eq!(action.generate_header_id("Über Straße"), "über-straße");
    assert_eq!(action.generate_header_id("<b></b>"), "");
    assert_eq!(action.generate_header_id("---"), "");
}

#[test]
fn given_action_when_check_embedding_update_then_returns_eligibility() {
    let action_no_repo = MarkdownAction::new(Arc::new(DummyEmbedding));
    let action_with_repo = MarkdownAction::new_with_repository(BookmarkStore::new(), Arc::new(DummyEmbedding));

    let mut embeddable = Bookmark::new("# Test", "Test Document", "A test document", Vec::new()).unwrap();
    embeddable.id = Some(1);
    embeddable.embeddable = true;
    let mut non_embeddable = Bookmark::new("# Test", "Test Document", "A test document", Vec::new()).unwrap();
    non_embeddable.id = Some(2);

    assert!(!action_no_repo.can_update_embedding(&embeddable));
    assert!(!action_with_repo.can_update_embedding(&non_embeddable));
    assert!(!action_with_repo.can_update_embedding(&embeddable));

    let real = MarkdownAction::new_with_repository(
        BookmarkStore::new(),
        Arc::new(OpenAiEmbedding::new("http://localhost".to_string())),
    );
    assert!(real.can_update_embedding(&embeddable));
    assert!(!real.can_update_embedding(&non_embeddable));
}

#[test]
fn embedder_constructors_keep_their_url() {
    assert_eq!(OpenAiEmbedding::new("u".to_string()).url, "u");
    assert_eq!(OpenAiEmbedding::default().url, "https://api.openai.com");
    assert_eq!(OpenAi::new("v".to_string()).url, "v");
    assert_eq!(OpenAi::default().url, "https://api.openai.com");
    assert_eq!(DummyAi::new(), DummyAi);
}

// Tests for TOC functionality
#[test]
fn given_markdown_headers_when_extract_and_process_then_generates_ids() {
    let embedder = Arc::new(DummyEmbedding);
    let action = MarkdownAction::new(embedder);
    let html_content = r#"<h1>Main Title</h1>
<p>Some content</p>
<h2>Section 1</h2>
<p>More content</p>
<h3>Subsection 1.1</h3>
<p>Even more content</p>"#;

    let (processed_html, toc_entries) = action.extract_and_process_headers(html_content);

    // Should find 3 headers
    assert_eq!(toc_entries.len(), 3);

    // Check first entry (H1)
    assert_eq!(toc_entries[0].level, 1);
    assert_eq!(toc_entries[0].title, "Main Title");
    assert_eq!(toc_entries[0].id, "main-title");

    // Check second entry (H2)
    assert_eq!(toc_entries[1].level, 2);
    assert_eq!(toc_entries[1].title, "Section 1");
    assert_eq!(toc_entries[1].id, "section-1");

    // Check third entry (H3)
    assert_eq!(toc_entries[2].level, 3);
    assert_eq!(toc_entries[2].title, "Subsection 1.1");
    assert_eq!(toc_entries[2].id, "subsection-1-1");

    // Check that IDs were added to the HTML
    assert!(processed_html.contains("<h1 id=\"main-title\">Main Title</h1>"));
    assert!(processed_html.contains("<h2 id=\"section-1\">Section 1</h2>"));
    assert!(processed_html.contains("<h3 id=\"subsection-1-1\">Subsection 1.1</h3>"));
}

#[test]
fn given_headers_with_existing_ids_when_extract_then_preserves_ids() {
    let embedder = Arc::new(DummyEmbedding);
    let action = MarkdownAction::new(embedder);
    let html_content = r#"<h1 id="existing-id">Title with ID</h1>
<h2>Title without ID</h2>"#;

    let (processed_html, toc_entries) = action.extract_and_process_headers(html_content);

    assert_eq!(toc_entries.len(), 2);

    // First header should keep existing ID
    assert_eq!(toc_entries[0].id, "existing-id");
    assert!(processed_html.contains("<h1 id=\"existing-id\">Title with ID</h1>"));

    // Second header should get generated ID
    assert_eq!(toc_entries[1].id, "title-without-id");
    assert!(processed_html.contains("<h2 id=\"title-without-id\">Title without ID</h2>"));
}

#[test]
fn given_duplicate_header_titles_when_extract_then_creates_unique_ids() {
    let embedder = Arc::new(DummyEmbedding);
    let action = MarkdownAction::new(embedder);
    let html_content = r#"<h1>Introduction</h1>
<h2>Introduction</h2>
<h3>Introduction</h3>"#;

    let (processed_html, toc_entries) = action.extract_and_process_headers(html_content);

    assert_eq!(toc_entries.len(), 3);

    // Check duplicate handling
    assert_eq!(toc_entries[0].id, "introduction");
    assert_eq!(toc_entries[1].id, "introduction-1");
    assert_eq!(toc_entries[2].id, "introduction-2");

    // Check processed HTML
    assert!(processed_html.contains("<h1 id=\"introduction\">Introduction</h1>"));
    assert!(processed_html.contains("<h2 id=\"introduction-1\">Introduction</h2>"));
    assert!(processed_html.contains("<h3 id=\"introduction-2\">Introduction</h3>"));
}

#[test]
fn given_headers_with_html_content_when_extract_then_cleans_html() {
    let embedder = Arc::new(DummyEmbedding);
    let action = MarkdownAction::new(embedder);
    let html_content = r#"<h1>Title with <strong>bold</strong> and <em>italic</em></h1>
<h2>Code: <code>function()</code></h2>"#;

    let (_processed_html, toc_entries) = action.extract_and_process_headers(html_content);

    assert_eq!(toc_entries.len(), 2);

    // Check that HTML tags are stripped from titles
    assert_eq!(toc_entries[0].title, "Title with bold and italic");
    assert_eq!(toc_entries[1].title, "Code: function()");

    // Check IDs are generated from clean content
    assert_eq!(toc_entries[0].id, "title-with-bold-and-italic");
    assert_eq!(toc_entries[1].id, "code-function");
}

#[test]
fn given_empty_content_when_extract_headers_then_returns_empty() {
    let embedder = Arc::new(DummyEmbedding);
    let action = MarkdownAction::new(embedder);
    let html_content = "<p>No headers here</p>";

    let (processed_html, toc_entries) = action.extract_and_process_headers(html_content);

    assert_eq!(toc_entries.len(), 0);
    assert_eq!(processed_html, html_content); // Should be unchanged
}

#[test]
fn given_h4_and_higher_headers_when_extract_then_ignores_them() {
    let embedder = Arc::new(DummyEmbedding);
    let action = MarkdownAction::new(embedder);
    let html_content = r#"<h1>H1 Title</h1>
<h2>H2 Title</h2>
<h3>H3 Title</h3>
<h4>H4 Title</h4>
<h5>H5 Title</h5>
<h6>H6 Title</h6>"#;

    let (processed_html, toc_entries) = action.extract_and_process_headers(html_content);

    // Should only find H1, H2, H3
    assert_eq!(toc_entries.len(), 3);
    assert_eq!(toc_entries[0].level, 1);
    assert_eq!(toc_entries[1].level, 2);
    assert_eq!(toc_entries[2].level, 3);

    // H4, H5, H6 should be unchanged in processed HTML
    assert!(processed_html.contains("<h4>H4 Title</h4>"));
    assert!(processed_html.contains("<h5>H5 Title</h5>"));
    assert!(processed_html.contains("<h6>H6 Title</h6>"));
}

#[test]
fn header_processing_works_on_the_matches_given() {
    let action = MarkdownAction::new(Arc::new(DummyEmbedding));
    let header = |full: &str, tag: &str, content: &str, id: Option<&str>| HeaderMatch {
        full: full.to_string(),
        tag: tag.to_string(),
        content: content.to_string(),
        id: id.map(|s| s.to_string()),
    };
    let html = "<h2>A</h2><h2>A</h2><h4>B</h4><h1 x>C</h1>";
    let ms = vec![
        header("<h2>A</h2>", "h2", "A", None),
        header("<h2>A</h2>", "h2", "A", None),
        header("<h4>B</h4>", "h4", "B", None),
        header("<h1 x>C</h1>", "h1", "C", Some("kept")),
    ];
    let (out, toc) = action.process_header_matches(html, &ms);
    // every occurrence of a header is rewritten on its first turn
    assert_eq!(out, "<h2 id=\"a\">A</h2><h2 id=\"a\">A</h2><h4>B</h4><h1 x>C</h1>");
    let ids: Vec<&str> = toc.iter().map(|e| e.id.as_str()).collect();
    assert_eq!(ids, vec!["a", "a-1", "kept"]);
    assert_eq!(toc[2].level, 1);
}

// Tests for extract_resource_paths()
#[test]
fn given_html_with_images_when_extract_resources_then_returns_paths() {
    let embedder = Arc::new(DummyEmbedding);
    let action = MarkdownAction::new(embedder);

    let html = r#"
            <p>Some content</p>
            <img src="./images/photo.png" alt="Photo">
            <img src="./assets/logo.jpg" alt="Logo">
        "#;

    let resources = action.extract_resource_paths(html);
    assert_eq!(resources.len(), 2);
    assert_eq!(resources[0].1, "./images/photo.png");
    assert_eq!(resources[1].1, "./assets/logo.jpg");
}

#[test]
fn given_html_with_mixed_urls_when_extract_resources_then_filters_correctly() {
    let embedder = Arc::new(DummyEmbedding);
    let action = MarkdownAction::new(embedder);

    let html = r#"
            <img src="./local.png" alt="Local">
            <img src="https://example.com/remote.png" alt="Remote">
            <img src="http://example.com/http.png" alt="HTTP">
            <img src="data:image/png;base64,abc123" alt="Data URI">
            <img src="//cdn.example.com/cdn.png" alt="Protocol Relative">
        "#;

    let resources = action.extract_resource_paths(html);
    // Should only extract ./local.png
    assert_eq!(resources.len(), 1);
    assert_eq!(resources[0].1, "./local.png");
}

#[test]
fn given_html_with_link_and_script_tags_when_extract_resources_then_includes_all() {
    let embedder = Arc::new(DummyEmbedding);
    let action = MarkdownAction::new(embedder);

    let html = r#"
            <link rel="stylesheet" href="./styles.css">
            <script src="./scripts/app.js"></script>
            <img src="./images/icon.png">
        "#;

    let resources = action.extract_resource_paths(html);
    assert_eq!(resources.len(), 3);

    // Extract paths for verification (order may vary based on regex matching)
    let paths: Vec<&str> = resources.iter().map(|(_, path)| path.as_str()).collect();
    assert!(paths.contains(&"./images/icon.png"));
    assert!(paths.contains(&"./styles.css"));
    assert!(paths.contains(&"./scripts/app.js"));
}

#[test]
fn given_empty_html_when_extract_resources_then_returns_empty_vec() {
    let embedder = Arc::new(DummyEmbedding);
    let action = MarkdownAction::new(embedder);

    let html = "<p>No resources here</p>";
    let resources = action.extract_resource_paths(html);
    assert_eq!(resources.len(), 0);
}

#[test]
fn given_html_with_quoted_paths_when_extract_resources_then_handles_both_quotes() {
    let embedder = Arc::new(DummyEmbedding);
    let action = MarkdownAction::new(embedder);

    let html = r#"
            <img src="./single.png" alt="Single">
            <img src='./double.png' alt="Double">
        "#;

    let resources = action.extract_resource_paths(html);
    assert_eq!(resources.len(), 2);
    assert_eq!(resources[0].1, "./single.png");
    assert_eq!(resources[1].1, "./double.png");
}

#[test]
fn local_resources_keep_local_paths_in_order() {
    let g = |full: &str, path: &str| vec![Some(full.to_string()), Some(path.to_string())];
    let caps = vec![
        g("<img src=\"a.png\">", "a.png"),
        g("<img src=\"https://x/b.png\">", "https://x/b.png"),
        vec![Some("<img>".to_string()), None],
        g("<img src=\"//c\">", "//c"),
        g("<img src=\"d/e.png\">", "d/e.png"),
    ];
    let r = bkmr::markdown::local_resources(&caps);
    let paths: Vec<&str> = r.iter().map(|(_, p)| p.as_str()).collect();
    assert_eq!(paths, vec!["a.png", "d/e.png"]);
    assert_eq!(r[0].0, "<img src=\"a.png\">");
}

#[test]
fn markdown_renders_with_header_ids_and_contents() {
    let action = MarkdownAction::new(Arc::new(DummyEmbedding));
    let (body, toc) = action.render_markdown("# Notes\n\nSome *text*.\n\n## Section 1\n\n| a | b |\n|---|---|\n| 1 | 2 |\n").unwrap();
    assert!(body.contains("<h1 id=\"notes\">Notes</h1>"));
    assert!(body.contains("<h2 id=\"section-1\">Section 1</h2>"));
    assert!(body.contains("<em>text</em>"));
    assert!(body.contains("<table>"), "tables are rendered: {}", body);
    assert!(toc.contains("<a href=\"#section-1\" class=\"toc-link\">Section 1</a>"));
    let (plain, no_toc) = action.render_markdown("just text").unwrap();
    assert_eq!(plain, "<p>just text</p>");
    assert_eq!(no_toc, "");
}

#[test]
fn ids_from_cleaned_header_text() {
    assert_eq!(MarkdownAction::<DummyEmbedding>::header_id_from_clean("Hello, World!"), "hello-world");
    assert_eq!(MarkdownAction::<DummyEmbedding>::header_id_from_clean("--A  b--"), "a-b");
    assert_eq!(MarkdownAction::<DummyEmbedding>::header_id_from_clean(""), "");
}
