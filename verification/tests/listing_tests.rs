use bkmr::bookmark::Bookmark;
use bkmr::bookmark_service::pre_fill_database;
use bkmr::cli::{
    all_ids, id_line, positions_to_ids, process_content_for_type,
    all_fields, default_fields, search_fields, sorted_id_list, validate_limit, DisplayField,
};
use bkmr::display::{bookmark_pieces_of, first_col_width, Color, DisplayBookmark};
use bkmr::dto::BookmarkListItem;
use bkmr::error::CliError;
use bkmr::fzf::{
    fzf_action, max_id_width, selected_bookmarks, selected_ids, shell_copy_command,
    use_alternate_screen, FzfAction, FzfKey,
};
use bkmr::repository::BookmarkStore;
use bkmr::tag::{SystemTag, Tag};

fn with_id(url: &str, id: Option<i32>, tags: &str) -> Bookmark {
    let mut b = Bookmark::new(url, "t", "", Tag::parse_tags(tags).unwrap()).unwrap();
    b.id = id;
    b
}

#[test]
fn id_list_is_sorted_as_text() {
    let list = vec![
        with_id("https://a", Some(10), ""),
        with_id("https://b", Some(2), ""),
        with_id("https://c", None, ""),
        with_id("https://d", Some(-1), ""),
        with_id("https://e", Some(1), ""),
    ];
    assert_eq!(sorted_id_list(&list), "-1,1,10,2");
    assert_eq!(sorted_id_list(&[]), "");
}

#[test]
fn id_column_width_and_screen_choice() {
    let list = vec![with_id("https://a", Some(7), ""), with_id("https://b", Some(1234), ""), with_id("https://c", None, "")];
    assert_eq!(max_id_width(&list), 4);
    assert_eq!(max_id_width(&[]), 0);
    assert!(use_alternate_screen(false, "50%"));
    assert!(!use_alternate_screen(false, "100%"));
    assert!(!use_alternate_screen(false, "100"));
    assert!(!use_alternate_screen(true, "50%"));
}

#[test]
fn finder_picks_and_keys() {
    let list = vec![with_id("https://a", Some(1), ""), with_id("https://b", Some(2), "_shell_"), with_id("https://c", Some(3), "")];
    let ids = selected_ids(&vec!["3".to_string(), "x".to_string(), "2".to_string()]);
    assert_eq!(ids, vec![3, 2]);
    let picked = selected_bookmarks(&list, &ids);
    let urls: Vec<&str> = picked.iter().map(|b| b.url.as_str()).collect();
    assert_eq!(urls, vec!["https://b", "https://c"]);
    assert_eq!(fzf_action(FzfKey::Enter), FzfAction::Run);
    assert_eq!(fzf_action(FzfKey::Ctrl('o')), FzfAction::Copy);
    assert_eq!(fzf_action(FzfKey::Ctrl('y')), FzfAction::Copy);
    assert_eq!(fzf_action(FzfKey::Ctrl('e')), FzfAction::Edit);
    assert_eq!(fzf_action(FzfKey::Ctrl('d')), FzfAction::Delete);
    assert_eq!(fzf_action(FzfKey::Ctrl('a')), FzfAction::Clone);
    assert_eq!(fzf_action(FzfKey::Ctrl('p')), FzfAction::Details);
    assert_eq!(fzf_action(FzfKey::Ctrl('z')), FzfAction::Nothing);
    assert_eq!(fzf_action(FzfKey::Other), FzfAction::Nothing);
    assert_eq!(shell_copy_command(&list[1]), Some("bkmr open --no-edit 2 --".to_string()));
    assert_eq!(shell_copy_command(&list[0]), None);
}

fn row() -> DisplayBookmark {
    DisplayBookmark {
        id: 12,
        url: "echo a\necho b".to_string(),
        title: "Title".to_string(),
        description: "Desc".to_string(),
        tags: ",rust,cli,".to_string(),
        access_count: 3,
        last_update_ts: "2024-01-01".to_string(),
        similarity: Some("0.850".to_string()),
        embedding: "yes".to_string(),
        embeddable: true,
    }
}

#[test]
fn listing_pieces_follow_the_fields() {
    let pieces = bookmark_pieces_of(&row(), 1, 2, &all_fields());
    let texts: Vec<(Option<Color>, &str)> = pieces.iter().map(|p| (p.color, p.text.as_str())).collect();
    assert_eq!(
        texts,
        vec![
            (Some(Color::Green), " 2. Title"),
            (Some(Color::White), " [0.850]"),
            (Some(Color::White), " [12]\n"),
            (Some(Color::Yellow), "    echo a\n    echo b\n"),
            (Some(Color::White), "    Desc\n"),
            (Some(Color::Blue), "    rust cli\n"),
            (Some(Color::White), "    Embeddable: yes\n"),
            (Some(Color::White), "    Count: 3 | embed: yes\n"),
            (Some(Color::Magenta), "    2024-01-01\n"),
        ]
    );
    let pieces = bookmark_pieces_of(&row(), 0, 1, &[DisplayField::Url]);
    let texts: Vec<(Option<Color>, &str)> = pieces.iter().map(|p| (p.color, p.text.as_str())).collect();
    assert_eq!(texts, vec![(None, "\n"), (Some(Color::Yellow), "   echo a\n    echo b\n")]);
    assert_eq!(first_col_width(9), 1);
    assert_eq!(first_col_width(10), 2);
}

#[test]
fn listing_skips_empty_tags_and_description() {
    let mut r = row();
    r.tags = ",,".to_string();
    r.description = String::new();
    r.similarity = None;
    let pieces = bookmark_pieces_of(&r, 0, 1, &default_fields());
    let texts: Vec<&str> = pieces.iter().map(|p| p.text.as_str()).collect();
    assert_eq!(texts, vec!["1. Title", " [12]\n", "   echo a\n    echo b\n"]);
}

#[test]
fn list_item_becomes_a_display_row() {
    let item = BookmarkListItem {
        id: None,
        url: "https://x".to_string(),
        title: "X".to_string(),
        tags: vec!["a".to_string(), "b".to_string()],
    };
    let d = DisplayBookmark::from_list_item(&item);
    assert_eq!(d.id, 0);
    assert_eq!(d.tags, "a,b");
    assert_eq!(d.url, "https://x");
}

#[test]
fn search_columns_and_limits() {
    assert_eq!(search_fields(false, false), default_fields());
    let f = search_fields(true, false);
    assert_eq!(f.last(), Some(&DisplayField::LastUpdateTs));
    assert_eq!(f.len(), 7);
    assert_eq!(validate_limit(None).unwrap(), None);
    assert_eq!(validate_limit(Some(5)).unwrap(), Some(5));
    match validate_limit(Some(0)) {
        Err(CliError::InvalidInput(m)) => assert_eq!(m, "Limit must be a positive integer"),
        other => panic!("unexpected {:?}", other),
    }
}

#[test]
fn demo_entries_fill_the_store() {
    let mut store = BookmarkStore::new();
    let entries = vec![
        ("https://github.com".to_string(), "GitHub".to_string(), "d".to_string(), vec!["git".to_string(), "bad tag".to_string(), "git".to_string()]),
        ("   ".to_string(), "blank".to_string(), "d".to_string(), vec![]),
        ("https://x.org/{{ date }}".to_string(), "Dynamic".to_string(), "d".to_string(), vec![]),
        ("shell::ls".to_string(), "Shell".to_string(), "d".to_string(), vec!["shell".to_string()]),
    ];
    assert_eq!(pre_fill_database(&mut store, &entries, 1700000000), 3);
    let all = store.get_all();
    assert_eq!(all.len(), 3);
    assert!(all[0].embeddable);
    assert_eq!(all[0].tags.len(), 1);
    assert!(!all[1].embeddable);
    assert!(!all[2].embeddable);
    assert_eq!(all[2].title, "Shell");
}

#[test]
fn numeric_id_lines_and_positions() {
    assert_eq!(id_line(&vec![10, 2, -3, 2]), "-3,2,2,10");
    assert_eq!(id_line(&vec![]), "");
    let list = vec![with_id("https://a", Some(5), ""), with_id("https://b", None, ""), with_id("https://c", Some(9), "")];
    let (ids, missing) = positions_to_ids(&vec![3, 0, 2, 1, 4], &list);
    assert_eq!(ids, vec![9, 5]);
    assert_eq!(missing, vec![0, 4]);
    assert_eq!(all_ids(&list), vec![5, 9]);
}

#[test]
fn content_escapes_become_line_breaks_except_for_uris() {
    assert_eq!(process_content_for_type("echo a\\necho b", SystemTag::Shell), "echo a\necho b");
    assert_eq!(process_content_for_type("a\\\\nb", SystemTag::Snippet), "a\\\nb");
    assert_eq!(process_content_for_type("https://x\\n", SystemTag::Uri), "https://x\\n");
    assert_eq!(process_content_for_type("\\", SystemTag::Text), "\\");
}

#[test]
fn given_empty_database_when_pre_fill_then_creates_sample_bookmarks() {
    // Arrange
    let mut repository = bkmr::repository::BookmarkStore::new();

    // Verify database is initially empty
    let initial_bookmarks = repository.get_all();
    assert_eq!(
        initial_bookmarks.len(),
        0,
        "Database should be empty initially"
    );

    // Act
    pre_fill_database(&mut repository, &bkmr::demo::demo_entries(), 1700000000);

    // Assert
    let bookmarks = repository.get_all();

    // Verify we have added the expected number of demo entries
    assert!(
        !bookmarks.is_empty(),
        "Database should contain demo entries"
    );

    // Define expected entry types to check for
    let expected_types = vec![
        // Regular URLs
        ("https://github.com", false),
        ("https://rust-lang.org", false),
        // Shell command URLs
        ("shell::", false),
        // URL with interpolation (date)
        ("{{", false),
        // Code snippets
        ("_snip_", true),
        // Imported documents
        ("_imported_", true),
    ];

    // Check that each expected type exists in the database
    for (pattern, is_tag) in expected_types {
        let found = if is_tag {
            // Check for a tag containing the pattern
            bookmarks
                .iter()
                .any(|b| b.tags.iter().any(|t| t.value().contains(pattern)))
        } else {
            // Check for a URL containing the pattern
            bookmarks.iter().any(|b| b.url.contains(pattern))
        };

        assert!(
            found,
            "Database should contain an entry with {} '{}'",
            if is_tag { "tag" } else { "URL containing" },
            pattern
        );
    }

    // Check that we have entries with embeddable flag set
    let embeddable_entries = bookmarks.iter().filter(|b| b.embeddable).count();
    assert!(
        embeddable_entries > 0,
        "Database should contain entries with embeddable flag set"
    );

    // Test specific entries for correct data
    let github_entry = bookmarks.iter().find(|b| b.url == "https://github.com");
    assert!(github_entry.is_some(), "GitHub entry should exist");
    if let Some(entry) = github_entry {
        assert_eq!(entry.title, "GitHub");
        assert!(entry.tags.iter().any(|t| t.value() == "git"));
    }

    // Test that snippets are correctly marked
    let snippets = bookmarks
        .iter()
        .filter(|b| b.tags.iter().any(|t| t.value() == "_snip_"))
        .count();
    assert!(snippets > 0, "Database should contain snippet entries");
}

#[test]
fn all_demo_entries_are_stored() {
    let mut repository = bkmr::repository::BookmarkStore::new();
    assert_eq!(pre_fill_database(&mut repository, &bkmr::demo::demo_entries(), 1700000000), 20);
    let all = repository.get_all();
    assert_eq!(all[0].url, "https://github.com");
    assert!(all[0].embeddable);
    assert!(!all[5].embeddable, "a URL with template markers is not embeddable");
    assert_eq!(all[19].title, "Dev Environment");
}

#[test]
fn column_values_are_shown_as_text() {
    let b = row();
    assert_eq!(b.get_value(&DisplayField::Id), b.id.to_string());
    assert_eq!(b.get_value(&DisplayField::AccessCount), b.access_count.to_string());
    assert_eq!(b.get_value(&DisplayField::Embeddable), if b.embeddable { "yes" } else { "no" });
    assert_eq!(b.get_value(&DisplayField::Url), b.url);
    let mut no_sim = row();
    no_sim.similarity = None;
    assert_eq!(no_sim.get_value(&DisplayField::Similarity), "");
    no_sim.id = -12;
    assert_eq!(no_sim.get_value(&DisplayField::Id), "-12");
}

/// An engine that marks what it rendered.
struct MarkingEngine;

impl bkmr::actions::InterpolationEngine for MarkingEngine {
    fn render_bookmark_url(&self, bookmark: &Bookmark) -> Result<String, bkmr::error::DomainError> {
        Ok(format!("rendered:{}", bookmark.url))
    }
}

#[test]
fn a_stored_bookmark_is_listed_with_its_url_rendered() {
    let renderer = bkmr::actions::InterpolationServiceImpl::new(std::sync::Arc::new(MarkingEngine));
    let mut b = Bookmark::new("https://a/{{ x }}", "A", "desc", Tag::parse_tags("b,a").unwrap()).unwrap();
    b.id = Some(7);
    b.embedding = Some(vec![1]);
    b.updated_at = 1714564800;
    let d = DisplayBookmark::from_domain(&b, &renderer);
    assert_eq!(d.id, 7);
    assert_eq!(d.url, "rendered:https://a/{{ x }}");
    assert_eq!(d.tags, "b,a");
    assert_eq!(d.embedding, "yes");
    assert_eq!(d.last_update_ts, "2024-05-01 12:00:00 UTC");
    let plain = Bookmark::new("https://plain", "P", "", Vec::new()).unwrap();
    let p = DisplayBookmark::from_domain(&plain, &renderer);
    assert_eq!(p.url, "https://plain");
    assert_eq!(p.id, 0);
    assert_eq!(p.embedding, "");
}
