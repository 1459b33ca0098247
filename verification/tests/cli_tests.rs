use bkmr::bookmark::Bookmark;
use bkmr::cli::{
    decide_command, determine_sort_direction, ensure_int_vector, get_bookmark_by_index, get_ids,
    parse_input, DisplayField, ProcessCommand,
};
use bkmr::cli::{kind_for_lowercase_type, kind_for_type, search_all_tags, tags_with_kind};
use bkmr::error::CliError;
use bkmr::tag::{SystemTag, Tag};
use bkmr::search::SortDirection;

#[test]
fn given_valid_id_string_when_get_ids_then_returns_id_vector() {
    let ids = "1,2,3,4,5".to_string();
    let result = get_ids(ids);
    assert!(result.is_ok());
    let id_list = result.unwrap();
    assert_eq!(id_list, vec![1, 2, 3, 4, 5]);
}

#[test]
fn given_invalid_id_string_when_get_ids_then_returns_error() {
    let ids = "1,2,three,4,5".to_string();
    let result = get_ids(ids);
    assert!(result.is_err());
}

#[test]
fn given_desc_flag_when_determine_sort_direction_then_returns_descending() {
    let result = determine_sort_direction(true, false);
    assert_eq!(result, SortDirection::Descending);
}

#[test]
fn given_asc_flag_when_determine_sort_direction_then_returns_ascending() {
    let result = determine_sort_direction(false, true);
    assert_eq!(result, SortDirection::Ascending);
}

#[test]
fn given_both_flags_when_determine_sort_direction_then_returns_descending() {
    let result = determine_sort_direction(true, true);
    assert_eq!(result, SortDirection::Descending);
}

#[test]
fn given_no_flags_when_determine_sort_direction_then_returns_descending() {
    let result = determine_sort_direction(false, false);
    assert_eq!(result, SortDirection::Descending);
}

#[test]
fn test_parse_input() {
    let input = "  1 2,  3  ";
    let tokens = parse_input(input);
    assert_eq!(tokens, vec!["1", "2", "3"]);

    let input = "p 1,2,3";
    let tokens = parse_input(input);
    assert_eq!(tokens, vec!["p", "1", "2", "3"]);
}

#[test]
fn get_ids_trims_and_names_the_list_in_errors() {
    assert_eq!(get_ids(" 7 , -2,+3".to_string()).unwrap(), vec![7, -2, 3]);
    match get_ids("1,,2".to_string()) {
        Err(CliError::InvalidIdFormat(m)) => assert_eq!(m, "Invalid ID format: 1,,2"),
        other => panic!("unexpected {:?}", other),
    }
    assert!(get_ids("99999999999".to_string()).is_err());
}

#[test]
fn ensure_int_vector_reads_every_piece() {
    let ok = vec!["3".to_string(), "1".to_string()];
    assert_eq!(ensure_int_vector(&ok), Some(vec![3, 1]));
    let bad = vec!["3".to_string(), "x".to_string()];
    assert_eq!(ensure_int_vector(&bad), None);
    assert_eq!(ensure_int_vector(&[]), Some(vec![]));
}

#[test]
fn parse_input_lowercases() {
    assert_eq!(parse_input("Y 2,3\n"), vec!["y", "2", "3"]);
    assert!(parse_input("   ").is_empty());
}

fn tokens(s: &str) -> Vec<String> {
    parse_input(s)
}

#[test]
fn interactive_commands_are_decided_from_tokens() {
    assert!(matches!(decide_command(&tokens("")), ProcessCommand::Quit));
    assert!(matches!(decide_command(&tokens("q")), ProcessCommand::Quit));
    assert!(matches!(decide_command(&tokens("h")), ProcessCommand::Help));
    assert!(matches!(decide_command(&tokens("p")), ProcessCommand::PrintAll));
    assert!(matches!(decide_command(&tokens("e")), ProcessCommand::EditAll));
    match decide_command(&tokens("p 1,2")) {
        ProcessCommand::Print(v) => assert_eq!(v, vec![1, 2]),
        other => panic!("unexpected {:?}", other),
    }
    match decide_command(&tokens("d 3")) {
        ProcessCommand::Delete(v) => assert_eq!(v, vec![3]),
        other => panic!("unexpected {:?}", other),
    }
    match decide_command(&tokens("d")) {
        ProcessCommand::Delete(v) => assert!(v.is_empty()),
        other => panic!("unexpected {:?}", other),
    }
    match decide_command(&tokens("T 4 5")) {
        ProcessCommand::Touch(v) => assert_eq!(v, vec![4, 5]),
        other => panic!("unexpected {:?}", other),
    }
    match decide_command(&tokens("y 1")) {
        ProcessCommand::Yank(v) => assert_eq!(v, vec![1]),
        other => panic!("unexpected {:?}", other),
    }
    match decide_command(&tokens("e 2")) {
        ProcessCommand::Edit(v) => assert_eq!(v, vec![2]),
        other => panic!("unexpected {:?}", other),
    }
    match decide_command(&tokens("2 3")) {
        ProcessCommand::Open(v) => assert_eq!(v, vec![2, 3]),
        other => panic!("unexpected {:?}", other),
    }
    assert!(matches!(decide_command(&tokens("2x")), ProcessCommand::NotNumbers));
    assert!(matches!(decide_command(&tokens("p a")), ProcessCommand::NotNumbers));
    assert!(matches!(decide_command(&tokens("zz")), ProcessCommand::Unknown));
}

#[test]
fn index_lookup_is_one_based() {
    let a = Bookmark::new("https://a", "a", "", Vec::new()).unwrap();
    let b = Bookmark::new("https://b", "b", "", Vec::new()).unwrap();
    let list = vec![a, b];
    assert!(get_bookmark_by_index(0, &list).is_none());
    assert_eq!(get_bookmark_by_index(2, &list).unwrap().url, "https://b");
    assert!(get_bookmark_by_index(3, &list).is_none());
    assert!(get_bookmark_by_index(-1, &list).is_none());
}

#[test]
fn display_field_labels() {
    assert_eq!(DisplayField::Id.label(), "ID");
    assert_eq!(DisplayField::AccessCount.label(), "Access Count");
    assert_eq!(DisplayField::LastUpdateTs.label(), "Last Updated");
}

#[test]
fn search_mode_is_exact_only_when_named() {
    assert_eq!(bkmr::cli::search_mode("exact"), bkmr::cli::SearchMode::Exact);
    assert_eq!(bkmr::cli::search_mode("hybrid"), bkmr::cli::SearchMode::Hybrid);
    assert_eq!(bkmr::cli::search_mode("Exact"), bkmr::cli::SearchMode::Hybrid);
    assert_eq!(bkmr::cli::search_mode(""), bkmr::cli::SearchMode::Hybrid);
}

#[test]
fn tag_filter_keeps_valid_trimmed_tags_once() {
    let ts = bkmr::cli::parse_tag_filter(" rust , cli,rust,,two words").unwrap();
    let names: Vec<&str> = ts.iter().map(|t| t.value()).collect();
    assert_eq!(names, vec!["rust", "cli"]);
    assert!(bkmr::cli::parse_tag_filter(" , ,").is_none());
    assert!(bkmr::cli::parse_tag_filter("").is_none());
}

#[test]
fn id_input_keeps_numbers_in_order() {
    assert_eq!(bkmr::cli::parse_id_input(" 3, 1 ,x, 22 "), vec![3, 1, 22]);
    assert_eq!(bkmr::cli::parse_id_input("abc"), Vec::<i32>::new());
    assert_eq!(bkmr::cli::parse_id_input("-4"), vec![-4]);
}

#[test]
fn test_get_bookmark_by_index() {
    // Create test bookmarks
    let tags = bkmr::tag::Tag::parse_tags("test").unwrap();

    let bookmark1 = Bookmark {
        id: Some(10),
        url: "https://example.com".to_string(),
        title: "Example".to_string(),
        description: "An example site".to_string(),
        tags: tags.clone(),
        access_count: 0,
        embedding: None,
        content_hash: None,
        file_path: None,
        file_mtime: None,
        file_hash: None,
        created_at: None,
        updated_at: 0,
        embeddable: false,
    };

    let bookmark2 = Bookmark {
        id: Some(20),
        url: "https://test.com".to_string(),
        title: "Test".to_string(),
        description: "A test site".to_string(),
        tags,
        access_count: 0,
        embedding: None,
        content_hash: None,
        file_path: None,
        file_mtime: None,
        file_hash: None,
        created_at: None,
        updated_at: 0,
        embeddable: false,
    };

    let bookmarks = vec![bookmark1, bookmark2];

    // Valid index
    let bookmark = get_bookmark_by_index(1, &bookmarks);
    assert!(bookmark.is_some());
    assert_eq!(bookmark.unwrap().id, Some(10));

    // Out of range
    let bookmark = get_bookmark_by_index(3, &bookmarks);
    assert!(bookmark.is_none());

    // Negative index (invalid)
    let bookmark = get_bookmark_by_index(-1, &bookmarks);
    assert!(bookmark.is_none());
}

#[test]
fn bookmark_type_names_pick_a_kind_whatever_their_case() {
    assert_eq!(kind_for_type("snip"), SystemTag::Snippet);
    assert_eq!(kind_for_type("TEXT"), SystemTag::Text);
    assert_eq!(kind_for_type("Shell"), SystemTag::Shell);
    assert_eq!(kind_for_type("md"), SystemTag::Markdown);
    assert_eq!(kind_for_type("Markdown"), SystemTag::Markdown);
    assert_eq!(kind_for_type("env"), SystemTag::Env);
    assert_eq!(kind_for_type("uri"), SystemTag::Uri);
    assert_eq!(kind_for_type("anything"), SystemTag::Uri);
    assert_eq!(kind_for_lowercase_type("Snip"), SystemTag::Uri);
}

#[test]
fn new_bookmark_tags_carry_the_system_tag_of_their_kind() {
    let tags = Tag::parse_tags("a,b").unwrap();
    let texts = |v: Vec<Tag>| v.iter().map(|t| t.value().to_string()).collect::<Vec<_>>();
    assert_eq!(texts(tags_with_kind(&tags, SystemTag::Snippet)), vec!["a", "b", "_snip_"]);
    assert_eq!(texts(tags_with_kind(&tags, SystemTag::Uri)), vec!["a", "b"]);
    let with_sys = Tag::parse_tags("_md_,x").unwrap();
    assert_eq!(texts(tags_with_kind(&with_sys, SystemTag::Markdown)), vec!["_md_", "x"]);
}

#[test]
fn tags_prefix_is_appended_to_the_all_tags_filter() {
    assert_eq!(search_all_tags(Some("a,b".to_string()), Some("p".to_string())), Some("a,b,p".to_string()));
    assert_eq!(search_all_tags(None, Some("p".to_string())), Some("p".to_string()));
    assert_eq!(search_all_tags(Some("a".to_string()), None), Some("a".to_string()));
    assert_eq!(search_all_tags(None, None), None);
    assert_eq!(search_all_tags(Some(String::new()), None), None);
}

#[test]
fn forced_update_with_tags_replaces_them() {
    assert_eq!(bkmr::cli::tag_edit_for(true, true, false).unwrap(), bkmr::cli::TagEdit::Replace);
    assert_eq!(
        bkmr::cli::tag_edit_for(false, true, true).unwrap(),
        bkmr::cli::TagEdit::Adjust { add: true, remove: true }
    );
    assert_eq!(
        bkmr::cli::tag_edit_for(false, false, false).unwrap(),
        bkmr::cli::TagEdit::Adjust { add: false, remove: false }
    );
}

#[test]
fn forced_update_without_tags_or_with_ntags_is_refused() {
    for (tags, ntags) in [(false, false), (false, true), (true, true)] {
        match bkmr::cli::tag_edit_for(true, tags, ntags) {
            Err(CliError::InvalidInput(m)) => assert_eq!(m, "Force update requires tags but no ntags"),
            other => panic!("expected a refusal, got {:?}", other),
        }
    }
}
