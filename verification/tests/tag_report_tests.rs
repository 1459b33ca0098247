use bkmr::bookmark::Bookmark;
use bkmr::display::Color;
use bkmr::tag::{SystemTag, Tag};
use bkmr::tag_report::{sort_by_count, system_tag_stats, tag_count_lines};

fn counts(rows: &[(&str, usize)]) -> Vec<(Tag, usize)> {
    rows.iter().map(|(t, n)| (Tag::new(t).unwrap(), *n)).collect()
}

fn names(v: &[(Tag, usize)]) -> Vec<String> {
    v.iter().map(|(t, n)| format!("{}:{}", t.value(), n)).collect()
}

#[test]
fn tags_are_ordered_by_falling_count_keeping_ties_in_order() {
    let sorted = sort_by_count(counts(&[("a", 1), ("b", 3), ("c", 1), ("d", 3), ("e", 2)]));
    assert_eq!(names(&sorted), vec!["b:3", "d:3", "e:2", "a:1", "c:1"]);
    assert!(sort_by_count(Vec::new()).is_empty());
}

#[test]
fn tag_lines_show_name_and_count() {
    let pieces = tag_count_lines(&counts(&[("rust", 12), ("cli", 3)]));
    let text: String = pieces.iter().map(|p| p.text.as_str()).collect();
    assert_eq!(text, "  rust (12)\n  cli (3)\n");
    assert_eq!(pieces[1].color, Some(Color::Green));
    assert_eq!(pieces[0].color, None);
}

#[test]
fn system_tags_are_counted_per_kind() {
    let with = |url: &str, tags: &str| Bookmark::new(url, "t", "", Tag::parse_tags(tags).unwrap()).unwrap();
    let bookmarks = vec![
        with("a", "_snip_,x"),
        with("b", "_snip_"),
        with("c", "_md_"),
        with("d", "plain"),
    ];
    let stats = system_tag_stats(&bookmarks);
    assert_eq!(stats.len(), 5);
    assert_eq!(stats[0].tag, SystemTag::Snippet);
    assert_eq!(stats[0].name, "Snippet");
    assert_eq!(stats[0].count, 2);
    assert_eq!(stats[1].name, "Text");
    assert_eq!(stats[1].count, 0);
    assert_eq!(stats[3].name, "Markdown");
    assert_eq!(stats[3].count, 1);
    assert_eq!(stats[4].description, "Environment variables for shell sourcing");
}
