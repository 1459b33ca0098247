use bkmr::bookmark::Bookmark;
use bkmr::cli::show_bookmark_details;
use bkmr::tag::Tag;
use bkmr::timestamp::format_timestamp;

#[test]
fn timestamps_display_as_utc_dates() {
    assert_eq!(format_timestamp(0), "1970-01-01 00:00:00 UTC");
    assert_eq!(format_timestamp(1700000000), "2023-11-14 22:13:20 UTC");
    assert_eq!(format_timestamp(951782400), "2000-02-29 00:00:00 UTC");
    assert_eq!(format_timestamp(-1), "1969-12-31 23:59:59 UTC");
    assert_eq!(format_timestamp(-62135596800), "0001-01-01 00:00:00 UTC");
    assert_eq!(format_timestamp(253402300799), "9999-12-31 23:59:59 UTC");
    assert_eq!(format_timestamp(253402300800), "+10000-01-01 00:00:00 UTC");
    assert_eq!(format_timestamp(-62167219201), "-0001-12-31 23:59:59 UTC");
}

#[test]
fn bookmark_details_list_every_field() {
    let mut b = Bookmark::new("https://example.com", "Example", "A site", Tag::parse_tags("web,docs").unwrap()).unwrap();
    b.id = Some(5);
    b.access_count = 3;
    b.created_at = Some(1700000000);
    b.updated_at = 1700003600;
    assert_eq!(
        show_bookmark_details(&b),
        "5 Example [,web,docs,] (Open in browser or application)\n  URL/Content: https://example.com\n  Description: A site\n  Access count: 3\n  Created: 2023-11-14 22:13:20 UTC\n  Updated: 2023-11-14 23:13:20 UTC\n  Has embedding: false\n  Default Action: Open in browser or application\n"
    );

    let mut f = Bookmark::new("echo hi", "script", "", Tag::parse_tags("_shell_").unwrap()).unwrap();
    f.embedding = Some(vec![1]);
    f.file_path = Some("/s/script.sh".to_string());
    f.file_mtime = Some(0);
    assert_eq!(
        show_bookmark_details(&f),
        "? script [,_shell_,] (Execute as shell script)\n  URL/Content: echo hi\n  Description: \n  Access count: 0\n  Created: N/A\n  Updated: 1970-01-01 00:00:00 UTC\n  Has embedding: true\n  Default Action: Execute as shell script\n  Source File: /s/script.sh (modified: 1970-01-01 00:00:00 UTC)\n"
    );
}
