use bkmr::config::{parse_fzf_opts, split_whitespace, FzfOpts};

#[test]
fn test_parse_fzf_opts() {
    let opts = parse_fzf_opts("--height 80% --reverse --show-tags --no-url");
    assert_eq!(opts.height, "80%");
    assert!(opts.reverse);
    assert!(opts.show_tags);
    assert!(opts.no_url);

    let opts = parse_fzf_opts("--height 60% --show-tags");
    assert_eq!(opts.height, "60%");
    assert!(!opts.reverse);
    assert!(opts.show_tags);
    assert!(!opts.no_url);

    let opts = parse_fzf_opts("--height 70% --unknown-option");
    assert_eq!(opts.height, "70%");
    assert!(!opts.reverse);
    assert!(!opts.show_tags);
    assert!(!opts.no_url);

    let opts = parse_fzf_opts("--reverse --height 90%");
    assert_eq!(opts.height, "90%");
    assert!(opts.reverse);
}

#[test]
fn fzf_defaults_and_dangling_height() {
    let d = FzfOpts::default();
    assert_eq!(d.height, "50%");
    assert!(!d.reverse && !d.show_tags && !d.no_url);
    let opts = parse_fzf_opts("--reverse --height");
    assert_eq!(opts.height, "50%");
    assert!(opts.reverse);
    let opts = parse_fzf_opts("");
    assert_eq!(opts.height, "50%");
}

#[test]
fn split_whitespace_drops_empty_words() {
    let w: Vec<String> = split_whitespace("  a\tbc \n d ").iter().map(|v| v.iter().collect()).collect();
    assert_eq!(w, vec!["a", "bc", "d"]);
    assert!(split_whitespace(" \t ").is_empty());
}
