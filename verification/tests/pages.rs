use ctf_writeups::front_matter::OutputType;
use ctf_writeups::meta::parse_ctf_meta;
use ctf_writeups::meta::ChallengeMeta;
use ctf_writeups::meta::CTFMeta;
use ctf_writeups::pages::build_folder_pages;
use ctf_writeups::pages::md_file_name;
use ctf_writeups::text::demote_headings;

const EXAMPLE: &str = "name = \"test lol\"
date = \"2022-01-07\"

[challenges]
[challenges.example]
name = \"example\"
tags = [\"tag 1 lol\"]";

#[test]
fn the_example_folder_produces_both_pages() {
    let meta = parse_ctf_meta(EXAMPLE).unwrap();
    let pages = build_folder_pages(
        &meta,
        &vec![Some("hi lol".to_string())],
        &vec!["sky".to_string()],
        OutputType::Zola,
    );
    assert_eq!(
        pages.index_page,
        "+++\ntitle=\"test lol\"\ndate = 2022-01-07\n\n[taxonomies]\ntags = [\"ctf-writeups\"]\n+++\n\n\n# example\nhi lol"
    );
    assert_eq!(pages.challenge_pages.len(), 1);
    assert_eq!(pages.challenge_pages[0].0, "example");
    assert_eq!(
        pages.challenge_pages[0].1,
        "+++\ntitle=\"example\"\ndate = 2022-01-07\n\n[taxonomies]\ntags = [\"tag 1 lol\"]\n+++\n\n\nhi lol"
    );
}

#[test]
fn a_missing_content_file_drops_the_challenge_everywhere() {
    let meta = parse_ctf_meta(EXAMPLE).unwrap();
    let pages = build_folder_pages(&meta, &vec![None], &vec![], OutputType::Zola);
    assert_eq!(pages.challenge_pages.len(), 0);
    assert_eq!(
        pages.index_page,
        "+++\ntitle=\"test lol\"\ndate = 2022-01-07\n\n[taxonomies]\ntags = [\"ctf-writeups\"]\n+++\n\n\n"
    );
}

#[test]
fn headings_are_demoted_on_the_index_but_not_on_the_page() {
    let meta = CTFMeta {
        name: "c".to_string(),
        date: "d".to_string(),
        description: None,
        challenges: vec![(
            "one".to_string(),
            ChallengeMeta { name: "One".to_string(), tags: None },
        )],
    };
    let body = "intro\n# deep\ntext\n## deeper";
    let pages = build_folder_pages(
        &meta,
        &vec![Some(body.to_string())],
        &vec![],
        OutputType::Zola,
    );
    // the standalone page carries the content byte for byte
    assert!(pages.challenge_pages[0].1.ends_with(body));
    // the index carries the demoted copy under the challenge heading
    assert!(pages.index_page.ends_with("# One\nintro\n## deep\ntext\n### deeper"));
}

#[test]
fn the_description_gets_the_read_more_marker() {
    let meta = CTFMeta {
        name: "c".to_string(),
        date: "d".to_string(),
        description: Some("about this event".to_string()),
        challenges: vec![],
    };
    let pages = build_folder_pages(&meta, &vec![], &vec![], OutputType::Zola);
    assert_eq!(
        pages.index_page,
        "+++\ntitle=\"c\"\ndate = d\n\n[taxonomies]\ntags = [\"ctf-writeups\"]\n+++\n\n\nabout this event\n<!-- more -->\n"
    );
}

#[test]
fn challenge_blocks_keep_order_and_skip_gaps() {
    let meta = CTFMeta {
        name: "c".to_string(),
        date: "d".to_string(),
        description: None,
        challenges: vec![
            ("a".to_string(), ChallengeMeta { name: "A".to_string(), tags: None }),
            ("b".to_string(), ChallengeMeta { name: "B".to_string(), tags: None }),
            ("c".to_string(), ChallengeMeta { name: "C".to_string(), tags: None }),
        ],
    };
    let pages = build_folder_pages(
        &meta,
        &vec![Some("one".to_string()), None, Some("three".to_string())],
        &vec![],
        OutputType::Zola,
    );
    assert_eq!(pages.challenge_pages.len(), 2);
    assert_eq!(pages.challenge_pages[0].0, "a");
    assert_eq!(pages.challenge_pages[1].0, "c");
    assert!(pages.index_page.ends_with("# A\none\n# C\nthree"));
}

#[test]
fn demotion_only_touches_headings_after_a_newline() {
    assert_eq!(demote_headings("# top\nplain # not\n# yes"), "# top\nplain # not\n## yes");
    assert_eq!(demote_headings(""), "");
    assert_eq!(demote_headings("\n#"), "\n##");
}

#[test]
fn challenge_page_file_names_add_the_extension() {
    assert_eq!(md_file_name("example"), "example.md");
    assert_eq!(md_file_name(""), ".md");
}
