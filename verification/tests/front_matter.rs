use ctf_writeups::front_matter::make_front_matter;
use ctf_writeups::front_matter::OutputType;

#[test]
fn zola_front_matter_example() {
    let fm = make_front_matter(
        "example",
        "2022-01-07",
        &vec!["tag 1 lol".to_string()],
        &vec!["sky".to_string()],
        OutputType::Zola,
    );
    assert_eq!(
        fm,
        "+++\ntitle=\"example\"\ndate = 2022-01-07\n\n[taxonomies]\ntags = [\"tag 1 lol\"]\n+++\n\n\n"
    );
}

#[test]
fn zola_front_matter_ignores_authors() {
    let with_authors = make_front_matter(
        "t",
        "d",
        &vec!["a".to_string()],
        &vec!["x".to_string(), "y".to_string()],
        OutputType::Zola,
    );
    let without_authors =
        make_front_matter("t", "d", &vec!["a".to_string()], &vec![], OutputType::Zola);
    assert_eq!(with_authors, without_authors);
}

#[test]
fn empty_lists_render_empty_arrays() {
    let zola = make_front_matter("t", "d", &vec![], &vec![], OutputType::Zola);
    assert_eq!(zola, "+++\ntitle=\"t\"\ndate = d\n\n[taxonomies]\ntags = []\n+++\n\n\n");
    let hugo = make_front_matter("t", "d", &vec![], &vec![], OutputType::Hugo);
    assert_eq!(
        hugo,
        "+++\ntitle=\"t\"\ndate = d\ntags = []\nauthors = []\nlayout = \"post\"\n+++\n\n\n"
    );
}

#[test]
fn hugo_front_matter_lists_tags_and_authors() {
    let fm = make_front_matter(
        "t",
        "2020",
        &vec!["a".to_string(), "b".to_string()],
        &vec!["x".to_string()],
        OutputType::Hugo,
    );
    assert_eq!(
        fm,
        "+++\ntitle=\"t\"\ndate = 2020\ntags = [\"a\",\"b\"]\nauthors = [\"x\"]\nlayout = \"post\"\n+++\n\n\n"
    );
}

#[test]
fn quotes_and_backslashes_are_escaped() {
    let fm = make_front_matter(
        "t",
        "d",
        &vec!["a\"b\\c".to_string()],
        &vec![],
        OutputType::Zola,
    );
    assert_eq!(
        fm,
        "+++\ntitle=\"t\"\ndate = d\n\n[taxonomies]\ntags = [\"a\\\"b\\\\c\"]\n+++\n\n\n"
    );
}

#[test]
fn output_type_from_str_accepts_the_two_dialects() {
    assert!(matches!(OutputType::from_str("zola"), Ok(OutputType::Zola)));
    assert!(matches!(OutputType::from_str("hugo"), Ok(OutputType::Hugo)));
    assert_eq!(
        OutputType::from_str("jekyll"),
        Err("type should be \"zola\" or \"hugo\"")
    );
    assert_eq!(
        OutputType::from_str(""),
        Err("type should be \"zola\" or \"hugo\"")
    );
}
