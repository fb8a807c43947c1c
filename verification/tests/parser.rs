use ctf_writeups::meta::parse_ctf_meta;

const EXAMPLE: &str = "name = \"test lol\"
date = \"2022-01-07\"

[challenges]
[challenges.example]
name = \"example\"
tags = [\"tag 1 lol\"]";

#[test]
fn parses_the_example_descriptor() {
    let meta = parse_ctf_meta(EXAMPLE).unwrap();
    assert_eq!(meta.name, "test lol");
    assert_eq!(meta.date, "2022-01-07");
    assert_eq!(meta.description, None);
    assert_eq!(meta.challenges.len(), 1);
    assert_eq!(meta.challenges[0].0, "example");
    assert_eq!(meta.challenges[0].1.name, "example");
    assert_eq!(meta.challenges[0].1.tags, Some(vec!["tag 1 lol".to_string()]));
}

#[test]
fn parses_description_and_several_challenges() {
    let text = "name = \"c\"\ndate = \"2021\"\ndescription = \"intro\"\n\n[challenges]\n[challenges.one]\nname = \"One\"\n[challenges.two]\nname = \"Two\"\ntags = []\n";
    let meta = parse_ctf_meta(text).unwrap();
    assert_eq!(meta.description, Some("intro".to_string()));
    assert_eq!(meta.challenges.len(), 2);
    assert_eq!(meta.challenges[0].0, "one");
    assert_eq!(meta.challenges[0].1.tags, None);
    assert_eq!(meta.challenges[1].0, "two");
    assert_eq!(meta.challenges[1].1.tags, Some(vec![]));
}

#[test]
fn accepts_comments_whitespace_and_unknown_keys() {
    let text = "# a comment\nname = \"c\"   # trailing\nextra = \"ignored\"\n  date = \"2021\"\n\n[ challenges ]\n  [challenges.one]\n  name = \"One\"\n  weight = \"9\"\n  tags = [ \"a\" , \"b\" , ]\n";
    let meta = parse_ctf_meta(text).unwrap();
    assert_eq!(meta.name, "c");
    assert_eq!(meta.date, "2021");
    assert_eq!(meta.challenges[0].1.tags, Some(vec!["a".to_string(), "b".to_string()]));
}

#[test]
fn accepts_escapes_in_strings() {
    let text = "name = \"a\\\"b\\\\c\"\ndate = \"d\"\n[challenges]\n";
    let meta = parse_ctf_meta(text).unwrap();
    assert_eq!(meta.name, "a\"b\\c");
}

#[test]
fn a_challenge_table_alone_counts_as_the_challenge_field() {
    let text = "name = \"c\"\ndate = \"d\"\n[challenges.solo]\nname = \"Solo\"\n";
    let meta = parse_ctf_meta(text).unwrap();
    assert_eq!(meta.challenges.len(), 1);
}

#[test]
fn unknown_tables_are_ignored_whole() {
    let text = "name = \"c\"\ndate = \"d\"\n[extra]\nanything = \"x\"\n[challenges]\n";
    let meta = parse_ctf_meta(text).unwrap();
    assert_eq!(meta.challenges.len(), 0);
}

#[test]
fn missing_required_fields_are_rejected() {
    assert!(parse_ctf_meta("date = \"d\"\n[challenges]\n").is_err());
    assert!(parse_ctf_meta("name = \"c\"\n[challenges]\n").is_err());
    assert!(parse_ctf_meta("name = \"c\"\ndate = \"d\"\n").is_err());
    // a challenge without a name
    assert!(parse_ctf_meta("name = \"c\"\ndate = \"d\"\n[challenges.x]\ntags = []\n").is_err());
}

#[test]
fn repeated_fields_and_keys_are_rejected() {
    assert!(parse_ctf_meta("name = \"a\"\nname = \"b\"\ndate = \"d\"\n[challenges]\n").is_err());
    assert!(
        parse_ctf_meta(
            "name = \"a\"\ndate = \"d\"\n[challenges]\n[challenges.x]\nname = \"x\"\n[challenges.x]\nname = \"y\"\n"
        )
        .is_err()
    );
    assert!(parse_ctf_meta("name = \"a\"\ndate = \"d\"\n[challenges]\n[challenges]\n").is_err());
}

#[test]
fn malformed_lines_are_rejected() {
    // unterminated string
    assert!(parse_ctf_meta("name = \"c\ndate = \"d\"\n[challenges]\n").is_err());
    // no value
    assert!(parse_ctf_meta("name =\ndate = \"d\"\n[challenges]\n").is_err());
    // bare word
    assert!(parse_ctf_meta("nonsense\n").is_err());
    // unclosed header
    assert!(parse_ctf_meta("[challenges\n").is_err());
    // an unquoted value
    assert!(parse_ctf_meta("name = c\ndate = \"d\"\n[challenges]\n").is_err());
    // an array where a string is required
    assert!(parse_ctf_meta("name = [\"c\"]\ndate = \"d\"\n[challenges]\n").is_err());
    // a string where an array is required
    assert!(
        parse_ctf_meta(
            "name = \"c\"\ndate = \"d\"\n[challenges.x]\nname = \"x\"\ntags = \"t\"\n"
        )
        .is_err()
    );
    // a bare key directly under the challenges table
    assert!(parse_ctf_meta("name = \"c\"\ndate = \"d\"\n[challenges]\nkey = \"v\"\n").is_err());
}

#[test]
fn the_empty_descriptor_is_rejected() {
    assert!(parse_ctf_meta("").is_err());
}
