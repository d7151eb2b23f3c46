use moodly::collect::{collect_from, collect_step, parse_date, parse_mood, parse_time};

#[test]
fn date_parser_reformats_a_valid_compact_date() {
    assert_eq!(parse_date("20240115"), Some("2024-01-15".to_string()));
    assert_eq!(parse_date("19991231"), Some("1999-12-31".to_string()));
}

#[test]
fn date_parser_rejects_malformed_input() {
    assert_eq!(parse_date("abc"), None);
    assert_eq!(parse_date("2024-01-15"), None);
    assert_eq!(parse_date("20241315"), None);
    assert_eq!(parse_date("20240100"), None);
    assert_eq!(parse_date("20240132"), None);
    assert_eq!(parse_date(""), None);
}

#[test]
fn date_parser_knows_leap_years() {
    assert_eq!(parse_date("20240229"), Some("2024-02-29".to_string()));
    assert_eq!(parse_date("20230229"), None);
    assert_eq!(parse_date("20000229"), Some("2000-02-29".to_string()));
    assert_eq!(parse_date("19000229"), None);
}

#[test]
fn time_parser_reformats_a_valid_compact_time() {
    assert_eq!(parse_time("0930"), Some("09:30".to_string()));
    assert_eq!(parse_time("0000"), Some("00:00".to_string()));
    assert_eq!(parse_time("2359"), Some("23:59".to_string()));
}

#[test]
fn time_parser_rejects_out_of_range_and_malformed() {
    assert_eq!(parse_time("2500"), None);
    assert_eq!(parse_time("0960"), None);
    assert_eq!(parse_time("09:30"), None);
    assert_eq!(parse_time("930"), None);
    assert_eq!(parse_time("abcd"), None);
}

#[test]
fn mood_parser_accepts_only_the_five_scores() {
    for s in ["1", "2", "3", "4", "5"] {
        assert_eq!(parse_mood(s), Some(s.to_string()));
    }
    for s in ["0", "6", "12", "x", "", " 3"] {
        assert_eq!(parse_mood(s), None);
    }
}

#[test]
fn empty_input_takes_the_default_without_asking_the_parser() {
    let default = Some("2024-01-15".to_string());
    let touchy = |_s: &str| -> Option<String> { panic!("the parser must not see a defaulted entry") };
    assert_eq!(collect_step("", &default, &touchy), Some("2024-01-15".to_string()));
}

#[test]
fn nonempty_input_goes_to_the_parser_even_with_a_default() {
    let default = Some("2024-01-15".to_string());
    assert_eq!(collect_step("20231105", &default, &parse_date), Some("2023-11-05".to_string()));
    assert_eq!(collect_step("nonsense", &default, &parse_date), None);
}

#[test]
fn empty_input_without_default_is_parsed() {
    let no_default: Option<String> = None;
    assert_eq!(collect_step("", &no_default, &parse_mood), None);
    let identity = |s: &str| -> Option<String> { Some(s.to_string()) };
    assert_eq!(collect_step("", &no_default, &identity), Some("".to_string()));
}

#[test]
fn collector_retries_until_a_valid_mood_arrives() {
    let inputs: Vec<String> = ["7", "abc", "", "3", "4"].iter().map(|s| s.to_string()).collect();
    let no_default: Option<String> = None;
    let got = collect_from(&inputs, &no_default, &parse_mood);
    assert_eq!(got, Some(("3".to_string(), 3)));
}

#[test]
fn collector_never_accepts_when_everything_is_rejected() {
    let inputs: Vec<String> = ["0", "six", "55"].iter().map(|s| s.to_string()).collect();
    let no_default: Option<String> = None;
    assert_eq!(collect_from(&inputs, &no_default, &parse_mood), None);
}

#[test]
fn collector_takes_the_default_on_a_blank_line() {
    let inputs: Vec<String> = vec!["".to_string()];
    let default = Some("09:30".to_string());
    assert_eq!(collect_from(&inputs, &default, &parse_time), Some(("09:30".to_string(), 0)));
}
