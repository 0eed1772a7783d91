use putio::{Config, INVALID_MAX_DISPLAY, INVALID_PARENT_ID, NOT_ENOUGH_ARGUMENTS};

fn arguments(words: &[&str]) -> Vec<String> {
    words.iter().map(|word| String::from(*word)).collect()
}

#[test]
fn config_not_enough_args() -> Result<(), String> {
    let args: Vec<String> = vec![String::from(""), String::from("")];
    let config = Config::new(&args);
    let result = match config {
        Ok(_config) => Err(String::from("Should fail with missing args")),
        Err(err) => {
            assert!(
                err.contains("Not enough arguments"),
                "Not enough arguments error message not present in error."
            );
            Ok(())
        }
    };

    result
}

#[test]
fn config_has_enough_args() -> Result<(), String> {
    let args: Vec<String> = vec![
        String::from("putio"),
        String::from("api_token"),
        String::from("921234"),
    ];
    let config = Config::new(&args);
    let result = match config {
        Ok(_config) => Ok(()),
        Err(err) => Err(String::from(format!("Unexpected error raised: {}", err))),
    };

    result
}

#[test]
fn config_reads_token_and_root_folder() {
    let config = Config::new(&arguments(&["putio", "api_token", "921234"])).unwrap();
    assert_eq!(config.oauth_token(), "api_token");
    assert_eq!(config.parent_id(), 921234);
    assert_eq!(config.max_display(), None);
}

#[test]
fn config_reads_display_cap_from_fourth_argument() {
    let config = Config::new(&arguments(&["putio", "api_token", "0", "3"])).unwrap();
    assert_eq!(config.parent_id(), 0);
    assert_eq!(config.max_display(), Some(3));
}

#[test]
fn config_rejects_a_cap_of_zero() {
    let result = Config::new(&arguments(&["putio", "api_token", "921234", "0"]));
    assert_eq!(result.err(), Some(INVALID_MAX_DISPLAY));
}

#[test]
fn config_rejects_zero_however_it_is_written() {
    for word in ["0", "+0", "00", "0000000000000"] {
        let result = Config::new(&arguments(&["putio", "t", "7", word]));
        assert_eq!(result.err(), Some(INVALID_MAX_DISPLAY), "for {:?}", word);
    }
}

#[test]
fn config_accepts_the_least_and_the_greatest_cap() {
    let least = Config::new(&arguments(&["putio", "t", "7", "1"])).unwrap();
    assert_eq!(least.max_display(), Some(1));
    let greatest = Config::new(&arguments(&["putio", "t", "7", "4294967295"])).unwrap();
    assert_eq!(greatest.max_display(), Some(u32::MAX));
    let padded = Config::new(&arguments(&["putio", "t", "7", "+007"])).unwrap();
    assert_eq!(padded.max_display(), Some(7));
}

#[test]
fn config_display_cap_message_is_exact() {
    assert_eq!(
        Config::new(&arguments(&["putio", "t", "7", "0"])).err(),
        Some("Invalid max_display: a decimal integer from 1 to 4294967295 is required.")
    );
}

#[test]
fn config_ignores_the_cap_when_more_arguments_follow() {
    let config = Config::new(&arguments(&["putio", "t", "7", "3", "extra"])).unwrap();
    assert_eq!(config.max_display(), None);
}

#[test]
fn config_does_not_read_a_cap_it_ignores() {
    let config = Config::new(&arguments(&["putio", "t", "7", "three", "extra"])).unwrap();
    assert_eq!(config.max_display(), None);
    let config = Config::new(&arguments(&["putio", "t", "7", "0", "extra"])).unwrap();
    assert_eq!(config.max_display(), None);
}

#[test]
fn config_accepts_a_negative_root_folder() {
    let config = Config::new(&arguments(&["putio", "t", "-12"])).unwrap();
    assert_eq!(config.parent_id(), -12);
}

#[test]
fn config_with_no_arguments_at_all() {
    let args: Vec<String> = Vec::new();
    assert_eq!(Config::new(&args).err(), Some(NOT_ENOUGH_ARGUMENTS));
}

#[test]
fn config_not_enough_args_message_is_exact() {
    assert_eq!(
        Config::new(&arguments(&["putio", "t"])).err(),
        Some("Not enough arguments: oauth_token and parent_id folder are required.")
    );
}

#[test]
fn config_rejects_a_malformed_root_folder() {
    for word in ["", "abc", "12x", " 12", "12 ", "1_000", "+", "-", "--1", "9223372036854775808"] {
        let result = Config::new(&arguments(&["putio", "t", word]));
        assert_eq!(result.err(), Some(INVALID_PARENT_ID), "for {:?}", word);
    }
}

#[test]
fn config_rejects_a_malformed_display_cap() {
    for word in ["", "x", "-1", "-0", "1.5", "4294967296", "١"] {
        let result = Config::new(&arguments(&["putio", "t", "1", word]));
        assert_eq!(result.err(), Some(INVALID_MAX_DISPLAY), "for {:?}", word);
    }
}

#[test]
fn config_reports_the_first_fault() {
    let result = Config::new(&arguments(&["putio", "t", "x", "y"]));
    assert_eq!(result.err(), Some(INVALID_PARENT_ID));
}

#[test]
fn config_too_short_wins_over_malformed() {
    let result = Config::new(&arguments(&["x", "y"]));
    assert_eq!(result.err(), Some(NOT_ENOUGH_ARGUMENTS));
}
