use wordle::config::{config_of, read_config, Field};
use wordle::error::Error;
use wordle::session::Config;

fn read(text: &str) -> Result<Config, Error> {
    read_config(&text.to_string())
}

fn refused(text: &str) {
    match read(text) {
        Err(error) => assert_eq!(error, Error::InvalidArgs),
        Ok(_) => panic!(),
    }
}

#[test]
fn a_configuration_is_read_member_by_member() {
    let text = "{\"random\": true, \"difficult\": false, \"stats\": true, \"day\": 5, \
        \"seed\": 20220123, \"final_set\": \"final.txt\", \"acceptable_set\": \"acc.txt\", \
        \"state\": \"state.json\", \"word\": \"crane\"}";
    let config = match read(text) {
        Ok(config) => config,
        Err(_) => panic!(),
    };
    assert_eq!(config.random, Some(true));
    assert_eq!(config.difficult, Some(false));
    assert_eq!(config.stats, Some(true));
    assert_eq!(config.day, Some(5));
    assert_eq!(config.seed, Some(20220123));
    assert_eq!(config.final_set, Some("final.txt".to_string()));
    assert_eq!(config.acceptable_set, Some("acc.txt".to_string()));
    assert_eq!(config.state, Some("state.json".to_string()));
    assert_eq!(config.word, Some("crane".to_string()));
}

#[test]
fn members_that_are_not_there_are_not_set() {
    for text in ["{}", "{\"other\": 1}", "[]", "3", "null", "\"random\""] {
        let config = match read(text) {
            Ok(config) => config,
            Err(_) => panic!(),
        };
        assert_eq!(config.random, None);
        assert_eq!(config.difficult, None);
        assert_eq!(config.stats, None);
        assert_eq!(config.day, None);
        assert_eq!(config.seed, None);
        assert_eq!(config.final_set, None);
        assert_eq!(config.acceptable_set, None);
        assert_eq!(config.state, None);
        assert_eq!(config.word, None);
    }
}

#[test]
fn a_negative_day_is_read() {
    match read("{\"day\": -3}") {
        Ok(config) => assert_eq!(config.day, Some(-3)),
        Err(_) => panic!(),
    }
}

#[test]
fn a_member_of_the_wrong_kind_is_refused() {
    refused("{\"random\": 1}");
    refused("{\"difficult\": \"true\"}");
    refused("{\"stats\": null}");
    refused("{\"day\": \"5\"}");
    refused("{\"day\": 1.5}");
    refused("{\"day\": 9223372036854775808}");
    refused("{\"seed\": -1}");
    refused("{\"seed\": 2.0}");
    refused("{\"final_set\": 3}");
    refused("{\"acceptable_set\": []}");
    refused("{\"state\": {}}");
    refused("{\"word\": true}");
}

#[test]
fn a_text_that_is_no_json_is_refused() {
    refused("");
    refused("{");
    refused("{\"random\": true");
    refused("{random: true}");
    refused("{} {}");
}

#[test]
fn looked_up_members_make_a_configuration() {
    let config = config_of(
        Field::Given(true),
        Field::Missing,
        Field::Missing,
        Field::Given(-2),
        Field::Missing,
        Field::Missing,
        Field::Given("acc.txt".to_string()),
        Field::Missing,
        Field::Missing,
    );
    match config {
        Ok(config) => {
            assert_eq!(config.random, Some(true));
            assert_eq!(config.difficult, None);
            assert_eq!(config.day, Some(-2));
            assert_eq!(config.acceptable_set, Some("acc.txt".to_string()));
            assert_eq!(config.word, None);
        }
        Err(_) => panic!(),
    }
    let refused = config_of(
        Field::Given(true),
        Field::Missing,
        Field::Missing,
        Field::Missing,
        Field::Misplaced,
        Field::Missing,
        Field::Missing,
        Field::Missing,
        Field::Missing,
    );
    match refused {
        Err(error) => assert_eq!(error, Error::InvalidArgs),
        Ok(_) => panic!(),
    }
}
