use schema_compat::codec::DecodeError;
use schema_compat::codec::load;
use schema_compat::codec::save;
use schema_compat::compat::CompatibilityResult;
use schema_compat::compat::check_compatibility;
use schema_compat::v0;
use schema_compat::v1;

fn v0_greeting() -> v0::Greeting {
    v0::Greeting { name: "Greg".to_string(), greeting: "Hi greg".to_string() }
}

fn v1_greeting() -> v1::Greeting {
    v1::Greeting { greeting: "Hi greg".to_string() }
}

fn v0_request() -> v0::GreetingRequest {
    v0::GreetingRequest { name: "Greg".to_string(), favorite_thing: "Rust".to_string() }
}

fn v1_request() -> v1::GreetingRequest {
    v1::GreetingRequest {
        name: "Greg".to_string(),
        favorite_thing: "Rust".to_string(),
        favorite_song: "Never gonna give you up".to_string(),
    }
}

#[test]
fn greeting_change_is_backward_compatible() {
    let old_data = save(&v0_greeting());
    assert!(load::<v1::Greeting>(&old_data).is_ok());
}

#[test]
fn greeting_change_is_not_forward_compatible() {
    let new_data = save(&v1_greeting());
    assert!(load::<v0::Greeting>(&new_data).is_err());
}

#[test]
fn removed_field_is_named_in_the_error() {
    let new_data = save(&v1_greeting());
    let err = load::<v0::Greeting>(&new_data).unwrap_err();
    assert!(matches!(err, DecodeError::MissingField(f) if f == "name"));
}

#[test]
fn added_field_fails_decode_under_new_revision() {
    let old_data = save(&v0_request());
    let err = load::<v1::GreetingRequest>(&old_data).unwrap_err();
    assert!(matches!(err, DecodeError::MissingField(f) if f == "favorite_song"));
}

#[test]
fn added_field_keeps_decode_under_old_revision() {
    let new_data = save(&v1_request());
    let decoded = load::<v0::GreetingRequest>(&new_data).unwrap();
    assert_eq!(decoded.name, "Greg");
    assert_eq!(decoded.favorite_thing, "Rust");
}

#[test]
fn round_trip_preserves_every_field() {
    let value = v1_request();
    let decoded = load::<v1::GreetingRequest>(&save(&value)).unwrap();
    assert_eq!(decoded.name, "Greg");
    assert_eq!(decoded.favorite_thing, "Rust");
    assert_eq!(decoded.favorite_song, "Never gonna give you up");
}

#[test]
fn round_trip_preserves_empty_and_escaped_values() {
    let value = v0::Greeting {
        name: String::new(),
        greeting: "say \"hi\" to \\everyone\\\nplease".to_string(),
    };
    let decoded = load::<v0::Greeting>(&save(&value)).unwrap();
    assert_eq!(decoded.name, "");
    assert_eq!(decoded.greeting, "say \"hi\" to \\everyone\\\nplease");
}

#[test]
fn decode_reads_handwritten_text() {
    let text = "{\"greeting\":\"good day\",\"name\":\"Ada\"}";
    let decoded = load::<v0::Greeting>(text).unwrap();
    assert_eq!(decoded.name, "Ada");
    assert_eq!(decoded.greeting, "good day");
}

#[test]
fn invalid_text_is_malformed() {
    assert!(matches!(load::<v0::Greeting>("not a record"), Err(DecodeError::Malformed)));
}

#[test]
fn non_record_text_is_malformed() {
    assert!(matches!(load::<v0::Greeting>("[1, 2, 3]"), Err(DecodeError::Malformed)));
    assert!(matches!(load::<v0::Greeting>("{\"name\": 7}"), Err(DecodeError::Malformed)));
}

#[test]
fn encode_decode_is_deterministic() {
    let first = save(&v0_greeting());
    let second = save(&v0_greeting());
    assert_eq!(first, second);
    let once = load::<v1::Greeting>(&first).unwrap();
    let again = load::<v1::Greeting>(&second).unwrap();
    assert_eq!(once.greeting, again.greeting);
    let err_once = load::<v1::GreetingRequest>(&save(&v0_request())).unwrap_err();
    let err_again = load::<v1::GreetingRequest>(&save(&v0_request())).unwrap_err();
    assert_eq!(err_once, err_again);
}

#[test]
fn compatibility_verdicts_are_directional() {
    assert!(matches!(
        check_compatibility::<v0::Greeting, v1::Greeting>(&v0_greeting()),
        CompatibilityResult::Compatible
    ));
    assert!(matches!(
        check_compatibility::<v1::Greeting, v0::Greeting>(&v1_greeting()),
        CompatibilityResult::Incompatible(DecodeError::MissingField(f)) if f == "name"
    ));
    assert!(matches!(
        check_compatibility::<v0::GreetingRequest, v1::GreetingRequest>(&v0_request()),
        CompatibilityResult::Incompatible(DecodeError::MissingField(f)) if f == "favorite_song"
    ));
    assert!(matches!(
        check_compatibility::<v1::GreetingRequest, v0::GreetingRequest>(&v1_request()),
        CompatibilityResult::Compatible
    ));
}

#[test]
fn unknown_fields_in_raw_text_are_ignored() {
    let text = "{\"name\":\"Ada\",\"greeting\":\"good day\",\"extra\":\"noise\"}";
    let decoded = load::<v0::Greeting>(text).unwrap();
    assert_eq!(decoded.name, "Ada");
    assert_eq!(decoded.greeting, "good day");
}

#[test]
fn duplicate_keys_in_raw_text_still_decode() {
    let text = "{\"greeting\":\"first\",\"greeting\":\"second\"}";
    assert!(load::<v1::Greeting>(text).is_ok());
}
