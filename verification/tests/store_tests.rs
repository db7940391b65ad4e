use schema_compat::codec::DecodeError;
use schema_compat::store::Database;
use schema_compat::v0;
use schema_compat::v1;

#[test]
fn empty_store_reads_as_empty() {
    let database = Database::new();
    let entries = database.read_all::<v0::Greeting>().unwrap();
    assert!(entries.is_empty());
}

#[test]
fn databases_require_forward_compatible_changes() {
    let mut database = Database::new();
    database.insert(&v0::Greeting {
        name: "Greg".to_string(),
        greeting: "Hi greg".to_string(),
    });
    database.insert(&v1::Greeting { greeting: "Hi greg".to_string() });

    assert!(database.read_all::<v1::Greeting>().is_ok());
    assert!(database.read_all::<v0::Greeting>().is_err());
}

#[test]
fn databases_require_backward_compatible_changes() {
    let mut database = Database::new();
    database.insert(&v0::GreetingRequest {
        name: "Greg".to_string(),
        favorite_thing: "Rust".to_string(),
    });
    database.insert(&v1::GreetingRequest {
        name: "Greg".to_string(),
        favorite_thing: "Rust".to_string(),
        favorite_song: "Never gonna give you up".to_string(),
    });

    assert!(database.read_all::<v0::GreetingRequest>().is_ok());
    assert!(database.read_all::<v1::GreetingRequest>().is_err());
}

#[test]
fn read_fails_fast_at_the_first_bad_entry() {
    let mut database = Database::new();
    database.insert(&v0::Greeting {
        name: "Greg".to_string(),
        greeting: "Hi greg".to_string(),
    });
    database.insert(&v1::Greeting { greeting: "Hi again".to_string() });

    let err = database.read_all::<v0::Greeting>().unwrap_err();
    assert!(matches!(err, DecodeError::MissingField(f) if f == "name"));

    let read_back = database.read_all::<v1::Greeting>().unwrap();
    assert_eq!(read_back.len(), 2);
    assert_eq!(read_back[0].greeting, "Hi greg");
    assert_eq!(read_back[1].greeting, "Hi again");
}

#[test]
fn entries_come_back_in_insertion_order() {
    let mut database = Database::new();
    for i in 0..4 {
        database.insert(&v1::Greeting { greeting: format!("entry {i}") });
    }
    let read_back = database.read_all::<v1::Greeting>().unwrap();
    assert_eq!(read_back.len(), 4);
    for (i, entry) in read_back.iter().enumerate() {
        assert_eq!(entry.greeting, format!("entry {i}"));
    }
}
