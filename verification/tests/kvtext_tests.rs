use rustbits::kvtext::{format_fields, read_fields, User};

#[test]
fn user_serializes_as_key_value_record() {
    let user = User { username: "John".to_string(), age: 30, year: 2005 };
    assert_eq!(user.serialize(), "{username:John,age:30,year:2005}");
}

#[test]
fn user_round_trips_through_text() {
    let user = User { username: "John".to_string(), age: 30, year: 2005 };
    let userdata = user.serialize();
    let user2 = User::mydeserialize(&userdata);
    assert_eq!(user2.username, "John");
    assert_eq!(user2.age, 30);
    assert_eq!(user2.year, 2005);
}

#[test]
fn deserialize_trims_and_takes_last_duplicate() {
    let u = User::mydeserialize(&"{ year : 1 , age: +7,username: Ann ,year:1999}".to_string());
    assert_eq!((u.username.as_str(), u.age, u.year), ("Ann", 7, 1999));
}

#[test]
fn deserialize_refuses_what_it_cannot_read() {
    assert!(User::try_deserialize(&"{username:a,age:1}".to_string()).is_none());
    assert!(User::try_deserialize(&"{username:a,age:x,year:1}".to_string()).is_none());
    assert!(User::try_deserialize(&"{username:a,age:1,year:2,junk}".to_string()).is_none());
    assert!(User::try_deserialize(&"{username:a,age:1,year:2}".to_string()).is_some());
}

#[test]
fn fields_format_and_read_back() {
    let fields = vec![("a".to_string(), "1".to_string()), ("b".to_string(), "x:y".to_string())];
    let text = format_fields(&fields);
    assert_eq!(text, "{a:1,b:x:y}");
    let back = read_fields(&text).unwrap();
    assert_eq!(back, vec![("a".to_string(), "1".to_string()), ("b".to_string(), "x".to_string())]);
    assert_eq!(format_fields(&vec![]), "{}");
    // an empty record has one part without a `:`, which is no field
    assert!(read_fields("{}").is_none());
}

#[test]
fn braces_are_stripped_once_each() {
    assert_eq!(rustbits::kvtext::strip_braces_str("{a:1}"), "a:1");
    assert_eq!(rustbits::kvtext::strip_braces_str("{{a}}"), "{a}");
    assert_eq!(rustbits::kvtext::strip_braces_str("a"), "a");
    assert_eq!(rustbits::kvtext::strip_braces_str("{"), "");
}

#[test]
fn user_debug_form() {
    let u = User { username: "John".to_string(), age: 30, year: 2005 };
    assert_eq!(format!("{:?}", u), "User { username: \"John\", age: 30, year: 2005 }");
}
