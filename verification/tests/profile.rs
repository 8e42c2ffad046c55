use csgo_loader::document::{
    get_field, insert_field, integer_value, number_of, string_value, JsonNumber, JsonValue,
};
use csgo_loader::profile::{
    build_profile, check_username, decode_avatar, document_fields, profile_fields, profile_paths,
    set_expiration, set_username,
};

fn object(entries: Vec<(&str, JsonValue)>) -> JsonValue {
    JsonValue::Object(entries.into_iter().map(|(k, v)| (k.to_string(), v)).collect())
}

fn text(s: &str) -> JsonValue {
    JsonValue::Str(s.to_string())
}

#[test]
fn profile_files_live_in_nl_cloud() {
    let (data, avatar) = profile_paths(r"D:\CSGO");
    assert_eq!(data, r"D:\CSGO\nl_cloud\global_data.json");
    assert_eq!(avatar, r"D:\CSGO\nl_cloud\avatar.png");
}

#[test]
fn document_fields_are_read() {
    let doc = object(vec![
        ("username", text("neo")),
        ("expiration_date", JsonValue::Number(JsonNumber::PosInt(5))),
        ("x", JsonValue::Array(vec![JsonValue::Null])),
    ]);
    assert_eq!(document_fields(&doc), Ok(("neo".to_string(), 5)));
    let doc = object(vec![("expiration_date", JsonValue::Number(JsonNumber::NegInt(-5)))]);
    assert_eq!(
        document_fields(&doc),
        Err("В global_data.json отсутствует строка username.".to_string())
    );
    let doc = object(vec![("username", text("neo")), ("expiration_date", text("soon"))]);
    assert_eq!(
        document_fields(&doc),
        Err("В global_data.json отсутствует число expiration_date.".to_string())
    );
    let doc = object(vec![
        ("username", JsonValue::Bool(true)),
        ("expiration_date", JsonValue::Number(JsonNumber::PosInt(1))),
    ]);
    assert_eq!(
        document_fields(&doc),
        Err("В global_data.json отсутствует строка username.".to_string())
    );
    let list = JsonValue::Array(vec![text("neo")]);
    assert_eq!(
        document_fields(&list),
        Err("В global_data.json отсутствует строка username.".to_string())
    );
}

#[test]
fn only_integers_that_fit_are_dates() {
    let big = JsonValue::Number(JsonNumber::PosInt(i64::MAX as u64 + 1));
    assert_eq!(integer_value(Some(&big)), None);
    let max = JsonValue::Number(JsonNumber::PosInt(i64::MAX as u64));
    assert_eq!(integer_value(Some(&max)), Some(i64::MAX));
    let float = JsonValue::Number(JsonNumber::Float("1.5".to_string()));
    assert_eq!(integer_value(Some(&float)), None);
    assert_eq!(integer_value(None), None);
    assert_eq!(number_of(-3), JsonNumber::NegInt(-3));
    assert_eq!(number_of(0), JsonNumber::PosInt(0));
    assert_eq!(number_of(42), JsonNumber::PosInt(42));
}

#[test]
fn the_first_entry_with_a_key_answers() {
    let doc = object(vec![("a", text("1")), ("a", text("2"))]);
    assert_eq!(string_value(get_field(&doc, "a")), Some("1".to_string()));
    assert_eq!(get_field(&doc, "b"), None);
    assert_eq!(string_value(get_field(&text("a"), "a")), None);
}

#[test]
fn missing_username_is_reported_before_the_date() {
    assert_eq!(
        profile_fields(None, None),
        Err("В global_data.json отсутствует строка username.".to_string())
    );
    assert_eq!(profile_fields(Some("a".to_string()), Some(-1)), Ok(("a".to_string(), -1)));
}

#[test]
fn avatar_round_trips_through_the_data_url() {
    let avatar = b"\x89PNG\r\n\x1a\n".to_vec();
    let profile = build_profile("neo".to_string(), 7, &avatar);
    assert_eq!(profile.username, "neo");
    assert_eq!(profile.expiration_date, 7);
    assert_eq!(profile.avatar_data_url, "data:image/png;base64,iVBORw0KGgo=");
    assert_eq!(decode_avatar(&profile.avatar_data_url), Ok(avatar));
    assert_eq!(build_profile("e".to_string(), 0, b"").avatar_data_url, "data:image/png;base64,");
}

#[test]
fn avatars_must_be_png_data_urls() {
    assert_eq!(
        decode_avatar("data:image/jpeg;base64,AAAA"),
        Err("Аватар должен быть передан в формате PNG.".to_string())
    );
    let err = decode_avatar("data:image/png;base64,@@@").unwrap_err();
    assert!(err.starts_with("Не удалось декодировать аватар: "));
}

#[test]
fn usernames_have_at_most_thirteen_characters() {
    assert_eq!(check_username("abcdefghijklm"), Ok(()));
    assert_eq!(
        check_username("abcdefghijklmn"),
        Err("Ник не может быть длиннее 13 символов.".to_string())
    );
    assert_eq!(check_username("ЖЖЖЖЖЖЖЖЖЖЖЖЖ"), Ok(()));
    assert!(check_username("ЖЖЖЖЖЖЖЖЖЖЖЖЖЖ").is_err());
}

#[test]
fn setting_fields_in_the_document() {
    let mut doc = object(vec![("username", text("old")), ("other", JsonValue::Bool(true))]);
    assert_eq!(set_username(&mut doc, "new".to_string()), Ok(()));
    assert_eq!(set_expiration(&mut doc, 42), Ok(()));
    assert_eq!(document_fields(&doc), Ok(("new".to_string(), 42)));
    assert_eq!(
        doc,
        object(vec![
            ("username", text("new")),
            ("other", JsonValue::Bool(true)),
            ("expiration_date", JsonValue::Number(JsonNumber::PosInt(42))),
        ])
    );
    assert_eq!(set_expiration(&mut doc, -7), Ok(()));
    assert_eq!(document_fields(&doc), Ok(("new".to_string(), -7)));
    let mut list = JsonValue::Array(vec![JsonValue::Null]);
    assert_eq!(
        set_username(&mut list, "x".to_string()),
        Err("global_data.json должен содержать объект JSON.".to_string())
    );
    assert_eq!(
        set_expiration(&mut list, 1),
        Err("global_data.json должен содержать объект JSON.".to_string())
    );
    assert_eq!(list, JsonValue::Array(vec![JsonValue::Null]));
}

#[test]
fn inserting_keeps_the_place_of_an_existing_key() {
    let mut doc = object(vec![("a", text("1")), ("b", text("2"))]);
    assert!(insert_field(&mut doc, "a".to_string(), JsonValue::Null));
    assert_eq!(doc, object(vec![("a", JsonValue::Null), ("b", text("2"))]));
    let mut nothing = JsonValue::Null;
    assert!(!insert_field(&mut nothing, "a".to_string(), JsonValue::Null));
    assert_eq!(nothing, JsonValue::Null);
}
