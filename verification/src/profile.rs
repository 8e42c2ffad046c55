//! The Neverlose profile kept beside the game: its JSON document, the
//! username rule, and the avatar as a PNG data URL.
use base64::Engine;
use vstd::prelude::*;
use crate::config::MAX_USERNAME_LENGTH;
use crate::document::{
    as_i64, as_str, field, field_set, get_field, insert_field, integer_value, lemma_field_set_reads_back,
    number_of, number_spec, string_value, JsonValue,
};
use crate::text::{chars_of, concat, has_prefix, slice_of, starts_with, string_of};
use crate::winpath::join;

verus! {

/// The text `base64::engine::general_purpose::STANDARD` encodes these bytes
/// as.
pub uninterp spec fn base64_encoding(bytes: Seq<u8>) -> Seq<char>;

/// What the `STANDARD` engine decodes this text to, or its error's message.
pub uninterp spec fn base64_decoding(text: Seq<char>) -> Result<Seq<u8>, Seq<char>>;

/// Decoded bytes, as `base64_decoding` gives them.
pub open spec fn bytes_ok(b: Seq<u8>) -> Result<Seq<u8>, Seq<char>> {
    Ok(b)
}

/// A decoding error's message, as `base64_decoding` gives it.
pub open spec fn bytes_err(m: Seq<char>) -> Result<Seq<u8>, Seq<char>> {
    Err(m)
}

/// The number of bytes `base64` encodes without overflowing `usize`
/// (`encoded_len` with padding).
pub open spec fn encodable(len: nat) -> bool {
    (len / 3) * 4 + (if len % 3 > 0 {
        4nat
    } else {
        0nat
    }) <= usize::MAX
}

/// `STANDARD.encode`: the encoding named for the bytes, which `STANDARD`
/// decodes back to the same bytes.
#[verifier::external_body]
fn base64_encode(bytes: &[u8]) -> (r: String)
    requires
        encodable(bytes@.len()),
    ensures
        r@ == base64_encoding(bytes@),
        base64_decoding(r@) == bytes_ok(bytes@),
{
    base64::engine::general_purpose::STANDARD.encode(bytes)
}

/// `STANDARD.decode` of the text's bytes; the error is turned into its
/// message.
#[verifier::external_body]
fn base64_decode(text: &str) -> (r: Result<Vec<u8>, String>)
    ensures
        match r {
            Ok(v) => base64_decoding(text@) == bytes_ok(v@),
            Err(m) => base64_decoding(text@) == bytes_err(m@),
        },
{
    match base64::engine::general_purpose::STANDARD.decode(text) {
        Ok(bytes) => Ok(bytes),
        Err(error) => Err(error.to_string()),
    }
}

/// The profile shown to the user.
pub struct NeverloseProfile {
    pub username: String,
    pub expiration_date: i64,
    pub avatar_data_url: String,
}

/// `<csgo>\\nl_cloud\\global_data.json` and `<csgo>\\nl_cloud\\avatar.png`.
pub fn profile_paths(csgo_dir: &str) -> (r: (String, String))
    ensures
        r.0@ == join(join(csgo_dir@, "nl_cloud"@), "global_data.json"@),
        r.1@ == join(join(csgo_dir@, "nl_cloud"@), "avatar.png"@),
{
    let cloud = crate::winpath::join_chars(&chars_of(csgo_dir), &chars_of("nl_cloud"));
    let data = crate::winpath::join_chars(&cloud, &chars_of("global_data.json"));
    let avatar = crate::winpath::join_chars(&cloud, &chars_of("avatar.png"));
    (string_of(&data), string_of(&avatar))
}

pub open spec fn missing_username_message() -> Seq<char> {
    "В global_data.json отсутствует строка username."@
}

pub open spec fn missing_expiration_message() -> Seq<char> {
    "В global_data.json отсутствует число expiration_date."@
}

/// The profile's fields from the document's `username` string and
/// `expiration_date` number; a missing username is reported first.
pub fn profile_fields(username: Option<String>, expiration_date: Option<i64>) -> (r: Result<
    (String, i64),
    String,
>)
    ensures
        match username {
            None => r matches Err(m) && m@ == missing_username_message(),
            Some(u) => match expiration_date {
                None => r matches Err(m) && m@ == missing_expiration_message(),
                Some(e) => r matches Ok(f) && f.0@ == u@ && f.1 == e,
            },
        },
{
    let u = match username {
        Some(u) => u,
        None => {
            return Err(string_of(&chars_of("В global_data.json отсутствует строка username.")));
        },
    };
    match expiration_date {
        Some(e) => Ok((u, e)),
        None => Err(string_of(&chars_of("В global_data.json отсутствует число expiration_date."))),
    }
}

/// The profile's fields as the document holds them: its `username` string
/// and its `expiration_date` integer.
pub open spec fn fields_of(document: JsonValue) -> Result<(Seq<char>, i64), Seq<char>> {
    match as_str(field(document, "username"@)) {
        None => Err(missing_username_message()),
        Some(u) => match as_i64(field(document, "expiration_date"@)) {
            None => Err(missing_expiration_message()),
            Some(e) => Ok((u, e)),
        },
    }
}

/// The username and expiration date the document holds.
pub fn document_fields(document: &JsonValue) -> (r: Result<(String, i64), String>)
    ensures
        match r {
            Ok(f) => fields_of(*document) == Ok::<(Seq<char>, i64), Seq<char>>((f.0@, f.1)),
            Err(m) => fields_of(*document) == Err::<(Seq<char>, i64), Seq<char>>(m@),
        },
{
    let username = string_value(get_field(document, "username"));
    let expiration_date = integer_value(get_field(document, "expiration_date"));
    proof {
        reveal_strlit("username");
        reveal_strlit("expiration_date");
    }
    profile_fields(username, expiration_date)
}

pub open spec fn png_data_url_prefix() -> Seq<char> {
    "data:image/png;base64,"@
}

/// The avatar as a PNG data URL.
pub open spec fn avatar_url(avatar: Seq<u8>) -> Seq<char> {
    png_data_url_prefix() + base64_encoding(avatar)
}

/// The profile for the document's fields and the avatar file's bytes. The
/// avatar URL it shows, sent back to be saved, decodes to these very bytes.
pub fn build_profile(username: String, expiration_date: i64, avatar: &[u8]) -> (r: NeverloseProfile)
    requires
        encodable(avatar@.len()),
    ensures
        r.username@ == username@,
        r.expiration_date == expiration_date,
        r.avatar_data_url@ == avatar_url(avatar@),
        decoded_avatar(r.avatar_data_url@) == Ok::<Seq<u8>, Seq<char>>(avatar@),
{
    let encoded = base64_encode(avatar);
    proof {
        lemma_avatar_round_trip(avatar@);
    }
    let url = concat(&chars_of("data:image/png;base64,"), &chars_of(encoded.as_str()));
    NeverloseProfile { username, expiration_date, avatar_data_url: string_of(&url) }
}

pub open spec fn username_too_long_message() -> Seq<char> {
    "Ник не может быть длиннее 13 символов."@
}

/// A username may have at most `MAX_USERNAME_LENGTH` characters.
pub fn check_username(username: &str) -> (r: Result<(), String>)
    ensures
        r is Ok <==> username@.len() <= MAX_USERNAME_LENGTH,
        r matches Err(m) ==> m@ == username_too_long_message(),
{
    let cs = chars_of(username);
    if cs.len() > MAX_USERNAME_LENGTH {
        return Err(string_of(&chars_of("Ник не может быть длиннее 13 символов.")));
    }
    Ok(())
}

pub open spec fn not_an_object_message() -> Seq<char> {
    "global_data.json должен содержать объект JSON."@
}

/// Sets the document's `username`; fails when the document is not a JSON
/// object, which is then left as it was.
pub fn set_username(document: &mut JsonValue, username: String) -> (r: Result<(), String>)
    ensures
        r is Ok <==> *old(document) is Object,
        r matches Err(m) ==> m@ == not_an_object_message(),
        field_set(*old(document), *final(document), "username"@, JsonValue::Str(username)),
{
    let key = string_of(&chars_of("username"));
    if insert_field(document, key, JsonValue::Str(username)) {
        Ok(())
    } else {
        Err(string_of(&chars_of("global_data.json должен содержать объект JSON.")))
    }
}

/// Sets the document's `expiration_date` to the number serde_json makes of
/// it; fails when the document is not a JSON object, which is then left as
/// it was.
pub fn set_expiration(document: &mut JsonValue, expiration_date: i64) -> (r: Result<(), String>)
    ensures
        r is Ok <==> *old(document) is Object,
        r matches Err(m) ==> m@ == not_an_object_message(),
        field_set(
            *old(document),
            *final(document),
            "expiration_date"@,
            JsonValue::Number(number_spec(expiration_date)),
        ),
{
    let key = string_of(&chars_of("expiration_date"));
    if insert_field(document, key, JsonValue::Number(number_of(expiration_date))) {
        Ok(())
    } else {
        Err(string_of(&chars_of("global_data.json должен содержать объект JSON.")))
    }
}

/// A username saved in an object document is what the profile then shows,
/// with the expiration date it showed before.
pub proof fn lemma_saved_username_is_shown(before: JsonValue, after: JsonValue, username: String)
    requires
        before is Object,
        field_set(before, after, "username"@, JsonValue::Str(username)),
    ensures
        as_str(field(after, "username"@)) == Some(username@),
        as_i64(field(after, "expiration_date"@)) == as_i64(field(before, "expiration_date"@)),
        as_i64(field(before, "expiration_date"@)) matches Some(e) ==> fields_of(after) == Ok::<
            (Seq<char>, i64),
            Seq<char>,
        >((username@, e)),
{
    reveal_strlit("username");
    reveal_strlit("expiration_date");
    assert("username"@.len() != "expiration_date"@.len());
    lemma_field_set_reads_back(before, after, "username"@, JsonValue::Str(username), "expiration_date"@);
}

/// An expiration date saved in an object document is what the profile then
/// shows, with the username it showed before.
pub proof fn lemma_saved_expiration_is_shown(before: JsonValue, after: JsonValue, expiration_date: i64)
    requires
        before is Object,
        field_set(before, after, "expiration_date"@, JsonValue::Number(number_spec(expiration_date))),
    ensures
        as_i64(field(after, "expiration_date"@)) == Some(expiration_date),
        as_str(field(after, "username"@)) == as_str(field(before, "username"@)),
        as_str(field(before, "username"@)) matches Some(u) ==> fields_of(after) == Ok::<
            (Seq<char>, i64),
            Seq<char>,
        >((u, expiration_date)),
{
    reveal_strlit("username");
    reveal_strlit("expiration_date");
    assert("username"@.len() != "expiration_date"@.len());
    lemma_field_set_reads_back(
        before,
        after,
        "expiration_date"@,
        JsonValue::Number(number_spec(expiration_date)),
        "username"@,
    );
}

pub open spec fn not_png_message() -> Seq<char> {
    "Аватар должен быть передан в формате PNG."@
}

/// What an avatar sent as a data URL decodes to: the base64 text after the
/// PNG data URL prefix.
pub open spec fn decoded_avatar(data: Seq<char>) -> Result<Seq<u8>, Seq<char>> {
    if !starts_with(data, png_data_url_prefix()) {
        Err(not_png_message())
    } else {
        match base64_decoding(data.skip(png_data_url_prefix().len() as int)) {
            Ok(bytes) => Ok(bytes),
            Err(e) => Err("Не удалось декодировать аватар: "@ + e),
        }
    }
}

/// The PNG bytes of an avatar sent as a data URL.
pub fn decode_avatar(avatar_data: &str) -> (r: Result<Vec<u8>, String>)
    ensures
        match r {
            Ok(v) => decoded_avatar(avatar_data@) == Ok::<Seq<u8>, Seq<char>>(v@),
            Err(m) => decoded_avatar(avatar_data@) == Err::<Seq<u8>, Seq<char>>(m@),
        },
{
    let data = chars_of(avatar_data);
    let prefix = chars_of("data:image/png;base64,");
    if !has_prefix(&data, &prefix) {
        return Err(string_of(&chars_of("Аватар должен быть передан в формате PNG.")));
    }
    let encoded = slice_of(&data, prefix.len(), data.len());
    let text = string_of(&encoded);
    match base64_decode(text.as_str()) {
        Ok(bytes) => Ok(bytes),
        Err(e) => {
            let m = concat(&chars_of("Не удалось декодировать аватар: "), &chars_of(e.as_str()));
            Err(string_of(&m))
        },
    }
}

proof fn lemma_avatar_round_trip(avatar: Seq<u8>)
    requires
        base64_decoding(base64_encoding(avatar)) == Ok::<Seq<u8>, Seq<char>>(avatar),
    ensures
        decoded_avatar(avatar_url(avatar)) == Ok::<Seq<u8>, Seq<char>>(avatar),
{
    let url = avatar_url(avatar);
    assert(url.take(png_data_url_prefix().len() as int) =~= png_data_url_prefix());
    assert(url.skip(png_data_url_prefix().len() as int) =~= base64_encoding(avatar));
}

} // verus!
