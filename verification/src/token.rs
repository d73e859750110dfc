//! The OAuth credential bundle of a storage, read from the JSON object that the
//! registry keeps in a block's `token` field.

use vstd::prelude::*;

verus! {

/// `serde_json::Value`, a JSON document. Nothing of its inside is known
/// here; what is read from it is named by `json_strings`.
#[verifier::external_type_specification]
#[verifier::external_body]
pub struct ExJsonValue(serde_json::Value);

/// `serde_json::Error`, why a text is no JSON document. It is carried
/// through and never looked into.
#[verifier::external_type_specification]
#[verifier::external_body]
pub struct ExJsonError(serde_json::Error);

/// `chrono::ParseError`, why a text is no timestamp. It is carried through
/// and never looked into.
#[verifier::external_type_specification]
#[verifier::external_body]
pub struct ExTimeParseError(chrono::ParseError);

/// The members of a JSON value that are strings, by key. Empty for a value
/// that is not an object.
pub uninterp spec fn json_strings(v: serde_json::Value) -> Map<Seq<char>, Seq<char>>;

/// What `serde_json::from_str` makes of a text: `None` where it is no JSON
/// document, else the string members of the value it denotes.
pub uninterp spec fn json_document(text: Seq<char>) -> Option<Map<Seq<char>, Seq<char>>>;

/// What `chrono::DateTime::parse_from_rfc3339` makes of a text: `None` where it
/// is no RFC 3339 timestamp, else the seconds since the Unix epoch, the
/// nanoseconds within that second and the offset from UTC in seconds.
pub uninterp spec fn rfc3339_instant(text: Seq<char>) -> Option<(i64, u32, i32)>;

/// Calls `serde_json::from_str` for a `serde_json::Value`. The contract only
/// names the outcome: the same text always gives the same document, and an
/// error exactly where the text denotes none.
#[verifier::external_body]
fn json_parse(text: &str) -> (r: Result<serde_json::Value, serde_json::Error>)
    ensures
        match r {
            Ok(v) => json_document(text@) == Some(json_strings(v)),
            Err(_) => json_document(text@) is None,
        },
{
    serde_json::from_str::<serde_json::Value>(text)
}

/// Calls `serde_json::Value::get` with a string key and `Value::as_str` on what
/// it finds: the member of that name, where `v` is an object that has one and
/// the member is a string.
#[verifier::external_body]
fn json_text(v: &serde_json::Value, key: &str) -> (r: Option<String>)
    ensures
        match r {
            Some(s) => json_strings(*v).contains_key(key@) && json_strings(*v)[key@] == s@,
            None => !json_strings(*v).contains_key(key@),
        },
{
    v.get(key).and_then(|member| member.as_str()).map(|s| s.to_owned())
}

/// Calls `chrono::DateTime::parse_from_rfc3339` and reads the instant off the
/// result with `timestamp`, `timestamp_subsec_nanos` and
/// `offset().local_minus_utc()`. The contract only names the outcome.
#[verifier::external_body]
fn parse_rfc3339(text: &str) -> (r: Result<(i64, u32, i32), chrono::ParseError>)
    ensures
        match r {
            Ok(t) => rfc3339_instant(text@) == Some(t),
            Err(_) => rfc3339_instant(text@) is None,
        },
{
    match chrono::DateTime::parse_from_rfc3339(text) {
        Ok(dt) => Ok((dt.timestamp(), dt.timestamp_subsec_nanos(), dt.offset().local_minus_utc())),
        Err(e) => Err(e),
    }
}

/// An absolute point in time with the UTC offset it was written with.
#[derive(Clone, Copy, Debug, PartialEq, Eq, Structural)]
pub struct Expiry {
    /// Seconds since 1970-01-01T00:00:00Z.
    pub timestamp: i64,
    /// Nanoseconds within the second.
    pub nanos: u32,
    /// Local time minus UTC, in seconds.
    pub offset_seconds: i32,
}

/// Why a token text was refused.
#[derive(Clone, Copy, Debug, PartialEq, Eq, Structural)]
pub enum TokenError {
    /// The text is not a JSON document.
    InvalidJson,
    /// The document has no `expiry` string, or it is not an RFC 3339 timestamp.
    InvalidExpiry,
}

/// The credential bundle of one storage.
#[derive(Debug, Clone, PartialEq, Eq)]
pub struct TokenStruct {
    raw: String,
    access_token: String,
    token_type: String,
    refresh_token: String,
    expiry: Expiry,
}

/// A token as plain values.
pub struct TokenModel {
    pub raw: Seq<char>,
    pub access_token: Seq<char>,
    pub token_type: Seq<char>,
    pub refresh_token: Seq<char>,
    pub expiry: Expiry,
}

/// The member `key` of a document, or the empty text where it has none.
pub open spec fn member_or_empty(members: Map<Seq<char>, Seq<char>>, key: Seq<char>) -> Seq<
    char,
> {
    if members.contains_key(key) {
        members[key]
    } else {
        Seq::empty()
    }
}

/// The token that a text denotes. The text must be a JSON document whose
/// `expiry` member is an RFC 3339 timestamp; the other three members default
/// to the empty text.
pub open spec fn token_of_text(raw: Seq<char>) -> Result<TokenModel, TokenError> {
    match json_document(raw) {
        None => Err(TokenError::InvalidJson),
        Some(members) => if !members.contains_key("expiry"@) {
            Err(TokenError::InvalidExpiry)
        } else {
            match rfc3339_instant(members["expiry"@]) {
                None => Err(TokenError::InvalidExpiry),
                Some(t) => Ok(
                    TokenModel {
                        raw,
                        access_token: member_or_empty(members, "access_token"@),
                        token_type: member_or_empty(members, "token_type"@),
                        refresh_token: member_or_empty(members, "refresh_token"@),
                        expiry: Expiry { timestamp: t.0, nanos: t.1, offset_seconds: t.2 },
                    },
                ),
            }
        },
    }
}

impl View for TokenStruct {
    type V = TokenModel;

    closed spec fn view(&self) -> TokenModel {
        TokenModel {
            raw: self.raw@,
            access_token: self.access_token@,
            token_type: self.token_type@,
            refresh_token: self.refresh_token@,
            expiry: self.expiry,
        }
    }
}

fn text_or_empty(found: Option<String>) -> (out: String)
    ensures
        out@ == match found {
            Some(s) => s@,
            None => Seq::<char>::empty(),
        },
{
    match found {
        Some(s) => s,
        None => String::new(),
    }
}

impl TokenStruct {
    /// The token is what its own text denotes.
    pub open spec fn wf(&self) -> bool {
        token_of_text(self@.raw) == Ok::<TokenModel, TokenError>(self@)
    }

    /// The token with the given text, members and expiry. A member that is
    /// missing is the empty text. Nothing ties the members to the text here:
    /// `parse` is what reads them from it.
    pub fn from_members(
        raw: String,
        access_token: Option<String>,
        token_type: Option<String>,
        refresh_token: Option<String>,
        instant: (i64, u32, i32),
    ) -> (t: TokenStruct)
        ensures
            t@ == (TokenModel {
                raw: raw@,
                access_token: match access_token {
                    Some(s) => s@,
                    None => Seq::<char>::empty(),
                },
                token_type: match token_type {
                    Some(s) => s@,
                    None => Seq::<char>::empty(),
                },
                refresh_token: match refresh_token {
                    Some(s) => s@,
                    None => Seq::<char>::empty(),
                },
                expiry: Expiry {
                    timestamp: instant.0,
                    nanos: instant.1,
                    offset_seconds: instant.2,
                },
            }),
    {
        TokenStruct {
            raw,
            access_token: text_or_empty(access_token),
            token_type: text_or_empty(token_type),
            refresh_token: text_or_empty(refresh_token),
            expiry: Expiry { timestamp: instant.0, nanos: instant.1, offset_seconds: instant.2 },
        }
    }

    /// Reads a token from the JSON text of a `token` field.
    pub fn parse(raw: &str) -> (r: Result<TokenStruct, TokenError>)
        ensures
            match r {
                Ok(t) => token_of_text(raw@) == Ok::<TokenModel, TokenError>(t@) && t.wf(),
                Err(e) => token_of_text(raw@) == Err::<TokenModel, TokenError>(e),
            },
    {
        match json_parse(raw) {
            Err(_) => Err(TokenError::InvalidJson),
            Ok(v) => match json_text(&v, "expiry") {
                None => Err(TokenError::InvalidExpiry),
                Some(when) => match parse_rfc3339(when.as_str()) {
                    Err(_) => Err(TokenError::InvalidExpiry),
                    Ok(instant) => Ok(
                        TokenStruct::from_members(
                            raw.to_owned(),
                            json_text(&v, "access_token"),
                            json_text(&v, "token_type"),
                            json_text(&v, "refresh_token"),
                            instant,
                        ),
                    ),
                },
            },
        }
    }

    /// The JSON text that the token was read from.
    pub fn raw(&self) -> (r: &String)
        ensures
            r@ == self@.raw,
    {
        &self.raw
    }

    /// The opaque access token.
    pub fn access_token(&self) -> (r: &String)
        ensures
            r@ == self@.access_token,
    {
        &self.access_token
    }

    /// The opaque refresh token.
    pub fn refresh_token(&self) -> (r: &String)
        ensures
            r@ == self@.refresh_token,
    {
        &self.refresh_token
    }

    /// A copy of the token.
    pub fn duplicate(&self) -> (r: TokenStruct)
        ensures
            r@ == self@,
    {
        TokenStruct {
            raw: self.raw.clone(),
            access_token: self.access_token.clone(),
            token_type: self.token_type.clone(),
            refresh_token: self.refresh_token.clone(),
            expiry: self.expiry,
        }
    }

    /// The kind of token, `Bearer` as a rule.
    pub fn token_type(&self) -> (r: &String)
        ensures
            r@ == self@.token_type,
    {
        &self.token_type
    }

    /// When the access token expires.
    pub fn expiry(&self) -> (r: Expiry)
        ensures
            r == self@.expiry,
    {
        self.expiry
    }
}

} // verus!
