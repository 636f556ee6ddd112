//! The token that authorizes requests, and how it is found in the
//! configuration of the editor plugin.

use crate::json::{
    field, json_document, optional_text, optional_view, parse_json, read_optional_text, Json,
    JsonValue,
};
use crate::text::{
    chars_of, drop_blanks, find_char, find_char_from, skip_blanks, string_of, trim_range,
};
use vstd::prelude::*;
use vstd::utf8::encode_utf8;

verus! {

/// Why no token could be read from a configuration.
#[derive(Debug, Clone, Copy, PartialEq, Eq)]
pub enum AuthError {
    /// The configuration is empty.
    EmptyConfig,
    /// The configuration does not have the expected form.
    Malformed,
}

/// The number of characters of a configuration that stand before the name
/// of its first application.
pub open spec fn config_prefix_len() -> int {
    14
}

/// The text of the document that holds the token. A configuration names an
/// application and gives it a document, `{"<host>:<application>":{..}}`.
/// After the first 14 characters the first `:` ends the name; the document
/// is what follows it without the white space around it and without the
/// brace that closes the configuration. A configuration without such a `:`
/// is the document itself. A configuration of less than 14 characters, or
/// with nothing but white space after the `:`, holds none.
pub open spec fn config_document(config: Seq<char>) -> Option<Seq<char>> {
    let colon = find_char(config, ':', config_prefix_len());
    if config.len() < config_prefix_len() {
        None
    } else if colon >= config.len() {
        Some(config)
    } else {
        let start = skip_blanks(config, colon + 1, config.len() as int);
        let end = drop_blanks(config, start, config.len() as int);
        if end <= start {
            None
        } else {
            Some(config.subrange(start, end - 1))
        }
    }
}

/// The token of a document that was read: the document is an object whose
/// `oauth_token` is a text, or is missing or null.
pub open spec fn token_of_document(doc: Option<JsonValue>) -> Result<
    Option<Seq<char>>,
    AuthError,
> {
    match doc {
        Some(json) => if json is Object {
            match optional_text(field(json, "oauth_token"@)) {
                Some(token) => Ok(token),
                None => Err(AuthError::Malformed),
            }
        } else {
            Err(AuthError::Malformed)
        },
        None => Err(AuthError::Malformed),
    }
}

/// The token that a configuration holds.
pub open spec fn token_of_config(config: Seq<char>) -> Result<Option<Seq<char>>, AuthError> {
    if config.len() == 0 {
        Err(AuthError::EmptyConfig)
    } else {
        match config_document(config) {
            Some(text) => token_of_document(json_document(encode_utf8(text))),
            None => Err(AuthError::Malformed),
        }
    }
}

/// The view of a token that was read.
pub open spec fn token_view(r: Result<Option<String>, AuthError>) -> Result<
    Option<Seq<char>>,
    AuthError,
> {
    match r {
        Ok(Some(token)) => Ok(Some(token@)),
        Ok(None) => Ok(None),
        Err(e) => Err(e),
    }
}

/// Cuts the document that holds the token out of a configuration.
pub fn document_of_config(config: &str) -> (r: Option<String>)
    ensures
        match r {
            Some(text) => config_document(config@) == Some(text@),
            None => config_document(config@) is None,
        },
{
    let chars = chars_of(config);
    let n = chars.len();
    if n < 14 {
        return None;
    }
    let colon = find_char_from(&chars, ':', 14);
    if colon >= n {
        let whole = string_of(&chars, 0, n);
        assert(whole@ == config@);
        return Some(whole);
    }
    let (start, end) = trim_range(&chars, colon + 1);
    if end <= start {
        None
    } else {
        Some(string_of(&chars, start, end - 1))
    }
}

/// Reads the token out of the document of a configuration, given what was
/// read of the document (`None` where it is no JSON).
pub fn token_of(doc: &Option<Json>) -> (r: Result<Option<String>, AuthError>)
    ensures
        token_view(r) == token_of_document(optional_view(*doc)),
{
    match doc {
        Some(json) => {
            match json {
                Json::Object(_) => {},
                _ => {
                    return Err(AuthError::Malformed);
                },
            }
            match read_optional_text(json.get("oauth_token")) {
                Some(token) => Ok(token),
                None => Err(AuthError::Malformed),
            }
        },
        None => Err(AuthError::Malformed),
    }
}

/// Holds the token that authorizes requests.
#[derive(Debug, Default)]
pub struct CopilotAuth {
    oauth_token: Option<String>,
}

impl CopilotAuth {
    /// The token, if there is one.
    pub closed spec fn token(&self) -> Option<Seq<char>> {
        match self.oauth_token {
            Some(token) => Some(token@),
            None => None,
        }
    }

    /// Reads the token from the text of a configuration.
    pub fn new(config: &str) -> (r: Result<Self, AuthError>)
        ensures
            match r {
                Ok(auth) => token_of_config(config@) == Ok::<Option<Seq<char>>, AuthError>(
                    auth.token(),
                ),
                Err(e) => token_of_config(config@) == Err::<Option<Seq<char>>, AuthError>(e),
            },
    {
        if config.unicode_len() == 0 {
            return Err(AuthError::EmptyConfig);
        }
        let text = match document_of_config(config) {
            Some(text) => text,
            None => {
                return Err(AuthError::Malformed);
            },
        };
        let doc = parse_json(text.as_str().as_bytes());
        match token_of(&doc) {
            Ok(oauth_token) => Ok(Self { oauth_token }),
            Err(e) => Err(e),
        }
    }

    /// An authorization with the given token.
    pub fn with_token(oauth_token: Option<String>) -> (r: Self)
        ensures
            r.token() == (match oauth_token {
                Some(token) => Some(token@),
                None => None,
            }),
    {
        Self { oauth_token }
    }

    /// The token, if there is one.
    pub fn get_token(&self) -> (r: Option<&str>)
        ensures
            match r {
                Some(token) => self.token() == Some(token@),
                None => self.token() is None,
            },
    {
        match &self.oauth_token {
            Some(token) => Some(token.as_str()),
            None => None,
        }
    }
}

} // verus!
