use vstd::prelude::*;

verus! {

/// The body of a registration: the space the new connection starts in.
pub struct RegisterRequest {
    pub space_code: String,
}

/// The answer to a registration: where the new connection opens its socket.
pub struct RegisterResponse {
    pub url: String,
}

/// Why a registration was turned down.
pub struct RegisterError {
    pub message: String,
}

/// The pattern a space code must match: four to six upper-case letters.
pub const SPACE_CODE_PATTERN: &'static str = "^[A-Z]{4,6}$";

/// A digit of lower-case hexadecimal.
pub open spec fn lower_hex(c: char) -> bool {
    ('0' <= c && c <= '9') || ('a' <= c && c <= 'f')
}

/// The shape of a connection identifier: 32 lower-case hexadecimal digits.
pub open spec fn id_shape(id: Seq<char>) -> bool {
    id.len() == 32 && forall|i: int| 0 <= i < id.len() ==> lower_hex(#[trigger] id[i])
}

/// Whether `text` matches the regular expression `pattern`, as the regex crate decides.
pub uninterp spec fn regex_is_match(pattern: Seq<char>, text: Seq<char>) -> bool;

/// Relies on regex::Regex::new, which compiles `pattern` or fails, and on
/// regex::Regex::is_match, which tells whether `text` matches it anywhere.
/// `None` where the pattern does not compile; the space code pattern always compiles.
#[verifier::external_body]
pub(crate) fn regex_match(pattern: &str, text: &str) -> (r: Option<bool>)
    ensures
        r matches Some(b) ==> b == regex_is_match(pattern@, text@),
        pattern@ == SPACE_CODE_PATTERN@ ==> r is Some,
{
    regex::Regex::new(pattern).ok().map(|re| re.is_match(text))
}

/// Relies on uuid::Uuid::new_v4 for a fresh random identifier, and on the `Display` of
/// uuid::fmt::Simple, which writes it as 32 lower-case hexadecimal digits.
#[verifier::external_body]
pub(crate) fn new_client_id() -> (r: String)
    ensures
        r@.len() == 32,
        forall|i: int| 0 <= i < r@.len() ==> lower_hex(#[trigger] r@[i]),
{
    uuid::Uuid::new_v4().simple().to_string()
}

/// Whether a space code is acceptable for a registration.
pub fn valid_space_code(code: &str) -> (r: bool)
    ensures
        r == regex_is_match(SPACE_CODE_PATTERN@, code@),
{
    match regex_match(SPACE_CODE_PATTERN, code) {
        Some(b) => b,
        None => false,
    }
}

/// The socket address handed back for a connection id.
pub open spec fn url_of(id: Seq<char>) -> Seq<char> {
    "ws://0.0.0.0:8000/ws/"@ + id
}

/// Builds the socket address of a connection.
pub fn connection_url(id: &str) -> (r: String)
    ensures
        r@ == url_of(id@),
{
    let mut url = String::from_str("ws://0.0.0.0:8000/ws/");
    url.append(id);
    url
}

} // verus!
