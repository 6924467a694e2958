use vstd::prelude::*;

verus! {

/// A login to a homeserver, as the client keeps it between runs.
#[derive(Clone, Debug)]
pub struct Session {
    /// The homeserver used for this session.
    pub homeserver: String,
    /// The access token used for this session.
    pub access_token: String,
    /// The user the access token was issued for.
    pub user_id: String,
    /// The ID of the client device
    pub device_id: String,
}

/// What `url::Url::parse` makes of `input`: the serialization of the URL it
/// parses, or `None` where it refuses the input.
pub uninterp spec fn url_serialization(input: Seq<char>) -> Option<Seq<char>>;

/// Whether `ruma_identifiers::UserId::try_from` (re-exported by
/// `matrix_sdk::identifiers`) accepts `input` as a Matrix user id.
pub uninterp spec fn is_matrix_user_id(input: Seq<char>) -> bool;

/// Calls `url::Url::parse` on `input` and hands back the parsed URL's
/// serialization (`String::from(Url)`). Claimed: the result is what
/// `url_serialization` names for the input; nothing is claimed of its form.
#[verifier::external_body]
fn parse_url(input: &str) -> (serialized: Option<String>)
    ensures
        serialized is None <==> url_serialization(input@) is None,
        serialized matches Some(s) ==> url_serialization(input@) == Some(s@),
{
    url::Url::parse(input).ok().map(String::from)
}

/// Calls `matrix_sdk::identifiers::UserId::try_from` on `input` and hands
/// back the accepted id as a string (`String::from(UserId)`). Claimed: it
/// succeeds exactly where `is_matrix_user_id` holds, and the id it builds
/// keeps the input text whole (its `full_id` is the input).
#[verifier::external_body]
fn parse_user_id(input: &str) -> (user_id: Option<String>)
    ensures
        user_id is Some <==> is_matrix_user_id(input@),
        user_id matches Some(id) ==> id@ == input@,
{
    matrix_sdk::identifiers::UserId::try_from(input).ok().map(String::from)
}

/// The URL of a homeserver that the user typed, as the client connects to
/// it: the serialization of the parsed URL, or `None` where the text is no
/// URL.
pub fn homeserver_url(homeserver: &String) -> (url: Option<String>)
    ensures
        url is None <==> url_serialization(homeserver@) is None,
        url matches Some(u) ==> url_serialization(homeserver@) == Some(u@),
{
    parse_url(homeserver.as_str())
}

impl Session {
    /// The user id under which the session is restored, where it is a valid
    /// Matrix user id.
    pub fn restore_user_id(&self) -> (user_id: Option<String>)
        ensures
            user_id is Some <==> is_matrix_user_id(self.user_id@),
            user_id matches Some(id) ==> id@ == self.user_id@,
    {
        parse_user_id(self.user_id.as_str())
    }
}

} // verus!
