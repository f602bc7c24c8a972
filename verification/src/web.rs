//! The jukebox's web-facing data and rules: the login forms and
//! templates, the authentication token and its lifetime, and the mapping
//! of each authentication error to the status and message the server
//! answers with. Serving pages, cookies and token signing stay with the
//! web framework; what they carry is decided here.

use vstd::prelude::*;

verus! {

/// How long an issued token lasts, in seconds.
pub const TOKEN_DURATION_SECONDS: u64 = 60;

/// A freshly issued access token, as the server hands it out.
pub struct AuthBody {
    pub access_token: String,
    pub token_type: String,
}

/// Why an authentication attempt was turned away.
#[derive(Debug)]
pub enum AuthError {
    WrongCredentials,
    MissingCredentials,
    TokenCreation,
    InvalidToken,
    TokenExpired,
}

impl AuthError {
    /// The status code and message the server answers with.
    pub fn status_and_message(&self) -> (r: (u16, String))
        ensures
            match self {
                AuthError::WrongCredentials => r.0 == 401 && r.1@ == "Wrong credentials"@,
                AuthError::MissingCredentials => r.0 == 400 && r.1@ == "Missing credentials"@,
                AuthError::TokenCreation => r.0 == 500 && r.1@ == "Token creation error"@,
                AuthError::InvalidToken => r.0 == 400 && r.1@ == "Invalid token"@,
                AuthError::TokenExpired => r.0 == 401 && r.1@ == "Token expired"@,
            },
    {
        match self {
            AuthError::WrongCredentials => (401, String::from_str("Wrong credentials")),
            AuthError::MissingCredentials => (400, String::from_str("Missing credentials")),
            AuthError::TokenCreation => (500, String::from_str("Token creation error")),
            AuthError::InvalidToken => (400, String::from_str("Invalid token")),
            AuthError::TokenExpired => (401, String::from_str("Token expired")),
        }
    }
}

/// The claims of an access token: who it names, and when it expires, in
/// seconds of the epoch.
#[derive(Debug)]
pub struct AuthToken {
    pub username: String,
    pub exp: u64,
}

impl AuthToken {
    /// Issue a token for a user at a moment, lasting the fixed token
    /// lifetime.
    pub fn issue(username: String, now_secs: u64) -> (r: AuthToken)
        requires
            now_secs + TOKEN_DURATION_SECONDS <= u64::MAX,
        ensures
            r.username@ == username@,
            r.exp == now_secs + TOKEN_DURATION_SECONDS,
    {
        AuthToken { username, exp: now_secs + TOKEN_DURATION_SECONDS }
    }

    /// Is this token past its expiry at a moment?
    pub fn is_expired(&self, now_secs: u64) -> (r: bool)
        ensures
            r == (self.exp < now_secs),
    {
        self.exp < now_secs
    }
}

/// A login attempt with either field empty is refused before any
/// password check.
pub fn check_credentials(login: &String, password: &String) -> (r: Option<AuthError>)
    ensures
        match r {
            Some(e) => (login@.len() == 0 || password@.len() == 0) && e matches
                AuthError::MissingCredentials,
            None => login@.len() > 0 && password@.len() > 0,
        },
{
    if login.as_str().is_empty() || password.as_str().is_empty() {
        Some(AuthError::MissingCredentials)
    } else {
        None
    }
}

/// What a search form carries.
#[derive(Debug)]
pub struct SearchForm {
    pub search: String,
}

/// What an add-music form carries: a serialized video summary behind a
/// one-character marker.
#[derive(Debug)]
pub struct AddMusicForm {
    pub video_serialized: String,
}

/// A page template wrapper: what is rendered, carried to the renderer.
pub struct HtmlTemplate<T>(pub T);

/// What the index page shows: the user, the shared playlist, and the
/// summaries the last search found.
pub struct IndexTemplate {
    pub username: String,
    pub playlist: Vec<crate::info::YtVideoPageInfo>,
    pub searched_musics: Vec<crate::info::YtVideoPageInfo>,
}

/// What a login or register page shows.
pub struct LoginTemplate {
    pub page_name: String,
    pub action: String,
    pub other_page: String,
    pub other_page_text: String,
}

/// The login page's template values.
pub fn login_template() -> (r: LoginTemplate)
    ensures
        r.page_name@ == "Login"@,
        r.action@ == "/login"@,
        r.other_page@ == "/register"@,
        r.other_page_text@ == "Or register here"@,
{
    LoginTemplate {
        page_name: String::from_str("Login"),
        action: String::from_str("/login"),
        other_page: String::from_str("/register"),
        other_page_text: String::from_str("Or register here"),
    }
}

/// The register page's template values.
pub fn register_template() -> (r: LoginTemplate)
    ensures
        r.page_name@ == "Register"@,
        r.action@ == "/register"@,
        r.other_page@ == "/login"@,
        r.other_page_text@ == "Or login here"@,
{
    LoginTemplate {
        page_name: String::from_str("Register"),
        action: String::from_str("/register"),
        other_page: String::from_str("/login"),
        other_page_text: String::from_str("Or login here"),
    }
}

} // verus!
