use jukebox::playlist::{playlist_add, playlist_move, playlist_next, playlist_remove, Video};
use jukebox::web::{
    check_credentials, login_template, register_template, AuthError, AuthToken,
    TOKEN_DURATION_SECONDS,
};
use jukebox::info::ErrorExtractor;

fn video(id: &str, title: &str) -> Video {
    Video {
        id: id.to_string(),
        title: title.to_string(),
        thumbnail: format!("https://i.example/{}.jpg", id),
        author: "Channel".to_string(),
        duration: "3:32".to_string(),
    }
}

#[test]
fn add_appends_in_order() {
    let mut list = Vec::new();
    playlist_add(&mut list, video("aaaaaaaaaaa", "One"));
    playlist_add(&mut list, video("bbbbbbbbbbb", "Two"));
    assert_eq!(list.len(), 2);
    assert_eq!(list[0].title, "One");
    assert_eq!(list[1].title, "Two");
}

#[test]
fn remove_checks_the_id_at_the_index() {
    let mut list = vec![video("aaaaaaaaaaa", "One"), video("bbbbbbbbbbb", "Two")];
    assert!(!playlist_remove(&mut list, 0, &"bbbbbbbbbbb".to_string()));
    assert_eq!(list.len(), 2);
    assert!(playlist_remove(&mut list, 0, &"aaaaaaaaaaa".to_string()));
    assert_eq!(list.len(), 1);
    assert_eq!(list[0].title, "Two");
    assert!(!playlist_remove(&mut list, 5, &"bbbbbbbbbbb".to_string()));
}

#[test]
fn moves_exchange_with_the_target() {
    let mut list = vec![
        video("aaaaaaaaaaa", "One"),
        video("bbbbbbbbbbb", "Two"),
        video("ccccccccccc", "Three"),
    ];
    assert!(playlist_move(&mut list, 0, &"aaaaaaaaaaa".to_string(), 2));
    assert_eq!(list[0].title, "Three");
    assert_eq!(list[2].title, "One");
    assert!(playlist_move(&mut list, 2, &"aaaaaaaaaaa".to_string(), -1));
    assert_eq!(list[1].title, "One");
    assert_eq!(list[2].title, "Two");
}

#[test]
fn out_of_range_moves_change_nothing() {
    let mut list = vec![video("aaaaaaaaaaa", "One"), video("bbbbbbbbbbb", "Two")];
    assert!(!playlist_move(&mut list, 0, &"aaaaaaaaaaa".to_string(), -1));
    assert!(!playlist_move(&mut list, 1, &"bbbbbbbbbbb".to_string(), 1));
    assert!(!playlist_move(&mut list, 0, &"wrong-id-aa".to_string(), 1));
    assert_eq!(list[0].title, "One");
    assert_eq!(list[1].title, "Two");
}

#[test]
fn next_drops_the_head_of_a_non_empty_playlist() {
    let mut list = vec![video("aaaaaaaaaaa", "One"), video("bbbbbbbbbbb", "Two")];
    assert!(playlist_next(&mut list));
    assert_eq!(list.len(), 1);
    assert_eq!(list[0].title, "Two");
    assert!(playlist_next(&mut list));
    assert!(!playlist_next(&mut list));
    assert!(list.is_empty());
}

#[test]
fn auth_errors_map_to_status_and_message() {
    assert_eq!(
        AuthError::WrongCredentials.status_and_message(),
        (401, "Wrong credentials".to_string())
    );
    assert_eq!(
        AuthError::MissingCredentials.status_and_message(),
        (400, "Missing credentials".to_string())
    );
    assert_eq!(
        AuthError::TokenCreation.status_and_message(),
        (500, "Token creation error".to_string())
    );
    assert_eq!(
        AuthError::InvalidToken.status_and_message(),
        (400, "Invalid token".to_string())
    );
    assert_eq!(
        AuthError::TokenExpired.status_and_message(),
        (401, "Token expired".to_string())
    );
}

#[test]
fn tokens_last_the_fixed_duration() {
    let t = AuthToken::issue("alice".to_string(), 1000);
    assert_eq!(t.username, "alice");
    assert_eq!(t.exp, 1000 + TOKEN_DURATION_SECONDS);
    assert!(!t.is_expired(1000 + TOKEN_DURATION_SECONDS));
    assert!(t.is_expired(1001 + TOKEN_DURATION_SECONDS));
}

#[test]
fn empty_credentials_are_refused_before_any_check() {
    assert!(check_credentials(&"".to_string(), &"pw".to_string()).is_some());
    assert!(check_credentials(&"user".to_string(), &"".to_string()).is_some());
    assert!(check_credentials(&"user".to_string(), &"pw".to_string()).is_none());
}

#[test]
fn the_login_and_register_pages_point_at_each_other() {
    let l = login_template();
    assert_eq!(l.page_name, "Login");
    assert_eq!(l.action, "/login");
    assert_eq!(l.other_page, "/register");
    assert_eq!(l.other_page_text, "Or register here");
    let r = register_template();
    assert_eq!(r.page_name, "Register");
    assert_eq!(r.action, "/register");
    assert_eq!(r.other_page, "/login");
    assert_eq!(r.other_page_text, "Or login here");
}

#[test]
fn extractor_errors_carry_their_message() {
    let e = ErrorExtractor::ErrorParsing("Missing 'contents'".to_string());
    assert_eq!(e.message(), "Error parsing : Missing 'contents'");
    assert_eq!(ErrorExtractor::ErrorReqwest.message(), "Error with the reqwest");
    let e = ErrorExtractor::CipherExtractionFailed("no match".to_string());
    assert_eq!(e.message(), "Error extracting the cipher : no match");
}
