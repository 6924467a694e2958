use daydream_druid::app_state::{view_for_saved_session, AppState, AppView};
use daydream_druid::matrix::login::{homeserver_url, Session};

fn session(user_id: &str) -> Session {
    Session {
        homeserver: "https://matrix.org/".to_string(),
        access_token: "token".to_string(),
        user_id: user_id.to_string(),
        device_id: "DEVICE".to_string(),
    }
}

#[test]
fn homeserver_url_is_normalised() {
    assert_eq!(homeserver_url(&"https://matrix.org".to_string()), Some("https://matrix.org/".to_string()));
    assert_eq!(homeserver_url(&"HTTPS://Example.ORG:443/x".to_string()), Some("https://example.org/x".to_string()));
}

#[test]
fn homeserver_without_scheme_is_refused() {
    assert_eq!(homeserver_url(&"matrix.org".to_string()), None);
    assert_eq!(homeserver_url(&"".to_string()), None);
}

#[test]
fn valid_user_id_is_restored() {
    assert_eq!(session("@alice:matrix.org").restore_user_id(), Some("@alice:matrix.org".to_string()));
}

#[test]
fn invalid_user_id_is_refused() {
    assert_eq!(session("alice").restore_user_id(), None);
    assert_eq!(session("@alice").restore_user_id(), None);
    assert_eq!(session("#room:matrix.org").restore_user_id(), None);
}

#[test]
fn saved_session_opens_main_view() {
    assert_eq!(view_for_saved_session(&Some(session("@a:x.org"))), AppView::MainView);
    assert_eq!(view_for_saved_session(&None), AppView::LoginView);
}

#[test]
fn login_starts_once() {
    let mut state = AppState::new(AppView::LoginView);
    state.homeserver = "https://matrix.org".to_string();
    assert_eq!(state.login_clicked(), Some("https://matrix.org".to_string()));
    assert!(state.login_running);
    assert_eq!(state.login_clicked(), None);
    assert!(state.login_running);
}

#[test]
fn message_box_edits() {
    let mut state = AppState::new(AppView::MainView);
    state.edit_new_message(Some("draft".to_string()));
    assert_eq!(state.new_message, "draft");
    state.edit_new_message(None);
    assert_eq!(state.new_message, "draft");
}

#[test]
fn login_stays_running_after_edits_and_presses() {
    let mut state = AppState::new(AppView::LoginView);
    state.login_clicked();
    state.edit_new_message(Some("a".to_string()));
    state.edit_new_message(None);
    assert_eq!(state.login_clicked(), None);
    assert!(state.login_running);
}
