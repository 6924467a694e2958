use vstd::prelude::*;

use crate::matrix::login::Session;

verus! {

/// The screen the client shows.
#[derive(Clone, Copy, PartialEq, Eq, Debug)]
pub enum AppView {
    LoginView,
    MainView,
}

/// The screen the client opens on: the main view where a session was saved,
/// the login view where none was.
pub fn view_for_saved_session(saved: &Option<Session>) -> (view: AppView)
    ensures
        view == (if saved is Some {
            AppView::MainView
        } else {
            AppView::LoginView
        }),
{
    match saved {
        Some(_) => AppView::MainView,
        None => AppView::LoginView,
    }
}

/// What the client's screens show and edit, besides the widgets' own
/// list state.
pub struct AppState {
    pub homeserver: String,
    pub mxid: String,
    pub password: String,
    pub access_token: Option<String>,
    pub login_running: bool,
    pub current_view: AppView,
    pub new_message: String,
    pub current_room: String,
}

/// The state after the login button is pressed: a login is running.
pub open spec fn state_after_login_click(state: AppState) -> AppState {
    AppState { login_running: true, ..state }
}

/// The state after the message box is edited: its new text, where there is
/// one, is the message being written.
pub open spec fn state_after_message_edit(state: AppState, edited: Option<String>) -> AppState {
    match edited {
        Some(text) => AppState { new_message: text, ..state },
        None => state,
    }
}

/// What the user does on the screens that changes the state.
pub enum ScreenInput {
    /// The login button was pressed.
    LoginClick,
    /// The message box was edited, to the text given where there is one.
    MessageEdit(Option<String>),
}

/// The state after the screens took `inputs`, in order.
pub open spec fn state_after_inputs(state: AppState, inputs: Seq<ScreenInput>) -> AppState
    decreases inputs.len(),
{
    if inputs.len() == 0 {
        state
    } else {
        let before = state_after_inputs(state, inputs.drop_last());
        match inputs.last() {
            ScreenInput::LoginClick => state_after_login_click(before),
            ScreenInput::MessageEdit(edited) => state_after_message_edit(before, edited),
        }
    }
}

/// Once a login is running it stays running, whatever the screens take
/// next: nothing on them ends it.
pub proof fn lemma_login_stays_running(state: AppState, inputs: Seq<ScreenInput>)
    requires
        state.login_running,
    ensures
        state_after_inputs(state, inputs).login_running,
    decreases inputs.len(),
{
    if inputs.len() > 0 {
        lemma_login_stays_running(state, inputs.drop_last());
    }
}

impl AppState {
    /// A blank state that shows `current_view`.
    pub fn new(current_view: AppView) -> (state: Self)
        ensures
            state.homeserver@ == Seq::<char>::empty(),
            state.mxid@ == Seq::<char>::empty(),
            state.password@ == Seq::<char>::empty(),
            state.access_token is None,
            !state.login_running,
            state.current_view == current_view,
            state.new_message@ == Seq::<char>::empty(),
            state.current_room@ == Seq::<char>::empty(),
    {
        AppState {
            homeserver: String::new(),
            mxid: String::new(),
            password: String::new(),
            access_token: None,
            login_running: false,
            current_view,
            new_message: String::new(),
            current_room: String::new(),
        }
    }

    /// The login button was pressed. Where no login is running, one starts,
    /// and the homeserver to create the client for is handed back; while a
    /// login runs the button is not shown, so nothing happens.
    pub fn login_clicked(&mut self) -> (homeserver: Option<String>)
        ensures
            homeserver is Some <==> !old(self).login_running,
            homeserver matches Some(h) ==> h@ == old(self).homeserver@,
            final(self).login_running,
            *final(self) == state_after_login_click(*old(self)),
            final(self).homeserver == old(self).homeserver,
            final(self).mxid == old(self).mxid,
            final(self).password == old(self).password,
            final(self).access_token == old(self).access_token,
            final(self).current_view == old(self).current_view,
            final(self).new_message == old(self).new_message,
            final(self).current_room == old(self).current_room,
    {
        if self.login_running {
            None
        } else {
            self.login_running = true;
            Some(self.homeserver.clone())
        }
    }

    /// The message box was edited: its new text, where there is one,
    /// becomes the message being written.
    pub fn edit_new_message(&mut self, edited: Option<String>)
        ensures
            edited matches Some(t) ==> final(self).new_message == t,
            edited is None ==> final(self).new_message == old(self).new_message,
            *final(self) == state_after_message_edit(*old(self), edited),
            final(self).homeserver == old(self).homeserver,
            final(self).mxid == old(self).mxid,
            final(self).password == old(self).password,
            final(self).access_token == old(self).access_token,
            final(self).login_running == old(self).login_running,
            final(self).current_view == old(self).current_view,
            final(self).current_room == old(self).current_room,
    {
        if let Some(text) = edited {
            self.new_message = text;
        }
    }
}

} // verus!
