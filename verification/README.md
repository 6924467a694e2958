# daydream_druid

A Matrix chat client for the desktop. `src/` is the verified library: the
room list and per-room event lists the client keeps (which rooms are shown,
which events are cached, when a refresh replaces them), the event lists
filed by room id, how sync reports change the room list, the login screen's
state, the text a message is shown as, and the checks on a homeserver URL
and a saved user id. `app/` is the window, the screens and the Matrix
client that feed the library and carry out what it decides.
