//! Data model of the client: the session specification the token generators
//! consume, and the UI-configuration objects of the remote API.
pub mod session;
pub mod uiconf;
