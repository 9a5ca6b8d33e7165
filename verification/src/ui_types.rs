//! The client's user-interface vocabulary: which interface runs, which
//! screen is shown, which menu button was pressed, and where errors come
//! from.
use vstd::prelude::*;

verus! {

/// Where an error came from.
#[derive(Copy, Clone, Debug, PartialEq, Eq, Structural)]
pub enum ErrorSource {
    UI,
    Network,
    Other,
    Unknown,
}

/// The pages of the interface.
#[derive(Copy, Clone, PartialEq, Eq, Structural)]
pub enum UiType {
    Menu,
    Accounts,
    ServerList,
}

/// The buttons of the main menu.
#[derive(Copy, Clone, Debug, PartialEq, Eq, Structural)]
pub enum MenuMessage {
    ServerListPressed,
    AccountsPressed,
    SettingsPressed,
}

/// The interface implementations.
#[derive(Copy, Clone, PartialEq, Eq, Structural)]
pub enum UiImpl {
    Wgpu,
    Iced,
}

/// The kinds of screen.
pub enum ScreenType {
    Other(String),
    Chat,
    InGame,
}

/// Opens the main menu. The menu has no state to set up, so nothing
/// happens.
pub fn start() {
}

} // verus!
