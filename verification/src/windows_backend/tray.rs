//! The tray icon: its menu, and what its commands do.

use vstd::prelude::*;

verus! {

pub const WM_DESTROY: u32 = 2;

pub const WM_COMMAND: u32 = 273;

pub const WM_LBUTTONUP: u32 = 514;

pub const WM_RBUTTONUP: u32 = 517;

/// The message that the tray icon sends.
pub const WM_TRAY: u32 = 32_769;

pub const ID_TOGGLE: usize = 1;

pub const ID_CONFIG: usize = 2;

pub const ID_RELOAD: usize = 3;

pub const ID_EXIT: usize = 4;

/// What a window message asks for.
#[derive(Debug, Clone, Copy, PartialEq, Eq, Structural)]
pub enum WindowAction {
    /// Nothing.
    Nothing,
    /// Show the tray icon's menu.
    ShowMenu,
    /// Switch the effects on or off.
    SetEnabled(bool),
    /// Open the configuration file.
    OpenConfig,
    /// Load the configuration file again.
    RequestReload,
    /// Leave the render loop.
    RequestQuit,
    /// Post the message that ends the message queue.
    PostQuit,
    /// Leave the message to the system.
    Default,
}

/// What a command of the menu does, given whether the effects are on.
pub open spec fn command_of(id: usize, enabled: bool) -> WindowAction {
    if id == ID_TOGGLE {
        WindowAction::SetEnabled(!enabled)
    } else if id == ID_CONFIG {
        WindowAction::OpenConfig
    } else if id == ID_RELOAD {
        WindowAction::RequestReload
    } else if id == ID_EXIT {
        WindowAction::RequestQuit
    } else {
        WindowAction::Nothing
    }
}

/// What a message asks for. The tray icon's event is in the low 32 bits of `lparam`, the id of a
/// command in the low 16 bits of `wparam`.
pub open spec fn action_of(message: u32, wparam: usize, lparam: isize, enabled: bool) -> WindowAction {
    if message == WM_TRAY {
        if lparam as u32 == WM_RBUTTONUP || lparam as u32 == WM_LBUTTONUP {
            WindowAction::ShowMenu
        } else {
            WindowAction::Nothing
        }
    } else if message == WM_COMMAND {
        command_of((wparam % 0x1_0000) as usize, enabled)
    } else if message == WM_DESTROY {
        WindowAction::PostQuit
    } else {
        WindowAction::Default
    }
}

/// Decides about a window message.
pub fn wnd_proc(message: u32, wparam: usize, lparam: isize, enabled: bool) -> (action: WindowAction)
    ensures
        action == action_of(message, wparam, lparam, enabled),
{
    if message == WM_TRAY {
        let event: u32 = #[verifier::truncate] (lparam as u32);
        if event == WM_RBUTTONUP || event == WM_LBUTTONUP {
            WindowAction::ShowMenu
        } else {
            WindowAction::Nothing
        }
    } else if message == WM_COMMAND {
        let id: usize = wparam % 0x1_0000;
        if id == ID_TOGGLE {
            WindowAction::SetEnabled(!enabled)
        } else if id == ID_CONFIG {
            WindowAction::OpenConfig
        } else if id == ID_RELOAD {
            WindowAction::RequestReload
        } else if id == ID_EXIT {
            WindowAction::RequestQuit
        } else {
            WindowAction::Nothing
        }
    } else if message == WM_DESTROY {
        WindowAction::PostQuit
    } else {
        WindowAction::Default
    }
}

/// An entry of the tray icon's menu.
#[derive(Debug, Clone, Copy, PartialEq, Eq)]
pub enum MenuEntry {
    Command { id: usize, label: &'static str, checked: bool },
    Separator,
}

impl MenuEntry {
    /// The entry is the command with that id, label and check mark.
    pub open spec fn is_command(self, id: usize, label: Seq<char>, checked: bool) -> bool {
        self matches MenuEntry::Command { id: i, label: l, checked: c } && i == id && l@ == label
            && c == checked
    }
}

/// The entries of the menu, from top to bottom. The first one has a check mark while the effects
/// are on.
pub fn show_menu(enabled: bool) -> (entries: Vec<MenuEntry>)
    ensures
        entries@.len() == 5,
        entries@[0].is_command(ID_TOGGLE, "Effects enabled"@, enabled),
        entries@[1].is_command(ID_CONFIG, "Open config file"@, false),
        entries@[2].is_command(ID_RELOAD, "Reload config"@, false),
        entries@[3] is Separator,
        entries@[4].is_command(ID_EXIT, "Exit"@, false),
        forall|i: int|
            0 <= i < 5 ==> (#[trigger] entries@[i] matches MenuEntry::Command { id, .. }
                ==> command_of(id, enabled) != WindowAction::Nothing),
{
    let mut entries: Vec<MenuEntry> = Vec::new();
    entries.push(
        MenuEntry::Command { id: ID_TOGGLE, label: "Effects enabled", checked: enabled },
    );
    entries.push(MenuEntry::Command { id: ID_CONFIG, label: "Open config file", checked: false });
    entries.push(MenuEntry::Command { id: ID_RELOAD, label: "Reload config", checked: false });
    entries.push(MenuEntry::Separator);
    entries.push(MenuEntry::Command { id: ID_EXIT, label: "Exit", checked: false });
    entries
}

/// Choosing the first entry twice leaves the effects as they were.
pub proof fn toggling_twice_changes_nothing(enabled: bool)
    ensures
        command_of(ID_TOGGLE, enabled) matches WindowAction::SetEnabled(now) && command_of(
            ID_TOGGLE,
            now,
        ) == WindowAction::SetEnabled(enabled),
{
}

/// Releasing the right or the left button on the tray icon shows the menu, whether the effects are
/// on or off; no other event of the icon does anything.
pub proof fn a_click_on_the_icon_shows_the_menu(wparam: usize, lparam: isize, enabled: bool)
    ensures
        lparam as u32 == WM_RBUTTONUP || lparam as u32 == WM_LBUTTONUP ==> action_of(
            WM_TRAY,
            wparam,
            lparam,
            enabled,
        ) == WindowAction::ShowMenu,
        !(lparam as u32 == WM_RBUTTONUP || lparam as u32 == WM_LBUTTONUP) ==> action_of(
            WM_TRAY,
            wparam,
            lparam,
            enabled,
        ) == WindowAction::Nothing,
        action_of(WM_TRAY, wparam, 0x205, enabled) == WindowAction::ShowMenu,
        action_of(WM_TRAY, wparam, 0x202, enabled) == WindowAction::ShowMenu,
{
}

/// A command does what its entry of the menu says, whatever stands above its 16 bits. Any other
/// command does nothing.
pub proof fn a_command_does_what_its_entry_says(wparam: usize, lparam: isize, enabled: bool)
    ensures
        ({
            let action = action_of(WM_COMMAND, wparam, lparam, enabled);
            let id = wparam as int % 0x1_0000;
            &&& id == ID_TOGGLE ==> action == WindowAction::SetEnabled(!enabled)
            &&& id == ID_CONFIG ==> action == WindowAction::OpenConfig
            &&& id == ID_RELOAD ==> action == WindowAction::RequestReload
            &&& id == ID_EXIT ==> action == WindowAction::RequestQuit
            &&& id != ID_TOGGLE && id != ID_CONFIG && id != ID_RELOAD && id != ID_EXIT ==> action
                == WindowAction::Nothing
        }),
{
}

/// A window that is destroyed ends the message queue, and every message that is neither the icon's
/// nor a command is left to the system, whatever it carries.
pub proof fn other_messages_are_left_to_the_system(
    message: u32,
    wparam: usize,
    lparam: isize,
    enabled: bool,
)
    requires
        message != WM_TRAY,
        message != WM_COMMAND,
    ensures
        message == WM_DESTROY ==> action_of(message, wparam, lparam, enabled)
            == WindowAction::PostQuit,
        message != WM_DESTROY ==> action_of(message, wparam, lparam, enabled)
            == WindowAction::Default,
{
}

/// Whether the effects are on matters only to the command that switches them.
pub proof fn switching_off_leaves_every_other_action(message: u32, wparam: usize, lparam: isize)
    requires
        !(message == WM_COMMAND && wparam as int % 0x1_0000 == ID_TOGGLE),
    ensures
        action_of(message, wparam, lparam, true) == action_of(message, wparam, lparam, false),
{
}

} // verus!
