//! Commands sent from the tray, the hotkey listener and the overlay window to
//! the overlay's event loop.

use crate::matchers::Rect;
use crate::overlay::draw_list::OverlayMode;
use vstd::prelude::*;

verus! {

/// Something the overlay's event loop is asked to do.
#[derive(Debug, Clone)]
pub enum AppCommand {
    SetOverlayMode(OverlayMode),
    ToggleOverlayMode(OverlayMode),
    ToggleDebugMode,
    ToggleNgPlusMode,
    RequestRedetect,
    DumpTemplates,
    Exit,
    SaveMarkedSlots,
    ClearMarkedSlots,
    AddMarkedSlot(Rect),
    RemoveLastMarkedSlot,
    UpdateCurrentDrag(Option<(u32, u32, u32, u32)>),
    UpdateSearchQuery(String),
}

#[verifier::external_type_specification]
#[verifier::external_body]
#[verifier::reject_recursive_types(T)]
pub struct ExSender<T>(std::sync::mpsc::Sender<T>);

#[verifier::external_type_specification]
#[verifier::external_body]
#[verifier::reject_recursive_types(T)]
pub struct ExReceiver<T>(std::sync::mpsc::Receiver<T>);

/// Calls `std::sync::mpsc::Sender::send`, dropping the error it gives when
/// the receiving end is gone. Nothing is stated of the channel.
#[verifier::external_body]
fn sender_send(sender: &std::sync::mpsc::Sender<AppCommand>, cmd: AppCommand) {
    let _ = sender.send(cmd);
}

/// Calls `Sender::clone`: another handle to the same channel. Nothing is
/// stated of the channel.
#[verifier::external_body]
fn sender_clone(sender: &std::sync::mpsc::Sender<AppCommand>) -> std::sync::mpsc::Sender<AppCommand> {
    sender.clone()
}

/// The sending end of the command channel.
pub struct CommandBus {
    sender: std::sync::mpsc::Sender<AppCommand>,
}

impl CommandBus {
    /// The channel the bus sends on.
    pub closed spec fn sender(&self) -> std::sync::mpsc::Sender<AppCommand> {
        self.sender
    }

    pub fn new(sender: std::sync::mpsc::Sender<AppCommand>) -> (b: Self)
        ensures
            b.sender() == sender,
    {
        CommandBus { sender }
    }

    /// Queues `cmd`; a command sent after the receiver is gone is dropped.
    pub fn send(&self, cmd: AppCommand) {
        sender_send(&self.sender, cmd)
    }

    pub fn clone_sender(&self) -> std::sync::mpsc::Sender<AppCommand> {
        sender_clone(&self.sender)
    }
}

/// Calls `std::sync::mpsc::channel`: a new unbounded channel for commands.
/// Nothing is stated of it.
#[verifier::external_body]
pub fn create_command_bus() -> (std::sync::mpsc::Sender<AppCommand>, std::sync::mpsc::Receiver<
    AppCommand,
>) {
    std::sync::mpsc::channel()
}

} // verus!
