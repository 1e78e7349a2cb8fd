//! What the terminal frontend waits for.

use crate::tui::app::{App, AppView, Key};
use crate::types::{opt_message, BridgeMessage, BridgeMessageView};
use vstd::prelude::*;

verus! {

/// One thing that happened: a key was pressed, time passed, or the scan
/// sent an event.
#[derive(Debug, Clone)]
pub enum AppEvent {
    Input(Key),
    Tick,
    Bridge(BridgeMessage),
}

/// The model of an `AppEvent`.
pub enum AppEventView {
    Input(Key),
    Tick,
    Bridge(BridgeMessageView),
}

impl View for AppEvent {
    type V = AppEventView;

    open spec fn view(&self) -> AppEventView {
        match self {
            AppEvent::Input(key) => AppEventView::Input(*key),
            AppEvent::Tick => AppEventView::Tick,
            AppEvent::Bridge(msg) => AppEventView::Bridge(msg@),
        }
    }
}

impl AppView {
    /// The command that an event makes the application send, if any: only
    /// a key press can.
    pub open spec fn event_command(self, event: AppEventView) -> Option<BridgeMessageView> {
        match event {
            AppEventView::Input(key) => self.key_command(key),
            _ => None,
        }
    }

    /// Whether `after` is the state that an event leads to: a key press
    /// leads where `after_key` says, an event of the scan where `leads_to`
    /// says, and the passing of time changes nothing.
    pub open spec fn event_leads_to(self, event: AppEventView, after: AppView) -> bool {
        match event {
            AppEventView::Input(key) => after == self.after_key(key),
            AppEventView::Tick => after == self,
            AppEventView::Bridge(msg) => self.leads_to(msg, after),
        }
    }
}

impl App {
    /// Reacts to an event and gives the command to send, if the event calls
    /// for one. A key press goes to `on_key`, an event of the scan to
    /// `on_message`, and the passing of time changes nothing.
    pub fn on_event(&mut self, event: AppEvent) -> (command: Option<BridgeMessage>)
        ensures
            opt_message(command) == old(self)@.event_command(event@),
            old(self)@.event_leads_to(event@, final(self)@),
    {
        match event {
            AppEvent::Input(key) => self.on_key(key),
            AppEvent::Tick => None,
            AppEvent::Bridge(msg) => {
                self.on_message(msg);
                None
            },
        }
    }
}

} // verus!
