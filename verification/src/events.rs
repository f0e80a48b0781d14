//! What the listeners on a shared document do with each event the document
//! reports: the server's listener on a freshly uploaded video, and the
//! client's listener on an imported ticket.

use vstd::prelude::*;

verus! {

/// An event reported by a shared document, as far as the listeners tell
/// events apart.
#[derive(Debug, Clone, Copy, PartialEq, Eq, Structural)]
pub enum DocEvent {
    /// A peer inserted an entry; `content_complete` when its content is
    /// already complete locally.
    InsertRemote { content_complete: bool },
    /// The content of an entry became available locally.
    ContentReady,
    /// All content that was pending became available.
    PendingContentReady,
    /// A synchronisation with a peer finished.
    SyncFinished,
    /// Any other event.
    Other,
}

/// What a listener does with an event.
#[derive(Debug, Clone, Copy, PartialEq, Eq, Structural)]
pub enum ListenerAction {
    /// Nothing.
    Ignore,
    /// Report the key of the inserted entry.
    ReportInsert,
    /// Load the new content as an access list and report it; with
    /// `record_time`, also append the elapsed time to the update log.
    LoadAccessList { record_time: bool },
    /// Report that pending content is ready.
    ReportPendingContent,
    /// Report the finished synchronisation.
    ReportSyncFinished,
}

/// The server's reaction to an event of the document of an upload: report
/// remote insertions whose content is complete, and on new content load the
/// access list and log how long the update took.
pub fn upload_listener_action(event: DocEvent) -> (a: ListenerAction)
    ensures
        a == match event {
            DocEvent::InsertRemote { content_complete: true } => ListenerAction::ReportInsert,
            DocEvent::ContentReady => ListenerAction::LoadAccessList { record_time: true },
            _ => ListenerAction::Ignore,
        },
{
    match event {
        DocEvent::InsertRemote { content_complete } => {
            if content_complete {
                ListenerAction::ReportInsert
            } else {
                ListenerAction::Ignore
            }
        },
        DocEvent::ContentReady => ListenerAction::LoadAccessList { record_time: true },
        _ => ListenerAction::Ignore,
    }
}

/// The client's reaction to an event of a document it imported: report every
/// remote insertion, load new content as an access list, and report pending
/// content and finished synchronisations.
pub fn ticket_listener_action(event: DocEvent) -> (a: ListenerAction)
    ensures
        a == match event {
            DocEvent::InsertRemote { .. } => ListenerAction::ReportInsert,
            DocEvent::ContentReady => ListenerAction::LoadAccessList { record_time: false },
            DocEvent::PendingContentReady => ListenerAction::ReportPendingContent,
            DocEvent::SyncFinished => ListenerAction::ReportSyncFinished,
            DocEvent::Other => ListenerAction::Ignore,
        },
{
    match event {
        DocEvent::InsertRemote { .. } => ListenerAction::ReportInsert,
        DocEvent::ContentReady => ListenerAction::LoadAccessList { record_time: false },
        DocEvent::PendingContentReady => ListenerAction::ReportPendingContent,
        DocEvent::SyncFinished => ListenerAction::ReportSyncFinished,
        DocEvent::Other => ListenerAction::Ignore,
    }
}

} // verus!
