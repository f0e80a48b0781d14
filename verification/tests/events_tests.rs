use server::events::{ticket_listener_action, upload_listener_action, DocEvent, ListenerAction};

#[test]
fn upload_listener_reactions() {
    assert_eq!(
        upload_listener_action(DocEvent::InsertRemote { content_complete: true }),
        ListenerAction::ReportInsert
    );
    assert_eq!(
        upload_listener_action(DocEvent::InsertRemote { content_complete: false }),
        ListenerAction::Ignore
    );
    assert_eq!(
        upload_listener_action(DocEvent::ContentReady),
        ListenerAction::LoadAccessList { record_time: true }
    );
    assert_eq!(upload_listener_action(DocEvent::PendingContentReady), ListenerAction::Ignore);
    assert_eq!(upload_listener_action(DocEvent::SyncFinished), ListenerAction::Ignore);
    assert_eq!(upload_listener_action(DocEvent::Other), ListenerAction::Ignore);
}

#[test]
fn ticket_listener_reactions() {
    assert_eq!(
        ticket_listener_action(DocEvent::InsertRemote { content_complete: false }),
        ListenerAction::ReportInsert
    );
    assert_eq!(
        ticket_listener_action(DocEvent::ContentReady),
        ListenerAction::LoadAccessList { record_time: false }
    );
    assert_eq!(ticket_listener_action(DocEvent::PendingContentReady), ListenerAction::ReportPendingContent);
    assert_eq!(ticket_listener_action(DocEvent::SyncFinished), ListenerAction::ReportSyncFinished);
    assert_eq!(ticket_listener_action(DocEvent::Other), ListenerAction::Ignore);
}
