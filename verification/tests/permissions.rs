//! The write-permission table over every access level and canvas mode, and
//! the access-level escalation rules of the directory.

use canvas_collab::canvas::events::{CanvasEvents, Point2D, Shape};
use canvas_collab::canvas::server::{CanvasSocketServer, LoadOutcome};
use canvas_collab::canvas::store::{
    AccessLevel, Canvas, CanvasState, CanvasStore, CanvasStoreEvents, Membership,
};

fn s(x: &str) -> String {
    x.to_string()
}

fn line(id: &str, temporary: bool) -> Shape {
    Shape::Line {
        id: s(id),
        temporary,
        border_color: s("#000000"),
        fill_color: s("#ffffff"),
        from: Point2D { x: 0, y: 0 },
        to: Point2D { x: 4, y: 4 },
    }
}

/// Builds a coordinator with one loaded canvas in the given mode, an
/// observer session of the owner, and — where a level is given — the user
/// "u" at that level; then submits a shape from "u" and reports whether
/// anything happened.
fn submit_allowed(level: Option<AccessLevel>, mode: CanvasState) -> bool {
    let mut users = vec![Membership { user_id: s("owner"), access_level: AccessLevel::Owner }];
    if let Some(level) = level {
        users.push(Membership { user_id: s("u"), access_level: level });
    }
    let canvas = Canvas {
        id: s("c1"),
        name: s("Canvas"),
        owner_id: s("owner"),
        state: mode,
        users,
    };
    let mut server = CanvasSocketServer::new();
    server.connect(
        &s("c1"),
        &s("owner"),
        &s("Owner"),
        &s("obs"),
        1,
        Some(LoadOutcome::Loaded { events: Vec::new(), canvas }),
    );
    server.connect(&s("c1"), &s("u"), &s("U"), &s("su"), 2, None);
    let event = CanvasEvents::ShapeAdded { origin: s("su"), timestamp: 3, shape: line("sh", false) };
    let effects = server.handle_message(&s("c1"), &s("u"), &s("su"), event);
    !effects.is_empty()
}

#[test]
fn permission_table_cross_product() {
    let levels = [
        AccessLevel::Read,
        AccessLevel::Write,
        AccessLevel::Moderate,
        AccessLevel::Owner,
        AccessLevel::Voice,
        AccessLevel::NoAccess,
    ];
    let modes = [CanvasState::Active, CanvasState::Moderated];
    for level in levels {
        for mode in modes {
            let expected = match (level, mode) {
                (AccessLevel::Owner, _) => true,
                (AccessLevel::Moderate, _) => true,
                (AccessLevel::Voice, _) => true,
                (AccessLevel::Write, CanvasState::Active) => true,
                _ => false,
            };
            assert_eq!(
                submit_allowed(Some(level), mode),
                expected,
                "level {:?} in mode {:?}",
                level,
                mode
            );
        }
    }
    // A user with no membership entry at all may never write.
    assert!(!submit_allowed(None, CanvasState::Active));
    assert!(!submit_allowed(None, CanvasState::Moderated));
}

#[test]
fn test_access_level_validation() {
    let initial_events = vec![
        CanvasStoreEvents::CanvasCreated {
            timestamp: 0,
            owner_id: "owner".to_string(),
            canvas_id: "canvas".to_string(),
            state: CanvasState::Active,
            name: "Canvas".to_string(),
        },
        CanvasStoreEvents::UserCanvasAdded {
            timestamp: 0,
            user_id: "moderator".to_string(),
            initiator_user_id: "owner".to_string(),
            canvas_id: "canvas".to_string(),
            access_level: AccessLevel::Moderate,
        },
        CanvasStoreEvents::UserCanvasAdded {
            timestamp: 0,
            user_id: "reader".to_string(),
            initiator_user_id: "owner".to_string(),
            canvas_id: "canvas".to_string(),
            access_level: AccessLevel::Read,
        },
        CanvasStoreEvents::UserCanvasAdded {
            timestamp: 0,
            user_id: "writer".to_string(),
            initiator_user_id: "owner".to_string(),
            canvas_id: "canvas".to_string(),
            access_level: AccessLevel::Write,
        },
        CanvasStoreEvents::UserCanvasAdded {
            timestamp: 0,
            user_id: "voice".to_string(),
            initiator_user_id: "owner".to_string(),
            canvas_id: "canvas".to_string(),
            access_level: AccessLevel::Voice,
        },
    ];

    let canvas_store =
        CanvasStore::new(initial_events).expect("Failed to parse persisted event log");

    assert!(canvas_store
        .validate_permission_change(
            &AccessLevel::Read,
            &AccessLevel::Moderate,
            &AccessLevel::Write
        )
        .is_err());
    assert!(canvas_store
        .validate_permission_change(
            &AccessLevel::Read,
            &AccessLevel::Owner,
            &AccessLevel::Moderate
        )
        .is_err());
    assert!(canvas_store
        .validate_permission_change(
            &AccessLevel::Moderate,
            &AccessLevel::Moderate,
            &AccessLevel::Write
        )
        .is_err());
    assert!(canvas_store
        .validate_permission_change(
            &AccessLevel::Moderate,
            &AccessLevel::Owner,
            &AccessLevel::Write
        )
        .is_err());
    assert!(canvas_store
        .validate_permission_change(
            &AccessLevel::Moderate,
            &AccessLevel::NoAccess,
            &AccessLevel::Owner
        )
        .is_err());
    assert!(canvas_store
        .validate_permission_change(
            &AccessLevel::Moderate,
            &AccessLevel::NoAccess,
            &AccessLevel::Moderate
        )
        .is_err());
    assert!(canvas_store
        .validate_permission_change(
            &AccessLevel::Moderate,
            &AccessLevel::Voice,
            &AccessLevel::Moderate
        )
        .is_err());

    assert!(canvas_store
        .validate_permission_change(
            &AccessLevel::Write,
            &AccessLevel::Moderate,
            &AccessLevel::Write
        )
        .is_err());
    assert!(canvas_store
        .validate_permission_change(
            &AccessLevel::Voice,
            &AccessLevel::Moderate,
            &AccessLevel::Write
        )
        .is_err());
    assert!(canvas_store
        .validate_permission_change(
            &AccessLevel::NoAccess,
            &AccessLevel::Moderate,
            &AccessLevel::Write
        )
        .is_err());

    assert!(canvas_store
        .validate_permission_change(
            &AccessLevel::Owner,
            &AccessLevel::Moderate,
            &AccessLevel::Write
        )
        .is_ok());
    assert!(canvas_store
        .validate_permission_change(
            &AccessLevel::Owner,
            &AccessLevel::NoAccess,
            &AccessLevel::Moderate
        )
        .is_ok());
    assert!(canvas_store
        .validate_permission_change(
            &AccessLevel::Moderate,
            &AccessLevel::Write,
            &AccessLevel::Read
        )
        .is_ok());
    assert!(canvas_store
        .validate_permission_change(
            &AccessLevel::Moderate,
            &AccessLevel::Voice,
            &AccessLevel::NoAccess
        )
        .is_ok());
}
