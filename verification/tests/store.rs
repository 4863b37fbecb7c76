//! The canvas directory: replaying its durable records, looking up access,
//! creating canvases and granting levels.

use canvas_collab::canvas::error::CanvasStoreError;
use canvas_collab::canvas::store::{
    AccessLevel, AddUserToCanvasMessage, CanvasState, CanvasStore, CanvasStoreEvents,
    CreateCanvas, CreateCanvasMessage, GetCanvasMessage, GetUserClaimsMessage,
    UpdateCanvasStateMessage, CANVAS_ID_ALPHABET_STR, CANVAS_ID_LENGTH,
};

fn s(x: &str) -> String {
    x.to_string()
}

fn created(canvas_id: &str, owner: &str, name: &str) -> CanvasStoreEvents {
    CanvasStoreEvents::CanvasCreated {
        timestamp: 0,
        owner_id: s(owner),
        canvas_id: s(canvas_id),
        state: CanvasState::Active,
        name: s(name),
    }
}

fn added(canvas_id: &str, user: &str, level: AccessLevel) -> CanvasStoreEvents {
    CanvasStoreEvents::UserCanvasAdded {
        timestamp: 0,
        user_id: s(user),
        initiator_user_id: s("owner"),
        canvas_id: s(canvas_id),
        access_level: level,
    }
}

#[test]
fn replay_rebuilds_membership() {
    let store = CanvasStore::new(vec![
        created("c1", "owner", "One"),
        added("c1", "w", AccessLevel::Write),
        added("c1", "w", AccessLevel::Voice),
    ])
    .unwrap();
    assert_eq!(store.get_access_level(&s("owner"), &s("c1")), AccessLevel::Owner);
    assert_eq!(store.get_access_level(&s("w"), &s("c1")), AccessLevel::Voice);
    assert_eq!(store.get_access_level(&s("nobody"), &s("c1")), AccessLevel::NoAccess);
    assert_eq!(store.get_access_level(&s("w"), &s("other")), AccessLevel::NoAccess);

    let canvas = store.handle_get_canvas(&GetCanvasMessage { canvas_id: s("c1") }).unwrap();
    assert_eq!(canvas.name, s("One"));
    assert_eq!(canvas.owner_id, s("owner"));
    assert_eq!(canvas.state, CanvasState::Active);

    assert!(store.handle_get_canvas(&GetCanvasMessage { canvas_id: s("nope") }).is_none());
}

#[test]
fn replay_rejects_grant_for_unknown_canvas() {
    match CanvasStore::new(vec![added("ghost", "w", AccessLevel::Write)]) {
        Err(e) => assert_eq!(e, CanvasStoreError::CanvasNotFound),
        Ok(_) => panic!("replay accepted a grant for an unknown canvas"),
    }
}

#[test]
fn claims_follow_grants() {
    let store = CanvasStore::new(vec![
        created("c1", "owner", "One"),
        created("c2", "owner", "Two"),
        added("c1", "u", AccessLevel::Read),
        added("c2", "u", AccessLevel::Write),
    ])
    .unwrap();
    let claims = store.handle_get_user_claims(&GetUserClaimsMessage { user_id: s("u") });
    assert_eq!(claims.len(), 2);
    assert_eq!(claims[0].c, s("c1"));
    assert_eq!(claims[0].r, AccessLevel::Read);
    assert_eq!(claims[1].c, s("c2"));
    assert_eq!(claims[1].r, AccessLevel::Write);

    let none = store.handle_get_user_claims(&GetUserClaimsMessage { user_id: s("x") });
    assert!(none.is_empty());
}

#[test]
fn create_canvas_draws_fresh_id() {
    let mut store = CanvasStore::new(Vec::new()).unwrap();
    let (canvas, event) = store
        .handle_create_canvas(
            CreateCanvasMessage {
                canvas: CreateCanvas { name: s("Fresh"), owner_id: s("owner") },
            },
            77,
        )
        .unwrap();
    assert_eq!(canvas.id.len(), CANVAS_ID_LENGTH);
    for b in canvas.id.chars() {
        assert!(CANVAS_ID_ALPHABET_STR.contains(b), "unexpected id character {:?}", b);
    }
    assert_eq!(canvas.name, s("Fresh"));
    assert_eq!(canvas.owner_id, s("owner"));
    assert_eq!(canvas.state, CanvasState::Active);
    match event {
        CanvasStoreEvents::CanvasCreated { timestamp, owner_id, canvas_id, state, name } => {
            assert_eq!(timestamp, 77);
            assert_eq!(owner_id, s("owner"));
            assert_eq!(canvas_id, canvas.id);
            assert_eq!(state, CanvasState::Active);
            assert_eq!(name, s("Fresh"));
        },
        other => panic!("not a creation record: {:?}", other),
    }
    // The creation landed: the canvas can be looked up and the owner owns it.
    assert_eq!(store.get_access_level(&s("owner"), &canvas.id), AccessLevel::Owner);
    assert!(store.handle_get_canvas(&GetCanvasMessage { canvas_id: canvas.id }).is_some());
}

#[test]
fn add_user_respects_escalation_rules() {
    let mut store = CanvasStore::new(vec![
        created("c1", "owner", "One"),
        added("c1", "mod", AccessLevel::Moderate),
    ])
    .unwrap();

    // Unknown canvas.
    let err = store
        .handle_add_user_to_canvas(
            AddUserToCanvasMessage {
                initiator_user_id: s("owner"),
                canvas_id: s("ghost"),
                target_user_id: s("u"),
                access_level: AccessLevel::Read,
            },
            5,
        )
        .unwrap_err();
    assert_eq!(err, CanvasStoreError::CanvasNotFound);

    // A moderator may not hand out moderation.
    let err = store
        .handle_add_user_to_canvas(
            AddUserToCanvasMessage {
                initiator_user_id: s("mod"),
                canvas_id: s("c1"),
                target_user_id: s("u"),
                access_level: AccessLevel::Moderate,
            },
            6,
        )
        .unwrap_err();
    match err {
        CanvasStoreError::AccessDenied(_) => {},
        other => panic!("expected a denial, got {:?}", other),
    }

    // The owner grants write access; membership and claims follow.
    let event = store
        .handle_add_user_to_canvas(
            AddUserToCanvasMessage {
                initiator_user_id: s("owner"),
                canvas_id: s("c1"),
                target_user_id: s("u"),
                access_level: AccessLevel::Write,
            },
            7,
        )
        .unwrap();
    match event {
        CanvasStoreEvents::UserCanvasAdded { user_id, canvas_id, access_level, .. } => {
            assert_eq!(user_id, s("u"));
            assert_eq!(canvas_id, s("c1"));
            assert_eq!(access_level, AccessLevel::Write);
        },
        other => panic!("not a grant record: {:?}", other),
    }
    assert_eq!(store.get_access_level(&s("u"), &s("c1")), AccessLevel::Write);
    let canvas = store.handle_get_canvas(&GetCanvasMessage { canvas_id: s("c1") }).unwrap();
    assert!(canvas
        .users
        .iter()
        .any(|m| m.user_id == s("u") && m.access_level == AccessLevel::Write));
}

#[test]
fn update_canvas_state_returns_record() {
    let mut store = CanvasStore::new(vec![created("c1", "owner", "One")]).unwrap();
    let event = store.handle_update_canvas_state(
        UpdateCanvasStateMessage {
            canvas_id: s("c1"),
            initiator_id: s("owner"),
            state: CanvasState::Moderated,
        },
        9,
    );
    assert_eq!(
        event,
        CanvasStoreEvents::CanvasStateChanged {
            timestamp: 9,
            canvas_id: s("c1"),
            initiator_id: s("owner"),
            state: CanvasState::Moderated,
        }
    );
    let canvas = store.handle_get_canvas(&GetCanvasMessage { canvas_id: s("c1") }).unwrap();
    assert_eq!(canvas.state, CanvasState::Moderated);
}

#[test]
fn create_then_replay_round_trip() {
    // The records a creation and a grant produce replay to the same
    // directory state.
    let mut store = CanvasStore::new(Vec::new()).unwrap();
    let (canvas, create_record) = store
        .handle_create_canvas(
            CreateCanvasMessage { canvas: CreateCanvas { name: s("RT"), owner_id: s("o") } },
            1,
        )
        .unwrap();
    let grant_record = store
        .handle_add_user_to_canvas(
            AddUserToCanvasMessage {
                initiator_user_id: s("o"),
                canvas_id: canvas.id.clone(),
                target_user_id: s("u"),
                access_level: AccessLevel::Voice,
            },
            2,
        )
        .unwrap();

    let replayed = CanvasStore::new(vec![create_record, grant_record]).unwrap();
    assert_eq!(replayed.get_access_level(&s("o"), &canvas.id), AccessLevel::Owner);
    assert_eq!(replayed.get_access_level(&s("u"), &canvas.id), AccessLevel::Voice);
    let a = store.handle_get_canvas(&GetCanvasMessage { canvas_id: canvas.id.clone() }).unwrap();
    let b = replayed.handle_get_canvas(&GetCanvasMessage { canvas_id: canvas.id }).unwrap();
    assert_eq!(a, b);
}

#[test]
fn deleted_and_removed_records_are_skipped() {
    let store = CanvasStore::new(vec![
        created("c1", "owner", "One"),
        CanvasStoreEvents::CanvasDeleted { timestamp: 1, canvas_id: s("c1") },
        CanvasStoreEvents::UserCanvasRemoved {
            timestamp: 2,
            user_id: s("owner"),
            canvas_id: s("c1"),
        },
        CanvasStoreEvents::CanvasStateChanged {
            timestamp: 3,
            canvas_id: s("c1"),
            initiator_id: s("owner"),
            state: CanvasState::Moderated,
        },
    ])
    .unwrap();
    // Replay applies creations and grants alone; the rest are passed over.
    let canvas = store.handle_get_canvas(&GetCanvasMessage { canvas_id: s("c1") }).unwrap();
    assert_eq!(canvas.state, CanvasState::Active);
    assert_eq!(store.get_access_level(&s("owner"), &s("c1")), AccessLevel::Owner);
}
