//! Scenarios against the collaboration coordinator: joining, broadcasting,
//! the temporary-shape policy, forced deselection on disconnect, eviction
//! and reload.

use canvas_collab::canvas::events::{CanvasEvents, Point2D, Shape};
use canvas_collab::canvas::server::{
    CanvasSocketServer, Command, Effect, LoadOutcome,
};
use canvas_collab::canvas::store::{AccessLevel, Canvas, CanvasState, Membership};

fn s(x: &str) -> String {
    x.to_string()
}

fn line(id: &str, temporary: bool) -> Shape {
    Shape::Line {
        id: s(id),
        temporary,
        border_color: s("#101010"),
        fill_color: s("#efefef"),
        from: Point2D { x: 1, y: 2 },
        to: Point2D { x: 3, y: 4 },
    }
}

fn canvas_with(mode: CanvasState, extra: &[(&str, AccessLevel)]) -> Canvas {
    let mut users = vec![Membership { user_id: s("alice"), access_level: AccessLevel::Owner }];
    for (uid, level) in extra {
        users.push(Membership { user_id: s(uid), access_level: *level });
    }
    Canvas { id: s("R1"), name: s("Room one"), owner_id: s("alice"), state: mode, users }
}

fn joined(ts: u64, user: &str, name: &str, session: &str) -> CanvasEvents {
    CanvasEvents::UserJoined {
        timestamp: ts,
        user_id: s(user),
        username: s(name),
        session_id: s(session),
        access_level: AccessLevel::Owner,
    }
}

fn persisted_events(effects: &[Effect]) -> Vec<CanvasEvents> {
    effects
        .iter()
        .filter_map(|e| match e {
            Effect::Persist { event, .. } => Some(event.clone()),
            _ => None,
        })
        .collect()
}

fn delivered_to(effects: &[Effect]) -> Vec<(String, CanvasEvents)> {
    effects
        .iter()
        .filter_map(|e| match e {
            Effect::Deliver { session_id, event, .. } => Some((session_id.clone(), event.clone())),
            _ => None,
        })
        .collect()
}

/// First connect loads the room and replays the (empty) history plus the
/// own join to the joining session only; a second connect broadcasts its
/// join to the first session only and receives the full history.
#[test]
fn connect_loads_and_replays() {
    let mut server = CanvasSocketServer::new();
    let effects = server.connect(
        &s("R1"),
        &s("alice"),
        &s("Alice"),
        &s("s1"),
        10,
        Some(LoadOutcome::Loaded { events: Vec::new(), canvas: canvas_with(CanvasState::Active, &[]) }),
    );
    assert_eq!(
        effects,
        vec![
            Effect::Register { canvas_id: s("R1"), user_id: s("alice"), session_id: s("s1") },
            Effect::Persist { canvas_id: s("R1"), event: joined(10, "alice", "Alice", "s1") },
            Effect::Deliver {
                canvas_id: s("R1"),
                session_id: s("s1"),
                event: joined(10, "alice", "Alice", "s1"),
            },
        ]
    );

    let effects = server.connect(&s("R1"), &s("bob"), &s("Bob"), &s("s2"), 20, None);
    assert_eq!(
        effects,
        vec![
            Effect::Register { canvas_id: s("R1"), user_id: s("bob"), session_id: s("s2") },
            Effect::Persist { canvas_id: s("R1"), event: joined(20, "bob", "Bob", "s2") },
            Effect::Deliver {
                canvas_id: s("R1"),
                session_id: s("s1"),
                event: joined(20, "bob", "Bob", "s2"),
            },
            Effect::Deliver {
                canvas_id: s("R1"),
                session_id: s("s2"),
                event: joined(10, "alice", "Alice", "s1"),
            },
            Effect::Deliver {
                canvas_id: s("R1"),
                session_id: s("s2"),
                event: joined(20, "bob", "Bob", "s2"),
            },
        ]
    );
}

/// A failed load answers the requester with a single failure frame and
/// loads nothing.
#[test]
fn connect_failure_frame() {
    let mut server = CanvasSocketServer::new();
    let effects = server.connect(
        &s("R1"),
        &s("alice"),
        &s("Alice"),
        &s("s1"),
        10,
        Some(LoadOutcome::Failed),
    );
    assert_eq!(effects, vec![Effect::ConnectionFailed { message: s("Connection failed") }]);
    assert!(!server.is_loaded(&s("R1")));
}

/// A permitted shape is persisted and broadcast to the other session
/// only; after the mode flips to moderated, the next shape from a Write
/// user is silently dropped.
#[test]
fn moderation_gates_writes() {
    let mut server = CanvasSocketServer::new();
    server.connect(
        &s("R1"),
        &s("alice"),
        &s("Alice"),
        &s("s1"),
        10,
        Some(LoadOutcome::Loaded {
            events: Vec::new(),
            canvas: canvas_with(CanvasState::Active, &[("bob", AccessLevel::Write)]),
        }),
    );
    server.connect(&s("R1"), &s("bob"), &s("Bob"), &s("s2"), 20, None);

    let added = CanvasEvents::ShapeAdded { origin: s("s2"), timestamp: 30, shape: line("sh1", false) };
    let effects = server.handle_message(&s("R1"), &s("bob"), &s("s2"), added.clone());
    assert_eq!(
        effects,
        vec![
            Effect::Persist { canvas_id: s("R1"), event: added.clone() },
            Effect::Deliver { canvas_id: s("R1"), session_id: s("s1"), event: added },
        ]
    );

    let effects = server.update_canvas_state(&s("R1"), CanvasState::Moderated, &s("alice"), 40);
    let mode_change = CanvasEvents::CanvasStateChanged {
        timestamp: 40,
        state: CanvasState::Moderated,
        initiator_id: s("alice"),
    };
    assert_eq!(
        effects,
        vec![
            Effect::Persist { canvas_id: s("R1"), event: mode_change.clone() },
            Effect::Deliver { canvas_id: s("R1"), session_id: s("s1"), event: mode_change.clone() },
            Effect::Deliver { canvas_id: s("R1"), session_id: s("s2"), event: mode_change },
        ]
    );

    let added = CanvasEvents::ShapeAdded { origin: s("s2"), timestamp: 50, shape: line("sh2", false) };
    let effects = server.handle_message(&s("R1"), &s("bob"), &s("s2"), added);
    assert!(effects.is_empty());
}

/// A temporary shape and its removal produce zero durable records; a
/// plain shape produces one.
#[test]
fn temporary_shape_never_persisted() {
    let mut server = CanvasSocketServer::new();
    server.connect(
        &s("R1"),
        &s("alice"),
        &s("Alice"),
        &s("s1"),
        10,
        Some(LoadOutcome::Loaded { events: Vec::new(), canvas: canvas_with(CanvasState::Active, &[]) }),
    );
    server.connect(&s("R1"), &s("alice"), &s("Alice"), &s("s2"), 15, None);

    let added = CanvasEvents::ShapeAdded { origin: s("s1"), timestamp: 20, shape: line("tmp", true) };
    let effects = server.handle_message(&s("R1"), &s("alice"), &s("s1"), added.clone());
    assert_eq!(persisted_events(&effects), Vec::<CanvasEvents>::new());
    assert_eq!(delivered_to(&effects), vec![(s("s2"), added)]);

    let removed = CanvasEvents::ShapeRemoved { origin: s("s1"), timestamp: 30, shape_id: s("tmp") };
    let effects = server.handle_message(&s("R1"), &s("alice"), &s("s1"), removed.clone());
    assert_eq!(persisted_events(&effects), Vec::<CanvasEvents>::new());
    assert_eq!(delivered_to(&effects), vec![(s("s2"), removed)]);

    let added = CanvasEvents::ShapeAdded { origin: s("s1"), timestamp: 40, shape: line("keep", false) };
    let effects = server.handle_message(&s("R1"), &s("alice"), &s("s1"), added.clone());
    assert_eq!(persisted_events(&effects), vec![added]);

    // Removing a shape that was never temporary is durably recorded.
    let removed = CanvasEvents::ShapeRemoved { origin: s("s1"), timestamp: 50, shape_id: s("keep") };
    let effects = server.handle_message(&s("R1"), &s("alice"), &s("s1"), removed.clone());
    assert_eq!(persisted_events(&effects), vec![removed]);
}

/// A broadcast reaches every registered session except the originating
/// one.
#[test]
fn broadcast_excludes_origin() {
    let mut server = CanvasSocketServer::new();
    server.connect(
        &s("R1"),
        &s("alice"),
        &s("Alice"),
        &s("s1"),
        1,
        Some(LoadOutcome::Loaded { events: Vec::new(), canvas: canvas_with(CanvasState::Active, &[]) }),
    );
    server.connect(&s("R1"), &s("alice"), &s("Alice"), &s("s2"), 2, None);
    server.connect(&s("R1"), &s("alice"), &s("Alice"), &s("s3"), 3, None);

    let added = CanvasEvents::ShapeAdded { origin: s("s2"), timestamp: 9, shape: line("sh", false) };
    let effects = server.handle_message(&s("R1"), &s("alice"), &s("s2"), added.clone());
    let receivers: Vec<String> = delivered_to(&effects).into_iter().map(|(sid, _)| sid).collect();
    assert_eq!(receivers, vec![s("s1"), s("s3")]);
}

/// Disconnecting a session with selections emits one deselection per
/// selected shape, in selection order, before the leave event; the last
/// session's departure evicts the canvas.
#[test]
fn disconnect_deselects_then_leaves() {
    let mut server = CanvasSocketServer::new();
    server.connect(
        &s("R1"),
        &s("alice"),
        &s("Alice"),
        &s("s1"),
        1,
        Some(LoadOutcome::Loaded { events: Vec::new(), canvas: canvas_with(CanvasState::Active, &[]) }),
    );
    server.connect(&s("R1"), &s("alice"), &s("Alice"), &s("s2"), 2, None);

    for (ts, shape_id) in [(3u64, "x"), (4u64, "y")] {
        let selected = CanvasEvents::ShapeSelected {
            origin: s("s2"),
            timestamp: ts,
            shape_id: s(shape_id),
            options: s("{}"),
        };
        server.handle_message(&s("R1"), &s("alice"), &s("s2"), selected);
    }

    let effects = server.disconnect(&s("R1"), &s("alice"), &s("s2"), 9);
    let persisted = persisted_events(&effects);
    assert_eq!(
        persisted,
        vec![
            CanvasEvents::ShapeDeselected { origin: s("s2"), timestamp: 9, shape_id: s("x") },
            CanvasEvents::ShapeDeselected { origin: s("s2"), timestamp: 9, shape_id: s("y") },
            CanvasEvents::UserLeft { timestamp: 9, user_id: s("alice"), session_id: s("s2") },
        ]
    );
    // The deselections are broadcast to the remaining session, the
    // departure too, and the leaving session receives nothing.
    for (sid, _) in delivered_to(&effects) {
        assert_eq!(sid, s("s1"));
    }
    assert!(effects.contains(&Effect::Unregister { canvas_id: s("R1"), session_id: s("s2") }));
    assert!(!effects.contains(&Effect::EvictCanvas { canvas_id: s("R1") }));

    // The last session leaves: the canvas is evicted.
    let effects = server.disconnect(&s("R1"), &s("alice"), &s("s1"), 11);
    assert!(effects.contains(&Effect::EvictCanvas { canvas_id: s("R1") }));
    assert!(!server.is_loaded(&s("R1")));
}

/// After eviction, a fresh connect replays the durable log: the replay the
/// new session receives is exactly the records persisted before, in
/// order, followed by its own join.
#[test]
fn evicted_canvas_reloads_identically() {
    let mut server = CanvasSocketServer::new();
    let mut durable: Vec<CanvasEvents> = Vec::new();
    let canvas = canvas_with(CanvasState::Active, &[]);

    let effects = server.connect(
        &s("R1"),
        &s("alice"),
        &s("Alice"),
        &s("s1"),
        10,
        Some(LoadOutcome::Loaded { events: Vec::new(), canvas: canvas.clone() }),
    );
    durable.extend(persisted_events(&effects));
    let added = CanvasEvents::ShapeAdded { origin: s("s1"), timestamp: 20, shape: line("sh", false) };
    let effects = server.handle_message(&s("R1"), &s("alice"), &s("s1"), added);
    durable.extend(persisted_events(&effects));
    let effects = server.disconnect(&s("R1"), &s("alice"), &s("s1"), 30);
    durable.extend(persisted_events(&effects));
    assert!(!server.is_loaded(&s("R1")));

    // Reload from the collected durable records.
    let effects = server.connect(
        &s("R1"),
        &s("alice"),
        &s("Alice"),
        &s("s9"),
        40,
        Some(LoadOutcome::Loaded { events: durable.clone(), canvas }),
    );
    let replay: Vec<CanvasEvents> = delivered_to(&effects)
        .into_iter()
        .filter(|(sid, _)| *sid == s("s9"))
        .map(|(_, e)| e)
        .collect();
    let mut expected = durable;
    expected.push(joined(40, "alice", "Alice", "s9"));
    assert_eq!(replay, expected);
}

/// The command dispatcher: an undecodable frame changes nothing and is
/// still acknowledged; a decoded frame is handled and acknowledged after
/// its effects.
#[test]
fn commands_are_acknowledged() {
    let mut server = CanvasSocketServer::new();
    server.handle_command(
        Command::Connect {
            canvas_id: s("R1"),
            user_id: s("alice"),
            username: s("Alice"),
            session_id: s("s1"),
        },
        10,
        Some(LoadOutcome::Loaded { events: Vec::new(), canvas: canvas_with(CanvasState::Active, &[]) }),
    );
    let effects = server.handle_command(
        Command::HandleMessage {
            canvas_id: s("R1"),
            user_id: s("alice"),
            session_id: s("s1"),
            event: None,
        },
        20,
        None,
    );
    assert_eq!(effects, vec![Effect::Acknowledge]);

    let added = CanvasEvents::ShapeAdded { origin: s("s1"), timestamp: 30, shape: line("sh", false) };
    let effects = server.handle_command(
        Command::HandleMessage {
            canvas_id: s("R1"),
            user_id: s("alice"),
            session_id: s("s1"),
            event: Some(added.clone()),
        },
        30,
        None,
    );
    assert_eq!(
        effects,
        vec![Effect::Persist { canvas_id: s("R1"), event: added }, Effect::Acknowledge]
    );

    // A client may not author the server-only kinds.
    let forged = CanvasEvents::UserLeft { timestamp: 40, user_id: s("alice"), session_id: s("s1") };
    let effects = server.handle_command(
        Command::HandleMessage {
            canvas_id: s("R1"),
            user_id: s("alice"),
            session_id: s("s1"),
            event: Some(forged),
        },
        40,
        None,
    );
    assert_eq!(effects, vec![Effect::Acknowledge]);
}

/// An access-level change is broadcast to every session, none excluded,
/// and lands in the membership table.
#[test]
fn access_level_change_reaches_all() {
    let mut server = CanvasSocketServer::new();
    server.connect(
        &s("R1"),
        &s("alice"),
        &s("Alice"),
        &s("s1"),
        1,
        Some(LoadOutcome::Loaded {
            events: Vec::new(),
            canvas: canvas_with(CanvasState::Moderated, &[("bob", AccessLevel::Read)]),
        }),
    );
    server.connect(&s("R1"), &s("bob"), &s("Bob"), &s("s2"), 2, None);

    // Read in moderated mode: dropped.
    let added = CanvasEvents::ShapeAdded { origin: s("s2"), timestamp: 3, shape: line("a", false) };
    assert!(server.handle_message(&s("R1"), &s("bob"), &s("s2"), added).is_empty());

    let effects = server.update_user_access_level(&s("R1"), &s("bob"), AccessLevel::Voice, 4);
    let change = CanvasEvents::UserAccessLevelChanged {
        timestamp: 4,
        user_id: s("bob"),
        access_level: AccessLevel::Voice,
    };
    assert_eq!(
        effects,
        vec![
            Effect::Persist { canvas_id: s("R1"), event: change.clone() },
            Effect::Deliver { canvas_id: s("R1"), session_id: s("s1"), event: change.clone() },
            Effect::Deliver { canvas_id: s("R1"), session_id: s("s2"), event: change },
        ]
    );

    // Voice may write even in moderated mode.
    let added = CanvasEvents::ShapeAdded { origin: s("s2"), timestamp: 5, shape: line("b", false) };
    assert!(!server.handle_message(&s("R1"), &s("bob"), &s("s2"), added).is_empty());
}
