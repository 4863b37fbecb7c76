//! The domain events exchanged between the coordinator and the sessions of a
//! canvas, and the shapes they carry.
//!
//! Every event is plain data.  The parts of the wire format that this crate
//! never inspects (selection options, z-order payloads, foreign shape
//! updates) are carried through as their raw JSON text.

use vstd::prelude::*;

use crate::canvas::store::{AccessLevel, CanvasState};

verus! {

/// A canvas coordinate.  Sub-pixel precision is never used.
#[derive(Clone, Copy, PartialEq, Eq, Structural, Debug)]
pub struct Point2D {
    pub x: i32,
    pub y: i32,
}

/// A drawable shape.  The coordinator only ever reads a shape's id and its
/// `temporary` flag; the rest is payload that is stored and fanned out
/// unchanged.
#[derive(Debug, PartialEq)]
pub enum Shape {
    Line {
        id: String,
        temporary: bool,
        border_color: String,
        fill_color: String,
        from: Point2D,
        to: Point2D,
    },
    Circle {
        id: String,
        temporary: bool,
        border_color: String,
        fill_color: String,
        center: Point2D,
        radius: i32,
    },
    Rectangle {
        id: String,
        temporary: bool,
        border_color: String,
        fill_color: String,
        from: Point2D,
        to: Point2D,
    },
    Triangle {
        id: String,
        temporary: bool,
        border_color: String,
        fill_color: String,
        p1: Point2D,
        p2: Point2D,
        p3: Point2D,
    },
}

/// The mathematical value of a [`Shape`]: the same data with strings taken
/// as character sequences.
pub enum ShapeView {
    Line {
        id: Seq<char>,
        temporary: bool,
        border_color: Seq<char>,
        fill_color: Seq<char>,
        from: Point2D,
        to: Point2D,
    },
    Circle {
        id: Seq<char>,
        temporary: bool,
        border_color: Seq<char>,
        fill_color: Seq<char>,
        center: Point2D,
        radius: i32,
    },
    Rectangle {
        id: Seq<char>,
        temporary: bool,
        border_color: Seq<char>,
        fill_color: Seq<char>,
        from: Point2D,
        to: Point2D,
    },
    Triangle {
        id: Seq<char>,
        temporary: bool,
        border_color: Seq<char>,
        fill_color: Seq<char>,
        p1: Point2D,
        p2: Point2D,
        p3: Point2D,
    },
}

impl ShapeView {
    /// The shape's identifier.
    pub open spec fn id(self) -> Seq<char> {
        match self {
            ShapeView::Line { id, .. } => id,
            ShapeView::Circle { id, .. } => id,
            ShapeView::Rectangle { id, .. } => id,
            ShapeView::Triangle { id, .. } => id,
        }
    }

    /// Whether the shape is marked as not meant to be durably recorded.
    pub open spec fn is_temporary(self) -> bool {
        match self {
            ShapeView::Line { temporary, .. } => temporary,
            ShapeView::Circle { temporary, .. } => temporary,
            ShapeView::Rectangle { temporary, .. } => temporary,
            ShapeView::Triangle { temporary, .. } => temporary,
        }
    }
}

impl View for Shape {
    type V = ShapeView;

    open spec fn view(&self) -> ShapeView {
        match self {
            Shape::Line { id, temporary, border_color, fill_color, from, to } => ShapeView::Line {
                id: id@,
                temporary: *temporary,
                border_color: border_color@,
                fill_color: fill_color@,
                from: *from,
                to: *to,
            },
            Shape::Circle { id, temporary, border_color, fill_color, center, radius } => ShapeView::Circle {
                id: id@,
                temporary: *temporary,
                border_color: border_color@,
                fill_color: fill_color@,
                center: *center,
                radius: *radius,
            },
            Shape::Rectangle { id, temporary, border_color, fill_color, from, to } => ShapeView::Rectangle {
                id: id@,
                temporary: *temporary,
                border_color: border_color@,
                fill_color: fill_color@,
                from: *from,
                to: *to,
            },
            Shape::Triangle { id, temporary, border_color, fill_color, p1, p2, p3 } => ShapeView::Triangle {
                id: id@,
                temporary: *temporary,
                border_color: border_color@,
                fill_color: fill_color@,
                p1: *p1,
                p2: *p2,
                p3: *p3,
            },
        }
    }
}

impl Clone for Shape {
    fn clone(&self) -> (r: Self)
        ensures
            r@ == self@,
    {
        match self {
            Shape::Line { id, temporary, border_color, fill_color, from, to } => Shape::Line {
                id: id.clone(),
                temporary: *temporary,
                border_color: border_color.clone(),
                fill_color: fill_color.clone(),
                from: *from,
                to: *to,
            },
            Shape::Circle { id, temporary, border_color, fill_color, center, radius } => Shape::Circle {
                id: id.clone(),
                temporary: *temporary,
                border_color: border_color.clone(),
                fill_color: fill_color.clone(),
                center: *center,
                radius: *radius,
            },
            Shape::Rectangle { id, temporary, border_color, fill_color, from, to } => Shape::Rectangle {
                id: id.clone(),
                temporary: *temporary,
                border_color: border_color.clone(),
                fill_color: fill_color.clone(),
                from: *from,
                to: *to,
            },
            Shape::Triangle { id, temporary, border_color, fill_color, p1, p2, p3 } => Shape::Triangle {
                id: id.clone(),
                temporary: *temporary,
                border_color: border_color.clone(),
                fill_color: fill_color.clone(),
                p1: *p1,
                p2: *p2,
                p3: *p3,
            },
        }
    }
}

impl Shape {
    /// The shape's identifier.
    pub fn get_id(&self) -> (r: &String)
        ensures
            r@ == self@.id(),
    {
        match self {
            Shape::Line { id, .. } => id,
            Shape::Circle { id, .. } => id,
            Shape::Rectangle { id, .. } => id,
            Shape::Triangle { id, .. } => id,
        }
    }

    /// Whether the shape is marked temporary.
    pub fn is_temporary(&self) -> (r: bool)
        ensures
            r == self@.is_temporary(),
    {
        match self {
            Shape::Line { temporary, .. } => *temporary,
            Shape::Circle { temporary, .. } => *temporary,
            Shape::Rectangle { temporary, .. } => *temporary,
            Shape::Triangle { temporary, .. } => *temporary,
        }
    }
}

/// A domain occurrence in a canvas.  Events are immutable once persisted or
/// broadcast; `origin` names the session that authored the event so that
/// receivers can suppress echo.
#[derive(Debug, PartialEq)]
pub enum CanvasEvents {
    ShapeAdded { origin: String, timestamp: u64, shape: Shape },
    ShapeRemoved { origin: String, timestamp: u64, shape_id: String },
    ShapeSelected { origin: String, timestamp: u64, shape_id: String, options: String },
    ShapeDeselected { origin: String, timestamp: u64, shape_id: String },
    ShapeZChanged { origin: String, timestamp: u64, shape_id: String, z: String },
    ShapeUpdated { origin: String, timestamp: u64, shape: String },
    UserJoined {
        timestamp: u64,
        user_id: String,
        username: String,
        session_id: String,
        access_level: AccessLevel,
    },
    UserLeft { timestamp: u64, user_id: String, session_id: String },
    UserAccessLevelChanged { timestamp: u64, user_id: String, access_level: AccessLevel },
    CanvasStateChanged { timestamp: u64, state: CanvasState, initiator_id: String },
}

/// The mathematical value of a [`CanvasEvents`] value.
pub enum CanvasEventView {
    ShapeAdded { origin: Seq<char>, timestamp: u64, shape: ShapeView },
    ShapeRemoved { origin: Seq<char>, timestamp: u64, shape_id: Seq<char> },
    ShapeSelected { origin: Seq<char>, timestamp: u64, shape_id: Seq<char>, options: Seq<char> },
    ShapeDeselected { origin: Seq<char>, timestamp: u64, shape_id: Seq<char> },
    ShapeZChanged { origin: Seq<char>, timestamp: u64, shape_id: Seq<char>, z: Seq<char> },
    ShapeUpdated { origin: Seq<char>, timestamp: u64, shape: Seq<char> },
    UserJoined {
        timestamp: u64,
        user_id: Seq<char>,
        username: Seq<char>,
        session_id: Seq<char>,
        access_level: AccessLevel,
    },
    UserLeft { timestamp: u64, user_id: Seq<char>, session_id: Seq<char> },
    UserAccessLevelChanged { timestamp: u64, user_id: Seq<char>, access_level: AccessLevel },
    CanvasStateChanged { timestamp: u64, state: CanvasState, initiator_id: Seq<char> },
}

impl CanvasEventView {
    /// Whether a client may author this event itself.  The membership and
    /// room-mode events are synthesized by the server alone.
    pub open spec fn is_client_authorable(self) -> bool {
        !(self is UserJoined || self is UserLeft || self is UserAccessLevelChanged
            || self is CanvasStateChanged)
    }
}

impl View for CanvasEvents {
    type V = CanvasEventView;

    open spec fn view(&self) -> CanvasEventView {
        match self {
            CanvasEvents::ShapeAdded { origin, timestamp, shape } => CanvasEventView::ShapeAdded {
                origin: origin@,
                timestamp: *timestamp,
                shape: shape@,
            },
            CanvasEvents::ShapeRemoved { origin, timestamp, shape_id } => CanvasEventView::ShapeRemoved {
                origin: origin@,
                timestamp: *timestamp,
                shape_id: shape_id@,
            },
            CanvasEvents::ShapeSelected { origin, timestamp, shape_id, options } => CanvasEventView::ShapeSelected {
                origin: origin@,
                timestamp: *timestamp,
                shape_id: shape_id@,
                options: options@,
            },
            CanvasEvents::ShapeDeselected { origin, timestamp, shape_id } => CanvasEventView::ShapeDeselected {
                origin: origin@,
                timestamp: *timestamp,
                shape_id: shape_id@,
            },
            CanvasEvents::ShapeZChanged { origin, timestamp, shape_id, z } => CanvasEventView::ShapeZChanged {
                origin: origin@,
                timestamp: *timestamp,
                shape_id: shape_id@,
                z: z@,
            },
            CanvasEvents::ShapeUpdated { origin, timestamp, shape } => CanvasEventView::ShapeUpdated {
                origin: origin@,
                timestamp: *timestamp,
                shape: shape@,
            },
            CanvasEvents::UserJoined { timestamp, user_id, username, session_id, access_level } => CanvasEventView::UserJoined {
                timestamp: *timestamp,
                user_id: user_id@,
                username: username@,
                session_id: session_id@,
                access_level: *access_level,
            },
            CanvasEvents::UserLeft { timestamp, user_id, session_id } => CanvasEventView::UserLeft {
                timestamp: *timestamp,
                user_id: user_id@,
                session_id: session_id@,
            },
            CanvasEvents::UserAccessLevelChanged { timestamp, user_id, access_level } => CanvasEventView::UserAccessLevelChanged {
                timestamp: *timestamp,
                user_id: user_id@,
                access_level: *access_level,
            },
            CanvasEvents::CanvasStateChanged { timestamp, state, initiator_id } => CanvasEventView::CanvasStateChanged {
                timestamp: *timestamp,
                state: *state,
                initiator_id: initiator_id@,
            },
        }
    }
}

impl Clone for CanvasEvents {
    fn clone(&self) -> (r: Self)
        ensures
            r@ == self@,
    {
        match self {
            CanvasEvents::ShapeAdded { origin, timestamp, shape } => CanvasEvents::ShapeAdded {
                origin: origin.clone(),
                timestamp: *timestamp,
                shape: shape.clone(),
            },
            CanvasEvents::ShapeRemoved { origin, timestamp, shape_id } => CanvasEvents::ShapeRemoved {
                origin: origin.clone(),
                timestamp: *timestamp,
                shape_id: shape_id.clone(),
            },
            CanvasEvents::ShapeSelected { origin, timestamp, shape_id, options } => CanvasEvents::ShapeSelected {
                origin: origin.clone(),
                timestamp: *timestamp,
                shape_id: shape_id.clone(),
                options: options.clone(),
            },
            CanvasEvents::ShapeDeselected { origin, timestamp, shape_id } => CanvasEvents::ShapeDeselected {
                origin: origin.clone(),
                timestamp: *timestamp,
                shape_id: shape_id.clone(),
            },
            CanvasEvents::ShapeZChanged { origin, timestamp, shape_id, z } => CanvasEvents::ShapeZChanged {
                origin: origin.clone(),
                timestamp: *timestamp,
                shape_id: shape_id.clone(),
                z: z.clone(),
            },
            CanvasEvents::ShapeUpdated { origin, timestamp, shape } => CanvasEvents::ShapeUpdated {
                origin: origin.clone(),
                timestamp: *timestamp,
                shape: shape.clone(),
            },
            CanvasEvents::UserJoined { timestamp, user_id, username, session_id, access_level } => CanvasEvents::UserJoined {
                timestamp: *timestamp,
                user_id: user_id.clone(),
                username: username.clone(),
                session_id: session_id.clone(),
                access_level: *access_level,
            },
            CanvasEvents::UserLeft { timestamp, user_id, session_id } => CanvasEvents::UserLeft {
                timestamp: *timestamp,
                user_id: user_id.clone(),
                session_id: session_id.clone(),
            },
            CanvasEvents::UserAccessLevelChanged { timestamp, user_id, access_level } => CanvasEvents::UserAccessLevelChanged {
                timestamp: *timestamp,
                user_id: user_id.clone(),
                access_level: *access_level,
            },
            CanvasEvents::CanvasStateChanged { timestamp, state, initiator_id } => CanvasEvents::CanvasStateChanged {
                timestamp: *timestamp,
                state: *state,
                initiator_id: initiator_id.clone(),
            },
        }
    }
}

} // verus!
