//! The collaboration coordinator: the single authority that owns all live
//! canvas state, serializes every mutation, enforces access control, keeps
//! the durable event log of each canvas and fans events out to the
//! connected sessions.
//!
//! The coordinator is a state machine.  Each command is handled by a pure
//! transition that updates [`CanvasSocketServer`] and returns the ordered
//! [`Effect`]s the surrounding process must carry out: append this record to
//! the canvas's durable log, hand this event to that session's outbound
//! queue, drop this session's queue, and so on.  The transition functions
//! are specified against a mathematical model ([`InstanceModel`]) of one
//! loaded canvas.

use vstd::prelude::*;

use crate::canvas::events::{CanvasEventView, CanvasEvents};
use crate::canvas::store::{access_of, AccessLevel, Canvas, CanvasId, CanvasState, CanvasView, UserId};

verus! {

/// A message on a session's outbound queue.
pub type Msg = String;

/// The identifier a client chose for one of its connections, unique within
/// a canvas.
pub type WSSessionId = String;

/// One registered session of a canvas: which user it belongs to and the
/// session id that addresses its outbound queue.
#[derive(Debug, PartialEq)]
pub struct Registration {
    pub user_id: UserId,
    pub session_id: WSSessionId,
}

/// The mathematical value of a [`Registration`].
pub struct RegistrationView {
    pub user_id: Seq<char>,
    pub session_id: Seq<char>,
}

impl View for Registration {
    type V = RegistrationView;

    open spec fn view(&self) -> RegistrationView {
        RegistrationView { user_id: self.user_id@, session_id: self.session_id@ }
    }
}

/// One currently selected shape: which session holds the selection.
#[derive(Debug, PartialEq)]
pub struct Selection {
    pub session_id: WSSessionId,
    pub shape_id: String,
}

/// The mathematical value of a [`Selection`].
pub struct SelectionView {
    pub session_id: Seq<char>,
    pub shape_id: Seq<char>,
}

impl View for Selection {
    type V = SelectionView;

    open spec fn view(&self) -> SelectionView {
        SelectionView { session_id: self.session_id@, shape_id: self.shape_id@ }
    }
}

impl Clone for Registration {
    fn clone(&self) -> (r: Self)
        ensures
            r@ == self@,
    {
        Registration { user_id: self.user_id.clone(), session_id: self.session_id.clone() }
    }
}

impl Clone for Selection {
    fn clone(&self) -> (r: Self)
        ensures
            r@ == self@,
    {
        Selection { session_id: self.session_id.clone(), shape_id: self.shape_id.clone() }
    }
}

/// One loaded canvas: its sessions, per-session selections, the set of
/// temporary shapes that must never reach the durable log, the replayable
/// in-memory event history, the durable log as appended so far, and a copy
/// of the directory's metadata for the canvas.
pub struct CanvasInstance {
    pub sessions: Vec<Registration>,
    pub selected_shapes: Vec<Selection>,
    pub temp_shapes: Vec<String>,
    pub event_log: Vec<CanvasEvents>,
    pub durable_log: Vec<CanvasEvents>,
    pub inner: Canvas,
    /// The records that were replayed from the durable log when the canvas
    /// was loaded; the history before them is unknown.
    pub loaded: Ghost<Seq<CanvasEventView>>,
}

/// The mathematical value of a [`CanvasInstance`].
pub struct InstanceModel {
    pub sessions: Seq<RegistrationView>,
    pub selected: Seq<SelectionView>,
    pub temps: Seq<Seq<char>>,
    pub history: Seq<CanvasEventView>,
    pub durable: Seq<CanvasEventView>,
    pub inner: CanvasView,
    pub loaded: Seq<CanvasEventView>,
}

impl CanvasInstance {
    /// The mathematical value of this instance.
    pub open spec fn model(self) -> InstanceModel {
        InstanceModel {
            sessions: self.sessions@.map_values(|r: Registration| r@),
            selected: self.selected_shapes@.map_values(|s: Selection| s@),
            temps: self.temp_shapes@.map_values(|s: String| s@),
            history: self.event_log@.map_values(|e: CanvasEvents| e@),
            durable: self.durable_log@.map_values(|e: CanvasEvents| e@),
            inner: self.inner@,
            loaded: self.loaded@,
        }
    }
}

/// An instruction to the surrounding process, produced by a command
/// transition.  Effects of one command are carried out in order.
#[derive(Debug, PartialEq)]
pub enum Effect {
    /// Route the connecting session's outbound queue under this canvas and
    /// session id; later `Deliver` effects address it.
    Register { canvas_id: CanvasId, user_id: UserId, session_id: WSSessionId },
    /// Append this event as one record to the canvas's durable log.
    Persist { canvas_id: CanvasId, event: CanvasEvents },
    /// Enqueue this event on the outbound queue of one session.
    Deliver { canvas_id: CanvasId, session_id: WSSessionId, event: CanvasEvents },
    /// Tell the connecting client that its connection failed, with this
    /// single text frame.
    ConnectionFailed { message: Msg },
    /// Drop the outbound queue registered under this canvas and session id.
    Unregister { canvas_id: CanvasId, session_id: WSSessionId },
    /// The canvas has no sessions left: release its durable log handle.
    EvictCanvas { canvas_id: CanvasId },
    /// Signal the submitter of a message that the message has been fully
    /// handled (a backpressure signal, not a success indicator).
    Acknowledge,
}

/// The mathematical value of an [`Effect`].
pub enum EffectView {
    Register { canvas_id: Seq<char>, user_id: Seq<char>, session_id: Seq<char> },
    Persist { canvas_id: Seq<char>, event: CanvasEventView },
    Deliver { canvas_id: Seq<char>, session_id: Seq<char>, event: CanvasEventView },
    ConnectionFailed { message: Seq<char> },
    Unregister { canvas_id: Seq<char>, session_id: Seq<char> },
    EvictCanvas { canvas_id: Seq<char> },
    Acknowledge,
}

impl View for Effect {
    type V = EffectView;

    open spec fn view(&self) -> EffectView {
        match self {
            Effect::Register { canvas_id, user_id, session_id } => EffectView::Register {
                canvas_id: canvas_id@,
                user_id: user_id@,
                session_id: session_id@,
            },
            Effect::Persist { canvas_id, event } => EffectView::Persist {
                canvas_id: canvas_id@,
                event: event@,
            },
            Effect::Deliver { canvas_id, session_id, event } => EffectView::Deliver {
                canvas_id: canvas_id@,
                session_id: session_id@,
                event: event@,
            },
            Effect::ConnectionFailed { message } => EffectView::ConnectionFailed {
                message: message@,
            },
            Effect::Unregister { canvas_id, session_id } => EffectView::Unregister {
                canvas_id: canvas_id@,
                session_id: session_id@,
            },
            Effect::EvictCanvas { canvas_id } => EffectView::EvictCanvas { canvas_id: canvas_id@ },
            Effect::Acknowledge => EffectView::Acknowledge,
        }
    }
}

/// The mathematical value of a list of effects.
pub open spec fn effects_view(effects: Seq<Effect>) -> Seq<EffectView> {
    effects.map_values(|e: Effect| e@)
}

// ---------------------------------------------------------------------------
// The persist-or-skip policy for temporary shapes.
// ---------------------------------------------------------------------------

/// Whether an event reaches the durable log, given which shape ids are
/// currently temporary.  Adding a temporary shape and removing a shape that
/// is temporary are the only events that are skipped.
pub open spec fn event_persists(temps: Seq<Seq<char>>, e: CanvasEventView) -> bool {
    match e {
        CanvasEventView::ShapeAdded { shape, .. } => !shape.is_temporary(),
        CanvasEventView::ShapeRemoved { shape_id, .. } => !temps.contains(shape_id),
        _ => true,
    }
}

/// The first occurrence of `v` taken out of `s`; `s` unchanged where there
/// is none.
pub open spec fn remove_first(s: Seq<Seq<char>>, v: Seq<char>) -> Seq<Seq<char>>
    decreases s.len(),
{
    if s.len() == 0 {
        s
    } else if s[0] == v {
        s.skip(1)
    } else {
        seq![s[0]] + remove_first(s.skip(1), v)
    }
}

/// The temporary-shape ids after one event: adding a temporary shape
/// records its id, removing a shape forgets it.
pub open spec fn temps_after_event(temps: Seq<Seq<char>>, e: CanvasEventView) -> Seq<Seq<char>> {
    match e {
        CanvasEventView::ShapeAdded { shape, .. } => if shape.is_temporary() && !temps.contains(
            shape.id(),
        ) {
            temps.push(shape.id())
        } else {
            temps
        },
        CanvasEventView::ShapeRemoved { shape_id, .. } => remove_first(temps, shape_id),
        _ => temps,
    }
}

/// The temporary-shape ids after a sequence of events, applied in order.
pub open spec fn temps_after_events(temps: Seq<Seq<char>>, es: Seq<CanvasEventView>) -> Seq<
    Seq<char>,
>
    decreases es.len(),
{
    if es.len() == 0 {
        temps
    } else {
        temps_after_event(temps_after_events(temps, es.drop_last()), es.last())
    }
}

/// The records that a sequence of events appends to the durable log, in
/// order, given which shape ids are temporary at the start.
pub open spec fn durable_records(temps: Seq<Seq<char>>, es: Seq<CanvasEventView>) -> Seq<
    CanvasEventView,
>
    decreases es.len(),
{
    if es.len() == 0 {
        Seq::empty()
    } else {
        durable_records(temps, es.drop_last()) + (if event_persists(
            temps_after_events(temps, es.drop_last()),
            es.last(),
        ) {
            seq![es.last()]
        } else {
            Seq::empty()
        })
    }
}

// ---------------------------------------------------------------------------
// Broadcast fan-out.
// ---------------------------------------------------------------------------

/// The sessions a broadcast reaches, in registration order: every session
/// of the canvas except the one named by `skip`.
pub open spec fn delivery_targets(sessions: Seq<RegistrationView>, skip: Option<Seq<char>>) -> Seq<
    Seq<char>,
>
    decreases sessions.len(),
{
    if sessions.len() == 0 {
        Seq::empty()
    } else {
        delivery_targets(sessions.drop_last(), skip) + (if skip == Some(
            sessions.last().session_id,
        ) {
            Seq::<Seq<char>>::empty()
        } else {
            seq![sessions.last().session_id]
        })
    }
}

/// One `Deliver` effect per target, in target order.
pub open spec fn deliver_effects(
    canvas_id: Seq<char>,
    targets: Seq<Seq<char>>,
    e: CanvasEventView,
) -> Seq<EffectView> {
    targets.map_values(
        |t: Seq<char>| EffectView::Deliver { canvas_id: canvas_id, session_id: t, event: e },
    )
}

/// The effects of persisting (where the policy says so) and broadcasting
/// one event: the durable append first, then one delivery per session
/// except the originating one.
pub open spec fn event_effects(
    canvas_id: Seq<char>,
    sessions: Seq<RegistrationView>,
    skip: Option<Seq<char>>,
    temps: Seq<Seq<char>>,
    e: CanvasEventView,
) -> Seq<EffectView> {
    (if event_persists(temps, e) {
        seq![EffectView::Persist { canvas_id: canvas_id, event: e }]
    } else {
        Seq::<EffectView>::empty()
    }) + deliver_effects(canvas_id, delivery_targets(sessions, skip), e)
}

/// The effects of a sequence of events handled in order against one
/// unchanged session list.
pub open spec fn events_effects(
    canvas_id: Seq<char>,
    sessions: Seq<RegistrationView>,
    skip: Option<Seq<char>>,
    temps: Seq<Seq<char>>,
    es: Seq<CanvasEventView>,
) -> Seq<EffectView>
    decreases es.len(),
{
    if es.len() == 0 {
        Seq::empty()
    } else {
        events_effects(canvas_id, sessions, skip, temps, es.drop_last()) + event_effects(
            canvas_id,
            sessions,
            skip,
            temps_after_events(temps, es.drop_last()),
            es.last(),
        )
    }
}

/// One `Deliver` effect to one session per history event, in history
/// order: the private replay a joining session receives.
pub open spec fn history_deliveries(
    canvas_id: Seq<char>,
    session_id: Seq<char>,
    history: Seq<CanvasEventView>,
) -> Seq<EffectView> {
    history.map_values(
        |e: CanvasEventView| EffectView::Deliver {
            canvas_id: canvas_id,
            session_id: session_id,
            event: e,
        },
    )
}

// ---------------------------------------------------------------------------
// Well-formedness of one loaded canvas.
// ---------------------------------------------------------------------------

impl InstanceModel {
    /// The events appended to the history since the canvas was loaded.
    pub open spec fn suffix(self) -> Seq<CanvasEventView> {
        self.history.skip(self.loaded.len() as int)
    }

    /// The replayed records are a prefix of the history; the temporary-shape
    /// ids and the durable log are exactly what the policy, applied to the
    /// events since the load, prescribes; no shape id is recorded as
    /// temporary twice.
    pub open spec fn wf(self) -> bool {
        &&& self.loaded.len() <= self.history.len()
        &&& self.history.take(self.loaded.len() as int) == self.loaded
        &&& self.temps == temps_after_events(Seq::empty(), self.suffix())
        &&& self.durable == self.loaded + durable_records(Seq::empty(), self.suffix())
        &&& forall|i: int, j: int| 0 <= i < j < self.temps.len() ==> self.temps[i] != self.temps[j]
    }
}

// ---------------------------------------------------------------------------
// Access control.
// ---------------------------------------------------------------------------

/// The write-permission table: whether a user holding `level` may submit a
/// mutating event while the canvas is in `state`.  Owner, Moderate and
/// Voice may always write; Write may write only while the canvas is
/// Active; every other level may never write.
pub open spec fn permitted(level: AccessLevel, state: CanvasState) -> bool {
    match (level, state) {
        (AccessLevel::Owner, _) => true,
        (AccessLevel::Moderate, _) => true,
        (AccessLevel::Voice, _) => true,
        (AccessLevel::Write, CanvasState::Active) => true,
        _ => false,
    }
}

// ---------------------------------------------------------------------------
// Selection tracking.
// ---------------------------------------------------------------------------

/// The first selection of `shape_id` by `session_id` taken out of `sel`;
/// `sel` unchanged where there is none.
pub open spec fn remove_first_selection(
    sel: Seq<SelectionView>,
    session_id: Seq<char>,
    shape_id: Seq<char>,
) -> Seq<SelectionView>
    decreases sel.len(),
{
    if sel.len() == 0 {
        sel
    } else if sel[0].session_id == session_id && sel[0].shape_id == shape_id {
        sel.skip(1)
    } else {
        seq![sel[0]] + remove_first_selection(sel.skip(1), session_id, shape_id)
    }
}

/// The selection table after one event from `session_id`: selecting a shape
/// records the pair once, deselecting forgets it, every other event leaves
/// the table alone.
pub open spec fn selections_after_event(
    sel: Seq<SelectionView>,
    session_id: Seq<char>,
    e: CanvasEventView,
) -> Seq<SelectionView> {
    match e {
        CanvasEventView::ShapeSelected { shape_id, .. } => if sel.contains(
            SelectionView { session_id: session_id, shape_id: shape_id },
        ) {
            sel
        } else {
            sel.push(SelectionView { session_id: session_id, shape_id: shape_id })
        },
        CanvasEventView::ShapeDeselected { shape_id, .. } => remove_first_selection(
            sel,
            session_id,
            shape_id,
        ),
        _ => sel,
    }
}

/// The shape ids `session_id` currently has selected, in selection order.
pub open spec fn shapes_of_session(sel: Seq<SelectionView>, session_id: Seq<char>) -> Seq<
    Seq<char>,
>
    decreases sel.len(),
{
    if sel.len() == 0 {
        Seq::empty()
    } else {
        shapes_of_session(sel.drop_last(), session_id) + (if sel.last().session_id == session_id {
            seq![sel.last().shape_id]
        } else {
            Seq::<Seq<char>>::empty()
        })
    }
}

/// The selection table with every selection of `session_id` taken out.
pub open spec fn without_session(sel: Seq<SelectionView>, session_id: Seq<char>) -> Seq<
    SelectionView,
>
    decreases sel.len(),
{
    if sel.len() == 0 {
        Seq::empty()
    } else {
        without_session(sel.drop_last(), session_id) + (if sel.last().session_id == session_id {
            Seq::<SelectionView>::empty()
        } else {
            seq![sel.last()]
        })
    }
}

/// The forced `ShapeDeselected` events for `shapes`, in order.
pub open spec fn deselect_events(session_id: Seq<char>, shapes: Seq<Seq<char>>, now: u64) -> Seq<
    CanvasEventView,
> {
    shapes.map_values(
        |sh: Seq<char>| CanvasEventView::ShapeDeselected {
            origin: session_id,
            timestamp: now,
            shape_id: sh,
        },
    )
}

// ---------------------------------------------------------------------------
// Session registration.
// ---------------------------------------------------------------------------

/// Whether the session `(user_id, session_id)` is registered.
pub open spec fn has_registration(
    sessions: Seq<RegistrationView>,
    user_id: Seq<char>,
    session_id: Seq<char>,
) -> bool {
    sessions.contains(RegistrationView { user_id: user_id, session_id: session_id })
}

/// The session list with `(user_id, session_id)` registered once.
pub open spec fn register_session(
    sessions: Seq<RegistrationView>,
    user_id: Seq<char>,
    session_id: Seq<char>,
) -> Seq<RegistrationView> {
    if has_registration(sessions, user_id, session_id) {
        sessions
    } else {
        sessions.push(RegistrationView { user_id: user_id, session_id: session_id })
    }
}

/// The session list with the first registration of `(user_id, session_id)`
/// taken out.
pub open spec fn remove_registration(
    sessions: Seq<RegistrationView>,
    user_id: Seq<char>,
    session_id: Seq<char>,
) -> Seq<RegistrationView>
    decreases sessions.len(),
{
    if sessions.len() == 0 {
        sessions
    } else if sessions[0].user_id == user_id && sessions[0].session_id == session_id {
        sessions.skip(1)
    } else {
        seq![sessions[0]] + remove_registration(sessions.skip(1), user_id, session_id)
    }
}

// ---------------------------------------------------------------------------
// The command transitions, on the mathematical model.
// ---------------------------------------------------------------------------

impl InstanceModel {
    /// The model after one event is persisted (where the policy says so)
    /// and broadcast: the history grows by the event, the temporary-shape
    /// ids and the durable log follow the policy.
    pub open spec fn with_event(self, e: CanvasEventView) -> InstanceModel {
        InstanceModel {
            history: self.history.push(e),
            temps: temps_after_event(self.temps, e),
            durable: self.durable + (if event_persists(self.temps, e) {
                seq![e]
            } else {
                Seq::<CanvasEventView>::empty()
            }),
            ..self
        }
    }

    /// The model after a sequence of events, applied in order.
    pub open spec fn with_events(self, es: Seq<CanvasEventView>) -> InstanceModel {
        InstanceModel {
            history: self.history + es,
            temps: temps_after_events(self.temps, es),
            durable: self.durable + durable_records(self.temps, es),
            ..self
        }
    }
}

/// Persisting and broadcasting one event: the new model and the effects,
/// a durable append first (where the policy says so), then one delivery
/// per session except `skip`.
pub open spec fn spec_apply_event(
    canvas_id: Seq<char>,
    m: InstanceModel,
    skip: Option<Seq<char>>,
    e: CanvasEventView,
) -> (InstanceModel, Seq<EffectView>) {
    (m.with_event(e), event_effects(canvas_id, m.sessions, skip, m.temps, e))
}

/// Persisting and broadcasting a sequence of events in order, against one
/// unchanged session list.
pub open spec fn spec_apply_events(
    canvas_id: Seq<char>,
    m: InstanceModel,
    skip: Option<Seq<char>>,
    es: Seq<CanvasEventView>,
) -> (InstanceModel, Seq<EffectView>) {
    (m.with_events(es), events_effects(canvas_id, m.sessions, skip, m.temps, es))
}

/// Forced deselection on disconnect: every shape the session had selected
/// is deselected, each deselection persisted and broadcast (excluding the
/// session itself), in selection order.
pub open spec fn spec_unselect(
    canvas_id: Seq<char>,
    m: InstanceModel,
    session_id: Seq<char>,
    now: u64,
) -> (InstanceModel, Seq<EffectView>) {
    let shapes = shapes_of_session(m.selected, session_id);
    let m1 = InstanceModel { selected: without_session(m.selected, session_id), ..m };
    spec_apply_events(canvas_id, m1, Some(session_id), deselect_events(session_id, shapes, now))
}

/// A session joins: it is registered, a `UserJoined` event is persisted and
/// broadcast to everyone else, and the full history (own join included) is
/// privately replayed to the joining session alone.
pub open spec fn spec_connect_session(
    canvas_id: Seq<char>,
    m: InstanceModel,
    user_id: Seq<char>,
    username: Seq<char>,
    session_id: Seq<char>,
    now: u64,
) -> (InstanceModel, Seq<EffectView>) {
    let m1 = InstanceModel {
        sessions: register_session(m.sessions, user_id, session_id),
        ..m
    };
    let joined = CanvasEventView::UserJoined {
        timestamp: now,
        user_id: user_id,
        username: username,
        session_id: session_id,
        access_level: AccessLevel::Owner,
    };
    let stepped = spec_apply_event(canvas_id, m1, Some(session_id), joined);
    (
        stepped.0,
        seq![
            EffectView::Register {
                canvas_id: canvas_id,
                user_id: user_id,
                session_id: session_id,
            },
        ] + stepped.1 + history_deliveries(canvas_id, session_id, stepped.0.history),
    )
}

/// A session disconnects: its selections are forcibly deselected, the
/// session is deregistered, and a `UserLeft` event is persisted and
/// broadcast to the remaining sessions.  The third component says whether
/// the canvas is now empty and must be evicted.
pub open spec fn spec_disconnect_session(
    canvas_id: Seq<char>,
    m: InstanceModel,
    user_id: Seq<char>,
    session_id: Seq<char>,
    now: u64,
) -> (InstanceModel, Seq<EffectView>, bool) {
    let unselected = spec_unselect(canvas_id, m, session_id, now);
    let m2 = InstanceModel {
        sessions: remove_registration(unselected.0.sessions, user_id, session_id),
        ..unselected.0
    };
    let left = CanvasEventView::UserLeft {
        timestamp: now,
        user_id: user_id,
        session_id: session_id,
    };
    let stepped = spec_apply_event(canvas_id, m2, Some(session_id), left);
    (
        stepped.0,
        unselected.1 + seq![
            EffectView::Unregister { canvas_id: canvas_id, session_id: session_id },
        ] + stepped.1,
        stepped.0.sessions.len() == 0,
    )
}

/// A client-authored event is handled: where the author's access level and
/// the canvas mode permit it, selection tracking is updated and the event
/// is persisted (per the temporary-shape policy) and broadcast to every
/// session except the originating one; where they do not, the event is
/// silently dropped.
pub open spec fn spec_handle_message(
    canvas_id: Seq<char>,
    m: InstanceModel,
    user_id: Seq<char>,
    session_id: Seq<char>,
    e: CanvasEventView,
) -> (InstanceModel, Seq<EffectView>) {
    if !permitted(access_of(m.inner.users, user_id), m.inner.state) {
        (m, Seq::empty())
    } else {
        let m1 = InstanceModel {
            selected: selections_after_event(m.selected, session_id, e),
            ..m
        };
        spec_apply_event(canvas_id, m1, Some(session_id), e)
    }
}

/// A user's access level is upserted in the membership table and a
/// `UserAccessLevelChanged` event is persisted and broadcast to every
/// session, none excluded.
pub open spec fn spec_update_access_level(
    canvas_id: Seq<char>,
    m: InstanceModel,
    user_id: Seq<char>,
    access_level: AccessLevel,
    now: u64,
) -> (InstanceModel, Seq<EffectView>) {
    let m1 = InstanceModel {
        inner: CanvasView {
            users: crate::canvas::store::upsert_membership(
                m.inner.users,
                crate::canvas::store::MembershipView { user_id: user_id, access_level },
            ),
            ..m.inner
        },
        ..m
    };
    let e = CanvasEventView::UserAccessLevelChanged {
        timestamp: now,
        user_id: user_id,
        access_level,
    };
    spec_apply_event(canvas_id, m1, None, e)
}

/// The canvas mode is replaced and a `CanvasStateChanged` event is
/// persisted and broadcast to every session, none excluded.
pub open spec fn spec_update_canvas_state(
    canvas_id: Seq<char>,
    m: InstanceModel,
    state: CanvasState,
    initiator_id: Seq<char>,
    now: u64,
) -> (InstanceModel, Seq<EffectView>) {
    let m1 = InstanceModel { inner: CanvasView { state, ..m.inner }, ..m };
    let e = CanvasEventView::CanvasStateChanged {
        timestamp: now,
        state,
        initiator_id: initiator_id,
    };
    spec_apply_event(canvas_id, m1, None, e)
}

// ---------------------------------------------------------------------------
// Lemmas about the policy folds.
// ---------------------------------------------------------------------------

/// Where the first occurrence of `v` stands at index `k`, removing it is
/// removing that index.
pub proof fn lemma_remove_first_at(s: Seq<Seq<char>>, v: Seq<char>, k: int)
    requires
        0 <= k < s.len(),
        s[k] == v,
        forall|j: int| 0 <= j < k ==> s[j] != v,
    ensures
        remove_first(s, v) == s.remove(k),
    decreases k,
{
    if k == 0 {
        assert(remove_first(s, v) =~= s.remove(0));
    } else {
        lemma_remove_first_at(s.skip(1), v, k - 1);
        assert(remove_first(s, v) =~= s.remove(k));
    }
}

/// Removing a value that does not occur changes nothing.
pub proof fn lemma_remove_first_absent(s: Seq<Seq<char>>, v: Seq<char>)
    requires
        !s.contains(v),
    ensures
        remove_first(s, v) == s,
    decreases s.len(),
{
    if s.len() > 0 {
        assert(s[0] != v);
        assert(forall|j: int| 0 <= j < s.skip(1).len() ==> s.skip(1)[j] == s[j + 1]);
        assert(!s.skip(1).contains(v)) by {
            if s.skip(1).contains(v) {
                let j = choose|j: int| 0 <= j < s.skip(1).len() && s.skip(1)[j] == v;
                assert(s[j + 1] == v);
            }
        }
        lemma_remove_first_absent(s.skip(1), v);
        assert(remove_first(s, v) =~= s);
    }
}

/// Removing the first occurrence keeps a duplicate-free list
/// duplicate-free.
pub proof fn lemma_remove_first_distinct(s: Seq<Seq<char>>, v: Seq<char>)
    requires
        forall|i: int, j: int| 0 <= i < j < s.len() ==> s[i] != s[j],
    ensures
        forall|i: int, j: int|
            0 <= i < j < remove_first(s, v).len() ==> remove_first(s, v)[i] != remove_first(
                s,
                v,
            )[j],
    decreases s.len(),
{
    if s.len() > 0 && !(s[0] == v) {
        assert(forall|i: int, j: int|
            0 <= i < j < s.skip(1).len() ==> s.skip(1)[i] != s.skip(1)[j]);
        lemma_remove_first_distinct(s.skip(1), v);
        let r = remove_first(s, v);
        let rt = remove_first(s.skip(1), v);
        assert(forall|i: int| 0 <= i < rt.len() ==> r[i + 1] == rt[i]);
        assert forall|i: int, j: int| 0 <= i < j < r.len() implies r[i] != r[j] by {
            if i == 0 {
                assert(r[j] == rt[j - 1]);
                lemma_remove_first_contains(s.skip(1), v, j - 1);
            } else {
                assert(r[i] == rt[i - 1] && r[j] == rt[j - 1]);
            }
        }
    }
}

/// Every element of `remove_first(s, v)` is an element of `s`.
pub proof fn lemma_remove_first_contains(s: Seq<Seq<char>>, v: Seq<char>, i: int)
    requires
        0 <= i < remove_first(s, v).len(),
    ensures
        s.contains(remove_first(s, v)[i]),
    decreases s.len(),
{
    if s.len() == 0 {
    } else if s[0] == v {
        assert(remove_first(s, v)[i] == s[i + 1]);
    } else {
        if i == 0 {
            assert(remove_first(s, v)[0] == s[0]);
        } else {
            lemma_remove_first_contains(s.skip(1), v, i - 1);
            let x = remove_first(s.skip(1), v)[i - 1];
            assert(remove_first(s, v)[i] == x);
            let j = choose|j: int| 0 <= j < s.skip(1).len() && s.skip(1)[j] == x;
            assert(s[j + 1] == x);
        }
    }
}

/// One event keeps a duplicate-free temporary-shape list duplicate-free.
pub proof fn lemma_temps_distinct_event(t: Seq<Seq<char>>, e: CanvasEventView)
    requires
        forall|i: int, j: int| 0 <= i < j < t.len() ==> t[i] != t[j],
    ensures
        forall|i: int, j: int|
            0 <= i < j < temps_after_event(t, e).len() ==> temps_after_event(t, e)[i]
                != temps_after_event(t, e)[j],
{
    match e {
        CanvasEventView::ShapeAdded { shape, .. } => {
            if shape.is_temporary() && !t.contains(shape.id()) {
                let r = t.push(shape.id());
                assert forall|i: int, j: int| 0 <= i < j < r.len() implies r[i] != r[j] by {
                    if j == r.len() - 1 {
                        assert(t.contains(t[i]));
                    }
                }
            }
        },
        CanvasEventView::ShapeRemoved { shape_id, .. } => {
            lemma_remove_first_distinct(t, shape_id);
        },
        _ => {},
    }
}

/// A sequence of events keeps a duplicate-free temporary-shape list
/// duplicate-free.
pub proof fn lemma_temps_distinct_events(t: Seq<Seq<char>>, es: Seq<CanvasEventView>)
    requires
        forall|i: int, j: int| 0 <= i < j < t.len() ==> t[i] != t[j],
    ensures
        forall|i: int, j: int|
            0 <= i < j < temps_after_events(t, es).len() ==> temps_after_events(t, es)[i]
                != temps_after_events(t, es)[j],
    decreases es.len(),
{
    if es.len() > 0 {
        lemma_temps_distinct_events(t, es.drop_last());
        lemma_temps_distinct_event(temps_after_events(t, es.drop_last()), es.last());
    }
}

/// Applying events in two runs is applying them in one.
pub proof fn lemma_temps_compose(t: Seq<Seq<char>>, a: Seq<CanvasEventView>, b: Seq<
    CanvasEventView,
>)
    ensures
        temps_after_events(t, a + b) == temps_after_events(temps_after_events(t, a), b),
    decreases b.len(),
{
    if b.len() == 0 {
        assert(a + b =~= a);
    } else {
        lemma_temps_compose(t, a, b.drop_last());
        assert((a + b).drop_last() =~= a + b.drop_last());
        assert((a + b).last() == b.last());
    }
}

/// The durable records of two runs, one after the other, are the records
/// of the first followed by the records of the second started from the
/// temporary-shape ids the first left behind.
pub proof fn lemma_durable_compose(t: Seq<Seq<char>>, a: Seq<CanvasEventView>, b: Seq<
    CanvasEventView,
>)
    ensures
        durable_records(t, a + b) == durable_records(t, a) + durable_records(
            temps_after_events(t, a),
            b,
        ),
    decreases b.len(),
{
    if b.len() == 0 {
        assert(a + b =~= a);
        assert(durable_records(t, a + b) =~= durable_records(t, a) + durable_records(
            temps_after_events(t, a),
            b,
        ));
    } else {
        lemma_durable_compose(t, a, b.drop_last());
        lemma_temps_compose(t, a, b.drop_last());
        assert((a + b).drop_last() =~= a + b.drop_last());
        assert((a + b).last() == b.last());
        assert(durable_records(t, a + b) =~= durable_records(t, a) + durable_records(
            temps_after_events(t, a),
            b,
        ));
    }
}

/// Applying events to a well-formed model keeps it well-formed.
pub proof fn lemma_wf_with_events(m: InstanceModel, es: Seq<CanvasEventView>)
    requires
        m.wf(),
    ensures
        m.with_events(es).wf(),
        m.with_events(es).suffix() == m.suffix() + es,
{
    let m2 = m.with_events(es);
    assert(m2.history.take(m.loaded.len() as int) =~= m.loaded);
    assert(m2.suffix() =~= m.suffix() + es);
    lemma_temps_compose(Seq::empty(), m.suffix(), es);
    lemma_durable_compose(Seq::empty(), m.suffix(), es);
    assert(m2.durable =~= m.loaded + durable_records(Seq::empty(), m2.suffix()));
    lemma_temps_distinct_events(m.temps, es);
}

/// Applying one event is applying a one-event sequence.
pub proof fn lemma_with_event_singleton(m: InstanceModel, e: CanvasEventView)
    ensures
        m.with_event(e) == m.with_events(seq![e]),
{
    let es = seq![e];
    assert(es.drop_last() =~= Seq::<CanvasEventView>::empty());
    assert(temps_after_events(m.temps, Seq::<CanvasEventView>::empty()) == m.temps);
    assert(durable_records(m.temps, Seq::<CanvasEventView>::empty()) == Seq::<
        CanvasEventView,
    >::empty());
    assert(es.last() == e);
    assert(m.history + es =~= m.history.push(e));
    assert(durable_records(m.temps, es) =~= (if event_persists(m.temps, e) {
        seq![e]
    } else {
        Seq::<CanvasEventView>::empty()
    }));
    assert(m.with_event(e) == m.with_events(es));
}

// ---------------------------------------------------------------------------
// The coordinator and its helpers.
// ---------------------------------------------------------------------------

/// One loaded canvas of the coordinator's table, keyed by canvas id.
pub struct CanvasEntry {
    pub canvas_id: CanvasId,
    pub instance: CanvasInstance,
}

/// The collaboration coordinator: the table of all loaded canvases.  All
/// mutation goes through the command functions, one command at a time.
pub struct CanvasSocketServer {
    pub canvases: Vec<CanvasEntry>,
}

impl CanvasSocketServer {
    /// The mathematical value of the coordinator: the loaded canvases with
    /// their ids, in load order.
    pub open spec fn entries(self) -> Seq<(Seq<char>, InstanceModel)> {
        self.canvases@.map_values(|c: CanvasEntry| (c.canvas_id@, c.instance.model()))
    }

    /// Every loaded canvas is loaded once, is well-formed, and has at
    /// least one connected session.
    pub open spec fn wf(self) -> bool {
        &&& forall|i: int, j: int|
            0 <= i < j < self.entries().len() ==> #[trigger] self.entries()[i].0
                != #[trigger] self.entries()[j].0
        &&& forall|i: int|
            0 <= i < self.entries().len() ==> (#[trigger] self.entries()[i].1).wf()
        &&& forall|i: int|
            0 <= i < self.entries().len() ==> (#[trigger] self.entries()[i].1).sessions.len() > 0
    }

    /// A coordinator with no canvas loaded.
    pub fn new() -> (s: Self)
        ensures
            s.entries() == Seq::<(Seq<char>, InstanceModel)>::empty(),
            s.wf(),
    {
        let s = CanvasSocketServer { canvases: Vec::new() };
        proof {
            assert(s.entries() =~= Seq::<(Seq<char>, InstanceModel)>::empty());
        }
        s
    }
}

/// The position of the canvas with id `canvas_id`, where one is loaded.
pub open spec fn canvas_index(entries: Seq<(Seq<char>, InstanceModel)>, canvas_id: Seq<char>) -> Option<
    int,
>
    decreases entries.len(),
{
    if entries.len() == 0 {
        None
    } else if entries[0].0 == canvas_id {
        Some(0int)
    } else {
        match canvas_index(entries.skip(1), canvas_id) {
            None => None,
            Some(i) => Some(i + 1),
        }
    }
}

/// `canvas_index` finds the first entry with the given id, and finds none
/// exactly when no entry has it.
pub proof fn lemma_canvas_index(entries: Seq<(Seq<char>, InstanceModel)>, canvas_id: Seq<char>)
    ensures
        match canvas_index(entries, canvas_id) {
            None => forall|j: int| 0 <= j < entries.len() ==> entries[j].0 != canvas_id,
            Some(i) => 0 <= i < entries.len() && entries[i].0 == canvas_id && (forall|j: int|
                0 <= j < i ==> entries[j].0 != canvas_id),
        },
    decreases entries.len(),
{
    if entries.len() > 0 && entries[0].0 != canvas_id {
        lemma_canvas_index(entries.skip(1), canvas_id);
        assert(forall|j: int|
            0 <= j < entries.skip(1).len() ==> entries.skip(1)[j] == entries[j + 1]);
        match canvas_index(entries.skip(1), canvas_id) {
            None => {
                assert forall|j: int| 0 <= j < entries.len() implies entries[j].0 != canvas_id by {
                    if j > 0 {
                        assert(entries.skip(1)[j - 1] == entries[j]);
                    }
                }
            },
            Some(i) => {
                assert(entries.skip(1)[i] == entries[i + 1]);
                assert forall|j: int| 0 <= j < i + 1 implies entries[j].0 != canvas_id by {
                    if j > 0 {
                        assert(entries.skip(1)[j - 1] == entries[j]);
                    }
                }
            },
        }
    }
}

impl CanvasSocketServer {
    /// Finds the position of a loaded canvas by id.
    #[verifier::loop_isolation(false)]
    fn find_canvas(&self, canvas_id: &CanvasId) -> (r: Option<usize>)
        ensures
            match r {
                None => canvas_index(self.entries(), canvas_id@) is None,
                Some(i) => canvas_index(self.entries(), canvas_id@) == Some(i as int),
            },
    {
        proof {
            lemma_canvas_index(self.entries(), canvas_id@);
        }
        let mut i: usize = 0;
        while i < self.canvases.len()
            invariant
                i <= self.canvases.len(),
                forall|j: int| 0 <= j < i ==> self.entries()[j].0 != canvas_id@,
            decreases self.canvases.len() - i,
        {
            if self.canvases[i].canvas_id == *canvas_id {
                proof {
                    assert(self.entries()[i as int].0 == self.canvases@[i as int].canvas_id@);
                }
                return Some(i);
            }
            proof {
                assert(self.entries()[i as int].0 == self.canvases@[i as int].canvas_id@);
            }
            i = i + 1;
        }
        None
    }

    /// Whether the canvas is currently loaded in memory.
    pub fn is_loaded(&self, canvas_id: &CanvasId) -> (r: bool)
        ensures
            r == (canvas_index(self.entries(), canvas_id@) is Some),
    {
        match self.find_canvas(canvas_id) {
            Some(_) => true,
            None => false,
        }
    }
}

/// Whether the list of shape ids holds `s`.
#[verifier::loop_isolation(false)]
fn contains_id(v: &Vec<String>, s: &String) -> (r: bool)
    ensures
        r == v@.map_values(|x: String| x@).contains(s@),
{
    let ghost ids = v@.map_values(|x: String| x@);
    let mut i: usize = 0;
    while i < v.len()
        invariant
            i <= v.len(),
            forall|j: int| 0 <= j < i ==> ids[j] != s@,
        decreases v.len() - i,
    {
        if v[i] == *s {
            proof {
                assert(ids[i as int] == v@[i as int]@);
            }
            return true;
        }
        proof {
            assert(ids[i as int] == v@[i as int]@);
        }
        i = i + 1;
    }
    proof {
        if ids.contains(s@) {
            let j = choose|j: int| 0 <= j < ids.len() && ids[j] == s@;
        }
    }
    false
}

/// Takes the first occurrence of `s` out of the list of shape ids; says
/// whether there was one.
#[verifier::loop_isolation(false)]
fn remove_first_id(v: &mut Vec<String>, s: &String) -> (r: bool)
    ensures
        r == old(v)@.map_values(|x: String| x@).contains(s@),
        final(v)@.map_values(|x: String| x@) == remove_first(
            old(v)@.map_values(|x: String| x@),
            s@,
        ),
{
    let ghost ids = old(v)@.map_values(|x: String| x@);
    let mut i: usize = 0;
    while i < v.len()
        invariant
            i <= v.len(),
            *v == *old(v),
            forall|j: int| 0 <= j < i ==> ids[j] != s@,
        decreases v.len() - i,
    {
        if v[i] == *s {
            proof {
                assert(ids[i as int] == v@[i as int]@);
                assert(ids.contains(s@));
            }
            v.remove(i);
            proof {
                lemma_remove_first_at(ids, s@, i as int);
                assert(v@.map_values(|x: String| x@) =~= ids.remove(i as int));
            }
            return true;
        }
        proof {
            assert(ids[i as int] == v@[i as int]@);
        }
        i = i + 1;
    }
    proof {
        if ids.contains(s@) {
            let j = choose|j: int| 0 <= j < ids.len() && ids[j] == s@;
        }
        lemma_remove_first_absent(ids, s@);
    }
    false
}

impl CanvasSocketServer {
    /// Applies the persist-or-skip policy to one event: a temporary
    /// `ShapeAdded` only records the shape id, a `ShapeRemoved` of a
    /// temporary shape only forgets it, every other event is appended to
    /// the durable log and produces a `Persist` effect.
    pub fn persist_event(
        canvas: &mut CanvasInstance,
        canvas_id: &CanvasId,
        event: &CanvasEvents,
        out: &mut Vec<Effect>,
    )
        ensures
            final(canvas).model() == (InstanceModel {
                temps: temps_after_event(old(canvas).model().temps, event@),
                durable: old(canvas).model().durable + (if event_persists(
                    old(canvas).model().temps,
                    event@,
                ) {
                    seq![event@]
                } else {
                    Seq::<CanvasEventView>::empty()
                }),
                ..old(canvas).model()
            }),
            effects_view(final(out)@) == effects_view(old(out)@) + (if event_persists(
                old(canvas).model().temps,
                event@,
            ) {
                seq![EffectView::Persist { canvas_id: canvas_id@, event: event@ }]
            } else {
                Seq::<EffectView>::empty()
            }),
    {
        let ghost m0 = canvas.model();
        let mut should_persist = true;
        match event {
            CanvasEvents::ShapeAdded { shape, .. } => {
                if shape.is_temporary() {
                    let id = shape.get_id();
                    if !contains_id(&canvas.temp_shapes, id) {
                        canvas.temp_shapes.push(id.clone());
                        proof {
                            assert(canvas.model().temps =~= m0.temps.push(shape@.id()));
                        }
                    }
                    should_persist = false;
                }
            },
            CanvasEvents::ShapeRemoved { shape_id, .. } => {
                if remove_first_id(&mut canvas.temp_shapes, shape_id) {
                    should_persist = false;
                }
            },
            _ => {},
        }
        if should_persist {
            canvas.durable_log.push(event.clone());
            out.push(
                Effect::Persist { canvas_id: canvas_id.clone(), event: event.clone() },
            );
            proof {
                assert(canvas.model().durable =~= m0.durable + seq![event@]);
                assert(effects_view(out@) =~= effects_view(old(out)@) + seq![
                    EffectView::Persist { canvas_id: canvas_id@, event: event@ },
                ]);
            }
        }
        proof {
            assert(final(canvas).model() =~= canvas.model());
        }
    }
}

/// The session a broadcast skips, as a mathematical value.
pub open spec fn skip_view(skip: Option<&WSSessionId>) -> Option<Seq<char>> {
    match skip {
        Some(s) => Some(s@),
        None => None,
    }
}

impl CanvasSocketServer {
    /// Broadcasts one event: one `Deliver` effect per registered session
    /// except the one named by `skip_session`, in registration order, and
    /// the event appended to the in-memory history.
    #[verifier::loop_isolation(false)]
    pub fn broadcast_event(
        canvas: &mut CanvasInstance,
        canvas_id: &CanvasId,
        skip_session: Option<&WSSessionId>,
        event: CanvasEvents,
        out: &mut Vec<Effect>,
    )
        ensures
            final(canvas).model() == (InstanceModel {
                history: old(canvas).model().history.push(event@),
                ..old(canvas).model()
            }),
            effects_view(final(out)@) == effects_view(old(out)@) + deliver_effects(
                canvas_id@,
                delivery_targets(old(canvas).model().sessions, skip_view(skip_session)),
                event@,
            ),
    {
        let ghost m0 = canvas.model();
        let ghost skipv = skip_view(skip_session);
        let mut i: usize = 0;
        while i < canvas.sessions.len()
            invariant
                i <= canvas.sessions.len(),
                *canvas == *old(canvas),
                effects_view(out@) == effects_view(old(out)@) + deliver_effects(
                    canvas_id@,
                    delivery_targets(m0.sessions.take(i as int), skipv),
                    event@,
                ),
            decreases canvas.sessions.len() - i,
        {
            let deliver = match skip_session {
                Some(skip) => canvas.sessions[i].session_id != *skip,
                None => true,
            };
            let ghost before = out@;
            if deliver {
                out.push(
                    Effect::Deliver {
                        canvas_id: canvas_id.clone(),
                        session_id: canvas.sessions[i].session_id.clone(),
                        event: event.clone(),
                    },
                );
            }
            proof {
                assert(m0.sessions[i as int] == canvas.sessions@[i as int]@);
                assert(m0.sessions.take(i as int + 1).drop_last() =~= m0.sessions.take(i as int));
                assert(m0.sessions.take(i as int + 1).last() == m0.sessions[i as int]);
                let t0 = delivery_targets(m0.sessions.take(i as int), skipv);
                let t1 = delivery_targets(m0.sessions.take(i as int + 1), skipv);
                if deliver {
                    assert(t1 =~= t0.push(m0.sessions[i as int].session_id));
                    assert(deliver_effects(canvas_id@, t1, event@) =~= deliver_effects(
                        canvas_id@,
                        t0,
                        event@,
                    ).push(
                        EffectView::Deliver {
                            canvas_id: canvas_id@,
                            session_id: m0.sessions[i as int].session_id,
                            event: event@,
                        },
                    ));
                    assert(effects_view(out@) =~= effects_view(before).push(
                        EffectView::Deliver {
                            canvas_id: canvas_id@,
                            session_id: m0.sessions[i as int].session_id,
                            event: event@,
                        },
                    ));
                } else {
                    assert(t1 =~= t0);
                }
                assert(effects_view(out@) =~= effects_view(old(out)@) + deliver_effects(
                    canvas_id@,
                    t1,
                    event@,
                ));
            }
            i = i + 1;
        }
        proof {
            assert(m0.sessions.take(canvas.sessions.len() as int) =~= m0.sessions);
        }
        canvas.event_log.push(event);
        proof {
            assert(canvas.model().history =~= m0.history.push(event@));
            assert(canvas.model() == (InstanceModel { history: m0.history.push(event@), ..m0 }));
        }
    }

    /// Privately replays the canvas's full event history, in original
    /// order, to one session alone.
    #[verifier::loop_isolation(false)]
    pub fn send_initial_state(
        canvas: &CanvasInstance,
        canvas_id: &CanvasId,
        session_id: &WSSessionId,
        out: &mut Vec<Effect>,
    )
        ensures
            effects_view(final(out)@) == effects_view(old(out)@) + history_deliveries(
                canvas_id@,
                session_id@,
                canvas.model().history,
            ),
    {
        let ghost hist = canvas.model().history;
        let mut i: usize = 0;
        while i < canvas.event_log.len()
            invariant
                i <= canvas.event_log.len(),
                effects_view(out@) == effects_view(old(out)@) + history_deliveries(
                    canvas_id@,
                    session_id@,
                    hist.take(i as int),
                ),
            decreases canvas.event_log.len() - i,
        {
            let ghost before = out@;
            out.push(
                Effect::Deliver {
                    canvas_id: canvas_id.clone(),
                    session_id: session_id.clone(),
                    event: canvas.event_log[i].clone(),
                },
            );
            proof {
                assert(hist[i as int] == canvas.event_log@[i as int]@);
                assert(hist.take(i as int + 1) =~= hist.take(i as int).push(hist[i as int]));
                assert(effects_view(out@) =~= effects_view(before).push(
                    EffectView::Deliver {
                        canvas_id: canvas_id@,
                        session_id: session_id@,
                        event: hist[i as int],
                    },
                ));
                assert(history_deliveries(canvas_id@, session_id@, hist.take(i as int + 1))
                    =~= history_deliveries(canvas_id@, session_id@, hist.take(i as int)).push(
                    EffectView::Deliver {
                        canvas_id: canvas_id@,
                        session_id: session_id@,
                        event: hist[i as int],
                    },
                ));
                assert(effects_view(out@) =~= effects_view(old(out)@) + history_deliveries(
                    canvas_id@,
                    session_id@,
                    hist.take(i as int + 1),
                ));
            }
            i = i + 1;
        }
        proof {
            assert(hist.take(canvas.event_log.len() as int) =~= hist);
        }
    }
}

/// Where the first selection of the pair stands at index `k`, removing it
/// is removing that index.
pub proof fn lemma_remove_first_selection_at(
    sel: Seq<SelectionView>,
    session_id: Seq<char>,
    shape_id: Seq<char>,
    k: int,
)
    requires
        0 <= k < sel.len(),
        sel[k].session_id == session_id && sel[k].shape_id == shape_id,
        forall|j: int|
            0 <= j < k ==> !(sel[j].session_id == session_id && sel[j].shape_id == shape_id),
    ensures
        remove_first_selection(sel, session_id, shape_id) == sel.remove(k),
    decreases k,
{
    if k == 0 {
        assert(remove_first_selection(sel, session_id, shape_id) =~= sel.remove(0));
    } else {
        lemma_remove_first_selection_at(sel.skip(1), session_id, shape_id, k - 1);
        assert(remove_first_selection(sel, session_id, shape_id) =~= sel.remove(k));
    }
}

/// Removing a pair that is not selected changes nothing.
pub proof fn lemma_remove_first_selection_absent(
    sel: Seq<SelectionView>,
    session_id: Seq<char>,
    shape_id: Seq<char>,
)
    requires
        forall|j: int|
            0 <= j < sel.len() ==> !(sel[j].session_id == session_id && sel[j].shape_id
                == shape_id),
    ensures
        remove_first_selection(sel, session_id, shape_id) == sel,
    decreases sel.len(),
{
    if sel.len() > 0 {
        assert(forall|j: int| 0 <= j < sel.skip(1).len() ==> sel.skip(1)[j] == sel[j + 1]);
        lemma_remove_first_selection_absent(sel.skip(1), session_id, shape_id);
        assert(remove_first_selection(sel, session_id, shape_id) =~= sel);
    }
}

/// Whether the selection table holds the pair.
#[verifier::loop_isolation(false)]
fn contains_selection(v: &Vec<Selection>, session_id: &WSSessionId, shape_id: &String) -> (r: bool)
    ensures
        r == v@.map_values(|s: Selection| s@).contains(
            SelectionView { session_id: session_id@, shape_id: shape_id@ },
        ),
{
    let ghost sel = v@.map_values(|s: Selection| s@);
    let mut i: usize = 0;
    while i < v.len()
        invariant
            i <= v.len(),
            forall|j: int|
                0 <= j < i ==> !(sel[j].session_id == session_id@ && sel[j].shape_id
                    == shape_id@),
        decreases v.len() - i,
    {
        if v[i].session_id == *session_id && v[i].shape_id == *shape_id {
            proof {
                assert(sel[i as int] == v@[i as int]@);
            }
            return true;
        }
        proof {
            assert(sel[i as int] == v@[i as int]@);
        }
        i = i + 1;
    }
    proof {
        if sel.contains(SelectionView { session_id: session_id@, shape_id: shape_id@ }) {
            let j = choose|j: int|
                0 <= j < sel.len() && sel[j] == (SelectionView {
                    session_id: session_id@,
                    shape_id: shape_id@,
                });
        }
    }
    false
}

/// Takes the first selection of the pair out of the table, where there is
/// one.
#[verifier::loop_isolation(false)]
fn remove_selection(v: &mut Vec<Selection>, session_id: &WSSessionId, shape_id: &String)
    ensures
        final(v)@.map_values(|s: Selection| s@) == remove_first_selection(
            old(v)@.map_values(|s: Selection| s@),
            session_id@,
            shape_id@,
        ),
{
    let ghost sel = old(v)@.map_values(|s: Selection| s@);
    let mut i: usize = 0;
    while i < v.len()
        invariant
            i <= v.len(),
            *v == *old(v),
            forall|j: int|
                0 <= j < i ==> !(sel[j].session_id == session_id@ && sel[j].shape_id
                    == shape_id@),
        decreases v.len() - i,
    {
        if v[i].session_id == *session_id && v[i].shape_id == *shape_id {
            proof {
                assert(sel[i as int] == v@[i as int]@);
            }
            v.remove(i);
            proof {
                lemma_remove_first_selection_at(sel, session_id@, shape_id@, i as int);
                assert(v@.map_values(|s: Selection| s@) =~= sel.remove(i as int));
            }
            return ;
        }
        proof {
            assert(sel[i as int] == v@[i as int]@);
        }
        i = i + 1;
    }
    proof {
        lemma_remove_first_selection_absent(sel, session_id@, shape_id@);
    }
}

impl CanvasSocketServer {
    /// Keeps the selection table in step with one event: a `ShapeSelected`
    /// records the pair, a `ShapeDeselected` forgets it, every other event
    /// leaves the table alone.
    pub fn track_selected_shapes(
        canvas: &mut CanvasInstance,
        session_id: &WSSessionId,
        event: &CanvasEvents,
    )
        ensures
            final(canvas).model() == (InstanceModel {
                selected: selections_after_event(
                    old(canvas).model().selected,
                    session_id@,
                    event@,
                ),
                ..old(canvas).model()
            }),
    {
        let ghost m0 = canvas.model();
        match event {
            CanvasEvents::ShapeSelected { shape_id, .. } => {
                if !contains_selection(&canvas.selected_shapes, session_id, shape_id) {
                    canvas.selected_shapes.push(
                        Selection { session_id: session_id.clone(), shape_id: shape_id.clone() },
                    );
                    proof {
                        assert(canvas.model().selected =~= m0.selected.push(
                            SelectionView { session_id: session_id@, shape_id: shape_id@ },
                        ));
                    }
                }
            },
            CanvasEvents::ShapeDeselected { shape_id, .. } => {
                remove_selection(&mut canvas.selected_shapes, session_id, shape_id);
            },
            _ => {},
        }
        proof {
            assert(canvas.model() == (InstanceModel {
                selected: selections_after_event(m0.selected, session_id@, event@),
                ..m0
            }));
        }
    }
}

impl CanvasSocketServer {
    /// Synthesizes one `ShapeDeselected` event per shape the session has
    /// selected, in selection order, persisting and broadcasting each
    /// (excluding the session itself), and empties the session's
    /// selections.
    #[verifier::loop_isolation(false)]
    pub fn unselect_selected_shapes(
        canvas: &mut CanvasInstance,
        canvas_id: &CanvasId,
        session_id: &WSSessionId,
        now: u64,
        out: &mut Vec<Effect>,
    )
        ensures
            final(canvas).model() == spec_unselect(
                canvas_id@,
                old(canvas).model(),
                session_id@,
                now,
            ).0,
            effects_view(final(out)@) == effects_view(old(out)@) + spec_unselect(
                canvas_id@,
                old(canvas).model(),
                session_id@,
                now,
            ).1,
    {
        let ghost m0 = canvas.model();
        let mut shapes: Vec<String> = Vec::new();
        let mut kept: Vec<Selection> = Vec::new();
        let mut i: usize = 0;
        while i < canvas.selected_shapes.len()
            invariant
                i <= canvas.selected_shapes.len(),
                *canvas == *old(canvas),
                shapes@.map_values(|x: String| x@) == shapes_of_session(
                    m0.selected.take(i as int),
                    session_id@,
                ),
                kept@.map_values(|s: Selection| s@) == without_session(
                    m0.selected.take(i as int),
                    session_id@,
                ),
            decreases canvas.selected_shapes.len() - i,
        {
            proof {
                assert(m0.selected[i as int] == canvas.selected_shapes@[i as int]@);
                assert(m0.selected.take(i as int + 1).drop_last() =~= m0.selected.take(i as int));
                assert(m0.selected.take(i as int + 1).last() == m0.selected[i as int]);
            }
            if canvas.selected_shapes[i].session_id == *session_id {
                shapes.push(canvas.selected_shapes[i].shape_id.clone());
                proof {
                    assert(shapes@.map_values(|x: String| x@) =~= shapes_of_session(
                        m0.selected.take(i as int + 1),
                        session_id@,
                    ));
                    assert(kept@.map_values(|s: Selection| s@) =~= without_session(
                        m0.selected.take(i as int + 1),
                        session_id@,
                    ));
                }
            } else {
                kept.push(canvas.selected_shapes[i].clone());
                proof {
                    assert(shapes@.map_values(|x: String| x@) =~= shapes_of_session(
                        m0.selected.take(i as int + 1),
                        session_id@,
                    ));
                    assert(kept@.map_values(|s: Selection| s@) =~= without_session(
                        m0.selected.take(i as int + 1),
                        session_id@,
                    ));
                }
            }
            i = i + 1;
        }
        proof {
            assert(m0.selected.take(canvas.selected_shapes.len() as int) =~= m0.selected);
        }
        canvas.selected_shapes = kept;
        let ghost m1 = canvas.model();
        let ghost shapes_spec = shapes_of_session(m0.selected, session_id@);
        let ghost es = deselect_events(session_id@, shapes_spec, now);
        proof {
            assert(m1 == (InstanceModel {
                selected: without_session(m0.selected, session_id@),
                ..m0
            }));
            assert(es.take(0) =~= Seq::<CanvasEventView>::empty());
            assert(m1.history + es.take(0) =~= m1.history);
            assert(m1.durable + durable_records(m1.temps, es.take(0)) =~= m1.durable);
            assert(m1.with_events(es.take(0)) == m1);
            assert(effects_view(out@) =~= effects_view(old(out)@) + events_effects(
                canvas_id@,
                m1.sessions,
                Some(session_id@),
                m1.temps,
                es.take(0),
            ));
        }
        let mut k: usize = 0;
        while k < shapes.len()
            invariant
                k <= shapes.len(),
                shapes@.map_values(|x: String| x@) == shapes_spec,
                es == deselect_events(session_id@, shapes_spec, now),
                canvas.model() == m1.with_events(es.take(k as int)),
                effects_view(out@) == effects_view(old(out)@) + events_effects(
                    canvas_id@,
                    m1.sessions,
                    Some(session_id@),
                    m1.temps,
                    es.take(k as int),
                ),
            decreases shapes.len() - k,
        {
            let ghost mk = canvas.model();
            let ghost outk = out@;
            let event = CanvasEvents::ShapeDeselected {
                origin: session_id.clone(),
                timestamp: now,
                shape_id: shapes[k].clone(),
            };
            proof {
                assert(shapes_spec[k as int] == shapes@[k as int]@);
                assert(event@ == es[k as int]);
                assert(es.take(k as int + 1).drop_last() =~= es.take(k as int));
                assert(es.take(k as int + 1).last() == es[k as int]);
            }
            Self::persist_event(canvas, canvas_id, &event, out);
            Self::broadcast_event(canvas, canvas_id, Some(session_id), event, out);
            proof {
                assert(mk.sessions == m1.sessions);
                assert(mk.temps == temps_after_events(m1.temps, es.take(k as int)));
                assert(canvas.model().history =~= m1.history + es.take(k as int + 1));
                assert(canvas.model().temps == temps_after_events(m1.temps, es.take(k as int + 1)));
                assert(canvas.model().durable =~= m1.durable + durable_records(
                    m1.temps,
                    es.take(k as int + 1),
                ));
                assert(canvas.model() == m1.with_events(es.take(k as int + 1)));
                assert(effects_view(out@) =~= effects_view(old(out)@) + events_effects(
                    canvas_id@,
                    m1.sessions,
                    Some(session_id@),
                    m1.temps,
                    es.take(k as int + 1),
                ));
            }
            k = k + 1;
        }
        proof {
            assert(es.take(shapes.len() as int) =~= es);
        }
    }
}

/// Where the first registration of the pair stands at index `k`, removing
/// it is removing that index.
pub proof fn lemma_remove_registration_at(
    sessions: Seq<RegistrationView>,
    user_id: Seq<char>,
    session_id: Seq<char>,
    k: int,
)
    requires
        0 <= k < sessions.len(),
        sessions[k].user_id == user_id && sessions[k].session_id == session_id,
        forall|j: int|
            0 <= j < k ==> !(sessions[j].user_id == user_id && sessions[j].session_id
                == session_id),
    ensures
        remove_registration(sessions, user_id, session_id) == sessions.remove(k),
    decreases k,
{
    if k == 0 {
        assert(remove_registration(sessions, user_id, session_id) =~= sessions.remove(0));
    } else {
        lemma_remove_registration_at(sessions.skip(1), user_id, session_id, k - 1);
        assert(remove_registration(sessions, user_id, session_id) =~= sessions.remove(k));
    }
}

/// Removing a pair that is not registered changes nothing.
pub proof fn lemma_remove_registration_absent(
    sessions: Seq<RegistrationView>,
    user_id: Seq<char>,
    session_id: Seq<char>,
)
    requires
        forall|j: int|
            0 <= j < sessions.len() ==> !(sessions[j].user_id == user_id
                && sessions[j].session_id == session_id),
    ensures
        remove_registration(sessions, user_id, session_id) == sessions,
    decreases sessions.len(),
{
    if sessions.len() > 0 {
        assert(forall|j: int|
            0 <= j < sessions.skip(1).len() ==> sessions.skip(1)[j] == sessions[j + 1]);
        lemma_remove_registration_absent(sessions.skip(1), user_id, session_id);
        assert(remove_registration(sessions, user_id, session_id) =~= sessions);
    }
}

/// Registers the session `(user_id, session_id)` where it is not yet
/// registered.
#[verifier::loop_isolation(false)]
fn register_session_exec(canvas: &mut CanvasInstance, user_id: &UserId, session_id: &WSSessionId)
    ensures
        final(canvas).model() == (InstanceModel {
            sessions: register_session(old(canvas).model().sessions, user_id@, session_id@),
            ..old(canvas).model()
        }),
{
    let ghost m0 = canvas.model();
    let mut i: usize = 0;
    while i < canvas.sessions.len()
        invariant
            i <= canvas.sessions.len(),
            *canvas == *old(canvas),
            forall|j: int|
                0 <= j < i ==> !(m0.sessions[j].user_id == user_id@
                    && m0.sessions[j].session_id == session_id@),
        decreases canvas.sessions.len() - i,
    {
        if canvas.sessions[i].user_id == *user_id && canvas.sessions[i].session_id == *session_id {
            proof {
                assert(m0.sessions[i as int] == canvas.sessions@[i as int]@);
                assert(has_registration(m0.sessions, user_id@, session_id@));
            }
            return ;
        }
        proof {
            assert(m0.sessions[i as int] == canvas.sessions@[i as int]@);
        }
        i = i + 1;
    }
    proof {
        if has_registration(m0.sessions, user_id@, session_id@) {
            let j = choose|j: int|
                0 <= j < m0.sessions.len() && m0.sessions[j] == (RegistrationView {
                    user_id: user_id@,
                    session_id: session_id@,
                });
        }
    }
    canvas.sessions.push(
        Registration { user_id: user_id.clone(), session_id: session_id.clone() },
    );
    proof {
        assert(canvas.model().sessions =~= m0.sessions.push(
            RegistrationView { user_id: user_id@, session_id: session_id@ },
        ));
    }
}

/// Deregisters the session `(user_id, session_id)`.
#[verifier::loop_isolation(false)]
fn remove_session(canvas: &mut CanvasInstance, user_id: &UserId, session_id: &WSSessionId)
    ensures
        final(canvas).model() == (InstanceModel {
            sessions: remove_registration(old(canvas).model().sessions, user_id@, session_id@),
            ..old(canvas).model()
        }),
{
    let ghost m0 = canvas.model();
    let mut i: usize = 0;
    while i < canvas.sessions.len()
        invariant
            i <= canvas.sessions.len(),
            *canvas == *old(canvas),
            forall|j: int|
                0 <= j < i ==> !(m0.sessions[j].user_id == user_id@
                    && m0.sessions[j].session_id == session_id@),
        decreases canvas.sessions.len() - i,
    {
        if canvas.sessions[i].user_id == *user_id && canvas.sessions[i].session_id == *session_id {
            proof {
                assert(m0.sessions[i as int] == canvas.sessions@[i as int]@);
            }
            canvas.sessions.remove(i);
            proof {
                lemma_remove_registration_at(m0.sessions, user_id@, session_id@, i as int);
                assert(canvas.model().sessions =~= m0.sessions.remove(i as int));
            }
            return ;
        }
        proof {
            assert(m0.sessions[i as int] == canvas.sessions@[i as int]@);
        }
        i = i + 1;
    }
    proof {
        lemma_remove_registration_absent(m0.sessions, user_id@, session_id@);
    }
}

/// Copies a list of events; the copy carries the same mathematical value.
#[verifier::loop_isolation(false)]
fn clone_events(v: &Vec<CanvasEvents>) -> (r: Vec<CanvasEvents>)
    ensures
        r@.map_values(|e: CanvasEvents| e@) == v@.map_values(|e: CanvasEvents| e@),
{
    let mut r: Vec<CanvasEvents> = Vec::new();
    let mut i: usize = 0;
    while i < v.len()
        invariant
            i <= v.len(),
            r@.map_values(|e: CanvasEvents| e@) == v@.map_values(|e: CanvasEvents| e@).take(
                i as int,
            ),
        decreases v.len() - i,
    {
        r.push(v[i].clone());
        proof {
            assert(r@.map_values(|e: CanvasEvents| e@) =~= v@.map_values(
                |e: CanvasEvents| e@,
            ).take(i as int + 1));
        }
        i = i + 1;
    }
    proof {
        assert(v@.map_values(|e: CanvasEvents| e@).take(v@.len() as int) =~= v@.map_values(
            |e: CanvasEvents| e@,
        ));
    }
    r
}

/// What the surrounding process found when it opened and replayed a
/// canvas's durable log and asked the directory for the canvas: either
/// both, or some step of the load failed.
pub enum LoadOutcome {
    /// The log replayed to `events` and the directory returned `canvas`.
    Loaded { events: Vec<CanvasEvents>, canvas: Canvas },
    /// The log could not be read or decoded, or the canvas is unknown.
    Failed,
}

/// The model of a canvas the moment it is loaded: no sessions, no
/// selections, no temporary shapes, and the replayed records as both the
/// history and the durable log.
pub open spec fn loaded_model(events: Seq<CanvasEventView>, canvas: CanvasView) -> InstanceModel {
    InstanceModel {
        sessions: Seq::empty(),
        selected: Seq::empty(),
        temps: Seq::empty(),
        history: events,
        durable: events,
        inner: canvas,
        loaded: events,
    }
}

impl CanvasSocketServer {
    /// Registers a session with a canvas.  Where the canvas is not loaded,
    /// the caller hands in the outcome of loading it (`load`); a failed
    /// load answers the requester with a single failure frame and mutates
    /// nothing.  Otherwise the session is registered, `UserJoined` is
    /// persisted and broadcast to everyone else, and the full history is
    /// privately replayed to the joining session.
    pub fn connect(
        &mut self,
        canvas_id: &CanvasId,
        user_id: &UserId,
        username: &String,
        session_id: &WSSessionId,
        now: u64,
        load: Option<LoadOutcome>,
    ) -> (out: Vec<Effect>)
        requires
            old(self).wf(),
            canvas_index(old(self).entries(), canvas_id@) is None ==> load is Some,
        ensures
            final(self).wf(),
            match canvas_index(old(self).entries(), canvas_id@) {
                Some(ci) => {
                    let stepped = spec_connect_session(
                        canvas_id@,
                        old(self).entries()[ci].1,
                        user_id@,
                        username@,
                        session_id@,
                        now,
                    );
                    final(self).entries() == old(self).entries().update(
                        ci,
                        (old(self).entries()[ci].0, stepped.0),
                    ) && effects_view(out@) == stepped.1
                },
                None => match load {
                    Some(LoadOutcome::Loaded { events, canvas }) => {
                        let m0 = loaded_model(
                            events@.map_values(|e: CanvasEvents| e@),
                            canvas@,
                        );
                        let stepped = spec_connect_session(
                            canvas_id@,
                            m0,
                            user_id@,
                            username@,
                            session_id@,
                            now,
                        );
                        final(self).entries() == old(self).entries().push(
                            (canvas_id@, stepped.0),
                        ) && effects_view(out@) == stepped.1
                    },
                    Some(LoadOutcome::Failed) => final(self).entries() == old(self).entries()
                        && effects_view(out@) =~= seq![
                        EffectView::ConnectionFailed { message: "Connection failed"@ },
                    ],
                    None => true,
                },
            },
    {
        let mut out: Vec<Effect> = Vec::new();
        let found = self.find_canvas(canvas_id);
        proof {
            lemma_canvas_index(self.entries(), canvas_id@);
        }
        match found {
            Some(i) => {
                let ghost m = self.entries()[i as int].1;
                proof {
                    assert(self.entries()[i as int] == (self.canvases@[i as int].canvas_id@,
                        self.canvases@[i as int].instance.model()));
                }
                let mut entry = self.canvases.remove(i);
                proof {
                    assert(entry.instance.model() == m);
                }
                Self::connect_session(&mut entry, canvas_id, user_id, username, session_id, now, &mut out);
                let ghost stepped = spec_connect_session(
                    canvas_id@,
                    m,
                    user_id@,
                    username@,
                    session_id@,
                    now,
                );
                self.canvases.insert(i, entry);
                proof {
                    assert(self.entries() =~= old(self).entries().update(
                        i as int,
                        (old(self).entries()[i as int].0, stepped.0),
                    ));
                    lemma_wf_connect_session(canvas_id@, m, user_id@, username@, session_id@, now);
                    assert(stepped.0.sessions.len() > 0) by {
                        assert(m.sessions.len() > 0);
                    }
                    assert forall|a: int, b: int|
                        0 <= a < b < self.entries().len() implies #[trigger] self.entries()[a].0
                        != #[trigger] self.entries()[b].0 by {
                        assert(old(self).entries()[a].0 == self.entries()[a].0);
                        assert(old(self).entries()[b].0 == self.entries()[b].0);
                    }
                }
                out
            },
            None => {
                match load {
                    Some(LoadOutcome::Loaded { events, canvas }) => {
                        let durable_copy = clone_events(&events);
                        let ghost evs = events@.map_values(|e: CanvasEvents| e@);
                        let mut entry = CanvasEntry {
                            canvas_id: canvas_id.clone(),
                            instance: CanvasInstance {
                                sessions: Vec::new(),
                                selected_shapes: Vec::new(),
                                temp_shapes: Vec::new(),
                                event_log: events,
                                durable_log: durable_copy,
                                inner: canvas,
                                loaded: Ghost(evs),
                            },
                        };
                        let ghost m0 = loaded_model(evs, entry.instance.inner@);
                        proof {
                            assert(entry.instance.model().sessions =~= m0.sessions);
                            assert(entry.instance.model().selected =~= m0.selected);
                            assert(entry.instance.model().temps =~= m0.temps);
                            assert(entry.instance.model() == m0);
                        }
                        Self::connect_session(&mut entry, canvas_id, user_id, username, session_id, now, &mut out);
                        let ghost stepped = spec_connect_session(
                            canvas_id@,
                            m0,
                            user_id@,
                            username@,
                            session_id@,
                            now,
                        );
                        self.canvases.push(entry);
                        proof {
                            assert(self.entries() =~= old(self).entries().push(
                                (canvas_id@, stepped.0),
                            ));
                            assert(m0.wf()) by {
                                assert(m0.history.take(m0.loaded.len() as int) =~= m0.loaded);
                                assert(m0.suffix() =~= Seq::<CanvasEventView>::empty());
                                assert(m0.durable =~= m0.loaded + durable_records(
                                    Seq::empty(),
                                    m0.suffix(),
                                ));
                            }
                            lemma_wf_connect_session(
                                canvas_id@,
                                m0,
                                user_id@,
                                username@,
                                session_id@,
                                now,
                            );
                            assert(stepped.0.sessions.len() > 0) by {
                                assert(!has_registration(m0.sessions, user_id@, session_id@));
                            }
                            lemma_canvas_index(old(self).entries(), canvas_id@);
                            assert forall|a: int, b: int|
                                0 <= a < b < self.entries().len() implies #[trigger] self.entries()[a].0
                                != #[trigger] self.entries()[b].0 by {
                                if b == self.entries().len() - 1 {
                                    assert(self.entries()[a] == old(self).entries()[a]);
                                    assert(self.entries()[b].0 == canvas_id@);
                                } else {
                                    assert(self.entries()[a] == old(self).entries()[a]);
                                    assert(self.entries()[b] == old(self).entries()[b]);
                                }
                            }
                        }
                        out
                    },
                    Some(LoadOutcome::Failed) => {
                        out.push(
                            Effect::ConnectionFailed { message: "Connection failed".to_owned() },
                        );
                        proof {
                            assert(effects_view(out@) =~= seq![
                                EffectView::ConnectionFailed { message: "Connection failed"@ },
                            ]);
                        }
                        out
                    },
                    None => {
                        proof {
                            assert(false);
                        }
                        out
                    },
                }
            },
        }
    }

    /// Registers the session on one loaded canvas and produces the join
    /// effects: registration, the `UserJoined` broadcast, and the private
    /// history replay.
    fn connect_session(
        entry: &mut CanvasEntry,
        canvas_id: &CanvasId,
        user_id: &UserId,
        username: &String,
        session_id: &WSSessionId,
        now: u64,
        out: &mut Vec<Effect>,
    )
        ensures
            final(entry).canvas_id == old(entry).canvas_id,
            final(entry).instance.model() == spec_connect_session(
                canvas_id@,
                old(entry).instance.model(),
                user_id@,
                username@,
                session_id@,
                now,
            ).0,
            effects_view(final(out)@) == effects_view(old(out)@) + spec_connect_session(
                canvas_id@,
                old(entry).instance.model(),
                user_id@,
                username@,
                session_id@,
                now,
            ).1,
    {
        let ghost m = entry.instance.model();
        out.push(
            Effect::Register {
                canvas_id: canvas_id.clone(),
                user_id: user_id.clone(),
                session_id: session_id.clone(),
            },
        );
        register_session_exec(&mut entry.instance, user_id, session_id);
        let ghost m1 = entry.instance.model();
        let event = CanvasEvents::UserJoined {
            timestamp: now,
            user_id: user_id.clone(),
            username: username.clone(),
            session_id: session_id.clone(),
            access_level: AccessLevel::Owner,
        };
        let ghost joined = event@;
        Self::persist_event(&mut entry.instance, canvas_id, &event, out);
        Self::broadcast_event(&mut entry.instance, canvas_id, Some(session_id), event, out);
        Self::send_initial_state(&entry.instance, canvas_id, session_id, out);
        proof {
            let stepped = spec_connect_session(
                canvas_id@,
                m,
                user_id@,
                username@,
                session_id@,
                now,
            );
            assert(entry.instance.model() == stepped.0);
            assert(effects_view(out@) =~= effects_view(old(out)@) + stepped.1);
        }
    }
}

/// Registering a session and handling the join event keeps the model
/// well-formed.
pub proof fn lemma_wf_connect_session(
    canvas_id: Seq<char>,
    m: InstanceModel,
    user_id: Seq<char>,
    username: Seq<char>,
    session_id: Seq<char>,
    now: u64,
)
    requires
        m.wf(),
    ensures
        spec_connect_session(canvas_id, m, user_id, username, session_id, now).0.wf(),
        spec_connect_session(canvas_id, m, user_id, username, session_id, now).0.sessions
            == register_session(m.sessions, user_id, session_id),
{
    let m1 = InstanceModel {
        sessions: register_session(m.sessions, user_id, session_id),
        ..m
    };
    let joined = CanvasEventView::UserJoined {
        timestamp: now,
        user_id: user_id,
        username: username,
        session_id: session_id,
        access_level: AccessLevel::Owner,
    };
    lemma_with_event_singleton(m1, joined);
    lemma_wf_with_events(m1, seq![joined]);
}

/// Disconnecting a session keeps the model well-formed.
pub proof fn lemma_wf_disconnect_session(
    canvas_id: Seq<char>,
    m: InstanceModel,
    user_id: Seq<char>,
    session_id: Seq<char>,
    now: u64,
)
    requires
        m.wf(),
    ensures
        spec_disconnect_session(canvas_id, m, user_id, session_id, now).0.wf(),
{
    let m1 = InstanceModel { selected: without_session(m.selected, session_id), ..m };
    let es = deselect_events(session_id, shapes_of_session(m.selected, session_id), now);
    lemma_wf_with_events(m1, es);
    let m2 = InstanceModel {
        sessions: remove_registration(m1.with_events(es).sessions, user_id, session_id),
        ..m1.with_events(es)
    };
    let left = CanvasEventView::UserLeft {
        timestamp: now,
        user_id: user_id,
        session_id: session_id,
    };
    lemma_with_event_singleton(m2, left);
    lemma_wf_with_events(m2, seq![left]);
}

/// Handling one client event keeps the model well-formed.
pub proof fn lemma_wf_handle_message(
    canvas_id: Seq<char>,
    m: InstanceModel,
    user_id: Seq<char>,
    session_id: Seq<char>,
    e: CanvasEventView,
)
    requires
        m.wf(),
    ensures
        spec_handle_message(canvas_id, m, user_id, session_id, e).0.wf(),
        spec_handle_message(canvas_id, m, user_id, session_id, e).0.sessions == m.sessions,
{
    if permitted(access_of(m.inner.users, user_id), m.inner.state) {
        let m1 = InstanceModel {
            selected: selections_after_event(m.selected, session_id, e),
            ..m
        };
        lemma_with_event_singleton(m1, e);
        lemma_wf_with_events(m1, seq![e]);
    }
}

/// Upserting an access level keeps the model well-formed.
pub proof fn lemma_wf_update_access_level(
    canvas_id: Seq<char>,
    m: InstanceModel,
    user_id: Seq<char>,
    access_level: AccessLevel,
    now: u64,
)
    requires
        m.wf(),
    ensures
        spec_update_access_level(canvas_id, m, user_id, access_level, now).0.wf(),
        spec_update_access_level(canvas_id, m, user_id, access_level, now).0.sessions
            == m.sessions,
{
    let m1 = InstanceModel {
        inner: CanvasView {
            users: crate::canvas::store::upsert_membership(
                m.inner.users,
                crate::canvas::store::MembershipView { user_id: user_id, access_level },
            ),
            ..m.inner
        },
        ..m
    };
    let e = CanvasEventView::UserAccessLevelChanged {
        timestamp: now,
        user_id: user_id,
        access_level,
    };
    lemma_with_event_singleton(m1, e);
    lemma_wf_with_events(m1, seq![e]);
}

/// Replacing the canvas mode keeps the model well-formed.
pub proof fn lemma_wf_update_canvas_state(
    canvas_id: Seq<char>,
    m: InstanceModel,
    state: CanvasState,
    initiator_id: Seq<char>,
    now: u64,
)
    requires
        m.wf(),
    ensures
        spec_update_canvas_state(canvas_id, m, state, initiator_id, now).0.wf(),
        spec_update_canvas_state(canvas_id, m, state, initiator_id, now).0.sessions == m.sessions,
{
    let m1 = InstanceModel { inner: CanvasView { state, ..m.inner }, ..m };
    let e = CanvasEventView::CanvasStateChanged {
        timestamp: now,
        state,
        initiator_id: initiator_id,
    };
    lemma_with_event_singleton(m1, e);
    lemma_wf_with_events(m1, seq![e]);
}

impl CanvasSocketServer {
    /// Whether a client may author this event itself: the membership and
    /// mode events are reserved for the server.
    pub fn message_allowed(event: &CanvasEvents) -> (r: bool)
        ensures
            r == event@.is_client_authorable(),
    {
        !(matches!(event, CanvasEvents::UserJoined { .. }) || matches!(
            event,
            CanvasEvents::UserLeft { .. },
        ) || matches!(event, CanvasEvents::UserAccessLevelChanged { .. }) || matches!(
            event,
            CanvasEvents::CanvasStateChanged { .. },
        ))
    }

    /// Whether the user may submit a mutating event to this canvas, by the
    /// write-permission table over the user's access level and the canvas
    /// mode.
    pub fn validate_permissions(canvas: &CanvasInstance, user_id: &UserId) -> (r: bool)
        ensures
            r == permitted(
                access_of(canvas.model().inner.users, user_id@),
                canvas.model().inner.state,
            ),
    {
        let access_level = canvas.inner.access_level_of(user_id);
        match (access_level, canvas.inner.state) {
            (AccessLevel::Owner, _) => true,
            (AccessLevel::Moderate, _) => true,
            (AccessLevel::Voice, _) => true,
            (AccessLevel::Write, CanvasState::Active) => true,
            (_, _) => false,
        }
    }

    /// Deregisters a session: every shape it had selected is deselected
    /// (persisted and broadcast, excluding the session), the session is
    /// removed, `UserLeft` is persisted and broadcast to the remaining
    /// sessions, and a canvas left with no sessions is evicted from
    /// memory.
    pub fn disconnect(
        &mut self,
        canvas_id: &CanvasId,
        user_id: &UserId,
        session_id: &WSSessionId,
        now: u64,
    ) -> (out: Vec<Effect>)
        requires
            old(self).wf(),
        ensures
            final(self).wf(),
            match canvas_index(old(self).entries(), canvas_id@) {
                None => final(self).entries() == old(self).entries() && out@.len() == 0,
                Some(ci) => ({
                    let stepped = spec_disconnect_session(
                        canvas_id@,
                        old(self).entries()[ci].1,
                        user_id@,
                        session_id@,
                        now,
                    );
                    &&& final(self).entries() == (if stepped.2 {
                        old(self).entries().remove(ci)
                    } else {
                        old(self).entries().update(ci, (old(self).entries()[ci].0, stepped.0))
                    })
                    &&& effects_view(out@) == stepped.1 + (if stepped.2 {
                        seq![EffectView::EvictCanvas { canvas_id: canvas_id@ }]
                    } else {
                        Seq::<EffectView>::empty()
                    })
                }),
            },
    {
        let mut out: Vec<Effect> = Vec::new();
        let found = self.find_canvas(canvas_id);
        proof {
            lemma_canvas_index(self.entries(), canvas_id@);
        }
        match found {
            None => out,
            Some(i) => {
                let ghost m = self.entries()[i as int].1;
                proof {
                    assert(self.entries()[i as int] == (self.canvases@[i as int].canvas_id@,
                        self.canvases@[i as int].instance.model()));
                }
                let mut entry = self.canvases.remove(i);
                let ghost stepped = spec_disconnect_session(
                    canvas_id@,
                    m,
                    user_id@,
                    session_id@,
                    now,
                );
                Self::unselect_selected_shapes(
                    &mut entry.instance,
                    canvas_id,
                    session_id,
                    now,
                    &mut out,
                );
                remove_session(&mut entry.instance, user_id, session_id);
                out.push(
                    Effect::Unregister {
                        canvas_id: canvas_id.clone(),
                        session_id: session_id.clone(),
                    },
                );
                let ghost m2 = entry.instance.model();
                let event = CanvasEvents::UserLeft {
                    timestamp: now,
                    user_id: user_id.clone(),
                    session_id: session_id.clone(),
                };
                Self::persist_event(&mut entry.instance, canvas_id, &event, &mut out);
                Self::broadcast_event(&mut entry.instance, canvas_id, Some(session_id), event, &mut out);
                proof {
                    assert(entry.instance.model() == stepped.0);
                    assert(effects_view(out@) =~= stepped.1);
                    lemma_wf_disconnect_session(canvas_id@, m, user_id@, session_id@, now);
                }
                if entry.instance.sessions.len() == 0 {
                    out.push(Effect::EvictCanvas { canvas_id: canvas_id.clone() });
                    proof {
                        assert(stepped.2);
                        assert(self.entries() =~= old(self).entries().remove(i as int));
                        assert(effects_view(out@) =~= stepped.1 + seq![
                            EffectView::EvictCanvas { canvas_id: canvas_id@ },
                        ]);
                        assert forall|a: int, b: int|
                            0 <= a < b < self.entries().len() implies #[trigger] self.entries()[a].0
                            != #[trigger] self.entries()[b].0 by {
                            let oa = if a < i as int {
                                a
                            } else {
                                a + 1
                            };
                            let ob = if b < i as int {
                                b
                            } else {
                                b + 1
                            };
                            assert(self.entries()[a] == old(self).entries()[oa]);
                            assert(self.entries()[b] == old(self).entries()[ob]);
                        }
                        assert forall|a: int| 0 <= a < self.entries().len() implies (
                        #[trigger] self.entries()[a].1).wf() && self.entries()[a].1.sessions.len()
                            > 0 by {
                            let oa = if a < i as int {
                                a
                            } else {
                                a + 1
                            };
                            assert(self.entries()[a] == old(self).entries()[oa]);
                        }
                    }
                } else {
                    self.canvases.insert(i, entry);
                    proof {
                        assert(!stepped.2);
                        assert(self.entries() =~= old(self).entries().update(
                            i as int,
                            (old(self).entries()[i as int].0, stepped.0),
                        ));
                        assert forall|a: int, b: int|
                            0 <= a < b < self.entries().len() implies #[trigger] self.entries()[a].0
                            != #[trigger] self.entries()[b].0 by {
                            assert(old(self).entries()[a].0 == self.entries()[a].0);
                            assert(old(self).entries()[b].0 == self.entries()[b].0);
                        }
                    }
                }
                out
            },
        }
    }

    /// Handles one client-authored event: server-only event kinds are
    /// rejected, events for unloaded canvases are dropped, permission is
    /// checked against the membership table and the canvas mode, and an
    /// approved event updates selection tracking, is persisted per the
    /// temporary-shape policy, and is broadcast to every session except
    /// the originating one.  A denied or undecodable event is silently
    /// dropped.
    pub fn handle_message(
        &mut self,
        canvas_id: &CanvasId,
        user_id: &UserId,
        session_id: &WSSessionId,
        event: CanvasEvents,
    ) -> (out: Vec<Effect>)
        requires
            old(self).wf(),
        ensures
            final(self).wf(),
            if !event@.is_client_authorable() {
                final(self).entries() == old(self).entries() && out@.len() == 0
            } else {
                match canvas_index(old(self).entries(), canvas_id@) {
                    None => final(self).entries() == old(self).entries() && out@.len() == 0,
                    Some(ci) => ({
                        let stepped = spec_handle_message(
                            canvas_id@,
                            old(self).entries()[ci].1,
                            user_id@,
                            session_id@,
                            event@,
                        );
                        &&& final(self).entries() == old(self).entries().update(
                            ci,
                            (old(self).entries()[ci].0, stepped.0),
                        )
                        &&& effects_view(out@) == stepped.1
                    }),
                }
            },
    {
        let mut out: Vec<Effect> = Vec::new();
        if !Self::message_allowed(&event) {
            return out;
        }
        let found = self.find_canvas(canvas_id);
        proof {
            lemma_canvas_index(self.entries(), canvas_id@);
        }
        match found {
            None => out,
            Some(i) => {
                let ghost m = self.entries()[i as int].1;
                proof {
                    assert(self.entries()[i as int] == (self.canvases@[i as int].canvas_id@,
                        self.canvases@[i as int].instance.model()));
                }
                let ghost stepped = spec_handle_message(
                    canvas_id@,
                    m,
                    user_id@,
                    session_id@,
                    event@,
                );
                if !Self::validate_permissions(&self.canvases[i].instance, user_id) {
                    proof {
                        assert(stepped.0 == m);
                        assert(old(self).entries().update(
                            i as int,
                            (old(self).entries()[i as int].0, stepped.0),
                        ) =~= old(self).entries());
                    }
                    out
                } else {
                    let mut entry = self.canvases.remove(i);
                    Self::track_selected_shapes(&mut entry.instance, session_id, &event);
                    Self::persist_event(&mut entry.instance, canvas_id, &event, &mut out);
                    Self::broadcast_event(&mut entry.instance, canvas_id, Some(session_id), event, &mut out);
                    proof {
                        assert(entry.instance.model() == stepped.0);
                        assert(effects_view(out@) =~= stepped.1);
                    }
                    self.canvases.insert(i, entry);
                    proof {
                        assert(self.entries() =~= old(self).entries().update(
                            i as int,
                            (old(self).entries()[i as int].0, stepped.0),
                        ));
                        lemma_wf_handle_message(canvas_id@, m, user_id@, session_id@, event@);
                        assert forall|a: int, b: int|
                            0 <= a < b < self.entries().len() implies #[trigger] self.entries()[a].0
                            != #[trigger] self.entries()[b].0 by {
                            assert(old(self).entries()[a].0 == self.entries()[a].0);
                            assert(old(self).entries()[b].0 == self.entries()[b].0);
                        }
                    }
                    out
                }
            },
        }
    }

    /// Upserts a user's access level in the canvas's membership table and
    /// persists and broadcasts `UserAccessLevelChanged` to every session,
    /// none excluded.
    pub fn update_user_access_level(
        &mut self,
        canvas_id: &CanvasId,
        user_id: &UserId,
        access_level: AccessLevel,
        now: u64,
    ) -> (out: Vec<Effect>)
        requires
            old(self).wf(),
        ensures
            final(self).wf(),
            match canvas_index(old(self).entries(), canvas_id@) {
                None => final(self).entries() == old(self).entries() && out@.len() == 0,
                Some(ci) => ({
                    let stepped = spec_update_access_level(
                        canvas_id@,
                        old(self).entries()[ci].1,
                        user_id@,
                        access_level,
                        now,
                    );
                    &&& final(self).entries() == old(self).entries().update(
                        ci,
                        (old(self).entries()[ci].0, stepped.0),
                    )
                    &&& effects_view(out@) == stepped.1
                }),
            },
    {
        let mut out: Vec<Effect> = Vec::new();
        let found = self.find_canvas(canvas_id);
        proof {
            lemma_canvas_index(self.entries(), canvas_id@);
        }
        match found {
            None => out,
            Some(i) => {
                let ghost m = self.entries()[i as int].1;
                proof {
                    assert(self.entries()[i as int] == (self.canvases@[i as int].canvas_id@,
                        self.canvases@[i as int].instance.model()));
                }
                let ghost stepped = spec_update_access_level(
                    canvas_id@,
                    m,
                    user_id@,
                    access_level,
                    now,
                );
                let mut entry = self.canvases.remove(i);
                let event = CanvasEvents::UserAccessLevelChanged {
                    timestamp: now,
                    user_id: user_id.clone(),
                    access_level,
                };
                entry.instance.inner.upsert_access_level(user_id, access_level);
                Self::persist_event(&mut entry.instance, canvas_id, &event, &mut out);
                Self::broadcast_event(&mut entry.instance, canvas_id, None, event, &mut out);
                proof {
                    assert(entry.instance.model() == stepped.0);
                    assert(effects_view(out@) =~= stepped.1);
                }
                self.canvases.insert(i, entry);
                proof {
                    assert(self.entries() =~= old(self).entries().update(
                        i as int,
                        (old(self).entries()[i as int].0, stepped.0),
                    ));
                    lemma_wf_update_access_level(canvas_id@, m, user_id@, access_level, now);
                    assert forall|a: int, b: int|
                        0 <= a < b < self.entries().len() implies #[trigger] self.entries()[a].0
                        != #[trigger] self.entries()[b].0 by {
                        assert(old(self).entries()[a].0 == self.entries()[a].0);
                        assert(old(self).entries()[b].0 == self.entries()[b].0);
                    }
                }
                out
            },
        }
    }

    /// Replaces the canvas's mode and persists and broadcasts
    /// `CanvasStateChanged` to every session, none excluded.
    pub fn update_canvas_state(
        &mut self,
        canvas_id: &CanvasId,
        state: CanvasState,
        initiator_id: &UserId,
        now: u64,
    ) -> (out: Vec<Effect>)
        requires
            old(self).wf(),
        ensures
            final(self).wf(),
            match canvas_index(old(self).entries(), canvas_id@) {
                None => final(self).entries() == old(self).entries() && out@.len() == 0,
                Some(ci) => ({
                    let stepped = spec_update_canvas_state(
                        canvas_id@,
                        old(self).entries()[ci].1,
                        state,
                        initiator_id@,
                        now,
                    );
                    &&& final(self).entries() == old(self).entries().update(
                        ci,
                        (old(self).entries()[ci].0, stepped.0),
                    )
                    &&& effects_view(out@) == stepped.1
                }),
            },
    {
        let mut out: Vec<Effect> = Vec::new();
        let found = self.find_canvas(canvas_id);
        proof {
            lemma_canvas_index(self.entries(), canvas_id@);
        }
        match found {
            None => out,
            Some(i) => {
                let ghost m = self.entries()[i as int].1;
                proof {
                    assert(self.entries()[i as int] == (self.canvases@[i as int].canvas_id@,
                        self.canvases@[i as int].instance.model()));
                }
                let ghost stepped = spec_update_canvas_state(
                    canvas_id@,
                    m,
                    state,
                    initiator_id@,
                    now,
                );
                let mut entry = self.canvases.remove(i);
                entry.instance.inner.state = state;
                let event = CanvasEvents::CanvasStateChanged {
                    timestamp: now,
                    state,
                    initiator_id: initiator_id.clone(),
                };
                Self::persist_event(&mut entry.instance, canvas_id, &event, &mut out);
                Self::broadcast_event(&mut entry.instance, canvas_id, None, event, &mut out);
                proof {
                    assert(entry.instance.model() == stepped.0);
                    assert(effects_view(out@) =~= stepped.1);
                }
                self.canvases.insert(i, entry);
                proof {
                    assert(self.entries() =~= old(self).entries().update(
                        i as int,
                        (old(self).entries()[i as int].0, stepped.0),
                    ));
                    lemma_wf_update_canvas_state(canvas_id@, m, state, initiator_id@, now);
                    assert forall|a: int, b: int|
                        0 <= a < b < self.entries().len() implies #[trigger] self.entries()[a].0
                        != #[trigger] self.entries()[b].0 by {
                        assert(old(self).entries()[a].0 == self.entries()[a].0);
                        assert(old(self).entries()[b].0 == self.entries()[b].0);
                    }
                }
                out
            },
        }
    }
}

/// A command for the coordinator.  Commands arrive over an
/// order-preserving queue and are handled one at a time; their order is
/// the total order of the room's events.
#[derive(Debug)]
pub enum Command {
    /// Register a session, loading the canvas first where necessary.
    Connect { canvas_id: CanvasId, user_id: UserId, username: String, session_id: WSSessionId },
    /// Deregister a session.
    Disconnect { canvas_id: CanvasId, user_id: UserId, session_id: WSSessionId },
    /// Handle one inbound client frame; `event` is the decoded frame, or
    /// `None` where it did not decode as an event.
    HandleMessage {
        canvas_id: CanvasId,
        user_id: UserId,
        session_id: WSSessionId,
        event: Option<CanvasEvents>,
    },
    /// Upsert a user's access level.
    UpdateUserAccessLevel { canvas_id: CanvasId, user_id: UserId, access_level: AccessLevel },
    /// Replace the canvas mode.
    UpdateCanvasState { canvas_id: CanvasId, initiator_id: UserId, state: CanvasState },
}

/// The coordinator's transition relation: what one command, handled at
/// clock value `now` with load outcome `load`, does to the table of loaded
/// canvases (`pre` to `post`) and which effects it produces.
pub open spec fn command_step(
    pre: Seq<(Seq<char>, InstanceModel)>,
    post: Seq<(Seq<char>, InstanceModel)>,
    effs: Seq<EffectView>,
    cmd: Command,
    now: u64,
    load: Option<LoadOutcome>,
) -> bool {
    match cmd {
        Command::Connect { canvas_id, user_id, username, session_id } => match canvas_index(
            pre,
            canvas_id@,
        ) {
            Some(ci) => {
                let stepped = spec_connect_session(
                    canvas_id@,
                    pre[ci].1,
                    user_id@,
                    username@,
                    session_id@,
                    now,
                );
                post == pre.update(ci, (pre[ci].0, stepped.0)) && effs == stepped.1
            },
            None => match load {
                Some(LoadOutcome::Loaded { events, canvas }) => {
                    let m0 = loaded_model(events@.map_values(|e: CanvasEvents| e@), canvas@);
                    let stepped = spec_connect_session(
                        canvas_id@,
                        m0,
                        user_id@,
                        username@,
                        session_id@,
                        now,
                    );
                    post == pre.push((canvas_id@, stepped.0)) && effs == stepped.1
                },
                Some(LoadOutcome::Failed) => post == pre && effs == seq![
                    EffectView::ConnectionFailed { message: "Connection failed"@ },
                ],
                None => true,
            },
        },
        Command::Disconnect { canvas_id, user_id, session_id } => match canvas_index(
            pre,
            canvas_id@,
        ) {
            None => post == pre && effs.len() == 0,
            Some(ci) => {
                let stepped = spec_disconnect_session(
                    canvas_id@,
                    pre[ci].1,
                    user_id@,
                    session_id@,
                    now,
                );
                &&& post == (if stepped.2 {
                    pre.remove(ci)
                } else {
                    pre.update(ci, (pre[ci].0, stepped.0))
                })
                &&& effs == stepped.1 + (if stepped.2 {
                    seq![EffectView::EvictCanvas { canvas_id: canvas_id@ }]
                } else {
                    Seq::<EffectView>::empty()
                })
            },
        },
        Command::HandleMessage { canvas_id, user_id, session_id, event } => match event {
            None => post == pre && effs == seq![EffectView::Acknowledge],
            Some(e) => {
                if !e@.is_client_authorable() {
                    post == pre && effs == seq![EffectView::Acknowledge]
                } else {
                    match canvas_index(pre, canvas_id@) {
                        None => post == pre && effs == seq![EffectView::Acknowledge],
                        Some(ci) => {
                            let stepped = spec_handle_message(
                                canvas_id@,
                                pre[ci].1,
                                user_id@,
                                session_id@,
                                e@,
                            );
                            post == pre.update(ci, (pre[ci].0, stepped.0)) && effs == stepped.1
                                + seq![EffectView::Acknowledge]
                        },
                    }
                }
            },
        },
        Command::UpdateUserAccessLevel { canvas_id, user_id, access_level } => match canvas_index(
            pre,
            canvas_id@,
        ) {
            None => post == pre && effs.len() == 0,
            Some(ci) => {
                let stepped = spec_update_access_level(
                    canvas_id@,
                    pre[ci].1,
                    user_id@,
                    access_level,
                    now,
                );
                post == pre.update(ci, (pre[ci].0, stepped.0)) && effs == stepped.1
            },
        },
        Command::UpdateCanvasState { canvas_id, initiator_id, state } => match canvas_index(
            pre,
            canvas_id@,
        ) {
            None => post == pre && effs.len() == 0,
            Some(ci) => {
                let stepped = spec_update_canvas_state(
                    canvas_id@,
                    pre[ci].1,
                    state,
                    initiator_id@,
                    now,
                );
                post == pre.update(ci, (pre[ci].0, stepped.0)) && effs == stepped.1
            },
        },
    }
}

impl CanvasSocketServer {
    /// Handles one command at clock value `now`.  For a `Connect` to an
    /// unloaded canvas the caller hands in the outcome of loading it.
    /// Every command handler returns normally: failures are handled
    /// locally and never unwind across the command boundary, preserving
    /// total command order.
    pub fn handle_command(&mut self, cmd: Command, now: u64, load: Option<LoadOutcome>) -> (out:
        Vec<Effect>)
        requires
            old(self).wf(),
            (cmd matches Command::Connect { canvas_id, .. } && canvas_index(
                old(self).entries(),
                canvas_id@,
            ) is None) ==> load is Some,
        ensures
            final(self).wf(),
            command_step(
                old(self).entries(),
                final(self).entries(),
                effects_view(out@),
                cmd,
                now,
                load,
            ),
    {
        match cmd {
            Command::Connect { canvas_id, user_id, username, session_id } => self.connect(
                &canvas_id,
                &user_id,
                &username,
                &session_id,
                now,
                load,
            ),
            Command::Disconnect { canvas_id, user_id, session_id } => self.disconnect(
                &canvas_id,
                &user_id,
                &session_id,
                now,
            ),
            Command::HandleMessage { canvas_id, user_id, session_id, event } => {
                let ghost gevent = event;
                let mut out = match event {
                    Some(e) => self.handle_message(&canvas_id, &user_id, &session_id, e),
                    None => Vec::new(),
                };
                out.push(Effect::Acknowledge);
                proof {
                    if out@.len() == 1 {
                        assert(effects_view(out@) =~= seq![EffectView::Acknowledge]);
                    }
                    match gevent {
                        Some(e) => {
                            if e@.is_client_authorable() {
                                match canvas_index(old(self).entries(), canvas_id@) {
                                    Some(ci) => {
                                        let stepped = spec_handle_message(
                                            canvas_id@,
                                            old(self).entries()[ci].1,
                                            user_id@,
                                            session_id@,
                                            e@,
                                        );
                                        assert(effects_view(out@) =~= stepped.1 + seq![
                                            EffectView::Acknowledge,
                                        ]);
                                    },
                                    None => {},
                                }
                            }
                        },
                        None => {},
                    }
                }
                out
            },
            Command::UpdateUserAccessLevel { canvas_id, user_id, access_level } => self
                .update_user_access_level(&canvas_id, &user_id, access_level, now),
            Command::UpdateCanvasState { canvas_id, initiator_id, state } => self
                .update_canvas_state(&canvas_id, state, &initiator_id, now),
        }
    }

    /// Handles one command with the wall clock as the event timestamp.
    /// The clock's value is outside the model: the transition holds for
    /// whatever value was read.
    pub fn handle_command_now(&mut self, cmd: Command, load: Option<LoadOutcome>) -> (out: Vec<
        Effect,
    >)
        requires
            old(self).wf(),
            (cmd matches Command::Connect { canvas_id, .. } && canvas_index(
                old(self).entries(),
                canvas_id@,
            ) is None) ==> load is Some,
        ensures
            final(self).wf(),
            exists|now: u64|
                command_step(
                    old(self).entries(),
                    final(self).entries(),
                    effects_view(out@),
                    cmd,
                    now,
                    load,
                ),
    {
        let now = current_timestamp();
        let out = self.handle_command(cmd, now, load);
        out
    }
}

/// Relies on `chrono::Utc::now` and `DateTime::timestamp`: the wall-clock
/// time as whole seconds since the Unix epoch, taken as unsigned the way
/// the durable records carry it.  Nothing is promised of a clock reading.
#[verifier::external_body]
fn current_timestamp() -> u64 {
    chrono::Utc::now().timestamp() as u64
}

// ---------------------------------------------------------------------------
// The laws of the coordinator.
// ---------------------------------------------------------------------------

/// Whether a sequence of records replays without any temporary-shape
/// bookkeeping: no record introduces a temporary shape and every record
/// would be persisted again.  The durable log of every canvas has this
/// shape.
pub open spec fn replays_clean(records: Seq<CanvasEventView>) -> bool {
    &&& temps_after_events(Seq::empty(), records) == Seq::<Seq<char>>::empty()
    &&& durable_records(Seq::empty(), records) == records
}

/// What the persist-or-skip policy writes is a fixpoint: replaying a
/// durable log marks nothing temporary and would persist every record
/// again.
pub proof fn lemma_durable_records_clean(t: Seq<Seq<char>>, es: Seq<CanvasEventView>)
    ensures
        replays_clean(durable_records(t, es)),
    decreases es.len(),
{
    if es.len() == 0 {
        assert(durable_records(t, es) =~= Seq::<CanvasEventView>::empty());
        assert(temps_after_events(Seq::empty(), Seq::<CanvasEventView>::empty()) =~= Seq::<
            Seq<char>,
        >::empty());
    } else {
        lemma_durable_records_clean(t, es.drop_last());
        let d0 = durable_records(t, es.drop_last());
        let last = es.last();
        if event_persists(temps_after_events(t, es.drop_last()), last) {
            let d1 = durable_records(t, es);
            assert(d1 == d0 + seq![last]);
            lemma_temps_compose(Seq::empty(), d0, seq![last]);
            lemma_durable_compose(Seq::empty(), d0, seq![last]);
            assert(seq![last].drop_last() =~= Seq::<CanvasEventView>::empty());
            assert(temps_after_events(Seq::empty(), Seq::<CanvasEventView>::empty()) == Seq::<
                Seq<char>,
            >::empty());
            assert(durable_records(Seq::empty(), Seq::<CanvasEventView>::empty()) == Seq::<
                CanvasEventView,
            >::empty());
            assert(seq![last].last() == last);
            assert(event_persists(Seq::empty(), last)) by {
                match last {
                    CanvasEventView::ShapeRemoved { shape_id, .. } => {
                        assert(!Seq::<Seq<char>>::empty().contains(shape_id));
                    },
                    _ => {},
                }
            }
            match last {
                CanvasEventView::ShapeRemoved { shape_id, .. } => {
                    assert(!Seq::<Seq<char>>::empty().contains(shape_id));
                    assert(temps_after_event(Seq::empty(), last) =~= Seq::<Seq<char>>::empty());
                },
                _ => {},
            }
            assert(temps_after_events(Seq::empty(), d1) =~= Seq::<Seq<char>>::empty());
            assert(durable_records(Seq::empty(), seq![last]) =~= seq![last]);
            assert(durable_records(Seq::empty(), d1) =~= d1);
        } else {
            assert(durable_records(t, es) == d0 + Seq::<CanvasEventView>::empty());
            assert(durable_records(t, es) =~= d0);
        }
    }
}

/// The durable-log law: for every well-formed canvas whose replayed
/// records were themselves a clean replay (an empty log is one), the
/// durable log holds exactly the history since the load with the
/// then-temporary shape events left out; reloading the canvas from its
/// durable log reproduces that history record for record, in order, and
/// yields a well-formed canvas whose own durable log replays clean again —
/// so the round trip holds across any number of restarts.
pub proof fn lemma_replay_reproduces_history(m: InstanceModel, canvas: CanvasView)
    requires
        m.wf(),
        replays_clean(m.loaded),
    ensures
        m.durable == m.loaded + durable_records(Seq::empty(), m.suffix()),
        replays_clean(m.durable),
        loaded_model(m.durable, canvas).history == m.durable,
        loaded_model(m.durable, canvas).wf(),
        replays_clean(loaded_model(m.durable, canvas).loaded),
        m.loaded == Seq::<CanvasEventView>::empty() ==> loaded_model(
            m.durable,
            canvas,
        ).history == durable_records(Seq::empty(), m.history),
{
    let d = durable_records(Seq::empty(), m.suffix());
    lemma_durable_records_clean(Seq::empty(), m.suffix());
    lemma_temps_compose(Seq::empty(), m.loaded, d);
    lemma_durable_compose(Seq::empty(), m.loaded, d);
    assert(temps_after_events(Seq::empty(), m.loaded + d) =~= Seq::<Seq<char>>::empty());
    assert(durable_records(Seq::empty(), m.loaded + d) =~= m.loaded + d);
    let r = loaded_model(m.durable, canvas);
    assert(r.history.take(r.loaded.len() as int) =~= r.loaded);
    assert(r.suffix() =~= Seq::<CanvasEventView>::empty());
    assert(r.durable =~= r.loaded + durable_records(Seq::empty(), r.suffix()));
    if m.loaded == Seq::<CanvasEventView>::empty() {
        assert(m.suffix() =~= m.history);
        assert(m.durable =~= durable_records(Seq::empty(), m.history));
    }
}

/// An empty log replays clean: the base case for a canvas used for the
/// first time.
pub proof fn lemma_empty_log_replays_clean()
    ensures
        replays_clean(Seq::<CanvasEventView>::empty()),
{
    assert(temps_after_events(Seq::empty(), Seq::<CanvasEventView>::empty()) =~= Seq::<
        Seq<char>,
    >::empty());
    assert(durable_records(Seq::empty(), Seq::<CanvasEventView>::empty()) =~= Seq::<
        CanvasEventView,
    >::empty());
}

/// Whether an event speaks of the shape `id`.
pub open spec fn event_mentions_shape(e: CanvasEventView, id: Seq<char>) -> bool {
    match e {
        CanvasEventView::ShapeAdded { shape, .. } => shape.id() == id,
        CanvasEventView::ShapeRemoved { shape_id, .. } => shape_id == id,
        CanvasEventView::ShapeSelected { shape_id, .. } => shape_id == id,
        CanvasEventView::ShapeDeselected { shape_id, .. } => shape_id == id,
        CanvasEventView::ShapeZChanged { shape_id, .. } => shape_id == id,
        _ => false,
    }
}

/// Removing one value keeps every other value in the list.
pub proof fn lemma_remove_first_keeps_others(s: Seq<Seq<char>>, v: Seq<char>, x: Seq<char>)
    requires
        s.contains(x),
        x != v,
    ensures
        remove_first(s, v).contains(x),
    decreases s.len(),
{
    let j = choose|j: int| 0 <= j < s.len() && s[j] == x;
    if s[0] == v {
        assert(s.skip(1)[j - 1] == x);
        assert(remove_first(s, v).contains(x));
    } else {
        if j == 0 {
            assert(remove_first(s, v)[0] == x);
        } else {
            assert(s.skip(1)[j - 1] == x);
            lemma_remove_first_keeps_others(s.skip(1), v, x);
            let k = choose|k: int|
                0 <= k < remove_first(s.skip(1), v).len() && remove_first(s.skip(1), v)[k] == x;
            assert(remove_first(s, v)[k + 1] == x);
        }
    }
}

/// Events that do not speak of a temporary shape neither forget it nor
/// write any record that speaks of it.
pub proof fn lemma_unmentioned_events_keep_temp(
    t: Seq<Seq<char>>,
    es: Seq<CanvasEventView>,
    id: Seq<char>,
)
    requires
        t.contains(id),
        forall|k: int| 0 <= k < es.len() ==> !event_mentions_shape(#[trigger] es[k], id),
    ensures
        temps_after_events(t, es).contains(id),
        forall|k: int|
            0 <= k < durable_records(t, es).len() ==> !event_mentions_shape(
                #[trigger] durable_records(t, es)[k],
                id,
            ),
    decreases es.len(),
{
    if es.len() > 0 {
        lemma_unmentioned_events_keep_temp(t, es.drop_last(), id);
        let t1 = temps_after_events(t, es.drop_last());
        let last = es.last();
        assert(!event_mentions_shape(last, id));
        match last {
            CanvasEventView::ShapeAdded { shape, .. } => {
                if shape.is_temporary() && !t1.contains(shape.id()) {
                    let j = choose|j: int| 0 <= j < t1.len() && t1[j] == id;
                    assert(t1.push(shape.id())[j] == id);
                    assert(temps_after_event(t1, last).contains(id));
                } else {
                    assert(temps_after_event(t1, last) == t1);
                }
            },
            CanvasEventView::ShapeRemoved { shape_id, .. } => {
                lemma_remove_first_keeps_others(t1, shape_id, id);
            },
            _ => {},
        }
        let d0 = durable_records(t, es.drop_last());
        let d1 = durable_records(t, es);
        assert(forall|k: int| 0 <= k < d0.len() ==> d1[k] == d0[k]);
        assert forall|k: int| 0 <= k < d1.len() implies !event_mentions_shape(
            #[trigger] d1[k],
            id,
        ) by {
            if k < d0.len() {
                assert(d1[k] == d0[k]);
            } else {
                assert(event_persists(t1, last) && d1[k] == last);
            }
        }
    }
}

/// The temporary-shape law: a shape added as temporary and removed again,
/// with no other event speaking of it in between, leaves not a single
/// record for its id in the durable log of that stretch of history.
pub proof fn lemma_temporary_shape_leaves_no_record(
    t0: Seq<Seq<char>>,
    added: CanvasEventView,
    mid: Seq<CanvasEventView>,
    removed: CanvasEventView,
    id: Seq<char>,
)
    requires
        added matches CanvasEventView::ShapeAdded { shape, .. } && shape.is_temporary()
            && shape.id() == id,
        removed matches CanvasEventView::ShapeRemoved { shape_id, .. } && shape_id == id,
        forall|k: int| 0 <= k < mid.len() ==> !event_mentions_shape(#[trigger] mid[k], id),
    ensures
        forall|k: int|
            0 <= k < durable_records(t0, seq![added] + mid + seq![removed]).len()
                ==> !event_mentions_shape(
                #[trigger] durable_records(t0, seq![added] + mid + seq![removed])[k],
                id,
            ),
{
    let es = seq![added] + mid + seq![removed];
    let ta = temps_after_events(t0, seq![added]);
    assert(seq![added].drop_last() =~= Seq::<CanvasEventView>::empty());
    assert(seq![added].last() == added);
    assert(temps_after_events(t0, Seq::<CanvasEventView>::empty()) == t0);
    assert(durable_records(t0, Seq::<CanvasEventView>::empty()) == Seq::<
        CanvasEventView,
    >::empty());
    assert(!event_persists(t0, added));
    assert(durable_records(t0, seq![added]) =~= Seq::<CanvasEventView>::empty());
    assert(ta.contains(id)) by {
        match added {
            CanvasEventView::ShapeAdded { shape, .. } => {
                if t0.contains(shape.id()) {
                    assert(ta == t0);
                } else {
                    assert(ta == t0.push(shape.id()));
                    assert(ta[ta.len() - 1] == id);
                }
            },
            _ => {},
        }
    }
    lemma_unmentioned_events_keep_temp(ta, mid, id);
    let tm = temps_after_events(ta, mid);
    assert(!event_persists(tm, removed));
    lemma_temps_compose(t0, seq![added], mid);
    lemma_durable_compose(t0, seq![added], mid);
    lemma_temps_compose(t0, seq![added] + mid, seq![removed]);
    lemma_durable_compose(t0, seq![added] + mid, seq![removed]);
    assert(seq![removed].drop_last() =~= Seq::<CanvasEventView>::empty());
    assert(seq![removed].last() == removed);
    assert(temps_after_events(tm, Seq::<CanvasEventView>::empty()) == tm);
    assert(durable_records(tm, Seq::<CanvasEventView>::empty()) == Seq::<
        CanvasEventView,
    >::empty());
    assert(temps_after_events(t0, seq![added] + mid) == tm);
    assert(durable_records(tm, seq![removed]) =~= Seq::<CanvasEventView>::empty());
    let dmid = durable_records(ta, mid);
    assert(durable_records(t0, es) =~= dmid);
}

/// The broadcast law: a broadcast never reaches the originating session
/// and reaches every other registered session; and it reaches nothing but
/// registered sessions.
pub proof fn lemma_broadcast_targets(sessions: Seq<RegistrationView>, skip: Seq<char>)
    ensures
        !delivery_targets(sessions, Some(skip)).contains(skip),
        forall|j: int|
            0 <= j < sessions.len() && (#[trigger] sessions[j].session_id) != skip
                ==> delivery_targets(sessions, Some(skip)).contains(sessions[j].session_id),
        forall|k: int|
            0 <= k < delivery_targets(sessions, Some(skip)).len() ==> exists|j: int|
                0 <= j < sessions.len() && #[trigger] delivery_targets(sessions, Some(skip))[k]
                    == sessions[j].session_id,
    decreases sessions.len(),
{
    let ts = delivery_targets(sessions, Some(skip));
    if sessions.len() == 0 {
        assert(!ts.contains(skip)) by {
            if ts.contains(skip) {
                let k = choose|k: int| 0 <= k < ts.len() && ts[k] == skip;
            }
        }
    } else {
        lemma_broadcast_targets(sessions.drop_last(), skip);
        let t0 = delivery_targets(sessions.drop_last(), Some(skip));
        assert(!ts.contains(skip)) by {
            if ts.contains(skip) {
                let k = choose|k: int| 0 <= k < ts.len() && ts[k] == skip;
                if k < t0.len() {
                    assert(t0[k] == skip);
                } else {
                    assert(Some(sessions.last().session_id) != Some(skip));
                }
            }
        }
        assert forall|j: int|
            0 <= j < sessions.len() && (#[trigger] sessions[j].session_id) != skip implies ts
            .contains(sessions[j].session_id) by {
            if j < sessions.len() - 1 {
                assert(sessions.drop_last()[j] == sessions[j]);
                let k = choose|k: int|
                    0 <= k < t0.len() && t0[k] == sessions.drop_last()[j].session_id;
                assert(ts[k] == sessions[j].session_id);
            } else {
                assert(ts[ts.len() - 1] == sessions[j].session_id);
            }
        }
        assert forall|k: int| 0 <= k < ts.len() implies exists|j: int|
            0 <= j < sessions.len() && #[trigger] ts[k] == sessions[j].session_id by {
            if k < t0.len() {
                let j = choose|j: int|
                    0 <= j < sessions.drop_last().len() && t0[k] == sessions.drop_last()[
                        j
                    ].session_id;
                assert(ts[k] == sessions[j].session_id);
            } else {
                assert(ts[k] == sessions[sessions.len() - 1].session_id);
            }
        }
    }
}

/// The disconnect-ordering law: disconnecting a session appends to the
/// history exactly one `ShapeDeselected` per shape the session had
/// selected, in selection order, and the `UserLeft` event after them all.
pub proof fn lemma_disconnect_history(
    canvas_id: Seq<char>,
    m: InstanceModel,
    user_id: Seq<char>,
    session_id: Seq<char>,
    now: u64,
)
    ensures
        ({
            let shapes = shapes_of_session(m.selected, session_id);
            let stepped = spec_disconnect_session(canvas_id, m, user_id, session_id, now);
            &&& stepped.0.history == m.history + deselect_events(session_id, shapes, now) + seq![
                CanvasEventView::UserLeft {
                    timestamp: now,
                    user_id: user_id,
                    session_id: session_id,
                },
            ]
            &&& deselect_events(session_id, shapes, now).len() == shapes.len()
            &&& forall|k: int|
                0 <= k < shapes.len() ==> deselect_events(session_id, shapes, now)[k]
                    == (CanvasEventView::ShapeDeselected {
                    origin: session_id,
                    timestamp: now,
                    shape_id: shapes[k],
                })
        }),
{
    let shapes = shapes_of_session(m.selected, session_id);
    let es = deselect_events(session_id, shapes, now);
    let stepped = spec_disconnect_session(canvas_id, m, user_id, session_id, now);
    assert(stepped.0.history =~= m.history + es + seq![
        CanvasEventView::UserLeft { timestamp: now, user_id: user_id, session_id: session_id },
    ]);
}

} // verus!
