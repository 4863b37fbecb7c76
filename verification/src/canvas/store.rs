//! The directory of canvases: which canvases exist, who owns them, which
//! access level each user holds, and the rules for changing those levels.
//!
//! The directory is rebuilt from its own durable event log
//! ([`CanvasStoreEvents`]) on startup and is consulted by the coordinator
//! whenever a room is loaded.

use vstd::prelude::*;

use crate::canvas::error::{CanvasStoreError, CanvasStoreErrorView};

verus! {

/// The length of a generated canvas identifier.
pub const CANVAS_ID_LENGTH: usize = 12;

/// How many times a fresh canvas id is drawn before giving up.
pub const MAX_ID_GENERATION_ITERATIONS: usize = 10;

/// An identifier of a canvas, stable for the lifetime of the canvas.
pub type CanvasId = String;

/// An identifier of an authenticated user.
pub type UserId = String;

/// The permission tier a user holds on one canvas.  `NoAccess` is a meta
/// level: it is reported for users without a membership entry and is never
/// assigned to one.
#[derive(Clone, Copy, PartialEq, Eq, Structural, Debug)]
pub enum AccessLevel {
    Read,
    Write,
    Moderate,
    Owner,
    Voice,
    NoAccess,
}

/// The room-wide mode that, combined with a user's [`AccessLevel`], gates
/// write permission.
#[derive(Clone, Copy, PartialEq, Eq, Structural, Debug)]
pub enum CanvasState {
    Active,
    Moderated,
}

/// One user's access to one canvas, as carried inside authentication
/// claims: the canvas name, the canvas id and the granted level.
#[derive(Debug)]
pub struct CanvasClaim {
    pub n: String,
    pub c: String,
    pub r: AccessLevel,
}

/// The mathematical value of a [`CanvasClaim`].
pub struct CanvasClaimView {
    pub n: Seq<char>,
    pub c: Seq<char>,
    pub r: AccessLevel,
}

impl View for CanvasClaim {
    type V = CanvasClaimView;

    open spec fn view(&self) -> CanvasClaimView {
        CanvasClaimView { n: self.n@, c: self.c@, r: self.r }
    }
}

impl Clone for CanvasClaim {
    fn clone(&self) -> (r: Self)
        ensures
            r@ == self@,
    {
        CanvasClaim { n: self.n.clone(), c: self.c.clone(), r: self.r }
    }
}

/// Two claims are the same claim when they name the same canvas, whatever
/// name or level they carry.
impl PartialEq for CanvasClaim {
    fn eq(&self, other: &Self) -> (r: bool) {
        self.c == other.c
    }
}

impl Eq for CanvasClaim {

}

impl vstd::std_specs::cmp::PartialEqSpecImpl for CanvasClaim {
    open spec fn obeys_eq_spec() -> bool {
        true
    }

    open spec fn eq_spec(&self, other: &Self) -> bool {
        self.c@ == other.c@
    }
}

/// A request to create a new canvas with the given name for the given owner.
#[derive(Debug)]
pub struct CreateCanvas {
    pub name: String,
    pub owner_id: String,
}

impl Clone for CreateCanvas {
    fn clone(&self) -> (r: Self)
        ensures
            r.name@ == self.name@ && r.owner_id@ == self.owner_id@,
    {
        CreateCanvas { name: self.name.clone(), owner_id: self.owner_id.clone() }
    }
}

/// One entry of a canvas's membership table.
#[derive(Debug, PartialEq)]
pub struct Membership {
    pub user_id: UserId,
    pub access_level: AccessLevel,
}

/// The mathematical value of a [`Membership`].
pub struct MembershipView {
    pub user_id: Seq<char>,
    pub access_level: AccessLevel,
}

impl View for Membership {
    type V = MembershipView;

    open spec fn view(&self) -> MembershipView {
        MembershipView { user_id: self.user_id@, access_level: self.access_level }
    }
}

impl Clone for Membership {
    fn clone(&self) -> (r: Self)
        ensures
            r@ == self@,
    {
        Membership { user_id: self.user_id.clone(), access_level: self.access_level }
    }
}

/// The access level a membership table grants to a user: the level of the
/// first entry for that user, or `NoAccess` where there is none.
pub open spec fn access_of(users: Seq<MembershipView>, user_id: Seq<char>) -> AccessLevel
    decreases users.len(),
{
    if users.len() == 0 {
        AccessLevel::NoAccess
    } else if users[0].user_id == user_id {
        users[0].access_level
    } else {
        access_of(users.skip(1), user_id)
    }
}

/// A canvas as the directory records it: identity, owner, current mode and
/// membership table.
#[derive(Debug, PartialEq)]
pub struct Canvas {
    pub id: String,
    pub name: String,
    pub owner_id: String,
    pub state: CanvasState,
    pub users: Vec<Membership>,
}

/// The mathematical value of a [`Canvas`].
pub struct CanvasView {
    pub id: Seq<char>,
    pub name: Seq<char>,
    pub owner_id: Seq<char>,
    pub state: CanvasState,
    pub users: Seq<MembershipView>,
}

impl View for Canvas {
    type V = CanvasView;

    open spec fn view(&self) -> CanvasView {
        CanvasView {
            id: self.id@,
            name: self.name@,
            owner_id: self.owner_id@,
            state: self.state,
            users: self.users@.map_values(|m: Membership| m@),
        }
    }
}

impl CanvasView {
    /// A membership table never holds two entries for one user.
    pub open spec fn wf(self) -> bool {
        forall|i: int, j: int|
            0 <= i < j < self.users.len() ==> self.users[i].user_id != self.users[j].user_id
    }
}

impl Clone for Canvas {
    #[verifier::loop_isolation(false)]
    fn clone(&self) -> (r: Self)
        ensures
            r@ == self@,
    {
        let mut users: Vec<Membership> = Vec::new();
        let mut i: usize = 0;
        while i < self.users.len()
            invariant
                i <= self.users.len(),
                users@.map_values(|m: Membership| m@) == self.users@.map_values(
                    |m: Membership| m@,
                ).take(i as int),
            decreases self.users.len() - i,
        {
            users.push(self.users[i].clone());
            proof {
                assert(users@.map_values(|m: Membership| m@) =~= self.users@.map_values(
                    |m: Membership| m@,
                ).take(i as int + 1));
            }
            i = i + 1;
        }
        proof {
            assert(users@.map_values(|m: Membership| m@) =~= self.users@.map_values(
                |m: Membership| m@,
            ));
        }
        Canvas {
            id: self.id.clone(),
            name: self.name.clone(),
            owner_id: self.owner_id.clone(),
            state: self.state,
            users,
        }
    }
}

/// Where the first membership entry for the upserted user stands at index
/// `k`, the upsert replaces exactly that entry.
pub proof fn lemma_upsert_membership_at(users: Seq<MembershipView>, entry: MembershipView, k: int)
    requires
        0 <= k < users.len(),
        users[k].user_id == entry.user_id,
        forall|j: int| 0 <= j < k ==> users[j].user_id != entry.user_id,
    ensures
        upsert_membership(users, entry) == users.update(k, entry),
    decreases k,
{
    if k == 0 {
        assert(upsert_membership(users, entry) =~= users.update(0, entry));
    } else {
        lemma_upsert_membership_at(users.skip(1), entry, k - 1);
        assert(upsert_membership(users, entry) =~= users.update(k, entry));
    }
}

/// Upserting a user without an entry appends one.
pub proof fn lemma_upsert_membership_absent(users: Seq<MembershipView>, entry: MembershipView)
    requires
        forall|j: int| 0 <= j < users.len() ==> users[j].user_id != entry.user_id,
    ensures
        upsert_membership(users, entry) == users.push(entry),
    decreases users.len(),
{
    if users.len() == 0 {
        assert(upsert_membership(users, entry) =~= users.push(entry));
    } else {
        lemma_upsert_membership_absent(users.skip(1), entry);
        assert(upsert_membership(users, entry) =~= users.push(entry));
    }
}

impl Canvas {
    /// The access level this canvas grants to `user_id`.
    #[verifier::loop_isolation(false)]
    pub fn access_level_of(&self, user_id: &UserId) -> (r: AccessLevel)
        ensures
            r == access_of(self@.users, user_id@),
    {
        let mut i: usize = 0;
        proof {
            assert(self@.users.skip(0) =~= self@.users);
        }
        while i < self.users.len()
            invariant
                i <= self.users.len(),
                access_of(self@.users, user_id@) == access_of(
                    self@.users.skip(i as int),
                    user_id@,
                ),
            decreases self.users.len() - i,
        {
            if self.users[i].user_id == *user_id {
                proof {
                    assert(self@.users.skip(i as int)[0] == self@.users[i as int]);
                }
                return self.users[i].access_level;
            }
            proof {
                assert(self@.users.skip(i as int)[0] == self@.users[i as int]);
                assert(self@.users.skip(i as int).skip(1) =~= self@.users.skip(i + 1 as int));
            }
            i = i + 1;
        }
        proof {
            assert(self@.users.skip(i as int).len() == 0);
        }
        AccessLevel::NoAccess
    }

    /// Replaces the level of `user_id`, or appends a membership entry where
    /// there is none.
    #[verifier::loop_isolation(false)]
    pub fn upsert_access_level(&mut self, user_id: &UserId, access_level: AccessLevel)
        ensures
            final(self).id@ == old(self).id@,
            final(self).name@ == old(self).name@,
            final(self).owner_id@ == old(self).owner_id@,
            final(self).state == old(self).state,
            final(self)@.users == upsert_membership(
                old(self)@.users,
                MembershipView { user_id: user_id@, access_level },
            ),
    {
        let ghost orig = self@.users;
        let ghost entry = MembershipView { user_id: user_id@, access_level };
        let mut i: usize = 0;
        while i < self.users.len()
            invariant
                i <= self.users.len(),
                self@.users == orig,
                self.id == old(self).id,
                self.name == old(self).name,
                self.owner_id == old(self).owner_id,
                self.state == old(self).state,
                entry == (MembershipView { user_id: user_id@, access_level }),
                forall|j: int| 0 <= j < i ==> orig[j].user_id != user_id@,
            decreases self.users.len() - i,
        {
            if self.users[i].user_id == *user_id {
                self.users.set(i, Membership { user_id: user_id.clone(), access_level });
                proof {
                    lemma_upsert_membership_at(orig, entry, i as int);
                    assert(self@.users =~= orig.update(i as int, entry));
                }
                return ;
            }
            i = i + 1;
        }
        self.users.push(Membership { user_id: user_id.clone(), access_level });
        proof {
            lemma_upsert_membership_absent(orig, entry);
            assert(self@.users =~= orig.push(entry));
        }
    }
}

/// The membership table after granting `entry.user_id` the level
/// `entry.access_level`: the first entry for that user is replaced, or the
/// entry is appended where the user had none.
pub open spec fn upsert_membership(users: Seq<MembershipView>, entry: MembershipView) -> Seq<
    MembershipView,
>
    decreases users.len(),
{
    if users.len() == 0 {
        seq![entry]
    } else if users[0].user_id == entry.user_id {
        seq![entry] + users.skip(1)
    } else {
        seq![users[0]] + upsert_membership(users.skip(1), entry)
    }
}

// ---------------------------------------------------------------------------
// The directory's own durable events and its replay.
// ---------------------------------------------------------------------------

/// A record of the directory's durable log.
#[derive(Debug, PartialEq)]
pub enum CanvasStoreEvents {
    /// A canvas came into being.
    CanvasCreated {
        timestamp: u64,
        owner_id: UserId,
        canvas_id: CanvasId,
        state: CanvasState,
        name: String,
    },
    /// A canvas was deleted.
    CanvasDeleted { timestamp: u64, canvas_id: CanvasId },
    /// A user was granted a level on a canvas.
    UserCanvasAdded {
        timestamp: u64,
        user_id: UserId,
        initiator_user_id: UserId,
        canvas_id: CanvasId,
        access_level: AccessLevel,
    },
    /// A user lost access to a canvas.
    UserCanvasRemoved { timestamp: u64, user_id: String, canvas_id: CanvasId },
    /// A canvas's mode changed.
    CanvasStateChanged {
        timestamp: u64,
        canvas_id: CanvasId,
        initiator_id: UserId,
        state: CanvasState,
    },
}

/// The mathematical value of a [`CanvasStoreEvents`] record.
pub enum CanvasStoreEventView {
    CanvasCreated {
        timestamp: u64,
        owner_id: Seq<char>,
        canvas_id: Seq<char>,
        state: CanvasState,
        name: Seq<char>,
    },
    CanvasDeleted { timestamp: u64, canvas_id: Seq<char> },
    UserCanvasAdded {
        timestamp: u64,
        user_id: Seq<char>,
        initiator_user_id: Seq<char>,
        canvas_id: Seq<char>,
        access_level: AccessLevel,
    },
    UserCanvasRemoved { timestamp: u64, user_id: Seq<char>, canvas_id: Seq<char> },
    CanvasStateChanged {
        timestamp: u64,
        canvas_id: Seq<char>,
        initiator_id: Seq<char>,
        state: CanvasState,
    },
}

impl View for CanvasStoreEvents {
    type V = CanvasStoreEventView;

    open spec fn view(&self) -> CanvasStoreEventView {
        match self {
            CanvasStoreEvents::CanvasCreated { timestamp, owner_id, canvas_id, state, name } => CanvasStoreEventView::CanvasCreated {
                timestamp: *timestamp,
                owner_id: owner_id@,
                canvas_id: canvas_id@,
                state: *state,
                name: name@,
            },
            CanvasStoreEvents::CanvasDeleted { timestamp, canvas_id } => CanvasStoreEventView::CanvasDeleted {
                timestamp: *timestamp,
                canvas_id: canvas_id@,
            },
            CanvasStoreEvents::UserCanvasAdded {
                timestamp,
                user_id,
                initiator_user_id,
                canvas_id,
                access_level,
            } => CanvasStoreEventView::UserCanvasAdded {
                timestamp: *timestamp,
                user_id: user_id@,
                initiator_user_id: initiator_user_id@,
                canvas_id: canvas_id@,
                access_level: *access_level,
            },
            CanvasStoreEvents::UserCanvasRemoved { timestamp, user_id, canvas_id } => CanvasStoreEventView::UserCanvasRemoved {
                timestamp: *timestamp,
                user_id: user_id@,
                canvas_id: canvas_id@,
            },
            CanvasStoreEvents::CanvasStateChanged { timestamp, canvas_id, initiator_id, state } => CanvasStoreEventView::CanvasStateChanged {
                timestamp: *timestamp,
                canvas_id: canvas_id@,
                initiator_id: initiator_id@,
                state: *state,
            },
        }
    }
}

/// The claims one user holds, as the directory's lookup table records
/// them.
#[derive(Debug)]
pub struct UserClaims {
    pub user_id: UserId,
    pub claims: Vec<CanvasClaim>,
}

/// The mathematical value of a [`UserClaims`] entry.
pub struct UserClaimsView {
    pub user_id: Seq<char>,
    pub claims: Seq<CanvasClaimView>,
}

impl View for UserClaims {
    type V = UserClaimsView;

    open spec fn view(&self) -> UserClaimsView {
        UserClaimsView {
            user_id: self.user_id@,
            claims: self.claims@.map_values(|c: CanvasClaim| c@),
        }
    }
}

/// The mathematical value of the directory: the canvases and the per-user
/// claims lookup table.
pub struct StoreModel {
    pub canvases: Seq<CanvasView>,
    pub claims: Seq<UserClaimsView>,
}

/// The position of the canvas with id `canvas_id`.
pub open spec fn canvas_by_id(canvases: Seq<CanvasView>, canvas_id: Seq<char>) -> Option<int>
    decreases canvases.len(),
{
    if canvases.len() == 0 {
        None
    } else if canvases[0].id == canvas_id {
        Some(0int)
    } else {
        match canvas_by_id(canvases.skip(1), canvas_id) {
            None => None,
            Some(i) => Some(i + 1),
        }
    }
}

/// `canvas_by_id` finds the first canvas with the given id, and none
/// exactly when no canvas has it.
pub proof fn lemma_canvas_by_id(canvases: Seq<CanvasView>, canvas_id: Seq<char>)
    ensures
        match canvas_by_id(canvases, canvas_id) {
            None => forall|j: int| 0 <= j < canvases.len() ==> canvases[j].id != canvas_id,
            Some(i) => 0 <= i < canvases.len() && canvases[i].id == canvas_id && (forall|j: int|
                0 <= j < i ==> canvases[j].id != canvas_id),
        },
    decreases canvases.len(),
{
    if canvases.len() > 0 && canvases[0].id != canvas_id {
        lemma_canvas_by_id(canvases.skip(1), canvas_id);
        assert(forall|j: int|
            0 <= j < canvases.skip(1).len() ==> canvases.skip(1)[j] == canvases[j + 1]);
        match canvas_by_id(canvases.skip(1), canvas_id) {
            None => {
                assert forall|j: int|
                    0 <= j < canvases.len() implies canvases[j].id != canvas_id by {
                    if j > 0 {
                        assert(canvases.skip(1)[j - 1] == canvases[j]);
                    }
                }
            },
            Some(i) => {
                assert(canvases.skip(1)[i] == canvases[i + 1]);
                assert forall|j: int| 0 <= j < i + 1 implies canvases[j].id != canvas_id by {
                    if j > 0 {
                        assert(canvases.skip(1)[j - 1] == canvases[j]);
                    }
                }
            },
        }
    }
}

/// The position of the claims entry of `user_id`.
pub open spec fn claims_entry_of(claims: Seq<UserClaimsView>, user_id: Seq<char>) -> Option<int>
    decreases claims.len(),
{
    if claims.len() == 0 {
        None
    } else if claims[0].user_id == user_id {
        Some(0int)
    } else {
        match claims_entry_of(claims.skip(1), user_id) {
            None => None,
            Some(i) => Some(i + 1),
        }
    }
}

/// `claims_entry_of` finds the first entry of the user, and none exactly
/// when the user has no entry.
pub proof fn lemma_claims_entry_of(claims: Seq<UserClaimsView>, user_id: Seq<char>)
    ensures
        match claims_entry_of(claims, user_id) {
            None => forall|j: int| 0 <= j < claims.len() ==> claims[j].user_id != user_id,
            Some(i) => 0 <= i < claims.len() && claims[i].user_id == user_id && (forall|j: int|
                0 <= j < i ==> claims[j].user_id != user_id),
        },
    decreases claims.len(),
{
    if claims.len() > 0 && claims[0].user_id != user_id {
        lemma_claims_entry_of(claims.skip(1), user_id);
        assert(forall|j: int| 0 <= j < claims.skip(1).len() ==> claims.skip(1)[j] == claims[j + 1]);
        match claims_entry_of(claims.skip(1), user_id) {
            None => {
                assert forall|j: int| 0 <= j < claims.len() implies claims[j].user_id != user_id by {
                    if j > 0 {
                        assert(claims.skip(1)[j - 1] == claims[j]);
                    }
                }
            },
            Some(i) => {
                assert(claims.skip(1)[i] == claims[i + 1]);
                assert forall|j: int| 0 <= j < i + 1 implies claims[j].user_id != user_id by {
                    if j > 0 {
                        assert(claims.skip(1)[j - 1] == claims[j]);
                    }
                }
            },
        }
    }
}

/// The position of the first claim naming the canvas `c`.
pub open spec fn claim_for(claims: Seq<CanvasClaimView>, c: Seq<char>) -> Option<int>
    decreases claims.len(),
{
    if claims.len() == 0 {
        None
    } else if claims[0].c == c {
        Some(0int)
    } else {
        match claim_for(claims.skip(1), c) {
            None => None,
            Some(i) => Some(i + 1),
        }
    }
}

/// `claim_for` finds the first claim naming the canvas, and none exactly
/// when no claim names it.
pub proof fn lemma_claim_for(claims: Seq<CanvasClaimView>, c: Seq<char>)
    ensures
        match claim_for(claims, c) {
            None => forall|j: int| 0 <= j < claims.len() ==> claims[j].c != c,
            Some(i) => 0 <= i < claims.len() && claims[i].c == c && (forall|j: int|
                0 <= j < i ==> claims[j].c != c),
        },
    decreases claims.len(),
{
    if claims.len() > 0 && claims[0].c != c {
        lemma_claim_for(claims.skip(1), c);
        assert(forall|j: int| 0 <= j < claims.skip(1).len() ==> claims.skip(1)[j] == claims[j + 1]);
        match claim_for(claims.skip(1), c) {
            None => {
                assert forall|j: int| 0 <= j < claims.len() implies claims[j].c != c by {
                    if j > 0 {
                        assert(claims.skip(1)[j - 1] == claims[j]);
                    }
                }
            },
            Some(i) => {
                assert(claims.skip(1)[i] == claims[i + 1]);
                assert forall|j: int| 0 <= j < i + 1 implies claims[j].c != c by {
                    if j > 0 {
                        assert(claims.skip(1)[j - 1] == claims[j]);
                    }
                }
            },
        }
    }
}

/// The canvas list with `cv` in place of the first canvas with its id, or
/// appended where none has it.
pub open spec fn spec_upsert_canvas(canvases: Seq<CanvasView>, cv: CanvasView) -> Seq<CanvasView> {
    match canvas_by_id(canvases, cv.id) {
        Some(i) => canvases.update(i, cv),
        None => canvases.push(cv),
    }
}

/// The claims table after a canvas is created: the owner's list gains the
/// owner claim, with no deduplication.
pub open spec fn spec_claims_created(
    claims: Seq<UserClaimsView>,
    owner_id: Seq<char>,
    claim: CanvasClaimView,
) -> Seq<UserClaimsView> {
    match claims_entry_of(claims, owner_id) {
        Some(u) => claims.update(
            u,
            UserClaimsView { user_id: claims[u].user_id, claims: claims[u].claims.push(claim) },
        ),
        None => claims.push(UserClaimsView { user_id: owner_id, claims: seq![claim] }),
    }
}

/// The claims table after a user is granted a level: an old claim for the
/// canvas is swap-removed, then the new claim is appended.
pub open spec fn spec_claims_added(
    claims: Seq<UserClaimsView>,
    user_id: Seq<char>,
    claim: CanvasClaimView,
) -> Seq<UserClaimsView> {
    match claims_entry_of(claims, user_id) {
        Some(u) => {
            let list = claims[u].claims;
            let deduped = match claim_for(list, claim.c) {
                Some(p) => list.update(p, list.last()).drop_last(),
                None => list,
            };
            claims.update(
                u,
                UserClaimsView { user_id: claims[u].user_id, claims: deduped.push(claim) },
            )
        },
        None => claims.push(UserClaimsView { user_id: user_id, claims: seq![claim] }),
    }
}

/// One directory record applied to the directory's model; `None` where the
/// record names a canvas that does not exist.
pub open spec fn store_apply_event(m: StoreModel, e: CanvasStoreEventView) -> Option<StoreModel> {
    match e {
        CanvasStoreEventView::CanvasCreated { owner_id, canvas_id, state, name, .. } => {
            let cv = CanvasView {
                id: canvas_id,
                name: name,
                owner_id: owner_id,
                state: state,
                users: seq![
                    MembershipView { user_id: owner_id, access_level: AccessLevel::Owner },
                ],
            };
            let claim = CanvasClaimView { n: name, c: canvas_id, r: AccessLevel::Owner };
            Some(
                StoreModel {
                    canvases: spec_upsert_canvas(m.canvases, cv),
                    claims: spec_claims_created(m.claims, owner_id, claim),
                },
            )
        },
        CanvasStoreEventView::UserCanvasAdded { user_id, canvas_id, access_level, .. } => match canvas_by_id(
            m.canvases,
            canvas_id,
        ) {
            None => None,
            Some(ci) => {
                let cv = m.canvases[ci];
                let claim = CanvasClaimView { n: cv.name, c: canvas_id, r: access_level };
                Some(
                    StoreModel {
                        canvases: m.canvases.update(
                            ci,
                            CanvasView {
                                users: upsert_membership(
                                    cv.users,
                                    MembershipView { user_id: user_id, access_level },
                                ),
                                ..cv
                            },
                        ),
                        claims: spec_claims_added(m.claims, user_id, claim),
                    },
                )
            },
        },
        _ => Some(m),
    }
}

/// The directory's model after replaying records in order, or `None` where
/// some record named a canvas that did not exist.
pub open spec fn store_replay(events: Seq<CanvasStoreEventView>) -> Option<StoreModel>
    decreases events.len(),
{
    if events.len() == 0 {
        Some(StoreModel { canvases: Seq::empty(), claims: Seq::empty() })
    } else {
        match store_replay(events.drop_last()) {
            None => None,
            Some(m) => store_apply_event(m, events.last()),
        }
    }
}

/// Once a replay has failed, the rest of the records cannot repair it.
pub proof fn lemma_store_replay_none_stays(events: Seq<CanvasStoreEventView>, k: int)
    requires
        0 <= k <= events.len(),
        store_replay(events.take(k)) is None,
    ensures
        store_replay(events) is None,
    decreases events.len(),
{
    if k == events.len() {
        assert(events.take(k) =~= events);
    } else {
        assert(events.drop_last().take(k) =~= events.take(k));
        lemma_store_replay_none_stays(events.drop_last(), k);
    }
}

// ---------------------------------------------------------------------------
// The directory itself.
// ---------------------------------------------------------------------------

/// The alphabet canvas ids are drawn from.
pub const CANVAS_ID_ALPHABET_STR: &'static str = "1234567890abcdef";

/// The directory of canvases, rebuilt from its durable records on startup.
pub struct CanvasStore {
    pub canvases: Vec<Canvas>,
    /// Per-user lookup table of the canvases each user may reach.
    pub user_id_lookup: Vec<UserClaims>,
}

/// The access level the claims table grants: the first claim for the
/// canvas in the user's entry, or `NoAccess` where the user or the claim
/// is missing.
pub open spec fn spec_get_access_level(
    claims: Seq<UserClaimsView>,
    user_id: Seq<char>,
    canvas_id: Seq<char>,
) -> AccessLevel {
    match claims_entry_of(claims, user_id) {
        None => AccessLevel::NoAccess,
        Some(u) => match claim_for(claims[u].claims, canvas_id) {
            None => AccessLevel::NoAccess,
            Some(p) => claims[u].claims[p].r,
        },
    }
}

/// Why a change of `target`'s level to `new_level` by `initiator` is
/// refused, or nothing where it is allowed.  An owner may change anyone
/// but an owner (so not themselves) and may not hand out ownership; a
/// moderator may change anyone below moderator to anything below
/// moderator; nobody else may change levels.
pub open spec fn permission_change_denial(
    initiator: AccessLevel,
    target: AccessLevel,
    new_level: AccessLevel,
) -> Option<Seq<char>> {
    match (initiator, target, new_level) {
        (AccessLevel::Owner, AccessLevel::Owner, _) => Some(
            "Owner can't change his own access level"@,
        ),
        (AccessLevel::Owner, _, AccessLevel::Owner) => Some(
            "Owner can't assign owner access level"@,
        ),
        (AccessLevel::Owner, _, _) => None,
        (AccessLevel::Moderate, AccessLevel::Owner, _) => Some(
            "Moderate can't change owner or moderate access level"@,
        ),
        (AccessLevel::Moderate, AccessLevel::Moderate, _) => Some(
            "Moderate can't change owner or moderate access level"@,
        ),
        (AccessLevel::Moderate, _, AccessLevel::Owner) => Some(
            "Moderate can't assign owner or moderate access level"@,
        ),
        (AccessLevel::Moderate, _, AccessLevel::Moderate) => Some(
            "Moderate can't assign owner or moderate access level"@,
        ),
        (AccessLevel::Moderate, _, _) => None,
        (_, _, _) => Some("User can't change access level"@),
    }
}

impl CanvasStore {
    /// The mathematical value of the directory.
    pub open spec fn model(self) -> StoreModel {
        StoreModel {
            canvases: self.canvases@.map_values(|c: Canvas| c@),
            claims: self.user_id_lookup@.map_values(|u: UserClaims| u@),
        }
    }

    /// Finds the position of a canvas by id.
    #[verifier::loop_isolation(false)]
    fn find_canvas_index(&self, canvas_id: &CanvasId) -> (r: Option<usize>)
        ensures
            match r {
                None => canvas_by_id(self.model().canvases, canvas_id@) is None,
                Some(i) => canvas_by_id(self.model().canvases, canvas_id@) == Some(i as int),
            },
    {
        proof {
            lemma_canvas_by_id(self.model().canvases, canvas_id@);
        }
        let mut i: usize = 0;
        while i < self.canvases.len()
            invariant
                i <= self.canvases.len(),
                forall|j: int| 0 <= j < i ==> self.model().canvases[j].id != canvas_id@,
            decreases self.canvases.len() - i,
        {
            proof {
                assert(self.model().canvases[i as int] == self.canvases@[i as int]@);
            }
            if self.canvases[i].id == *canvas_id {
                return Some(i);
            }
            i = i + 1;
        }
        None
    }

    /// Finds the position of a user's claims entry.
    #[verifier::loop_isolation(false)]
    fn find_claims_entry(&self, user_id: &UserId) -> (r: Option<usize>)
        ensures
            match r {
                None => claims_entry_of(self.model().claims, user_id@) is None,
                Some(i) => claims_entry_of(self.model().claims, user_id@) == Some(i as int),
            },
    {
        proof {
            lemma_claims_entry_of(self.model().claims, user_id@);
        }
        let mut i: usize = 0;
        while i < self.user_id_lookup.len()
            invariant
                i <= self.user_id_lookup.len(),
                forall|j: int| 0 <= j < i ==> self.model().claims[j].user_id != user_id@,
            decreases self.user_id_lookup.len() - i,
        {
            proof {
                assert(self.model().claims[i as int] == self.user_id_lookup@[i as int]@);
            }
            if self.user_id_lookup[i].user_id == *user_id {
                return Some(i);
            }
            i = i + 1;
        }
        None
    }

    /// Finds the position of the first claim naming the canvas.
    #[verifier::loop_isolation(false)]
    fn find_claim_pos(claims: &Vec<CanvasClaim>, c: &String) -> (r: Option<usize>)
        ensures
            match r {
                None => claim_for(claims@.map_values(|x: CanvasClaim| x@), c@) is None,
                Some(p) => claim_for(claims@.map_values(|x: CanvasClaim| x@), c@) == Some(
                    p as int,
                ),
            },
    {
        let ghost cl = claims@.map_values(|x: CanvasClaim| x@);
        proof {
            lemma_claim_for(cl, c@);
        }
        let mut p: usize = 0;
        while p < claims.len()
            invariant
                p <= claims.len(),
                forall|j: int| 0 <= j < p ==> cl[j].c != c@,
            decreases claims.len() - p,
        {
            proof {
                assert(cl[p as int] == claims@[p as int]@);
            }
            if claims[p].c == *c {
                return Some(p);
            }
            p = p + 1;
        }
        None
    }

    /// Puts `cv` in place of the first canvas with its id, or appends it.
    #[verifier::loop_isolation(false)]
    fn upsert_canvas(&mut self, cv: Canvas)
        ensures
            final(self).model().canvases == spec_upsert_canvas(old(self).model().canvases, cv@),
            final(self).model().claims == old(self).model().claims,
    {
        let found = self.find_canvas_index(&cv.id);
        proof {
            lemma_canvas_by_id(self.model().canvases, cv@.id);
        }
        match found {
            Some(i) => {
                self.canvases.set(i, cv);
                proof {
                    assert(self.model().canvases =~= old(self).model().canvases.update(
                        i as int,
                        cv@,
                    ));
                    assert(self.model().claims =~= old(self).model().claims);
                }
            },
            None => {
                self.canvases.push(cv);
                proof {
                    assert(self.model().canvases =~= old(self).model().canvases.push(cv@));
                    assert(self.model().claims =~= old(self).model().claims);
                }
            },
        }
    }

    /// Appends a claim to the owner's entry — without deduplication, the
    /// way a creation record is replayed — or opens a new entry.
    #[verifier::loop_isolation(false)]
    fn push_claim_created(&mut self, owner_id: &UserId, claim: CanvasClaim)
        ensures
            final(self).model().claims == spec_claims_created(
                old(self).model().claims,
                owner_id@,
                claim@,
            ),
            final(self).model().canvases == old(self).model().canvases,
    {
        let found = self.find_claims_entry(owner_id);
        proof {
            lemma_claims_entry_of(self.model().claims, owner_id@);
        }
        match found {
            Some(u) => {
                let ghost entry0 = self.model().claims[u as int];
                proof {
                    assert(entry0 == self.user_id_lookup@[u as int]@);
                }
                let mut entry = self.user_id_lookup.remove(u);
                entry.claims.push(claim);
                proof {
                    assert(entry@.claims =~= entry0.claims.push(claim@));
                }
                self.user_id_lookup.insert(u, entry);
                proof {
                    assert(self.model().claims =~= old(self).model().claims.update(
                        u as int,
                        UserClaimsView { user_id: entry0.user_id, claims: entry0.claims.push(claim@) },
                    ));
                    assert(self.model().canvases =~= old(self).model().canvases);
                }
            },
            None => {
                let mut claims: Vec<CanvasClaim> = Vec::new();
                claims.push(claim);
                let entry = UserClaims { user_id: owner_id.clone(), claims };
                proof {
                    assert(entry@.claims =~= seq![claim@]);
                }
                self.user_id_lookup.push(entry);
                proof {
                    assert(self.model().claims =~= old(self).model().claims.push(
                        UserClaimsView { user_id: owner_id@, claims: seq![claim@] },
                    ));
                    assert(self.model().canvases =~= old(self).model().canvases);
                }
            },
        }
    }

    /// Applies a granted claim to the user's entry the way a grant record
    /// is replayed: an old claim for the canvas is swap-removed, then the
    /// new claim is appended; a user without an entry gets one.
    #[verifier::loop_isolation(false)]
    fn apply_claim_added(&mut self, user_id: &UserId, claim: CanvasClaim)
        ensures
            final(self).model().claims == spec_claims_added(
                old(self).model().claims,
                user_id@,
                claim@,
            ),
            final(self).model().canvases == old(self).model().canvases,
    {
        let found = self.find_claims_entry(user_id);
        proof {
            lemma_claims_entry_of(self.model().claims, user_id@);
        }
        match found {
            Some(u) => {
                let ghost entry0 = self.model().claims[u as int];
                proof {
                    assert(entry0 == self.user_id_lookup@[u as int]@);
                }
                let mut entry = self.user_id_lookup.remove(u);
                proof {
                    lemma_claim_for(entry0.claims, claim@.c);
                }
                let found_pos = Self::find_claim_pos(&entry.claims, &claim.c);
                match found_pos {
                    Some(p) => {
                        entry.claims.swap_remove(p);
                        proof {
                            assert(entry@.claims =~= entry0.claims.update(
                                p as int,
                                entry0.claims.last(),
                            ).drop_last());
                        }
                    },
                    None => {},
                }
                let ghost deduped = entry@.claims;
                entry.claims.push(claim);
                proof {
                    assert(entry@.claims =~= deduped.push(claim@));
                }
                self.user_id_lookup.insert(u, entry);
                proof {
                    assert(self.model().claims =~= spec_claims_added(
                        old(self).model().claims,
                        user_id@,
                        claim@,
                    ));
                    assert(self.model().canvases =~= old(self).model().canvases);
                }
            },
            None => {
                let mut claims: Vec<CanvasClaim> = Vec::new();
                claims.push(claim);
                let entry = UserClaims { user_id: user_id.clone(), claims };
                proof {
                    assert(entry@.claims =~= seq![claim@]);
                }
                self.user_id_lookup.push(entry);
                proof {
                    assert(self.model().claims =~= old(self).model().claims.push(
                        UserClaimsView { user_id: user_id@, claims: seq![claim@] },
                    ));
                    assert(self.model().canvases =~= old(self).model().canvases);
                }
            },
        }
    }

    /// Rebuilds the directory by replaying its durable records in order.
    /// Fails — reporting the canvas as unknown — exactly where a record
    /// grants access to a canvas that no earlier record created.
    #[verifier::loop_isolation(false)]
    pub fn new(saved_events: Vec<CanvasStoreEvents>) -> (r: Result<Self, CanvasStoreError>)
        ensures
            match r {
                Ok(s) => store_replay(saved_events@.map_values(|e: CanvasStoreEvents| e@))
                    == Some(s.model()),
                Err(e) => store_replay(saved_events@.map_values(|e: CanvasStoreEvents| e@))
                    is None && e@ is CanvasNotFound,
            },
    {
        let ghost evs = saved_events@.map_values(|e: CanvasStoreEvents| e@);
        let mut store = CanvasStore { canvases: Vec::new(), user_id_lookup: Vec::new() };
        proof {
            assert(evs.take(0) =~= Seq::<CanvasStoreEventView>::empty());
            assert(store.model().canvases =~= Seq::<CanvasView>::empty());
            assert(store.model().claims =~= Seq::<UserClaimsView>::empty());
        }
        let mut i: usize = 0;
        while i < saved_events.len()
            invariant
                i <= saved_events.len(),
                store_replay(evs.take(i as int)) == Some(store.model()),
            decreases saved_events.len() - i,
        {
            let ghost m = store.model();
            proof {
                assert(evs[i as int] == saved_events@[i as int]@);
                assert(evs.take(i as int + 1).drop_last() =~= evs.take(i as int));
                assert(evs.take(i as int + 1).last() == evs[i as int]);
            }
            match &saved_events[i] {
                CanvasStoreEvents::CanvasCreated { canvas_id, name, owner_id, state, .. } => {
                    let mut users: Vec<Membership> = Vec::new();
                    users.push(
                        Membership {
                            user_id: owner_id.clone(),
                            access_level: AccessLevel::Owner,
                        },
                    );
                    let cv = Canvas {
                        id: canvas_id.clone(),
                        name: name.clone(),
                        owner_id: owner_id.clone(),
                        state: *state,
                        users,
                    };
                    let claim = CanvasClaim {
                        n: name.clone(),
                        c: canvas_id.clone(),
                        r: AccessLevel::Owner,
                    };
                    proof {
                        assert(cv@.users =~= seq![
                            MembershipView {
                                user_id: owner_id@,
                                access_level: AccessLevel::Owner,
                            },
                        ]);
                    }
                    store.upsert_canvas(cv);
                    store.push_claim_created(owner_id, claim);
                    proof {
                        assert(store_apply_event(m, evs[i as int]) == Some(store.model()));
                    }
                },
                CanvasStoreEvents::UserCanvasAdded { user_id, canvas_id, access_level, .. } => {
                    let found = store.find_canvas_index(canvas_id);
                    match found {
                        None => {
                            proof {
                                assert(store_replay(evs.take(i as int + 1)) is None);
                                lemma_store_replay_none_stays(evs, i as int + 1);
                            }
                            return Err(CanvasStoreError::CanvasNotFound);
                        },
                        Some(ci) => {
                            proof {
                                lemma_canvas_by_id(m.canvases, canvas_id@);
                                assert(m.canvases[ci as int] == store.canvases@[ci as int]@);
                            }
                            let name = store.canvases[ci].name.clone();
                            let claim = CanvasClaim {
                                n: name,
                                c: canvas_id.clone(),
                                r: *access_level,
                            };
                            let mut cv = store.canvases.remove(ci);
                            cv.upsert_access_level(user_id, *access_level);
                            store.canvases.insert(ci, cv);
                            proof {
                                assert(store.model().canvases =~= m.canvases.update(
                                    ci as int,
                                    CanvasView {
                                        users: upsert_membership(
                                            m.canvases[ci as int].users,
                                            MembershipView {
                                                user_id: user_id@,
                                                access_level: *access_level,
                                            },
                                        ),
                                        ..m.canvases[ci as int]
                                    },
                                ));
                                assert(store.model().claims =~= m.claims);
                            }
                            store.apply_claim_added(user_id, claim);
                            proof {
                                assert(store_apply_event(m, evs[i as int]) == Some(
                                    store.model(),
                                ));
                            }
                        },
                    }
                },
                _ => {
                    proof {
                        assert(store_apply_event(m, evs[i as int]) == Some(store.model()));
                    }
                },
            }
            i = i + 1;
        }
        proof {
            assert(evs.take(saved_events.len() as int) =~= evs);
        }
        Ok(store)
    }

    /// The access level a user holds on a canvas, by the lookup table.
    #[verifier::loop_isolation(false)]
    pub fn get_access_level(&self, user_id: &UserId, canvas_id: &CanvasId) -> (r: AccessLevel)
        ensures
            r == spec_get_access_level(self.model().claims, user_id@, canvas_id@),
    {
        let found = self.find_claims_entry(user_id);
        proof {
            lemma_claims_entry_of(self.model().claims, user_id@);
        }
        match found {
            None => AccessLevel::NoAccess,
            Some(u) => {
                let ghost entry0 = self.model().claims[u as int];
                proof {
                    assert(entry0 == self.user_id_lookup@[u as int]@);
                    lemma_claim_for(entry0.claims, canvas_id@);
                }
                let found_pos = Self::find_claim_pos(&self.user_id_lookup[u].claims, canvas_id);
                match found_pos {
                    None => AccessLevel::NoAccess,
                    Some(p) => {
                        proof {
                            assert(entry0.claims[p as int] == self.user_id_lookup@[
                                u as int
                            ].claims@[p as int]@);
                        }
                        self.user_id_lookup[u].claims[p].r
                    },
                }
            },
        }
    }

    /// Decides whether `initiator_access_level` may change a user holding
    /// `target_access_level` to `access_level`, per the directory's
    /// escalation rules; a refusal says why.
    pub fn validate_permission_change(
        &self,
        initiator_access_level: &AccessLevel,
        target_access_level: &AccessLevel,
        access_level: &AccessLevel,
    ) -> (r: Result<(), CanvasStoreError>)
        ensures
            match permission_change_denial(
                *initiator_access_level,
                *target_access_level,
                *access_level,
            ) {
                None => r is Ok,
                Some(why) => r matches Err(e) && e@ == CanvasStoreErrorView::AccessDenied(why),
            },
    {
        match (initiator_access_level, target_access_level, access_level) {
            (AccessLevel::Owner, AccessLevel::Owner, _) => Err(
                CanvasStoreError::AccessDenied(
                    "Owner can't change his own access level".to_owned(),
                ),
            ),
            (AccessLevel::Owner, _, AccessLevel::Owner) => Err(
                CanvasStoreError::AccessDenied(
                    "Owner can't assign owner access level".to_owned(),
                ),
            ),
            (AccessLevel::Owner, _, _) => Ok(()),
            (AccessLevel::Moderate, AccessLevel::Owner, _) => Err(
                CanvasStoreError::AccessDenied(
                    "Moderate can't change owner or moderate access level".to_owned(),
                ),
            ),
            (AccessLevel::Moderate, AccessLevel::Moderate, _) => Err(
                CanvasStoreError::AccessDenied(
                    "Moderate can't change owner or moderate access level".to_owned(),
                ),
            ),
            (AccessLevel::Moderate, _, AccessLevel::Owner) => Err(
                CanvasStoreError::AccessDenied(
                    "Moderate can't assign owner or moderate access level".to_owned(),
                ),
            ),
            (AccessLevel::Moderate, _, AccessLevel::Moderate) => Err(
                CanvasStoreError::AccessDenied(
                    "Moderate can't assign owner or moderate access level".to_owned(),
                ),
            ),
            (AccessLevel::Moderate, _, _) => Ok(()),
            (_, _, _) => Err(
                CanvasStoreError::AccessDenied("User can't change access level".to_owned()),
            ),
        }
    }
}

// ---------------------------------------------------------------------------
// The directory's request messages and their handlers.
// ---------------------------------------------------------------------------

/// Relies on `nanoid::format` with `nanoid::rngs::default`: an id of
/// exactly `CANVAS_ID_LENGTH` characters, each drawn from the hexadecimal
/// alphabet.  The id depends on the process's randomness source, so
/// nothing more is promised of it.
#[verifier::external_body]
fn random_canvas_id() -> (r: String)
    ensures
        r@.len() == CANVAS_ID_LENGTH as int,
        forall|i: int| 0 <= i < r@.len() ==> CANVAS_ID_ALPHABET_STR@.contains(r@[i]),
{
    let alphabet: [char; 16] = [
        '1', '2', '3', '4', '5', '6', '7', '8', '9', '0', 'a', 'b', 'c', 'd', 'e', 'f',
    ];
    nanoid::format(nanoid::rngs::default, &alphabet, CANVAS_ID_LENGTH)
}

/// A request to replace a canvas's mode.
#[derive(Debug)]
pub struct UpdateCanvasStateMessage {
    pub canvas_id: CanvasId,
    pub initiator_id: UserId,
    pub state: CanvasState,
}

/// A request to create a canvas.
#[derive(Debug)]
pub struct CreateCanvasMessage {
    pub canvas: CreateCanvas,
}

/// A request for the claims of one user.
#[derive(Debug)]
pub struct GetUserClaimsMessage {
    pub user_id: UserId,
}

/// A request for one canvas's metadata.
#[derive(Debug)]
pub struct GetCanvasMessage {
    pub canvas_id: CanvasId,
}

impl Clone for GetCanvasMessage {
    fn clone(&self) -> (r: Self)
        ensures
            r.canvas_id@ == self.canvas_id@,
    {
        GetCanvasMessage { canvas_id: self.canvas_id.clone() }
    }
}

/// A request to grant a user a level on a canvas.
#[derive(Debug)]
pub struct AddUserToCanvasMessage {
    pub initiator_user_id: UserId,
    pub canvas_id: CanvasId,
    pub target_user_id: UserId,
    pub access_level: AccessLevel,
}

impl Clone for AddUserToCanvasMessage {
    fn clone(&self) -> (r: Self)
        ensures
            r.initiator_user_id@ == self.initiator_user_id@,
            r.canvas_id@ == self.canvas_id@,
            r.target_user_id@ == self.target_user_id@,
            r.access_level == self.access_level,
    {
        AddUserToCanvasMessage {
            initiator_user_id: self.initiator_user_id.clone(),
            canvas_id: self.canvas_id.clone(),
            target_user_id: self.target_user_id.clone(),
            access_level: self.access_level,
        }
    }
}

/// The claims table after a user's level on one canvas is set: the first
/// claim for the canvas changes its level in place, a missing claim is
/// appended, a missing user gets an entry.
pub open spec fn spec_claims_set(
    claims: Seq<UserClaimsView>,
    user_id: Seq<char>,
    claim: CanvasClaimView,
) -> Seq<UserClaimsView> {
    match claims_entry_of(claims, user_id) {
        Some(u) => {
            let list = claims[u].claims;
            let updated = match claim_for(list, claim.c) {
                Some(p) => list.update(
                    p,
                    CanvasClaimView { n: list[p].n, c: list[p].c, r: claim.r },
                ),
                None => list.push(claim),
            };
            claims.update(u, UserClaimsView { user_id: claims[u].user_id, claims: updated })
        },
        None => claims.push(UserClaimsView { user_id: user_id, claims: seq![claim] }),
    }
}

impl CanvasStore {
    /// Sets a user's claim for one canvas to the granted level, the way
    /// the directory's lookup cache is kept in step with a grant.
    #[verifier::loop_isolation(false)]
    fn apply_claim_set(&mut self, user_id: &UserId, claim: CanvasClaim)
        ensures
            final(self).model().claims == spec_claims_set(
                old(self).model().claims,
                user_id@,
                claim@,
            ),
            final(self).model().canvases == old(self).model().canvases,
    {
        let found = self.find_claims_entry(user_id);
        proof {
            lemma_claims_entry_of(self.model().claims, user_id@);
        }
        match found {
            Some(u) => {
                let ghost entry0 = self.model().claims[u as int];
                proof {
                    assert(entry0 == self.user_id_lookup@[u as int]@);
                }
                let mut entry = self.user_id_lookup.remove(u);
                proof {
                    lemma_claim_for(entry0.claims, claim@.c);
                }
                let found_pos = Self::find_claim_pos(&entry.claims, &claim.c);
                match found_pos {
                    Some(p) => {
                        let n = entry.claims[p].n.clone();
                        let c = entry.claims[p].c.clone();
                        entry.claims.set(p, CanvasClaim { n, c, r: claim.r });
                        proof {
                            assert(entry@.claims =~= entry0.claims.update(
                                p as int,
                                CanvasClaimView {
                                    n: entry0.claims[p as int].n,
                                    c: entry0.claims[p as int].c,
                                    r: claim@.r,
                                },
                            ));
                        }
                    },
                    None => {
                        entry.claims.push(claim);
                        proof {
                            assert(entry@.claims =~= entry0.claims.push(claim@));
                        }
                    },
                }
                self.user_id_lookup.insert(u, entry);
                proof {
                    assert(self.model().claims =~= spec_claims_set(
                        old(self).model().claims,
                        user_id@,
                        claim@,
                    ));
                    assert(self.model().canvases =~= old(self).model().canvases);
                }
            },
            None => {
                let mut claims: Vec<CanvasClaim> = Vec::new();
                claims.push(claim);
                let entry = UserClaims { user_id: user_id.clone(), claims };
                proof {
                    assert(entry@.claims =~= seq![claim@]);
                }
                self.user_id_lookup.push(entry);
                proof {
                    assert(self.model().claims =~= old(self).model().claims.push(
                        UserClaimsView { user_id: user_id@, claims: seq![claim@] },
                    ));
                    assert(self.model().canvases =~= old(self).model().canvases);
                }
            },
        }
    }

    /// Answers a metadata request: a copy of the canvas, or nothing where
    /// the id is unknown.
    pub fn handle_get_canvas(&self, msg: &GetCanvasMessage) -> (r: Option<Canvas>)
        ensures
            match canvas_by_id(self.model().canvases, msg.canvas_id@) {
                None => r is None,
                Some(ci) => r matches Some(c) && c@ == self.model().canvases[ci],
            },
    {
        let found = self.find_canvas_index(&msg.canvas_id);
        proof {
            lemma_canvas_by_id(self.model().canvases, msg.canvas_id@);
        }
        match found {
            None => None,
            Some(i) => {
                proof {
                    assert(self.model().canvases[i as int] == self.canvases@[i as int]@);
                }
                Some(self.canvases[i].clone())
            },
        }
    }

    /// Answers a claims request: a copy of the user's claims, or an empty
    /// list where the user holds none.
    #[verifier::loop_isolation(false)]
    pub fn handle_get_user_claims(&self, msg: &GetUserClaimsMessage) -> (r: Vec<CanvasClaim>)
        ensures
            r@.map_values(|c: CanvasClaim| c@) == match claims_entry_of(
                self.model().claims,
                msg.user_id@,
            ) {
                None => Seq::<CanvasClaimView>::empty(),
                Some(u) => self.model().claims[u].claims,
            },
    {
        let found = self.find_claims_entry(&msg.user_id);
        proof {
            lemma_claims_entry_of(self.model().claims, msg.user_id@);
        }
        let mut r: Vec<CanvasClaim> = Vec::new();
        match found {
            None => {
                proof {
                    assert(r@.map_values(|c: CanvasClaim| c@) =~= Seq::<
                        CanvasClaimView,
                    >::empty());
                }
                r
            },
            Some(u) => {
                let ghost entry0 = self.model().claims[u as int];
                proof {
                    assert(entry0 == self.user_id_lookup@[u as int]@);
                }
                let entry = &self.user_id_lookup[u];
                let mut i: usize = 0;
                while i < entry.claims.len()
                    invariant
                        i <= entry.claims.len(),
                        entry@ == entry0,
                        r@.map_values(|c: CanvasClaim| c@) == entry0.claims.take(i as int),
                    decreases entry.claims.len() - i,
                {
                    r.push(entry.claims[i].clone());
                    proof {
                        assert(entry0.claims[i as int] == entry.claims@[i as int]@);
                        assert(r@.map_values(|c: CanvasClaim| c@) =~= entry0.claims.take(
                            i as int + 1,
                        ));
                    }
                    i = i + 1;
                }
                proof {
                    assert(entry0.claims.take(entry.claims.len() as int) =~= entry0.claims);
                }
                r
            },
        }
    }

    /// Replaces a canvas's mode — where the canvas is loaded in the
    /// directory — and returns the durable record of the change, which the
    /// surrounding process appends to the directory's log.
    pub fn handle_update_canvas_state(&mut self, msg: UpdateCanvasStateMessage, now: u64) -> (e:
        CanvasStoreEvents)
        ensures
            e@ == (CanvasStoreEventView::CanvasStateChanged {
                timestamp: now,
                canvas_id: msg.canvas_id@,
                initiator_id: msg.initiator_id@,
                state: msg.state,
            }),
            final(self).model().claims == old(self).model().claims,
            match canvas_by_id(old(self).model().canvases, msg.canvas_id@) {
                None => final(self).model().canvases == old(self).model().canvases,
                Some(ci) => final(self).model().canvases == old(self).model().canvases.update(
                    ci,
                    CanvasView { state: msg.state, ..old(self).model().canvases[ci] },
                ),
            },
    {
        let event = CanvasStoreEvents::CanvasStateChanged {
            timestamp: now,
            canvas_id: msg.canvas_id.clone(),
            initiator_id: msg.initiator_id,
            state: msg.state,
        };
        let found = self.find_canvas_index(&msg.canvas_id);
        proof {
            lemma_canvas_by_id(self.model().canvases, msg.canvas_id@);
        }
        match found {
            None => event,
            Some(i) => {
                proof {
                    assert(self.model().canvases[i as int] == self.canvases@[i as int]@);
                }
                let mut cv = self.canvases.remove(i);
                cv.state = msg.state;
                self.canvases.insert(i, cv);
                proof {
                    assert(self.model().canvases =~= old(self).model().canvases.update(
                        i as int,
                        CanvasView { state: msg.state, ..old(self).model().canvases[i as int] },
                    ));
                    assert(self.model().claims =~= old(self).model().claims);
                }
                event
            },
        }
    }

    /// Creates a canvas under a freshly drawn id, owned by the requester,
    /// in `Active` mode, and returns it with the durable record of the
    /// creation.  Fails — with nothing changed — only where every drawn id
    /// collided with an existing canvas.
    #[verifier::loop_isolation(false)]
    pub fn handle_create_canvas(&mut self, msg: CreateCanvasMessage, now: u64) -> (r: Result<
        (Canvas, CanvasStoreEvents),
        CanvasStoreError,
    >)
        ensures
            match r {
                Err(e) => final(self).model() == old(self).model() && e@
                    is PersistenceFailed,
                Ok((c, e)) => {
                    &&& canvas_by_id(old(self).model().canvases, c@.id) is None
                    &&& c@.id.len() == CANVAS_ID_LENGTH as int
                    &&& c@.name == msg.canvas.name@
                    &&& c@.owner_id == msg.canvas.owner_id@
                    &&& c@.state == CanvasState::Active
                    &&& c@.users == seq![
                        MembershipView {
                            user_id: msg.canvas.owner_id@,
                            access_level: AccessLevel::Owner,
                        },
                    ]
                    &&& e@ == (CanvasStoreEventView::CanvasCreated {
                        timestamp: now,
                        owner_id: msg.canvas.owner_id@,
                        canvas_id: c@.id,
                        state: CanvasState::Active,
                        name: msg.canvas.name@,
                    })
                    &&& Some(final(self).model()) == store_apply_event(old(self).model(), e@)
                },
            },
    {
        let mut fresh_id: Option<String> = None;
        let mut tries: usize = 0;
        while tries < MAX_ID_GENERATION_ITERATIONS && fresh_id.is_none()
            invariant
                *self == *old(self),
                match fresh_id {
                    Some(ref s) => canvas_by_id(self.model().canvases, s@) is None && s@.len()
                        == CANVAS_ID_LENGTH as int,
                    None => true,
                },
            decreases MAX_ID_GENERATION_ITERATIONS - tries,
        {
            let candidate = random_canvas_id();
            let found = self.find_canvas_index(&candidate);
            match found {
                None => {
                    fresh_id = Some(candidate);
                },
                Some(_) => {},
            }
            tries = tries + 1;
        }
        match fresh_id {
            None => Err(CanvasStoreError::PersistenceFailed),
            Some(id) => {
                let mut users: Vec<Membership> = Vec::new();
                users.push(
                    Membership {
                        user_id: msg.canvas.owner_id.clone(),
                        access_level: AccessLevel::Owner,
                    },
                );
                let canvas = Canvas {
                    id: id.clone(),
                    name: msg.canvas.name.clone(),
                    owner_id: msg.canvas.owner_id.clone(),
                    state: CanvasState::Active,
                    users,
                };
                let event = CanvasStoreEvents::CanvasCreated {
                    timestamp: now,
                    owner_id: msg.canvas.owner_id.clone(),
                    canvas_id: id.clone(),
                    state: CanvasState::Active,
                    name: msg.canvas.name.clone(),
                };
                let claim = CanvasClaim {
                    n: msg.canvas.name.clone(),
                    c: id,
                    r: AccessLevel::Owner,
                };
                let copy = canvas.clone();
                proof {
                    assert(canvas@.users =~= seq![
                        MembershipView {
                            user_id: msg.canvas.owner_id@,
                            access_level: AccessLevel::Owner,
                        },
                    ]);
                }
                self.upsert_canvas(canvas);
                self.push_claim_created(&msg.canvas.owner_id, claim);
                Ok((copy, event))
            },
        }
    }

    /// Grants a user a level on a canvas: refused where the canvas is
    /// unknown or where the escalation rules deny the initiator the
    /// change; otherwise the membership table and the claims table are
    /// updated and the durable record of the grant is returned.
    pub fn handle_add_user_to_canvas(&mut self, msg: AddUserToCanvasMessage, now: u64) -> (r:
        Result<CanvasStoreEvents, CanvasStoreError>)
        ensures
            ({
                let pre = old(self).model();
                match canvas_by_id(pre.canvases, msg.canvas_id@) {
                    None => r matches Err(e) && e@ is CanvasNotFound && final(self).model()
                        == pre,
                    Some(ci) => {
                        let target = spec_get_access_level(
                            pre.claims,
                            msg.target_user_id@,
                            msg.canvas_id@,
                        );
                        let initiator = spec_get_access_level(
                            pre.claims,
                            msg.initiator_user_id@,
                            msg.canvas_id@,
                        );
                        match permission_change_denial(initiator, target, msg.access_level) {
                            Some(why) => r matches Err(e) && e@
                                == CanvasStoreErrorView::AccessDenied(why) && final(self).model()
                                == pre,
                            None => {
                                &&& r matches Ok(e) && e@ == (CanvasStoreEventView::UserCanvasAdded {
                                    timestamp: now,
                                    user_id: msg.target_user_id@,
                                    initiator_user_id: msg.initiator_user_id@,
                                    canvas_id: msg.canvas_id@,
                                    access_level: msg.access_level,
                                })
                                &&& final(self).model().canvases == pre.canvases.update(
                                    ci,
                                    CanvasView {
                                        users: upsert_membership(
                                            pre.canvases[ci].users,
                                            MembershipView {
                                                user_id: msg.target_user_id@,
                                                access_level: msg.access_level,
                                            },
                                        ),
                                        ..pre.canvases[ci]
                                    },
                                )
                                &&& final(self).model().claims == spec_claims_set(
                                    pre.claims,
                                    msg.target_user_id@,
                                    CanvasClaimView {
                                        n: pre.canvases[ci].name,
                                        c: msg.canvas_id@,
                                        r: msg.access_level,
                                    },
                                )
                            },
                        }
                    },
                }
            }),
    {
        let found = self.find_canvas_index(&msg.canvas_id);
        proof {
            lemma_canvas_by_id(self.model().canvases, msg.canvas_id@);
        }
        match found {
            None => Err(CanvasStoreError::CanvasNotFound),
            Some(ci) => {
                let target_access_level = self.get_access_level(
                    &msg.target_user_id,
                    &msg.canvas_id,
                );
                let initiator_access_level = self.get_access_level(
                    &msg.initiator_user_id,
                    &msg.canvas_id,
                );
                match self.validate_permission_change(
                    &initiator_access_level,
                    &target_access_level,
                    &msg.access_level,
                ) {
                    Err(e) => Err(e),
                    Ok(()) => {
                        proof {
                            assert(self.model().canvases[ci as int] == self.canvases@[
                                ci as int
                            ]@);
                        }
                        let event = CanvasStoreEvents::UserCanvasAdded {
                            timestamp: now,
                            user_id: msg.target_user_id.clone(),
                            initiator_user_id: msg.initiator_user_id.clone(),
                            canvas_id: msg.canvas_id.clone(),
                            access_level: msg.access_level,
                        };
                        let claim = CanvasClaim {
                            n: self.canvases[ci].name.clone(),
                            c: msg.canvas_id.clone(),
                            r: msg.access_level,
                        };
                        let mut cv = self.canvases.remove(ci);
                        cv.upsert_access_level(&msg.target_user_id, msg.access_level);
                        self.canvases.insert(ci, cv);
                        proof {
                            assert(self.model().canvases =~= old(self).model().canvases.update(
                                ci as int,
                                CanvasView {
                                    users: upsert_membership(
                                        old(self).model().canvases[ci as int].users,
                                        MembershipView {
                                            user_id: msg.target_user_id@,
                                            access_level: msg.access_level,
                                        },
                                    ),
                                    ..old(self).model().canvases[ci as int]
                                },
                            ));
                            assert(self.model().claims =~= old(self).model().claims);
                        }
                        self.apply_claim_set(&msg.target_user_id, claim);
                        Ok(event)
                    },
                }
            },
        }
    }
}

} // verus!
