//! The request pipeline as a state machine. The caller owns the outside
//! world: it performs each action and reports what happened as the next
//! event. Every decision is taken here.
//!
//! A request runs `Unauthenticated`, `Authenticating`, `Authenticated`,
//! `Operating`, and ends in `Done` or `Failed`. Nothing is written before
//! `Operating`, and what is written is one account row.

use crate::auth::{header_outcome, validate_header, Auth};
use crate::errors::{Conflict, InternalError, Rejection};
use crate::models::{User, UserView, UserWithoutSecrets, UserWithoutSecretsView};
use crate::password::generate_salt;
use crate::routes::{
    authorize, authorized, claimed, collect, collected, conclude, concluded,
    create_account_with, upgrade, upgraded, Lookup, LookupView, Stored, StoredView,
};
use vstd::prelude::*;
use vstd::utf8::encode_utf8;

verus! {

/// What a request asks for.
#[derive(Debug, Clone, Copy, PartialEq, Eq, Structural)]
pub enum Operation {
    /// Create the account of the credential.
    Claim,
    /// Settle the time since the last collection.
    Collect,
    /// Buy as many levels as the balance pays for.
    Upgrade,
}

/// Whom an authenticated request acts for: a newcomer whose username is
/// free, or the holder of an account.
#[derive(Debug)]
pub enum Subject {
    Newcomer(Auth),
    Account(User),
}

/// A subject as a mathematical value.
pub enum SubjectView {
    Newcomer((Seq<char>, Seq<char>)),
    Account(UserView),
}

impl View for Subject {
    type V = SubjectView;

    open spec fn view(&self) -> SubjectView {
        match *self {
            Subject::Newcomer(credential) => SubjectView::Newcomer(credential@),
            Subject::Account(user) => SubjectView::Account(user@),
        }
    }
}

/// Where a request stands.
#[derive(Debug)]
pub enum Pipeline {
    /// Nothing is known of the caller yet.
    Unauthenticated { operation: Operation },
    /// The header gave a credential; its account is being looked up.
    Authenticating { operation: Operation, credential: Auth },
    /// The credential is accepted; the instant of the request is awaited.
    Authenticated { operation: Operation, subject: Subject },
    /// The account to write is decided; the write is awaited.
    Operating,
    /// The request succeeded, with this to show.
    Done(UserWithoutSecrets),
    /// The request failed, and nothing was written for it.
    Failed(Rejection),
}

/// A state as a mathematical value.
pub enum PipelineView {
    Unauthenticated { operation: Operation },
    Authenticating { operation: Operation, credential: (Seq<char>, Seq<char>) },
    Authenticated { operation: Operation, subject: SubjectView },
    Operating,
    Done(UserWithoutSecretsView),
    Failed(Rejection),
}

impl View for Pipeline {
    type V = PipelineView;

    open spec fn view(&self) -> PipelineView {
        match *self {
            Pipeline::Unauthenticated { operation } => PipelineView::Unauthenticated { operation },
            Pipeline::Authenticating { operation, credential } => PipelineView::Authenticating {
                operation,
                credential: credential@,
            },
            Pipeline::Authenticated { operation, subject } => PipelineView::Authenticated {
                operation,
                subject: subject@,
            },
            Pipeline::Operating => PipelineView::Operating,
            Pipeline::Done(shown) => PipelineView::Done(shown@),
            Pipeline::Failed(e) => PipelineView::Failed(e),
        }
    }
}

/// What the outside world reports.
#[derive(Debug)]
pub enum Event {
    /// The authorization header of the request.
    Header(String),
    /// What the repository found under the username.
    Looked(Lookup),
    /// The instant of the request, in seconds since the Unix epoch.
    Clock(u64),
    /// What the repository did with the write.
    Written(Stored),
}

/// An event as a mathematical value.
pub enum EventView {
    Header(Seq<char>),
    Looked(LookupView),
    Clock(nat),
    Written(StoredView),
}

impl View for Event {
    type V = EventView;

    open spec fn view(&self) -> EventView {
        match *self {
            Event::Header(header) => EventView::Header(header@),
            Event::Looked(lookup) => EventView::Looked(lookup@),
            Event::Clock(now) => EventView::Clock(now as nat),
            Event::Written(stored) => EventView::Written(stored@),
        }
    }
}

/// What the caller is to do next.
#[derive(Debug)]
pub enum Action {
    /// Fetch the account of this username and report it.
    LookUp(String),
    /// Read the clock and report it.
    ReadClock,
    /// Insert this account and report the write.
    Insert(User),
    /// Replace `snapshot` by `updated` if the row still is `snapshot`, and
    /// report the write.
    Update { snapshot: User, updated: User },
    /// Answer the client from the state, which is final.
    Respond,
}

/// An action as a mathematical value.
pub enum ActionView {
    LookUp(Seq<char>),
    ReadClock,
    Insert(UserView),
    Update { snapshot: UserView, updated: UserView },
    Respond,
}

impl View for Action {
    type V = ActionView;

    open spec fn view(&self) -> ActionView {
        match *self {
            Action::LookUp(username) => ActionView::LookUp(username@),
            Action::ReadClock => ActionView::ReadClock,
            Action::Insert(user) => ActionView::Insert(user@),
            Action::Update { snapshot, updated } => ActionView::Update {
                snapshot: snapshot@,
                updated: updated@,
            },
            Action::Respond => ActionView::Respond,
        }
    }
}

/// The request fails with `e`.
pub open spec fn fail(e: Rejection) -> (PipelineView, ActionView) {
    (PipelineView::Failed(e), ActionView::Respond)
}

/// A claim may go on where the username is free.
pub open spec fn vacant(lookup: LookupView) -> Result<(), Rejection> {
    match lookup {
        LookupView::Found(_) => Err(Rejection::Conflict(Conflict)),
        LookupView::Failed => Err(Rejection::Internal(InternalError)),
        LookupView::Missing => Ok(()),
    }
}

/// What follows the header.
pub open spec fn after_header(operation: Operation, header: Seq<char>) -> (
    PipelineView,
    ActionView,
) {
    match header_outcome(encode_utf8(header)) {
        Ok(credential) => (
            PipelineView::Authenticating { operation, credential },
            ActionView::LookUp(credential.0),
        ),
        Err(e) => fail(Rejection::Authorization(e)),
    }
}

/// What follows the lookup: a claim needs the username to be free, the
/// other requests need the credential to be that of the account.
pub open spec fn after_lookup(
    operation: Operation,
    credential: (Seq<char>, Seq<char>),
    lookup: LookupView,
) -> (PipelineView, ActionView) {
    if operation == Operation::Claim {
        match vacant(lookup) {
            Ok(_) => (
                PipelineView::Authenticated {
                    operation,
                    subject: SubjectView::Newcomer(credential),
                },
                ActionView::ReadClock,
            ),
            Err(e) => fail(e),
        }
    } else {
        match authorized(credential, lookup) {
            Ok(user) => (
                PipelineView::Authenticated { operation, subject: SubjectView::Account(user) },
                ActionView::ReadClock,
            ),
            Err(e) => fail(e),
        }
    }
}

/// What follows the clock: the operation is applied, and its result is to
/// be written. A claim creates its account under `salt`.
pub open spec fn after_clock(
    operation: Operation,
    subject: SubjectView,
    now: nat,
    salt: Seq<char>,
) -> (PipelineView, ActionView) {
    match subject {
        SubjectView::Newcomer(credential) => if operation == Operation::Claim {
            match claimed(credential, LookupView::Missing, salt, now) {
                Ok(user) => (PipelineView::Operating, ActionView::Insert(user)),
                Err(e) => fail(e),
            }
        } else {
            fail(Rejection::Internal(InternalError))
        },
        SubjectView::Account(user) => match operation {
            Operation::Claim => fail(Rejection::Internal(InternalError)),
            Operation::Collect => match collected(user, now) {
                Ok(updated) => (
                    PipelineView::Operating,
                    ActionView::Update { snapshot: user, updated },
                ),
                Err(e) => fail(e),
            },
            Operation::Upgrade => match upgraded(user) {
                Ok(updated) => (
                    PipelineView::Operating,
                    ActionView::Update { snapshot: user, updated },
                ),
                Err(e) => fail(e),
            },
        },
    }
}

/// What follows the write.
pub open spec fn after_write(stored: StoredView) -> (PipelineView, ActionView) {
    match concluded(stored) {
        Ok(shown) => (PipelineView::Done(shown), ActionView::Respond),
        Err(e) => fail(e),
    }
}

/// The transition of the pipeline: the next state and the next action, for
/// a state, the event reported in it, and the salt that a claim is to use.
/// An event that the state does not await fails the request; a final state
/// stays as it is.
pub open spec fn step(state: PipelineView, event: EventView, salt: Seq<char>) -> (
    PipelineView,
    ActionView,
) {
    match (state, event) {
        (PipelineView::Unauthenticated { operation }, EventView::Header(header)) => after_header(
            operation,
            header,
        ),
        (
            PipelineView::Authenticating { operation, credential },
            EventView::Looked(lookup),
        ) => after_lookup(operation, credential, lookup),
        (PipelineView::Authenticated { operation, subject }, EventView::Clock(now)) => after_clock(
            operation,
            subject,
            now,
            salt,
        ),
        (PipelineView::Operating, EventView::Written(stored)) => after_write(stored),
        (PipelineView::Done(_), _) => (state, ActionView::Respond),
        (PipelineView::Failed(_), _) => (state, ActionView::Respond),
        _ => fail(Rejection::Internal(InternalError)),
    }
}

/// A claim in its `Authenticated` state is what needs a salt, at the clock.
pub open spec fn needs_salt(state: PipelineView, event: EventView) -> bool {
    state matches PipelineView::Authenticated { operation, subject } && event is Clock
        && operation == Operation::Claim && subject is Newcomer
}

/// A request that fails writes nothing: only a request that goes on to
/// `Operating` asks for an insert or an update.
pub proof fn lemma_failure_writes_nothing(state: PipelineView, event: EventView, salt: Seq<char>)
    ensures
        step(state, event, salt).0 is Failed ==> step(state, event, salt).1 is Respond,
        (step(state, event, salt).1 is Insert || step(state, event, salt).1 is Update) <==> step(
            state,
            event,
            salt,
        ).0 is Operating,
{
}

/// A final state stays as it is, whatever is reported in it.
pub proof fn lemma_final_states_stay(state: PipelineView, event: EventView, salt: Seq<char>)
    requires
        state is Done || state is Failed,
    ensures
        step(state, event, salt) == (state, ActionView::Respond),
{
}

/// The failed request, to be answered.
fn failed(e: Rejection) -> (next: (Pipeline, Action))
    ensures
        (next.0@, next.1@) == fail(e),
{
    (Pipeline::Failed(e), Action::Respond)
}

fn on_header(operation: Operation, header: String) -> (next: (Pipeline, Action))
    ensures
        (next.0@, next.1@) == after_header(operation, header@),
{
    match validate_header(header.as_str()) {
        Ok(credential) => {
            let username = credential.username.clone();
            (Pipeline::Authenticating { operation, credential }, Action::LookUp(username))
        },
        Err(e) => failed(Rejection::Authorization(e)),
    }
}

fn on_lookup(operation: Operation, credential: Auth, lookup: Lookup) -> (next: (Pipeline, Action))
    ensures
        (next.0@, next.1@) == after_lookup(operation, credential@, lookup@),
{
    match operation {
        Operation::Claim => match lookup {
            Lookup::Found(_) => failed(Rejection::Conflict(Conflict)),
            Lookup::Failed => failed(Rejection::Internal(InternalError)),
            Lookup::Missing => (
                Pipeline::Authenticated { operation, subject: Subject::Newcomer(credential) },
                Action::ReadClock,
            ),
        },
        _ => match authorize(&credential, lookup) {
            Ok(user) => (
                Pipeline::Authenticated { operation, subject: Subject::Account(user) },
                Action::ReadClock,
            ),
            Err(e) => failed(e),
        },
    }
}

fn on_clock(operation: Operation, subject: Subject, now: u64, salt: String) -> (next: (
    Pipeline,
    Action,
))
    ensures
        (next.0@, next.1@) == after_clock(operation, subject@, now as nat, salt@),
{
    match subject {
        Subject::Newcomer(credential) => match operation {
            Operation::Claim => match create_account_with(
                &credential,
                Lookup::Missing,
                salt,
                now,
            ) {
                Ok(user) => (Pipeline::Operating, Action::Insert(user)),
                Err(e) => failed(e),
            },
            _ => failed(Rejection::Internal(InternalError)),
        },
        Subject::Account(user) => match operation {
            Operation::Claim => failed(Rejection::Internal(InternalError)),
            Operation::Collect => match collect(&user, now) {
                Ok(updated) => (Pipeline::Operating, Action::Update { snapshot: user, updated }),
                Err(e) => failed(e),
            },
            Operation::Upgrade => match upgrade(&user) {
                Ok(updated) => (Pipeline::Operating, Action::Update { snapshot: user, updated }),
                Err(e) => failed(e),
            },
        },
    }
}

fn on_write(stored: Stored) -> (next: (Pipeline, Action))
    ensures
        (next.0@, next.1@) == after_write(stored@),
{
    match conclude(stored) {
        Ok(shown) => (Pipeline::Done(shown), Action::Respond),
        Err(e) => failed(e),
    }
}

/// The status of a request that created an account.
pub const CREATED: u16 = 201;

/// The status of any other request that succeeded.
pub const OK: u16 = 200;

/// The status that answers a request that ended in `Done`.
pub fn success_status(operation: Operation) -> (status: u16)
    ensures
        status == (if operation == Operation::Claim {
            CREATED
        } else {
            OK
        }),
{
    match operation {
        Operation::Claim => CREATED,
        _ => OK,
    }
}

/// The state a request starts in.
pub fn begin(operation: Operation) -> (state: Pipeline)
    ensures
        state@ == (PipelineView::Unauthenticated { operation }),
{
    Pipeline::Unauthenticated { operation }
}

/// One transition, with the salt for a claim handed in.
pub fn advance_with(state: Pipeline, event: Event, salt: String) -> (next: (Pipeline, Action))
    ensures
        (next.0@, next.1@) == step(state@, event@, salt@),
{
    match state {
        Pipeline::Unauthenticated { operation } => match event {
            Event::Header(header) => on_header(operation, header),
            _ => failed(Rejection::Internal(InternalError)),
        },
        Pipeline::Authenticating { operation, credential } => match event {
            Event::Looked(lookup) => on_lookup(operation, credential, lookup),
            _ => failed(Rejection::Internal(InternalError)),
        },
        Pipeline::Authenticated { operation, subject } => match event {
            Event::Clock(now) => on_clock(operation, subject, now, salt),
            _ => failed(Rejection::Internal(InternalError)),
        },
        Pipeline::Operating => match event {
            Event::Written(stored) => on_write(stored),
            _ => failed(Rejection::Internal(InternalError)),
        },
        Pipeline::Done(shown) => (Pipeline::Done(shown), Action::Respond),
        Pipeline::Failed(e) => (Pipeline::Failed(e), Action::Respond),
    }
}

/// Whether the transition creates an account, and so needs a salt.
fn wants_salt(state: &Pipeline, event: &Event) -> (wanted: bool)
    ensures
        wanted == needs_salt(state@, event@),
{
    match state {
        Pipeline::Authenticated { operation, subject } => match (operation, subject, event) {
            (Operation::Claim, Subject::Newcomer(_), Event::Clock(_)) => true,
            _ => false,
        },
        _ => false,
    }
}

/// One transition. A claim gets a fresh salt; no other transition draws
/// one.
pub fn advance(state: Pipeline, event: Event) -> (next: (Pipeline, Action))
    ensures
        exists|salt: Seq<char>| (next.0@, next.1@) == #[trigger] step(state@, event@, salt),
{
    let salt = if wants_salt(&state, &event) {
        generate_salt()
    } else {
        String::new()
    };
    advance_with(state, event, salt)
}

} // verus!
