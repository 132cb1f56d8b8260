//! The decisions of the four requests, each from what the outside world
//! reported to what is to be stored or answered. Nothing here touches
//! storage: the account that was read and the instant of the request come in
//! as values, the account to be written goes out as one.

use crate::auth::Auth;
use crate::economy::{
    accrued_balance, cost_of_level, cumulative_cost, highest_affordable,
    lemma_accrual_never_loses, lemma_highest_affordable_exists, lemma_reachable_level,
    reachable_level,
};
use crate::errors::{
    Conflict, InternalError, NotAuthorized, NotEnoughMoney, NotFound, Outdated, Rejection,
};
use crate::models::{
    accrue, without_secrets, GameCalculations, User, UserView, UserWithoutSecrets,
    UserWithoutSecretsView,
};
use crate::password::{generate_salt, hash, hash_outcome, verify, SALT_LENGTH};
use vstd::prelude::*;
use vstd::utf8::encode_utf8;

verus! {

/// What the repository found under a username.
#[derive(Debug)]
pub enum Lookup {
    Found(User),
    Missing,
    Failed,
}

/// A lookup result as a mathematical value.
pub enum LookupView {
    Found(UserView),
    Missing,
    Failed,
}

impl View for Lookup {
    type V = LookupView;

    open spec fn view(&self) -> LookupView {
        match *self {
            Lookup::Found(user) => LookupView::Found(user@),
            Lookup::Missing => LookupView::Missing,
            Lookup::Failed => LookupView::Failed,
        }
    }
}

/// What the repository did with a write: it stored the account, or found
/// the row changed since it was read, or failed.
#[derive(Debug)]
pub enum Stored {
    Done(User),
    Outdated,
    Failed,
}

/// A write result as a mathematical value.
pub enum StoredView {
    Done(UserView),
    Outdated,
    Failed,
}

impl View for Stored {
    type V = StoredView;

    open spec fn view(&self) -> StoredView {
        match *self {
            Stored::Done(user) => StoredView::Done(user@),
            Stored::Outdated => StoredView::Outdated,
            Stored::Failed => StoredView::Failed,
        }
    }
}

/// A decision with the account taken by its view.
pub open spec fn decision_view(decision: Result<User, Rejection>) -> Result<UserView, Rejection> {
    match decision {
        Ok(user) => Ok(user@),
        Err(e) => Err(e),
    }
}

/// Who may act on an account: the account must exist, and the hash of the
/// presented password under the stored salt must be the stored hash. A hash
/// that cannot be computed is an internal error, not a mismatch.
pub open spec fn authorized(credential: (Seq<char>, Seq<char>), lookup: LookupView) -> Result<
    UserView,
    Rejection,
> {
    match lookup {
        LookupView::Missing => Err(Rejection::NotFound(NotFound)),
        LookupView::Failed => Err(Rejection::Internal(InternalError)),
        LookupView::Found(user) => match hash_outcome(encode_utf8(credential.1), user.salt) {
            Err(e) => Err(Rejection::Internal(e)),
            Ok(computed) => if computed == user.hashed_password {
                Ok(user)
            } else {
                Err(Rejection::NotAuthorized(NotAuthorized))
            },
        },
    }
}

/// The account that a claim creates under a given salt: level 0, nothing on
/// it, settled at the instant of its creation. A taken username is a
/// conflict.
pub open spec fn claimed(
    credential: (Seq<char>, Seq<char>),
    lookup: LookupView,
    salt: Seq<char>,
    now: nat,
) -> Result<UserView, Rejection> {
    match lookup {
        LookupView::Found(_) => Err(Rejection::Conflict(Conflict)),
        LookupView::Failed => Err(Rejection::Internal(InternalError)),
        LookupView::Missing => match hash_outcome(encode_utf8(credential.1), salt) {
            Err(e) => Err(Rejection::Internal(e)),
            Ok(hashed_password) => Ok(
                UserView {
                    username: credential.0,
                    hashed_password,
                    salt,
                    balance: 0,
                    level: 0,
                    collected_timestamp: now,
                },
            ),
        },
    }
}

/// The account after a collection at `now`: settled at `now`, or left
/// settled where it was if the clock ran backwards, so that no time is
/// counted twice. A balance beyond what the account can hold is an internal
/// error.
pub open spec fn collected(user: UserView, now: nat) -> Result<UserView, Rejection> {
    let balance = accrued_balance(
        user.balance as int,
        user.level,
        user.collected_timestamp as int,
        now as int,
    );
    if balance > u64::MAX {
        Err(Rejection::Internal(InternalError))
    } else {
        Ok(
            UserView {
                balance: balance as nat,
                collected_timestamp: if now >= user.collected_timestamp {
                    now
                } else {
                    user.collected_timestamp
                },
                ..user
            },
        )
    }
}

/// The account after an upgrade: on the highest level its balance pays for,
/// with the price of the rise taken off.
pub open spec fn upgraded(user: UserView) -> Result<UserView, Rejection> {
    if user.balance < cost_of_level(user.level + 1) {
        Err(Rejection::NotEnoughMoney(NotEnoughMoney))
    } else {
        let level = reachable_level(user.balance as int, user.level);
        Ok(
            UserView {
                balance: (user.balance - cumulative_cost(user.level, level)) as nat,
                level,
                ..user
            },
        )
    }
}

/// What a request ends with, once the write is reported.
pub open spec fn concluded(stored: StoredView) -> Result<UserWithoutSecretsView, Rejection> {
    match stored {
        StoredView::Done(user) => Ok(without_secrets(user)),
        StoredView::Outdated => Err(Rejection::Outdated(Outdated)),
        StoredView::Failed => Err(Rejection::Internal(InternalError)),
    }
}

/// A collection changes the balance and the instant of settlement only:
/// the balance never falls, and the settlement never moves back.
pub proof fn lemma_collect_keeps_order(user: UserView, now: nat)
    ensures
        match collected(user, now) {
            Ok(after) => {
                &&& after.balance >= user.balance
                &&& after.collected_timestamp >= user.collected_timestamp
                &&& now >= user.collected_timestamp ==> after.collected_timestamp == now
                &&& after == (UserView {
                    balance: after.balance,
                    collected_timestamp: after.collected_timestamp,
                    ..user
                })
            },
            Err(e) => e == Rejection::Internal(InternalError),
        },
{
    lemma_accrual_never_loses(
        user.balance as int,
        user.level,
        user.collected_timestamp as int,
        now as int,
    );
}

/// An upgrade changes the level and the balance only: the level rises to
/// the highest one that the balance pays for, and the price of the rise is
/// what leaves the balance. It fails exactly where the balance does not pay
/// for the next level.
pub proof fn lemma_upgrade_spends_within_balance(user: UserView)
    ensures
        match upgraded(user) {
            Ok(after) => {
                &&& highest_affordable(user.balance as int, user.level, after.level)
                &&& after.balance + cumulative_cost(user.level, after.level) == user.balance
                &&& after == (UserView { balance: after.balance, level: after.level, ..user })
            },
            Err(e) => {
                &&& e == Rejection::NotEnoughMoney(NotEnoughMoney)
                &&& user.balance < cost_of_level(user.level + 1)
            },
        },
{
    if user.balance >= cost_of_level(user.level + 1) {
        assert(cumulative_cost(user.level, user.level) == 0);
        assert(cumulative_cost(user.level, user.level + 1) == cost_of_level(user.level + 1));
        let top = lemma_highest_affordable_exists(
            user.balance as int,
            user.level,
            user.level + 1,
        );
    }
}

/// Authorizes a credential against what the repository found under its
/// username.
pub fn authorize(auth: &Auth, lookup: Lookup) -> (decision: Result<User, Rejection>)
    ensures
        decision_view(decision) == authorized(auth@, lookup@),
{
    match lookup {
        Lookup::Missing => Err(Rejection::NotFound(NotFound)),
        Lookup::Failed => Err(Rejection::Internal(InternalError)),
        Lookup::Found(user) => {
            match verify(
                auth.password.as_str(),
                user.salt.as_str(),
                user.hashed_password.as_str(),
            ) {
                Err(e) => Err(Rejection::Internal(e)),
                Ok(true) => Ok(user),
                Ok(false) => Err(Rejection::NotAuthorized(NotAuthorized)),
            }
        },
    }
}

/// The account to insert for a claim, under the salt handed in.
pub fn create_account_with(auth: &Auth, lookup: Lookup, salt: String, now: u64) -> (decision:
    Result<User, Rejection>)
    ensures
        decision_view(decision) == claimed(auth@, lookup@, salt@, now as nat),
{
    match lookup {
        Lookup::Found(_) => Err(Rejection::Conflict(Conflict)),
        Lookup::Failed => Err(Rejection::Internal(InternalError)),
        Lookup::Missing => match hash(auth.password.as_str(), salt.as_str()) {
            Err(e) => Err(Rejection::Internal(e)),
            Ok(hashed_password) => Ok(
                User {
                    username: auth.username.clone(),
                    hashed_password,
                    salt,
                    balance: 0,
                    level: 0,
                    collected_timestamp: now,
                },
            ),
        },
    }
}

/// The account to insert for a claim, under a fresh salt.
pub fn create_account(auth: &Auth, lookup: Lookup, now: u64) -> (decision: Result<
    User,
    Rejection,
>)
    ensures
        exists|salt: Seq<char>|
            salt.len() == SALT_LENGTH && decision_view(decision) == #[trigger] claimed(
                auth@,
                lookup@,
                salt,
                now as nat,
            ),
{
    let salt = generate_salt();
    create_account_with(auth, lookup, salt, now)
}

/// Collect money for a user: the production times the seconds since the
/// last collection is added to the balance. The settlement never moves
/// back: with a clock that ran backwards the account is settled at the
/// instant it was settled at before.
pub fn collect(user: &User, now: u64) -> (decision: Result<User, Rejection>)
    ensures
        decision_view(decision) == collected(user@, now as nat),
{
    let at = if now >= user.collected_timestamp {
        now
    } else {
        user.collected_timestamp
    };
    match accrue(user, at) {
        Some(settled) => Ok(settled),
        None => Err(Rejection::Internal(InternalError)),
    }
}

/// Upgrade the user's levels as far as the balance pays for. Fails where it
/// does not pay for one.
pub fn upgrade(user: &User) -> (decision: Result<User, Rejection>)
    ensures
        decision_view(decision) == upgraded(user@),
{
    match user.upgradeable_levels() {
        Err(_) => Err(Rejection::NotEnoughMoney(NotEnoughMoney)),
        Ok(quote) => {
            proof {
                lemma_reachable_level(
                    user.balance as int,
                    user.level as nat,
                    quote.level as nat,
                );
            }
            Ok(
                User {
                    username: user.username.clone(),
                    hashed_password: user.hashed_password.clone(),
                    salt: user.salt.clone(),
                    balance: user.balance - quote.cost,
                    level: quote.level,
                    collected_timestamp: user.collected_timestamp,
                },
            )
        },
    }
}

/// What the client is answered once the write is reported.
pub fn conclude(stored: Stored) -> (outcome: Result<UserWithoutSecrets, Rejection>)
    ensures
        (match outcome {
            Ok(shown) => Ok::<UserWithoutSecretsView, Rejection>(shown@),
            Err(e) => Err(e),
        }) == concluded(stored@),
{
    match stored {
        Stored::Done(user) => Ok(UserWithoutSecrets::from(user)),
        Stored::Outdated => Err(Rejection::Outdated(Outdated)),
        Stored::Failed => Err(Rejection::Internal(InternalError)),
    }
}

} // verus!
