//! The account row, its public projection, and the game calculations on it.

use crate::economy::{
    accrued_balance, affordable_level, cost_at, cost_of_level, cumulative_cost,
    highest_affordable, lemma_production_bounds, production, production_at,
};
use vstd::prelude::*;

verus! {

/// One account. The balance is in whole currency units, the timestamp in
/// whole seconds since the Unix epoch.
#[derive(Debug)]
pub struct User {
    pub username: String,
    pub hashed_password: String,
    pub salt: String,
    pub balance: u64,
    pub level: u32,
    pub collected_timestamp: u64,
}

impl Clone for User {
    fn clone(&self) -> (copy: User)
        ensures
            copy@ == self@,
    {
        User {
            username: self.username.clone(),
            hashed_password: self.hashed_password.clone(),
            salt: self.salt.clone(),
            balance: self.balance,
            level: self.level,
            collected_timestamp: self.collected_timestamp,
        }
    }
}

/// An account as a mathematical value.
pub struct UserView {
    pub username: Seq<char>,
    pub hashed_password: Seq<char>,
    pub salt: Seq<char>,
    pub balance: nat,
    pub level: nat,
    pub collected_timestamp: nat,
}

impl View for User {
    type V = UserView;

    open spec fn view(&self) -> UserView {
        UserView {
            username: self.username@,
            hashed_password: self.hashed_password@,
            salt: self.salt@,
            balance: self.balance as nat,
            level: self.level as nat,
            collected_timestamp: self.collected_timestamp as nat,
        }
    }
}

/// What a client may see of an account: everything but the hash and the salt.
#[derive(Debug)]
pub struct UserWithoutSecrets {
    pub username: String,
    pub balance: u64,
    pub level: u32,
    pub collected_timestamp: u64,
}

/// A public projection as a mathematical value.
pub struct UserWithoutSecretsView {
    pub username: Seq<char>,
    pub balance: nat,
    pub level: nat,
    pub collected_timestamp: nat,
}

impl View for UserWithoutSecrets {
    type V = UserWithoutSecretsView;

    open spec fn view(&self) -> UserWithoutSecretsView {
        UserWithoutSecretsView {
            username: self.username@,
            balance: self.balance as nat,
            level: self.level as nat,
            collected_timestamp: self.collected_timestamp as nat,
        }
    }
}

/// The projection of an account with its secrets left out.
pub open spec fn without_secrets(user: UserView) -> UserWithoutSecretsView {
    UserWithoutSecretsView {
        username: user.username,
        balance: user.balance,
        level: user.level,
        collected_timestamp: user.collected_timestamp,
    }
}

impl vstd::std_specs::convert::FromSpecImpl<User> for UserWithoutSecrets {
    open spec fn obeys_from_spec() -> bool {
        true
    }

    open spec fn from_spec(user: User) -> UserWithoutSecrets {
        UserWithoutSecrets {
            username: user.username,
            balance: user.balance,
            level: user.level,
            collected_timestamp: user.collected_timestamp,
        }
    }
}

impl From<User> for UserWithoutSecrets {
    fn from(user: User) -> (shown: UserWithoutSecrets) {
        UserWithoutSecrets {
            username: user.username,
            balance: user.balance,
            level: user.level,
            collected_timestamp: user.collected_timestamp,
        }
    }
}

/// The outcome of an upgrade resolution: the level reached and what the
/// rise costs. Nothing is spent until the caller commits it.
#[derive(Debug)]
pub struct UpgradeableLevelsOutput {
    pub level: u32,
    pub cost: u64,
}

/// The calculations of the game on an account: production, costs, and how
/// far the balance reaches.
pub trait GameCalculations {
    /// The level the calculations start from.
    spec fn level(&self) -> nat;

    /// The balance the calculations spend from.
    spec fn balance(&self) -> nat;

    /// Units produced per second, or `None` where the rate is more than a
    /// `u64` holds.
    fn get_production(&self) -> (rate: Option<u64>)
        ensures
            rate == (if production(self.level()) <= u64::MAX {
                Some(production(self.level()) as u64)
            } else {
                None
            }),
    ;

    /// The cost figure of the current level, or `None` where it is more than
    /// a `u64` holds.
    fn next_level_cost(&self) -> (cost: Option<u64>)
        ensures
            cost == (if cost_of_level(self.level()) <= u64::MAX {
                Some(cost_of_level(self.level()) as u64)
            } else {
                None
            }),
    ;

    /// The cost figure of `level`, or `None` where it is more than a `u64`
    /// holds.
    fn specific_level_cost(&self, level: u32) -> (cost: Option<u64>)
        ensures
            cost == (if cost_of_level(level as nat) <= u64::MAX {
                Some(cost_of_level(level as nat) as u64)
            } else {
                None
            }),
    ;

    /// Resolves an upgrade: the highest level that the balance pays for and
    /// the price of rising to it. Fails, with nothing partly bought, exactly
    /// when the balance is below the cost of the next level.
    fn upgradeable_levels(&self) -> (quote: Result<UpgradeableLevelsOutput, ()>)
        ensures
            quote is Err <==> self.balance() < cost_of_level(self.level() + 1),
            match quote {
                Ok(out) => {
                    &&& highest_affordable(self.balance() as int, self.level(), out.level as nat)
                    &&& out.cost == cumulative_cost(self.level(), out.level as nat)
                },
                Err(_) => true,
            },
    ;
}

impl GameCalculations for User {
    open spec fn level(&self) -> nat {
        self.level as nat
    }

    open spec fn balance(&self) -> nat {
        self.balance as nat
    }

    fn get_production(&self) -> (rate: Option<u64>) {
        production_at(self.level)
    }

    fn next_level_cost(&self) -> (cost: Option<u64>) {
        cost_at(self.level)
    }

    fn specific_level_cost(&self, level: u32) -> (cost: Option<u64>) {
        cost_at(level)
    }

    fn upgradeable_levels(&self) -> (quote: Result<UpgradeableLevelsOutput, ()>) {
        match affordable_level(self.balance, self.level) {
            Some((level, cost)) => Ok(UpgradeableLevelsOutput { level, cost }),
            None => Err(()),
        }
    }
}

/// Settles the time since the last collection: the balance grows by the
/// production times the seconds elapsed, and the timestamp moves to `now`.
/// A `now` before the last collection counts as no time elapsed. `None`
/// where the new balance is more than a `u64` holds. The account handed in
/// is left as it is.
pub fn accrue(user: &User, now: u64) -> (settled: Option<User>)
    ensures
        match settled {
            Some(after) => after@ == (UserView {
                balance: accrued_balance(
                    user.balance as int,
                    user.level as nat,
                    user.collected_timestamp as int,
                    now as int,
                ) as nat,
                collected_timestamp: now as nat,
                ..user@
            }),
            None => accrued_balance(
                user.balance as int,
                user.level as nat,
                user.collected_timestamp as int,
                now as int,
            ) > u64::MAX,
        },
{
    proof {
        lemma_production_bounds(user.level as nat);
    }
    if now <= user.collected_timestamp {
        return Some(
            User {
                username: user.username.clone(),
                hashed_password: user.hashed_password.clone(),
                salt: user.salt.clone(),
                balance: user.balance,
                level: user.level,
                collected_timestamp: now,
            },
        );
    }
    let elapsed = now - user.collected_timestamp;
    let rate = match production_at(user.level) {
        Some(rate) => rate,
        None => {
            assert(production(user.level as nat) * elapsed > u64::MAX) by (nonlinear_arith)
                requires
                    production(user.level as nat) > u64::MAX,
                    elapsed >= 1,
            ;
            return None;
        },
    };
    let earned = match rate.checked_mul(elapsed) {
        Some(earned) => earned,
        None => {
            return None;
        },
    };
    let balance = match user.balance.checked_add(earned) {
        Some(balance) => balance,
        None => {
            return None;
        },
    };
    Some(
        User {
            username: user.username.clone(),
            hashed_password: user.hashed_password.clone(),
            salt: user.salt.clone(),
            balance,
            level: user.level,
            collected_timestamp: now,
        },
    )
}

} // verus!
