//! An account repository held in memory: one row per account, keyed by its
//! username. It answers as a repository must for the pipeline to be safe: a
//! write goes through only if the row still is the one that was read.

use crate::models::{User, UserView};
use crate::routes::{Lookup, LookupView, Stored, StoredView};
use vstd::prelude::*;

verus! {

/// No two rows carry one username.
pub open spec fn distinct(rows: Seq<UserView>) -> bool {
    forall|i: int, j: int|
        0 <= i < rows.len() && 0 <= j < rows.len() && i != j ==> #[trigger] rows[i].username
            != #[trigger] rows[j].username
}

/// Some row carries the username.
pub open spec fn holds(rows: Seq<UserView>, username: Seq<char>) -> bool {
    exists|i: int| 0 <= i < rows.len() && #[trigger] rows[i].username == username
}

/// The position of a row that carries the username.
pub open spec fn position_of(rows: Seq<UserView>, username: Seq<char>) -> int {
    choose|i: int| 0 <= i < rows.len() && #[trigger] rows[i].username == username
}

/// What a lookup of the username finds.
pub open spec fn found(rows: Seq<UserView>, username: Seq<char>) -> LookupView {
    if holds(rows, username) {
        LookupView::Found(rows[position_of(rows, username)])
    } else {
        LookupView::Missing
    }
}

/// The rows and the report after an insert: a new row, unless the username
/// is taken by now.
pub open spec fn inserted(rows: Seq<UserView>, user: UserView) -> (Seq<UserView>, StoredView) {
    if holds(rows, user.username) {
        (rows, StoredView::Outdated)
    } else {
        (rows.push(user), StoredView::Done(user))
    }
}

/// The rows and the report after a conditional update: `updated` stands in
/// the place of `snapshot` if the row still is `snapshot`, and nothing
/// changes otherwise. An update that would rename the account is refused.
pub open spec fn replaced(rows: Seq<UserView>, snapshot: UserView, updated: UserView) -> (
    Seq<UserView>,
    StoredView,
) {
    if updated.username != snapshot.username {
        (rows, StoredView::Failed)
    } else if holds(rows, snapshot.username) && rows[position_of(rows, snapshot.username)]
        == snapshot {
        (rows.update(position_of(rows, snapshot.username), updated), StoredView::Done(updated))
    } else {
        (rows, StoredView::Outdated)
    }
}

/// In rows with distinct usernames, a row that carries the username is the
/// one that a lookup finds.
pub proof fn lemma_position(rows: Seq<UserView>, username: Seq<char>, at: int)
    requires
        distinct(rows),
        0 <= at < rows.len(),
        rows[at].username == username,
    ensures
        holds(rows, username),
        position_of(rows, username) == at,
{
    let chosen = position_of(rows, username);
    assert(rows[chosen].username == username);
    if chosen != at {
        assert(rows[chosen].username != rows[at].username);
    }
}

/// Of two writes that start from one snapshot, the first goes through and
/// the second is refused as outdated, leaving the first in place: where the
/// first changed the row, no update is lost and none is applied twice.
pub proof fn lemma_one_of_two_writes_commits(
    rows: Seq<UserView>,
    snapshot: UserView,
    first: UserView,
    second: UserView,
)
    requires
        distinct(rows),
        found(rows, snapshot.username) == LookupView::Found(snapshot),
        first.username == snapshot.username,
        second.username == snapshot.username,
        first != snapshot,
    ensures
        replaced(rows, snapshot, first).1 == StoredView::Done(first),
        distinct(replaced(rows, snapshot, first).0),
        found(replaced(rows, snapshot, first).0, snapshot.username) == LookupView::Found(first),
        replaced(replaced(rows, snapshot, first).0, snapshot, second) == (
            replaced(rows, snapshot, first).0,
            StoredView::Outdated,
        ),
{
    let at = position_of(rows, snapshot.username);
    let after = rows.update(at, first);
    assert(replaced(rows, snapshot, first) == (after, StoredView::Done(first)));
    assert(distinct(after)) by {
        assert forall|i: int, j: int|
            0 <= i < after.len() && 0 <= j < after.len() && i != j implies #[trigger] after[i].username
            != #[trigger] after[j].username by {
            assert(after[i].username == rows[i].username);
            assert(after[j].username == rows[j].username);
        }
    }
    assert(after[at].username == snapshot.username);
    lemma_position(after, snapshot.username, at);
}

/// The accounts, one row each.
pub struct Accounts {
    rows: Vec<User>,
}

impl View for Accounts {
    type V = Seq<UserView>;

    closed spec fn view(&self) -> Seq<UserView> {
        Seq::new(self.rows@.len(), |i: int| self.rows@[i]@)
    }
}

impl Accounts {
    /// No two accounts carry one username.
    pub open spec fn wf(&self) -> bool {
        distinct(self@)
    }

    /// A repository without accounts.
    pub fn new() -> (accounts: Accounts)
        ensures
            accounts.wf(),
            accounts@ == Seq::<UserView>::empty(),
    {
        let accounts = Accounts { rows: Vec::new() };
        assert(accounts@ =~= Seq::<UserView>::empty());
        accounts
    }

    /// The position of the row that carries the username, if there is one.
    fn position(&self, username: &String) -> (at: Option<usize>)
        requires
            self.wf(),
        ensures
            match at {
                Some(i) => i < self.rows@.len() && holds(self@, username@) && position_of(
                    self@,
                    username@,
                ) == i,
                None => !holds(self@, username@),
            },
    {
        let mut i: usize = 0;
        while i < self.rows.len()
            invariant
                i <= self.rows@.len(),
                self.wf(),
                forall|j: int| 0 <= j < i ==> self@[j].username != username@,
            decreases self.rows@.len() - i,
        {
            if self.rows[i].username == *username {
                proof {
                    assert(self@[i as int].username == username@);
                    lemma_position(self@, username@, i as int);
                }
                return Some(i);
            }
            i += 1;
        }
        None
    }

    /// The account of a username.
    pub fn find(&self, username: &str) -> (lookup: Lookup)
        requires
            self.wf(),
        ensures
            lookup@ == found(self@, username@),
    {
        let wanted = username.to_owned();
        match self.position(&wanted) {
            Some(i) => Lookup::Found(self.rows[i].clone()),
            None => Lookup::Missing,
        }
    }

    /// Adds an account, unless its username is taken by now.
    pub fn insert(&mut self, user: User) -> (stored: Stored)
        requires
            old(self).wf(),
        ensures
            final(self).wf(),
            (final(self)@, stored@) == inserted(old(self)@, user@),
    {
        match self.position(&user.username) {
            Some(_) => Stored::Outdated,
            None => {
                let copy = user.clone();
                let ghost before = self@;
                self.rows.push(user);
                proof {
                    assert(self@ =~= before.push(user@));
                    assert forall|i: int, j: int|
                        0 <= i < self@.len() && 0 <= j < self@.len() && i != j implies #[trigger] self@[i].username
                        != #[trigger] self@[j].username by {
                        if i < before.len() && j < before.len() {
                            assert(before[i].username != before[j].username);
                        } else if i < before.len() {
                            assert(before[i].username != user@.username);
                        } else {
                            assert(before[j].username != user@.username);
                        }
                    }
                }
                Stored::Done(copy)
            },
        }
    }

    /// Puts `updated` in the place of `snapshot`, if the row still is
    /// `snapshot`.
    pub fn update(&mut self, snapshot: &User, updated: User) -> (stored: Stored)
        requires
            old(self).wf(),
        ensures
            final(self).wf(),
            (final(self)@, stored@) == replaced(old(self)@, snapshot@, updated@),
    {
        if updated.username != snapshot.username {
            return Stored::Failed;
        }
        let at = match self.position(&snapshot.username) {
            Some(at) => at,
            None => {
                return Stored::Outdated;
            },
        };
        let row = &self.rows[at];
        if row.hashed_password != snapshot.hashed_password || row.salt != snapshot.salt
            || row.balance != snapshot.balance || row.level != snapshot.level
            || row.collected_timestamp != snapshot.collected_timestamp {
            return Stored::Outdated;
        }
        assert(self@[at as int] == snapshot@);
        let copy = updated.clone();
        let ghost before = self@;
        self.rows.set(at, updated);
        proof {
            assert(self@ =~= before.update(at as int, updated@));
            assert forall|i: int, j: int|
                0 <= i < self@.len() && 0 <= j < self@.len() && i != j implies #[trigger] self@[i].username
                != #[trigger] self@[j].username by {
                assert(self@[i].username == before[i].username);
                assert(self@[j].username == before[j].username);
            }
        }
        Stored::Done(copy)
    }
}

} // verus!
