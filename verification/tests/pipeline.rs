use idle_backend::auth::{encode_header, Auth, AuthorizationError};
use idle_backend::errors::{
    Conflict, InternalError, NotAuthorized, NotEnoughMoney, NotFound, Outdated, Rejection,
};
use idle_backend::models::{User, UserWithoutSecrets};
use idle_backend::password::{generate_salt, hash};
use idle_backend::pipeline::{
    advance, advance_with, begin, success_status, Action, Event, Operation, Pipeline,
};
use idle_backend::repository::Accounts;
use idle_backend::routes::{
    authorize, collect, conclude, create_account, create_account_with, upgrade, Lookup, Stored,
};

fn credential(username: &str, password: &str) -> Auth {
    Auth { username: username.to_string(), password: password.to_string() }
}

fn account(username: &str, password: &str, balance: u64, level: u32, at: u64) -> User {
    let salt = generate_salt();
    User {
        username: username.to_string(),
        hashed_password: hash(password, &salt).unwrap(),
        salt,
        balance,
        level,
        collected_timestamp: at,
    }
}

fn run(accounts: &mut Accounts, operation: Operation, header: &str, now: u64) -> Result<UserWithoutSecrets, Rejection> {
    let mut state = begin(operation);
    let mut event = Event::Header(header.to_string());
    loop {
        let (next, action) = advance(state, event);
        state = next;
        event = match action {
            Action::LookUp(username) => Event::Looked(accounts.find(&username)),
            Action::ReadClock => Event::Clock(now),
            Action::Insert(user) => Event::Written(accounts.insert(user)),
            Action::Update { snapshot, updated } => {
                Event::Written(accounts.update(&snapshot, updated))
            }
            Action::Respond => {
                return match state {
                    Pipeline::Done(shown) => Ok(shown),
                    Pipeline::Failed(e) => Err(e),
                    other => panic!("not a final state: {other:?}"),
                }
            }
        };
    }
}

#[test]
fn authorize_accepts_the_password_of_the_account() {
    let user = account("ann", "secret", 3, 1, 50);
    let got = authorize(&credential("ann", "secret"), Lookup::Found(user.clone())).unwrap();
    assert_eq!(format!("{got:?}"), format!("{user:?}"));
}

#[test]
fn authorize_tells_mismatch_from_missing_and_failure() {
    let user = account("ann", "secret", 3, 1, 50);
    assert_eq!(
        authorize(&credential("ann", "guess"), Lookup::Found(user)).unwrap_err(),
        Rejection::NotAuthorized(NotAuthorized)
    );
    assert_eq!(
        authorize(&credential("ann", "secret"), Lookup::Missing).unwrap_err(),
        Rejection::NotFound(NotFound)
    );
    assert_eq!(
        authorize(&credential("ann", "secret"), Lookup::Failed).unwrap_err(),
        Rejection::Internal(InternalError)
    );
}

#[test]
fn authorize_with_a_broken_stored_salt_is_internal() {
    let mut user = account("ann", "secret", 3, 1, 50);
    user.salt = "??".to_string();
    assert_eq!(
        authorize(&credential("ann", "secret"), Lookup::Found(user)).unwrap_err(),
        Rejection::Internal(InternalError)
    );
}

#[test]
fn create_account_starts_at_level_zero_with_nothing() {
    let user = create_account(&credential("bob", "hunter2"), Lookup::Missing, 1_234).unwrap();
    assert_eq!(user.username, "bob");
    assert_eq!(user.balance, 0);
    assert_eq!(user.level, 0);
    assert_eq!(user.collected_timestamp, 1_234);
    assert_ne!(user.hashed_password, "hunter2");
    assert_eq!(user.hashed_password, hash("hunter2", &user.salt).unwrap());
}

#[test]
fn create_account_on_a_taken_username_is_a_conflict() {
    let taken = account("bob", "other", 0, 0, 0);
    assert_eq!(
        create_account(&credential("bob", "hunter2"), Lookup::Found(taken), 1).unwrap_err(),
        Rejection::Conflict(Conflict)
    );
    assert_eq!(
        create_account(&credential("bob", "hunter2"), Lookup::Failed, 1).unwrap_err(),
        Rejection::Internal(InternalError)
    );
}

#[test]
fn create_account_with_uses_the_salt_handed_in() {
    let salt = "c29tZXNhbHRzb21lc2FsdA".to_string();
    let user =
        create_account_with(&credential("bob", "hunter2"), Lookup::Missing, salt.clone(), 9)
            .unwrap();
    assert_eq!(user.salt, salt);
    assert_eq!(user.hashed_password, hash("hunter2", &salt).unwrap());
    assert_eq!(
        create_account_with(&credential("bob", "hunter2"), Lookup::Missing, "!".to_string(), 9)
            .unwrap_err(),
        Rejection::Internal(InternalError)
    );
}

#[test]
fn collect_settles_the_elapsed_time() {
    let user = account("ann", "secret", 10, 2, 100);
    let updated = collect(&user, 130).unwrap();
    assert_eq!(updated.balance, 10 + 3 * 30);
    assert_eq!(updated.collected_timestamp, 130);
    assert_eq!(updated.level, 2);
    assert_eq!(collect(&user, 100).unwrap().balance, 10);
    let rich = account("ann", "secret", u64::MAX, 0, 0);
    assert_eq!(collect(&rich, 5).unwrap_err(), Rejection::Internal(InternalError));
}

#[test]
fn upgrade_spends_the_price_of_the_rise() {
    let user = account("ann", "secret", 15, 0, 100);
    let updated = upgrade(&user).unwrap();
    assert_eq!(updated.level, 2);
    assert_eq!(updated.balance, 15 - 13);
    assert_eq!(updated.collected_timestamp, 100);
    assert_eq!(updated.hashed_password, user.hashed_password);
}

#[test]
fn upgrade_without_funds_buys_nothing() {
    let user = account("ann", "secret", 4, 0, 100);
    assert_eq!(upgrade(&user).unwrap_err(), Rejection::NotEnoughMoney(NotEnoughMoney));
    let user = account("ann", "secret", 5, 0, 100);
    assert_eq!(upgrade(&user).unwrap_err(), Rejection::NotEnoughMoney(NotEnoughMoney));
}

#[test]
fn conclude_maps_the_write_report() {
    let shown = conclude(Stored::Done(account("ann", "secret", 7, 1, 9))).unwrap();
    assert_eq!((shown.username.as_str(), shown.balance, shown.level), ("ann", 7, 1));
    assert_eq!(conclude(Stored::Outdated).unwrap_err(), Rejection::Outdated(Outdated));
    assert_eq!(conclude(Stored::Failed).unwrap_err(), Rejection::Internal(InternalError));
}

#[test]
fn claim_then_collect_then_upgrade() {
    let mut accounts = Accounts::new();
    let header = encode_header("ann", "secret").unwrap();

    let shown = run(&mut accounts, Operation::Claim, &header, 1_000).unwrap();
    assert_eq!((shown.balance, shown.level, shown.collected_timestamp), (0, 0, 1_000));

    let shown = run(&mut accounts, Operation::Collect, &header, 1_006).unwrap();
    assert_eq!((shown.balance, shown.level, shown.collected_timestamp), (6, 0, 1_006));

    let shown = run(&mut accounts, Operation::Upgrade, &header, 1_007).unwrap();
    assert_eq!((shown.balance, shown.level, shown.collected_timestamp), (0, 1, 1_006));

    let shown = run(&mut accounts, Operation::Collect, &header, 1_016).unwrap();
    assert_eq!((shown.balance, shown.level, shown.collected_timestamp), (20, 1, 1_016));
}

#[test]
fn requests_fail_as_the_taxonomy_says() {
    let mut accounts = Accounts::new();
    let header = encode_header("ann", "secret").unwrap();
    assert_eq!(
        run(&mut accounts, Operation::Collect, "Bearer xyz", 1).unwrap_err(),
        Rejection::Authorization(AuthorizationError::NotBasicAuthentication)
    );
    assert_eq!(
        run(&mut accounts, Operation::Collect, &header, 1).unwrap_err(),
        Rejection::NotFound(NotFound)
    );
    run(&mut accounts, Operation::Claim, &header, 10).unwrap();
    assert_eq!(
        run(&mut accounts, Operation::Claim, &header, 11).unwrap_err(),
        Rejection::Conflict(Conflict)
    );
    let wrong = encode_header("ann", "guess").unwrap();
    assert_eq!(
        run(&mut accounts, Operation::Collect, &wrong, 12).unwrap_err(),
        Rejection::NotAuthorized(NotAuthorized)
    );
    assert_eq!(
        run(&mut accounts, Operation::Upgrade, &header, 12).unwrap_err(),
        Rejection::NotEnoughMoney(NotEnoughMoney)
    );
    let Lookup::Found(row) = accounts.find("ann") else { panic!("the account is gone") };
    assert_eq!((row.balance, row.level, row.collected_timestamp), (0, 0, 10));
}

#[test]
fn an_event_out_of_turn_fails_the_request() {
    let (state, action) = advance(begin(Operation::Collect), Event::Clock(5));
    assert!(matches!(state, Pipeline::Failed(Rejection::Internal(InternalError))));
    assert!(matches!(action, Action::Respond));
    let (state, action) = advance(state, Event::Header("Basic Og==".to_string()));
    assert!(matches!(state, Pipeline::Failed(Rejection::Internal(InternalError))));
    assert!(matches!(action, Action::Respond));
}

#[test]
fn the_pipeline_passes_through_every_state() {
    let user = account("ann", "secret", 10, 0, 100);
    let header = encode_header("ann", "secret").unwrap();
    let state = begin(Operation::Collect);
    assert!(matches!(state, Pipeline::Unauthenticated { operation: Operation::Collect }));
    let (state, action) = advance(state, Event::Header(header));
    assert!(matches!(state, Pipeline::Authenticating { .. }));
    assert!(matches!(action, Action::LookUp(ref name) if name == "ann"));
    let (state, action) = advance(state, Event::Looked(Lookup::Found(user.clone())));
    assert!(matches!(state, Pipeline::Authenticated { .. }));
    assert!(matches!(action, Action::ReadClock));
    let (state, action) = advance(state, Event::Clock(105));
    assert!(matches!(state, Pipeline::Operating));
    let Action::Update { snapshot, updated } = action else { panic!("no update asked for") };
    assert_eq!(format!("{snapshot:?}"), format!("{user:?}"));
    assert_eq!((updated.balance, updated.collected_timestamp), (15, 105));
    let (state, action) = advance(state, Event::Written(Stored::Done(updated)));
    assert!(matches!(state, Pipeline::Done(ref shown) if shown.balance == 15));
    assert!(matches!(action, Action::Respond));
}

#[test]
fn a_claim_uses_the_salt_it_is_given() {
    let header = encode_header("bob", "hunter2").unwrap();
    let salt = "c29tZXNhbHRzb21lc2FsdA".to_string();
    let (state, _) = advance_with(begin(Operation::Claim), Event::Header(header), String::new());
    let (state, _) = advance_with(state, Event::Looked(Lookup::Missing), String::new());
    let (state, action) = advance_with(state, Event::Clock(77), salt.clone());
    assert!(matches!(state, Pipeline::Operating));
    let Action::Insert(user) = action else { panic!("no insert asked for") };
    assert_eq!(user.salt, salt);
    assert_eq!(user.hashed_password, hash("hunter2", &salt).unwrap());
    assert_eq!((user.balance, user.level, user.collected_timestamp), (0, 0, 77));
}

#[test]
fn two_collects_from_one_snapshot_do_not_both_commit() {
    let mut accounts = Accounts::new();
    let user = account("ann", "secret", 10, 0, 100);
    assert!(matches!(accounts.insert(user), Stored::Done(_)));

    let Lookup::Found(first_read) = accounts.find("ann") else { panic!("the account is gone") };
    let Lookup::Found(second_read) = accounts.find("ann") else { panic!("the account is gone") };
    let first = collect(&first_read, 110).unwrap();
    let second = collect(&second_read, 120).unwrap();

    assert!(matches!(accounts.update(&first_read, first), Stored::Done(_)));
    assert!(matches!(accounts.update(&second_read, second), Stored::Outdated));

    let Lookup::Found(row) = accounts.find("ann") else { panic!("the account is gone") };
    assert_eq!((row.balance, row.collected_timestamp), (20, 110));

    let retried = collect(&row, 120).unwrap();
    assert!(matches!(accounts.update(&row, retried), Stored::Done(_)));
    let Lookup::Found(row) = accounts.find("ann") else { panic!("the account is gone") };
    assert_eq!((row.balance, row.collected_timestamp), (30, 120));
}

#[test]
fn two_claims_of_one_username_do_not_both_commit() {
    let mut accounts = Accounts::new();
    let first = create_account(&credential("bob", "one"), accounts.find("bob"), 1).unwrap();
    let second = create_account(&credential("bob", "two"), accounts.find("bob"), 1).unwrap();
    assert!(matches!(accounts.insert(first), Stored::Done(_)));
    assert!(matches!(accounts.insert(second), Stored::Outdated));
    let Lookup::Found(row) = accounts.find("bob") else { panic!("the account is gone") };
    assert_eq!(row.hashed_password, hash("one", &row.salt).unwrap());
}

#[test]
fn an_update_may_not_rename_an_account() {
    let mut accounts = Accounts::new();
    let user = account("ann", "secret", 10, 0, 100);
    accounts.insert(user.clone());
    let mut renamed = user.clone();
    renamed.username = "eve".to_string();
    assert!(matches!(accounts.update(&user, renamed), Stored::Failed));
    assert!(matches!(accounts.find("eve"), Lookup::Missing));
    assert!(matches!(accounts.update(&account("zed", "x", 0, 0, 0), account("zed", "x", 1, 0, 0)), Stored::Outdated));
}

#[test]
fn a_claim_is_answered_created_and_the_others_ok() {
    assert_eq!(success_status(Operation::Claim), 201);
    assert_eq!(success_status(Operation::Collect), 200);
    assert_eq!(success_status(Operation::Upgrade), 200);
}

#[test]
fn a_failed_lookup_is_an_internal_error() {
    let header = encode_header("ann", "secret").unwrap();
    for operation in [Operation::Claim, Operation::Collect, Operation::Upgrade] {
        let (state, _) = advance(begin(operation), Event::Header(header.clone()));
        let (state, action) = advance(state, Event::Looked(Lookup::Failed));
        assert!(matches!(state, Pipeline::Failed(Rejection::Internal(InternalError))));
        assert!(matches!(action, Action::Respond));
    }
}

#[test]
fn a_write_that_came_too_late_may_be_tried_again() {
    let mut accounts = Accounts::new();
    let header = encode_header("ann", "secret").unwrap();
    run(&mut accounts, Operation::Claim, &header, 100).unwrap();

    let (state, _) = advance(begin(Operation::Collect), Event::Header(header.clone()));
    let (state, _) = advance(state, Event::Looked(accounts.find("ann")));
    let (state, action) = advance(state, Event::Clock(130));
    let Action::Update { snapshot, updated } = action else { panic!("no update asked for") };

    run(&mut accounts, Operation::Collect, &header, 120).unwrap();

    let (state, _) = advance(state, Event::Written(accounts.update(&snapshot, updated)));
    assert!(matches!(state, Pipeline::Failed(Rejection::Outdated(Outdated))));

    let shown = run(&mut accounts, Operation::Collect, &header, 130).unwrap();
    assert_eq!((shown.balance, shown.collected_timestamp), (30, 130));
}

#[test]
fn collect_never_moves_the_settlement_back() {
    let user = account("ann", "secret", 10, 2, 1_000);
    let updated = collect(&user, 400).unwrap();
    assert_eq!((updated.balance, updated.collected_timestamp), (10, 1_000));
    let later = collect(&updated, 1_010).unwrap();
    assert_eq!((later.balance, later.collected_timestamp), (40, 1_010));
}
