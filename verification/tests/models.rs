use idle_backend::models::{accrue, GameCalculations, User, UserWithoutSecrets};
use std::time::{SystemTime, UNIX_EPOCH};

fn seconds_now() -> u64 {
    SystemTime::now().duration_since(UNIX_EPOCH).unwrap().as_secs()
}

fn user_with(balance: u64, level: u32, collected_timestamp: u64) -> User {
    User {
        username: "username".to_string(),
        hashed_password: "hashed_password".to_string(),
        salt: "salt".to_string(),
        balance,
        level,
        collected_timestamp,
    }
}

#[test]
fn test_get_production() {
    let user = User {
        username: "username".to_string(),
        hashed_password: "hashed_password".to_string(),
        salt: "salt".to_string(),
        balance: 0,
        level: 0,
        collected_timestamp: seconds_now(),
    };

    assert_eq!(user.get_production().map(|p| p as f64), Some(1.0));
}

#[test]
fn test_next_level_cost() {
    let user = User {
        username: "username".to_string(),
        hashed_password: "hashed_password".to_string(),
        salt: "salt".to_string(),
        balance: 0,
        level: 0,
        collected_timestamp: seconds_now(),
    };

    assert_eq!(user.next_level_cost().map(|c| c as f64), Some(5.0));
}

#[test]
fn test_specific_level_cost() {
    let user = User {
        username: "username".to_string(),
        hashed_password: "hashed_password".to_string(),
        salt: "salt".to_string(),
        balance: 0,
        level: 0,
        collected_timestamp: seconds_now(),
    };

    assert_eq!(
        user.specific_level_cost(1).map(|c| c as f64),
        Some((5.0_f64 * 1.15).round())
    );
    assert_eq!(
        user.specific_level_cost(2).map(|c| c as f64),
        Some((5.0_f64 * 1.15 * 1.15).round())
    );
    assert_eq!(
        user.specific_level_cost(3).map(|c| c as f64),
        Some((5.0_f64 * 1.15 * 1.15 * 1.15).round())
    );
}

#[test]
fn test_upgradeable_levels() {
    let user = User {
        username: "username".to_owned(),
        hashed_password: "hashed_password".to_owned(),
        salt: "salt".to_owned(),
        balance: 0,
        level: 0,
        collected_timestamp: seconds_now(),
    };

    assert_eq!(user.upgradeable_levels().is_err(), true);

    let user = User {
        username: "username".to_owned(),
        hashed_password: "hashed_password".to_owned(),
        salt: "salt".to_owned(),
        balance: 5,
        level: 0,
        collected_timestamp: seconds_now(),
    };

    // the first level costs 6
    assert_eq!(user.upgradeable_levels().is_ok(), false);

    let user = User {
        username: "username".to_owned(),
        hashed_password: "hashed_password".to_owned(),
        salt: "salt".to_owned(),
        balance: 6,
        level: 0,
        collected_timestamp: seconds_now(),
    };

    assert_eq!(user.upgradeable_levels().is_ok(), true);
}

#[test]
fn balance_of_four_does_not_pay_for_level_one() {
    assert!(user_with(4, 0, 0).upgradeable_levels().is_err());
}

#[test]
fn upgrade_quote_is_the_highest_level_paid_for() {
    let quote = user_with(100, 0, 0).upgradeable_levels().unwrap();
    // 6 + 7 + 8 + 9 + 10 + 12 + 13 + 15 + 18 = 98, and level 10 costs 20
    assert_eq!((quote.level, quote.cost), (9, 98));
    let quote = user_with(98, 0, 0).upgradeable_levels().unwrap();
    assert_eq!((quote.level, quote.cost), (9, 98));
    let quote = user_with(97, 0, 0).upgradeable_levels().unwrap();
    assert_eq!((quote.level, quote.cost), (8, 80));
    let quote = user_with(40, 9, 0).upgradeable_levels().unwrap();
    assert_eq!((quote.level, quote.cost), (10, 20));
}

#[test]
fn upgrade_quote_never_exceeds_the_balance() {
    for balance in 0..400u64 {
        for level in 0..6u32 {
            let user = user_with(balance, level, 0);
            let next = user.specific_level_cost(level + 1).unwrap();
            match user.upgradeable_levels() {
                Err(()) => assert!(balance < next),
                Ok(quote) => {
                    assert!(quote.level > level);
                    assert!(quote.cost <= balance);
                    let sum: u64 = (level + 1..=quote.level)
                        .map(|l| user.specific_level_cost(l).unwrap())
                        .sum();
                    assert_eq!(quote.cost, sum);
                    let further = user.specific_level_cost(quote.level + 1).unwrap();
                    assert!(quote.cost + further > balance);
                }
            }
        }
    }
}

#[test]
fn costs_beyond_the_machine_range_are_none() {
    let user = user_with(u64::MAX, 0, 0);
    assert!(user.specific_level_cost(300).is_some());
    assert_eq!(user.specific_level_cost(320), None);
    assert_eq!(user.specific_level_cost(u32::MAX), None);
    assert!(user_with(u64::MAX, u32::MAX, 0).upgradeable_levels().is_err());
    assert_eq!(user_with(0, 1000, 0).get_production(), None);
}

#[test]
fn whole_balance_of_a_u64_reaches_a_finite_level() {
    let user = user_with(u64::MAX, 0, 0);
    let quote = user.upgradeable_levels().unwrap();
    assert!(quote.level > 250 && quote.level < 320);
    assert!(quote.cost <= u64::MAX);
}

#[test]
fn production_is_non_decreasing() {
    let mut last = 0;
    for level in 0..200u32 {
        let rate = user_with(0, level, 0).get_production().unwrap();
        assert!(rate >= last);
        last = rate;
    }
    assert_eq!(user_with(0, 0, 0).get_production(), Some(1));
    assert_eq!(user_with(0, 10, 0).get_production(), Some(18));
}

#[test]
fn cost_is_strictly_increasing() {
    let user = user_with(0, 0, 0);
    let mut last = 0;
    for level in 0..300u32 {
        let cost = user.specific_level_cost(level).unwrap();
        assert!(cost > last);
        last = cost;
    }
}

#[test]
fn accrue_adds_production_times_elapsed_seconds() {
    let user = user_with(10, 2, 100);
    let settled = accrue(&user, 110).unwrap();
    assert_eq!(settled.balance, 10 + 3 * 10);
    assert_eq!(settled.collected_timestamp, 110);
    assert_eq!(settled.level, 2);
    assert_eq!(settled.username, "username");
    assert_eq!(settled.hashed_password, "hashed_password");
    assert_eq!(settled.salt, "salt");
    assert_eq!(user.balance, 10);
    assert_eq!(user.collected_timestamp, 100);
}

#[test]
fn accrue_with_no_time_elapsed_keeps_the_balance() {
    let user = user_with(77, 5, 1_000);
    let settled = accrue(&user, user.collected_timestamp).unwrap();
    assert_eq!(settled.balance, 77);
    assert_eq!(settled.collected_timestamp, 1_000);
}

#[test]
fn accrue_counts_an_earlier_instant_as_no_time() {
    let user = user_with(77, 5, 1_000);
    let settled = accrue(&user, 400).unwrap();
    assert_eq!(settled.balance, 77);
    assert_eq!(settled.collected_timestamp, 400);
}

#[test]
fn accrue_beyond_the_machine_range_is_none() {
    assert!(accrue(&user_with(u64::MAX, 0, 0), 1).is_none());
    assert!(accrue(&user_with(0, 3, 0), u64::MAX).is_none());
    assert_eq!(accrue(&user_with(0, 0, 0), u64::MAX).unwrap().balance, u64::MAX);
}

#[test]
fn projection_leaves_the_secrets_out() {
    let shown = UserWithoutSecrets::from(user_with(12, 3, 456));
    assert_eq!(shown.username, "username");
    assert_eq!(shown.balance, 12);
    assert_eq!(shown.level, 3);
    assert_eq!(shown.collected_timestamp, 456);
    let text = format!("{shown:?}");
    assert!(!text.contains("hashed_password"));
    assert!(!text.contains("salt"));
}

#[test]
fn clone_keeps_every_field() {
    let user = user_with(12, 3, 456);
    let copy = user.clone();
    assert_eq!(format!("{user:?}"), format!("{copy:?}"));
}
