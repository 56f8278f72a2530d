use casino::error::GameError;
use casino::ledger::Contract;
use casino::outcome::{dice_100_roll, get_random_number, roll_dices, roulette_spin};

fn dice_seed(a: u8, b: u8, c: u8) -> Vec<u8> {
    vec![a - 1, 0, 0, 0, b - 1, 0, 0, 0, c - 1, 0, 0, 0]
}

fn wheel_seed(v: u8) -> Vec<u8> {
    vec![v, 0, 0, 0, 0, 0, 0, 0, 0, 0, 0, 0]
}

fn funded(id: &str, amount: u128) -> Contract {
    let mut c = Contract::new();
    assert_eq!(c.deposit(id.to_string(), amount), amount);
    c
}

#[test]
fn draws_read_rotated_bytes_little_endian() {
    let seed = vec![1u8, 2, 3, 4, 5];
    assert_eq!(get_random_number(&seed, 0), 0x04030201);
    assert_eq!(get_random_number(&seed, 1), 0x05040302);
    assert_eq!(get_random_number(&seed, 3), 0x02010504);
    assert_eq!(get_random_number(&seed, 6), 0x05040302);
}

#[test]
fn outcomes_from_seed() {
    assert_eq!(roll_dices(&dice_seed(3, 5, 6)), vec![3u8, 5, 6]);
    assert_eq!(roll_dices(&vec![6u8, 0, 0, 0, 7, 0, 0, 0, 11, 0, 0, 0]), vec![1u8, 2, 6]);
    assert_eq!(roulette_spin(&wheel_seed(17)), 17);
    assert_eq!(roulette_spin(&wheel_seed(40)), 3);
    assert_eq!(dice_100_roll(&vec![0u8, 1, 0, 0]), 56);
}

#[test]
fn dice_of_short_blocks_use_distinct_rotations() {
    assert_eq!(roll_dices(&vec![1u8, 0, 0, 0]), vec![2u8, 5, 5]);
    assert_eq!(roll_dices(&vec![5u8, 9, 200, 17]), vec![4u8, 4, 1]);
    assert_eq!(roll_dices(&vec![0u8, 0, 0, 0, 3, 1, 0, 0]), vec![1u8, 5, 2]);
}

#[test]
fn deposit_opens_and_credits() {
    let mut c = Contract::new();
    let id = "alice".to_string();
    assert_eq!(c.get_account(&id).err(), Some(GameError::UnknownAccount));
    assert_eq!(c.deposit(id.clone(), 40), 40);
    assert_eq!(c.deposit(id.clone(), 2), 42);
    assert_eq!(c.get_account(&id).unwrap().deposit, 42);
    assert_eq!(c.house(), 0);
}

#[test]
fn withdraw_checks_balance() {
    let mut c = funded("bob", 100);
    let id = "bob".to_string();
    assert_eq!(c.withdraw(&"carol".to_string(), 1), Err(GameError::UnknownAccount));
    assert_eq!(c.withdraw(&id, 101), Err(GameError::InsufficientBalance));
    assert_eq!(c.withdraw(&id, 30), Ok(70));
    assert_eq!(c.withdraw(&id, 70), Ok(0));
    assert_eq!(c.get_account(&id).unwrap().deposit, 0);
}

#[test]
fn sicbo_wager_is_zero_sum() {
    let mut c = funded("bob", 5000);
    let id = "bob".to_string();
    c.deposit("alice".to_string(), 5);
    let lost = c.play_sicbo(&id, &vec![("big".to_string(), 2000u128)], &dice_seed(1, 1, 1)).unwrap();
    assert_eq!(lost.total_winning, 0);
    assert_eq!(c.get_account(&id).unwrap().deposit, 3000);
    assert_eq!(c.house(), 2000);
    let bets = vec![("triple_1".to_string(), 10u128), ("big".to_string(), 50u128), ("single_1".to_string(), 5u128)];
    let res = c.play_sicbo(&id, &bets, &dice_seed(1, 1, 1)).unwrap();
    assert_eq!(res.dices, vec![1u8, 1, 1]);
    assert_eq!(res.total_winning, 1800 + 15);
    assert_eq!(res.account_id, id);
    assert_eq!(c.get_account(&id).unwrap().deposit, 3000 - 65 + 1815);
    assert_eq!(c.house(), 2000 + 65 - 1815);
    assert_eq!(c.get_account(&id).unwrap().deposit + c.house(), 5000);
    assert_eq!(c.get_account(&"alice".to_string()).unwrap().deposit, 5);
}

#[test]
fn house_that_cannot_pay_refuses_the_wager() {
    let mut c = funded("bob", 1000);
    let id = "bob".to_string();
    let bets = vec![("triple_1".to_string(), 10u128)];
    assert_eq!(
        c.play_sicbo(&id, &bets, &dice_seed(1, 1, 1)).err(),
        Some(GameError::ArithmeticOverflow)
    );
    assert_eq!(c.house(), 0);
    assert_eq!(c.get_account(&id).unwrap().deposit, 1000);
    let mut c2 = funded("bob", 1000);
    let loss = c2.play_sicbo(&id, &vec![("small".to_string(), 100u128)], &dice_seed(6, 6, 6)).unwrap();
    assert_eq!(loss.total_winning, 0);
    assert_eq!(c2.house(), 100);
    assert_eq!(
        c2.play_sicbo(&id, &bets, &dice_seed(1, 1, 1)).err(),
        Some(GameError::ArithmeticOverflow)
    );
    assert_eq!(c2.house(), 100);
    assert_eq!(c2.get_account(&id).unwrap().deposit, 900);
}

#[test]
fn insufficient_balance_leaves_ledger_unchanged() {
    let mut c = funded("bob", 100);
    let id = "bob".to_string();
    let bets = vec![("small".to_string(), 100u128), ("big".to_string(), 50u128)];
    let before = (c.get_account(&id).unwrap().deposit, c.house());
    assert_eq!(
        c.play_sicbo(&id, &bets, &dice_seed(1, 2, 3)).err(),
        Some(GameError::InsufficientBalance)
    );
    assert_eq!(
        c.play_roulette(&id, &bets, &wheel_seed(5)).err(),
        Some(GameError::InsufficientBalance)
    );
    let after = (c.get_account(&id).unwrap().deposit, c.house());
    assert_eq!(before, after);
    assert_eq!(after, (100, 0));
}

#[test]
fn get_account_twice_reads_the_same() {
    let c = funded("bob", 77);
    let id = "bob".to_string();
    let first = c.get_account(&id).unwrap();
    let second = c.get_account(&id).unwrap();
    assert_eq!(first.deposit, second.deposit);
    assert_eq!(first.account_id, second.account_id);
}

#[test]
fn unknown_account_cannot_play() {
    let mut c = funded("bob", 100);
    let id = "dave".to_string();
    let bets = vec![("small".to_string(), 1u128)];
    assert_eq!(c.play_sicbo(&id, &bets, &dice_seed(1, 2, 3)).err(), Some(GameError::UnknownAccount));
    assert_eq!(c.play_roulette(&id, &bets, &wheel_seed(1)).err(), Some(GameError::UnknownAccount));
    assert_eq!(c.play_dice(&id, 50, 1, &wheel_seed(1)).err(), Some(GameError::UnknownAccount));
}

#[test]
fn roulette_wager_settles() {
    let mut c = funded("bob", 1000);
    let id = "bob".to_string();
    let lost = c.play_roulette(&id, &vec![("0".to_string(), 500u128)], &wheel_seed(1)).unwrap();
    assert_eq!(lost.total_winning, 0);
    assert_eq!(c.house(), 500);
    let bets = vec![("17".to_string(), 10u128), ("16|17|18".to_string(), 10u128), ("red".to_string(), 10u128)];
    let res = c.play_roulette(&id, &bets, &wheel_seed(17)).unwrap();
    assert_eq!(res.roulette_value, 17);
    assert_eq!(res.total_winning, 350 + 110);
    assert_eq!(c.get_account(&id).unwrap().deposit, 500 - 30 + 460);
    assert_eq!(c.house(), 500 + 30 - 460);
}

#[test]
fn malformed_grouping_refuses_whole_wager() {
    let mut c = funded("bob", 1000);
    let id = "bob".to_string();
    let bets = vec![("17".to_string(), 10u128), ("1|5".to_string(), 10u128)];
    assert_eq!(
        c.play_roulette(&id, &bets, &wheel_seed(17)).err(),
        Some(GameError::InvalidCompositeBet)
    );
    assert_eq!(c.get_account(&id).unwrap().deposit, 1000);
    assert_eq!(c.house(), 0);
}

#[test]
fn dice_threshold_game() {
    let mut c = funded("bob", 1000);
    let id = "bob".to_string();
    assert_eq!(c.play_dice(&id, 1, 10, &wheel_seed(0)).err(), Some(GameError::InvalidThreshold));
    assert_eq!(c.play_dice(&id, 97, 10, &wheel_seed(0)).err(), Some(GameError::InvalidThreshold));
    assert_eq!(c.play_dice(&id, 50, 1001, &wheel_seed(0)).err(), Some(GameError::InsufficientBalance));
    let lost = c.play_dice(&id, 50, 200, &wheel_seed(50)).unwrap();
    assert_eq!(lost.dice_value, 50);
    assert_eq!(lost.total_winning, 0);
    assert_eq!(c.house(), 200);
    let won = c.play_dice(&id, 50, 100, &wheel_seed(10)).unwrap();
    assert_eq!(won.dice_value, 10);
    assert_eq!(won.total_winning, 201);
    assert_eq!(c.get_account(&id).unwrap().deposit, 800 - 100 + 201);
    assert_eq!(c.house(), 200 + 100 - 201);
    let mut c2 = funded("bob", 2000);
    c2.play_dice(&id, 2, 1000, &wheel_seed(50)).unwrap();
    let edge = c2.play_dice(&id, 2, 10, &wheel_seed(1)).unwrap();
    assert_eq!(edge.total_winning, 985);
    assert_eq!(c2.house(), 1000 + 10 - 985);
}

#[test]
fn overflowing_stakes_are_refused() {
    let mut c = funded("bob", u128::MAX);
    let id = "bob".to_string();
    let bets = vec![("small".to_string(), u128::MAX), ("big".to_string(), 1u128)];
    assert_eq!(
        c.play_sicbo(&id, &bets, &dice_seed(1, 2, 3)).err(),
        Some(GameError::ArithmeticOverflow)
    );
    assert_eq!(c.get_account(&id).unwrap().deposit, u128::MAX);
}
