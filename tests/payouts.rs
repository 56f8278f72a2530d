use casino::error::GameError;
use casino::roulette::check_point_roulette;
use casino::sicbo::{check_point_sicbo, parse_sicbo_bet, sicbo_multiplier, SicBoBet};

#[test]
fn sicbo_table_on_triple_ones() {
    let dices = vec![1u8, 1, 1];
    assert_eq!(check_point_sicbo("triple_1", &dices), 180);
    assert_eq!(check_point_sicbo("triple_any", &dices), 30);
    assert_eq!(check_point_sicbo("double_1", &dices), 10);
    assert_eq!(check_point_sicbo("single_1", &dices), 3);
    assert_eq!(check_point_sicbo("small", &dices), 0);
    assert_eq!(check_point_sicbo("small", &vec![1u8, 1, 2]), 1);
}

#[test]
fn sicbo_combination_needs_only_its_two_faces() {
    assert_eq!(check_point_sicbo("comb_1_2", &vec![1u8, 2, 2]), 6);
    assert_eq!(check_point_sicbo("comb_1_2", &vec![1u8, 2, 3]), 0);
    assert_eq!(check_point_sicbo("comb_1_2", &vec![2u8, 2, 2]), 0);
    assert_eq!(check_point_sicbo("comb_2_1", &vec![1u8, 2, 2]), 0);
}

#[test]
fn sicbo_double_checks_every_pair() {
    assert_eq!(check_point_sicbo("double_1", &vec![1u8, 2, 1]), 10);
    assert_eq!(check_point_sicbo("double_3", &vec![4u8, 3, 3]), 10);
    assert_eq!(check_point_sicbo("double_3", &vec![3u8, 4, 5]), 0);
}

#[test]
fn sicbo_sum_table() {
    assert_eq!(check_point_sicbo("sum_4", &vec![1u8, 1, 2]), 62);
    assert_eq!(check_point_sicbo("sum_17", &vec![6u8, 6, 5]), 62);
    assert_eq!(check_point_sicbo("sum_10", &vec![3u8, 3, 4]), 6);
    assert_eq!(check_point_sicbo("sum_13", &vec![6u8, 3, 4]), 8);
    assert_eq!(check_point_sicbo("sum_13", &vec![6u8, 3, 5]), 0);
    assert_eq!(check_point_sicbo("sum_3", &vec![1u8, 1, 1]), 0);
}

#[test]
fn sicbo_big_and_small_bands() {
    assert_eq!(check_point_sicbo("big", &vec![5u8, 6, 6]), 1);
    assert_eq!(check_point_sicbo("big", &vec![6u8, 6, 6]), 0);
    assert_eq!(check_point_sicbo("small", &vec![4u8, 3, 3]), 1);
    assert_eq!(check_point_sicbo("small", &vec![4u8, 4, 3]), 0);
}

#[test]
fn sicbo_unknown_bets_pay_nothing() {
    let dices = vec![1u8, 1, 1];
    assert_eq!(check_point_sicbo("triple_7", &dices), 0);
    assert_eq!(check_point_sicbo("jackpot", &dices), 0);
    assert_eq!(check_point_sicbo("", &dices), 0);
    assert_eq!(parse_sicbo_bet("sum_18"), SicBoBet::Unknown);
}

#[test]
fn sicbo_bets_parse_to_their_rules() {
    assert_eq!(parse_sicbo_bet("comb_3_5"), SicBoBet::Comb(3, 5));
    assert_eq!(parse_sicbo_bet("sum_16"), SicBoBet::Sum(16));
    assert_eq!(parse_sicbo_bet("single_6"), SicBoBet::Single(6));
    assert_eq!(sicbo_multiplier(SicBoBet::Single(6), &vec![6u8, 2, 6]), 2);
}

#[test]
fn wheel_split_validity() {
    assert_eq!(check_point_roulette("1|2", 1), Ok(17));
    assert_eq!(check_point_roulette("1|2", 2), Ok(17));
    assert_eq!(check_point_roulette("1|2", 3), Ok(0));
    assert_eq!(check_point_roulette("0|2", 2), Ok(17));
    assert_eq!(check_point_roulette("2|5", 5), Ok(17));
    assert_eq!(check_point_roulette("1|5", 1), Err(GameError::InvalidCompositeBet));
    assert_eq!(check_point_roulette("1|x", 1), Err(GameError::InvalidCompositeBet));
}

#[test]
fn wheel_straight_and_street() {
    assert_eq!(check_point_roulette("17", 17), Ok(35));
    assert_eq!(check_point_roulette("16", 17), Ok(0));
    assert_eq!(check_point_roulette("16|17|18", 17), Ok(11));
    assert_eq!(check_point_roulette("15|16|17", 17), Err(GameError::InvalidCompositeBet));
}

#[test]
fn wheel_corner_six_line_and_column() {
    assert_eq!(check_point_roulette("1|2|4|5", 5), Ok(8));
    assert_eq!(check_point_roulette("2|3|5|6", 4), Ok(0));
    assert_eq!(check_point_roulette("3|4|6|7", 4), Err(GameError::InvalidCompositeBet));
    assert_eq!(check_point_roulette("4|5|6|7|8|9", 9), Ok(5));
    assert_eq!(check_point_roulette("1|2|3|7|8|9", 9), Err(GameError::InvalidCompositeBet));
    assert_eq!(
        check_point_roulette("2|5|8|11|14|17|20|23|26|29|32|35", 35),
        Ok(2)
    );
    assert_eq!(
        check_point_roulette("2|5|8|11|14|17|20|23|26|29|32|36", 35),
        Err(GameError::InvalidCompositeBet)
    );
}

#[test]
fn wheel_other_counts_pay_nothing() {
    assert_eq!(check_point_roulette("1|2|3|4|5", 3), Ok(0));
    assert_eq!(check_point_roulette("x|y|z|w|v", 3), Ok(0));
}

#[test]
fn wheel_outside_bets() {
    assert_eq!(check_point_roulette("1st_12", 12), Ok(2));
    assert_eq!(check_point_roulette("1st_12", 0), Ok(0));
    assert_eq!(check_point_roulette("2nd_12", 13), Ok(2));
    assert_eq!(check_point_roulette("3rd_12", 36), Ok(2));
    assert_eq!(check_point_roulette("low", 18), Ok(1));
    assert_eq!(check_point_roulette("low", 0), Ok(0));
    assert_eq!(check_point_roulette("high", 19), Ok(1));
    assert_eq!(check_point_roulette("even", 0), Ok(0));
    assert_eq!(check_point_roulette("even", 4), Ok(1));
    assert_eq!(check_point_roulette("odd", 7), Ok(1));
    assert_eq!(check_point_roulette("red", 1), Ok(1));
    assert_eq!(check_point_roulette("red", 2), Ok(0));
    assert_eq!(check_point_roulette("black", 2), Ok(1));
    assert_eq!(check_point_roulette("black", 0), Ok(0));
    assert_eq!(check_point_roulette("green", 0), Ok(0));
}
