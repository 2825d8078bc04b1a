use ownership::accounts::build_user;
use ownership::back_of_house::{Appetizer, Breakfast};
use ownership::coins::{plus_one as option_plus_one, value_in_cents, Coin, UsState};
use ownership::numbers::{double, five, plus_one};
use ownership::words::{calculate_length, first_word};

#[test]
fn coin_values_are_exact() {
    assert_eq!(value_in_cents(Coin::Penny), 1);
    assert_eq!(value_in_cents(Coin::Nickel), 5);
    assert_eq!(value_in_cents(Coin::Dime), 10);
    assert_eq!(value_in_cents(Coin::Quarter(UsState::Alabama)), 25);
    assert_eq!(value_in_cents(Coin::Quarter(UsState::Alaska)), 25);
    assert_eq!(value_in_cents(Coin::Quarter(UsState::Arkansas)), 25);
    assert_eq!(value_in_cents(Coin::Quarter(UsState::California)), 25);
}

#[test]
fn option_plus_one_matches_cases() {
    assert_eq!(option_plus_one(Some(5)), Some(6));
    assert_eq!(option_plus_one(None), None);
}

#[test]
fn number_helpers() {
    assert_eq!(five(), 5);
    assert_eq!(plus_one(five()), 6);
    assert_eq!(double(10), 20);
    assert_eq!(double(0), 0);
}

#[test]
fn first_word_finds_first_space() {
    assert_eq!(first_word(&String::from("hello world")), 5);
    assert_eq!(first_word(&String::from("hello")), 5);
    assert_eq!(first_word(&String::from("")), 0);
    assert_eq!(first_word(&String::from(" leading")), 0);
}

#[test]
fn calculate_length_counts_chars() {
    assert_eq!(calculate_length(&String::from("hello")), 5);
    assert_eq!(calculate_length(&String::from("")), 0);
}

#[test]
fn build_user_fills_fields() {
    let u = build_user(String::from("a@b.c"), String::from("ada"));
    assert_eq!(u.email, "a@b.c");
    assert_eq!(u.username, "ada");
    assert!(u.active);
    assert_eq!(u.sign_in_count, 1);
}

#[test]
fn summer_breakfast_comes_with_peaches() {
    let mut meal = Breakfast::summer("Rye");
    assert_eq!(meal.toast, "Rye");
    assert_eq!(meal.fruit(), "peaches");
    // the toast is the customer's to change
    meal.toast = String::from("Wheat");
    assert_eq!(meal.toast, "Wheat");
}

#[test]
fn appetizers_are_distinct() {
    let order1 = Appetizer::Soup;
    let order2 = Appetizer::Salad;
    assert_ne!(order1, order2);
}

#[test]
fn restaurant_paths_run() {
    ownership::dining::eat_at_restaurant();
    ownership::fix_incorrect_order();
    ownership::back_of_house::fix_incorrect_order();
    ownership::back_of_house::cook_order();
    ownership::serve_order();
    ownership::hosting::add_to_waitlist();
    ownership::hosting::seat_at_table();
    ownership::serving::take_order();
    ownership::serving::server_order();
    ownership::serving::take_payment();
    ownership::dining::add_to_waitlist();
}
