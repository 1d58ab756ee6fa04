use term_wrap::utils;
use term_wrap::utils::PrefixResult;

#[test]
fn prefix_exactly() {
    let tokens: Vec<&str> = "abra a".split(' ').collect();
    assert_eq!(utils::prefix(&tokens, 5, " ").length, 4);
}

#[test]
fn prefix_takes_all_that_fits() {
    let tokens = ["abra", "a"];
    assert_eq!(utils::prefix(&tokens, 6, " ").length, 6);
    assert_eq!(utils::prefix(&tokens, 100, " ").length, 6);
    assert_eq!(utils::prefix(&tokens, 4, " ").length, 4);
}

#[test]
fn prefix_is_empty_where_the_first_token_is_too_wide() {
    let tokens = ["abra", "a"];
    assert_eq!(utils::prefix(&tokens, 3, " "), PrefixResult { length: 0 });
    assert_eq!(utils::prefix(&tokens, 0, " "), PrefixResult { length: 0 });
}

#[test]
fn prefix_of_no_tokens_is_empty() {
    let tokens: [&str; 0] = [];
    assert_eq!(utils::prefix(&tokens, 10, " ").length, 0);
}

#[test]
fn prefix_stops_at_the_first_token_that_does_not_fit() {
    let tokens = ["ab", "cdefgh", "i"];
    assert_eq!(utils::prefix(&tokens, 5, " ").length, 2);
    assert_eq!(utils::prefix(&tokens, 9, " ").length, 9);
    assert_eq!(utils::prefix(&tokens, 10, " ").length, 9);
    assert_eq!(utils::prefix(&tokens, 11, " ").length, 11);
}

#[test]
fn prefix_counts_characters() {
    let tokens = ["é", "è", "ê"];
    assert_eq!(utils::prefix(&tokens, 3, " ").length, 3);
    assert_eq!(utils::prefix(&tokens, 5, " ").length, 5);
    let wide = ["Ｈｅ", "ｌｌ"];
    assert_eq!(utils::prefix(&wide, 4, " ").length, 2);
    assert_eq!(utils::prefix(&wide, 8, " ").length, 2);
    assert_eq!(utils::prefix(&wide, 9, " ").length, 5);
}

#[test]
fn prefix_counts_the_separator() {
    let tokens = ["a", "b", "c"];
    assert_eq!(utils::prefix(&tokens, 3, "").length, 3);
    assert_eq!(utils::prefix(&tokens, 2, "").length, 2);
    assert_eq!(utils::prefix(&tokens, 7, "--").length, 7);
    assert_eq!(utils::prefix(&tokens, 6, "--").length, 4);
    assert_eq!(utils::prefix(&tokens, 3, "--").length, 1);
    assert_eq!(utils::prefix(&tokens, 3, "Ｈｅ").length, 1);
}

#[test]
fn prefix_takes_empty_tokens() {
    let tokens: Vec<&str> = "a  b".split(' ').collect();
    assert_eq!(tokens.len(), 3);
    assert_eq!(utils::prefix(&tokens, 4, " ").length, 4);
    assert_eq!(utils::prefix(&tokens, 3, " ").length, 2);
    assert_eq!(utils::prefix(&tokens, 1, " ").length, 1);
}

#[test]
fn checked_prefix_gives_the_prefix() {
    let tokens = ["abra", "a"];
    assert_eq!(
        utils::checked_prefix(&tokens, 5, " "),
        Some(PrefixResult { length: 4 })
    );
    assert_eq!(
        utils::checked_prefix(&tokens, 6, " "),
        Some(PrefixResult { length: 6 })
    );
    assert_eq!(
        utils::checked_prefix(&tokens, 0, " "),
        Some(PrefixResult { length: 0 })
    );
    let none: [&str; 0] = [];
    assert_eq!(
        utils::checked_prefix(&none, 5, " "),
        Some(PrefixResult { length: 0 })
    );
}
