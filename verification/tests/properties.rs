use workbook::closures::{Inventory, ShirtColor};
use workbook::collections::{
    add_fifty, get_lowest, get_median, mean, median, mode, pig_latin, sort_by_lowest,
    word_frequencies, Roster,
};
use workbook::concepts::{
    binary_search, fib, find_smallest, is_leap_year, is_odd, labeled_loop_count,
    loop_with_break_value, selection_search, twelve_day_of_christmas,
};
use workbook::generics::{largest, Point2};
use workbook::lifetimes::{first_sentence, longest};
use workbook::matching::{dice_move, plus_one, value_in_cents, Coin, DiceAction, UsState};
use workbook::ownership::{
    calculate_length, change, first_word, gives_ownership, takes_and_gives_back,
    tedious_calculate_length,
};
use workbook::restaurant::Breakfast;
use workbook::shapes::{sort_by_width, Rectangle};
use workbook::summaries::{NewsArticle, Pair, Render, Summary, Tweet, returns_summarizable};
use workbook::text::{contains_sub, parse_bool, sort_strings, split_lines, str_eq, str_le, u32_to_string};
use workbook::validation::{check_guess, last_char_of_first_line, secret_number, Guess, GuessOutcome};

#[test]
fn leap_years() {
    assert!(!is_leap_year(1900));
    assert!(is_leap_year(2000));
    assert!(is_leap_year(1904));
    assert!(!is_leap_year(2023));
}

#[test]
fn odd_numbers() {
    assert!(is_odd(1));
    assert!(!is_odd(2));
    assert!(is_odd(-3));
    assert!(!is_odd(0));
}

#[test]
fn fibonacci_values() {
    assert_eq!(fib(1), 1);
    assert_eq!(fib(2), 1);
    assert_eq!(fib(10), 55);
    assert_eq!(fib(46), 1836311903);
}

#[test]
fn fibonacci_recurrence_holds_concretely() {
    for n in 3..20 {
        assert_eq!(fib(n), fib(n - 1) + fib(n - 2));
    }
}

#[test]
fn selection_sort_sorts() {
    let mut numbers = vec![5, 4, 3, 2, 1];
    let sorted = selection_search(&mut numbers);
    assert_eq!(sorted, vec![1, 2, 3, 4, 5]);
    assert!(numbers.is_empty());
}

#[test]
fn find_smallest_picks_first_minimum() {
    let mut numbers = vec![4, 1, 3, 1, 5];
    assert_eq!(find_smallest(&mut numbers), 1);
    assert_eq!(numbers, vec![4, 1, 3, 1, 5]);
}

#[test]
fn get_lowest_picks_last_minimum() {
    let mut numbers = vec![4, 1, 3, 1, 5];
    assert_eq!(get_lowest(&mut numbers), 3);
}

#[test]
fn binary_search_returns_off_by_one_index() {
    let numbers = [1, 2, 3, 4, 5, 6, 7, 8, 9, 10];
    assert_eq!(binary_search(&numbers, 5), Some(3));
    assert_eq!(numbers[3], 4);
    assert_eq!(binary_search(&numbers, 11), None);
}

#[test]
fn median_of_the_worked_example() {
    let mut numbers = vec![7, 5, 3, 1, 9, 8];
    let sorted = sort_by_lowest(&mut numbers.clone());
    assert_eq!(sorted, vec![1, 3, 5, 7, 8, 9]);
    assert_eq!(median(&mut numbers), 6);
}

#[test]
fn median_of_odd_length_is_middle_element() {
    let mut numbers = vec![9, 1, 5];
    assert_eq!(median(&mut numbers), 5);
    let sorted = vec![1, 5, 9];
    assert_eq!(get_median(&sorted), 5);
}

#[test]
fn mean_returns_the_sum() {
    assert_eq!(mean(&vec![1, 2, 3, 4, 5]), 15);
    assert_eq!(mean(&Vec::<i32>::new()), 0);
}

#[test]
fn mode_returns_the_highest_count() {
    assert_eq!(mode(&vec![1, 2, 3, 3, 3, 7, 7, 9]), Some(3));
    assert_eq!(mode(&Vec::<i32>::new()), Some(0));
    assert_eq!(mode(&vec![4, 4, 4, 4]), Some(4));
}

#[test]
fn pig_latin_examples() {
    assert_eq!(pig_latin("hello"), "ello-hay".to_string());
    assert_eq!(pig_latin("apple"), "apple-hay".to_string());
    assert_eq!(pig_latin("first"), "irst-fay".to_string());
    assert_eq!(pig_latin(""), "".to_string());
}

#[test]
fn word_frequency_counts() {
    let wc = word_frequencies("hello world wonderful world");
    assert_eq!(wc.count("hello"), 1);
    assert_eq!(wc.count("world"), 2);
    assert_eq!(wc.count("wonderful"), 1);
    assert_eq!(wc.count("absent"), 0);
    assert_eq!(wc.len(), 3);
}

#[test]
fn roster_sorts_engineering_alphabetically() {
    let mut company = Roster::new();
    company.add_employee("sally", "engineering");
    company.add_employee("raven", "engineering");
    company.add_employee("andy", "engineering");
    company.add_employee("amir", "sales");
    company.add_employee("kristine", "sales");

    let engineering = company.sorted_names("engineering").unwrap();
    assert_eq!(
        engineering,
        vec!["andy".to_string(), "raven".to_string(), "sally".to_string()]
    );
    let sales = company.get("sales").unwrap();
    assert_eq!(sales, vec!["amir".to_string(), "kristine".to_string()]);
    assert!(company.get("marketing").is_none());
    assert!(company.sorted_names("marketing").is_none());
}

#[test]
fn mutable_iteration_adds_fifty() {
    let mut v = vec![100, 32, 57];
    add_fifty(&mut v);
    assert_eq!(v, vec![150, 82, 107]);
}

#[test]
fn first_word_examples() {
    assert_eq!(first_word("hello world"), "hello");
    assert_eq!(first_word("singleword"), "singleword");
    assert_eq!(first_word(""), "");
}

#[test]
fn generic_largest() {
    let number_list = vec![34, 50, 25, 100, 65];
    assert_eq!(*largest(&number_list), 100);
    let char_list = vec!['y', 'm', 'a', 'q'];
    assert_eq!(*largest(&char_list), 'y');
}

#[test]
fn point_mixup_combines_coordinates() {
    let p1 = Point2 { x: 5, y: 10.4 };
    let p2 = Point2 { x: "Hello", y: 'c' };
    let p3 = p1.mixup(p2);
    assert_eq!(p3.x, 5);
    assert_eq!(p3.y, 'c');
}

#[test]
fn longest_prefers_the_longer_text() {
    assert_eq!(longest("abcd", "xyz"), "abcd");
    assert_eq!(longest("ab", "xyz"), "xyz");
    assert_eq!(longest("ab", "xy"), "xy");
}

#[test]
fn first_sentence_stops_at_the_period() {
    let novel = "Call me Ishmael. Some years ago...";
    assert_eq!(first_sentence(novel), "Call me Ishmael");
    assert_eq!(first_sentence("no period"), "no period");
}

#[test]
fn ownership_transfers() {
    assert_eq!(gives_ownership(), "yours".to_string());
    assert_eq!(takes_and_gives_back("hello".to_string()), "hello".to_string());
    let (s, len) = tedious_calculate_length("hello".to_string());
    assert_eq!(s, "hello".to_string());
    assert_eq!(len, 5);
    assert_eq!(calculate_length(&"hello".to_string()), 5);
}

#[test]
fn change_appends_through_mutable_borrow() {
    let mut s = "hello".to_string();
    change(&mut s);
    assert_eq!(s, "hello, world".to_string());
}

#[test]
fn slices_reference_sub_ranges() {
    let a = [1, 2, 3, 4, 5];
    let slice = &a[1..3];
    assert_eq!(slice, &[2, 3]);
}

#[test]
fn coin_values() {
    assert_eq!(value_in_cents(&Coin::Penny), 1);
    assert_eq!(value_in_cents(&Coin::Nickel), 5);
    assert_eq!(value_in_cents(&Coin::Dime), 10);
    assert_eq!(value_in_cents(&Coin::Quarter(UsState::Alaska)), 25);
}

#[test]
fn plus_one_handles_both_cases() {
    assert_eq!(plus_one(Some(5)), Some(6));
    assert_eq!(plus_one(None), None);
}

#[test]
fn dice_rolls_dispatch() {
    assert_eq!(dice_move(3), DiceAction::AddFancyHat);
    assert_eq!(dice_move(7), DiceAction::RemoveFancyHat);
    assert_eq!(dice_move(9), DiceAction::MovePlayer(9));
}

#[test]
fn giveaway_prefers_the_user_choice() {
    let store = Inventory {
        shirts: vec![ShirtColor::Blue, ShirtColor::Red, ShirtColor::Blue],
    };
    assert_eq!(store.giveaway(Some(ShirtColor::Red)), ShirtColor::Red);
    assert_eq!(store.giveaway(None), ShirtColor::Blue);
    assert_eq!(store.most_stocked(), ShirtColor::Blue);
}

#[test]
fn summaries_format_their_sources() {
    let article = NewsArticle {
        headline: "Headline".to_string(),
        location: "Location".to_string(),
        author: "Author".to_string(),
        content: "Content".to_string(),
    };
    assert_eq!(article.summarize(), "Headline, by Author (Location)".to_string());
    assert_eq!(article.with_default(), "read more...".to_string());

    let tweet = Tweet {
        username: "horse_ebooks".to_string(),
        content: "of course, as you probably already known, people".to_string(),
        reply: false,
        retweet: false,
    };
    assert_eq!(
        tweet.summarize(),
        "horse_ebooks: of course, as you probably already known, people".to_string()
    );
    assert_eq!(tweet.render(), "reply: false, retweet: false".to_string());
}

#[test]
fn returns_summarizable_is_the_fixed_tweet() {
    let t = returns_summarizable();
    assert_eq!(
        t.summarize(),
        "horse_ebook: of course, as you probably already know, people".to_string()
    );
}

#[test]
fn pair_comparison_names_the_larger_member() {
    let pair = Pair::new(5u32, 10u32);
    assert_eq!(pair.cmp_display(), "The largest member is y = 10".to_string());
    let tie = Pair::new(4u32, 4u32);
    assert_eq!(tie.cmp_display(), "The largest member is x = 4".to_string());
}

#[test]
fn decimal_rendering() {
    assert_eq!(u32_to_string(0), "0".to_string());
    assert_eq!(u32_to_string(7), "7".to_string());
    assert_eq!(u32_to_string(12345), "12345".to_string());
}

#[test]
fn guess_stores_and_compares() {
    let g = Guess::new(42);
    assert_eq!(g.value(), 42);
    assert_eq!(check_guess(3, 5), GuessOutcome::TooLow);
    assert_eq!(check_guess(7, 5), GuessOutcome::TooHigh);
    assert_eq!(check_guess(5, 5), GuessOutcome::Win);
}

#[test]
fn secret_number_stays_in_range() {
    for _ in 0..100 {
        let n = secret_number();
        assert!(1 <= n && n <= 10);
    }
}

#[test]
fn last_characters_of_first_lines() {
    assert_eq!(last_char_of_first_line(""), None);
    assert_eq!(last_char_of_first_line("hello\nworld"), Some('o'));
    assert_eq!(last_char_of_first_line("\nabc"), None);
    assert_eq!(last_char_of_first_line("ab\r\ncd"), Some('b'));
    assert_eq!(last_char_of_first_line("plain"), Some('n'));
}

#[test]
fn text_utilities() {
    assert!(str_eq("abc", "abc"));
    assert!(!str_eq("abc", "abd"));
    assert!(str_le("abc", "abd"));
    assert!(!str_le("b", "abc"));
    assert!(contains_sub("hello", "ell"));
    assert!(!contains_sub("hello", "xyz"));
    assert!(contains_sub("hello", ""));
    assert_eq!(parse_bool("true"), Some(true));
    assert_eq!(parse_bool("false"), Some(false));
    assert_eq!(parse_bool("maybe"), None);
}

#[test]
fn line_splitting() {
    assert_eq!(
        split_lines("a\nb\r\nc"),
        vec!["a".to_string(), "b".to_string(), "c".to_string()]
    );
    assert_eq!(split_lines("a\n"), vec!["a".to_string()]);
    assert!(split_lines("").is_empty());
}

#[test]
fn string_sorting() {
    let names = vec!["sally".to_string(), "raven".to_string(), "andy".to_string()];
    assert_eq!(
        sort_strings(&names),
        vec!["andy".to_string(), "raven".to_string(), "sally".to_string()]
    );
}

#[test]
fn loop_demonstrations() {
    assert_eq!(loop_with_break_value(), 20);
    assert_eq!(labeled_loop_count(), 2);
}

#[test]
fn twelve_days_word_list() {
    let days = twelve_day_of_christmas();
    assert_eq!(days.len(), 12);
    assert_eq!(days[0], "twelve");
    assert_eq!(days[11], "one");
}

#[test]
fn rectangles_sort_by_width() {
    let list = vec![
        Rectangle {
            width: 10,
            height: 1,
        },
        Rectangle {
            width: 3,
            height: 5,
        },
        Rectangle {
            width: 7,
            height: 12,
        },
    ];
    let sorted = sort_by_width(&list);
    assert_eq!(sorted[0].width, 3);
    assert_eq!(sorted[1].width, 7);
    assert_eq!(sorted[2].width, 10);
}

#[test]
fn summer_breakfast_takes_the_toast_choice() {
    let meal = Breakfast::summer("Rye");
    assert_eq!(meal.toast, "Rye".to_string());
}
