use rust_playground::book::aliases::eq;
use rust_playground::book::average::AverageCollection;
use rust_playground::book::closures::{add_one as add_one_i32, do_twice, get_func};
use rust_playground::book::collections::{median, mode, sort, to_pig_latin, Company};
use rust_playground::book::draw::{Button, Draw, Input, Screen};
use rust_playground::book::enums::{
    add_one as add_one_option, dice_roll_dont_use_catch_all, dice_roll_dont_use_catch_all_dont_do_nothing,
    dice_roll_use_catch_all, value_in_cents, Coin, UsState,
};
use rust_playground::book::fibonacci::fibonacci;
use rust_playground::book::generics::{get_largest, Point as GenericPoint};
use rust_playground::book::lifetimes::{first_word, longest, shortest};
use rust_playground::book::media::{NewsArticle, Summarize, Tweet};
use rust_playground::book::operators::{outline, Iterator as OwnIterator, Meters, Millimeters, Point, Wrapper};
use rust_playground::book::pointers::{split_at_mut, MyBox};
use rust_playground::book::restaurant::{eat_at_restaurant, Dish};
use rust_playground::book::shapes::Rectangle as Shape;
use rust_playground::book::shoes::{filter_shoes_size, Shoe};
use rust_playground::book::testing::{add, greeting, Guess, Rectangle};
use rust_playground::book::workspace::{add_amount, add_one};

// Scenarios of the exercises.

#[test]
fn it_filter_shoes_size() {
    let shoes = vec![Shoe { size: 32 }, Shoe { size: 33 }, Shoe { size: 35 }, Shoe { size: 37 }];

    let expected = vec![&shoes[2], &shoes[3]];

    assert_eq!(expected, filter_shoes_size(&shoes, 34))
}

#[test]
fn larger_can_hold_smaller() {
    let larger = Rectangle { x: 10, y: 10 };

    let smaller = Rectangle { x: 5, y: 5 };

    assert!(larger.can_hold(&smaller));
}

#[test]
fn smaller_cant_hold_larger() {
    let larger = Rectangle { x: 10, y: 10 };

    let smaller = Rectangle { x: 5, y: 5 };

    assert!(!smaller.can_hold(&larger));
}

#[test]
fn lib_it_add() {
    assert_eq!(add(5, 2), 7);
}

#[test]
fn it_greeting() {
    let greet_felipe = greeting("Felipe");
    assert!(greet_felipe.contains("Felipe"), "Greeting did not contain name, value was {}", greet_felipe)
}

#[test]
fn it_work() -> Result<(), String> {
    if 2 + 2 == 4 {
        Ok(())
    } else {
        Err(String::from("Invalid sum"))
    }
}

#[test]
fn integration_test_it_add() {
    assert_eq!(add(1, 2), 3)
}

#[test]
fn it_add_one() {
    let x = add_one(3).expect("the sum fits in a byte");
    assert!(x > 3)
}

// Collections.

#[test]
fn median_sorts_and_takes_the_middle() {
    let mut v = vec![1, 5, 7, 8, 8, 9, 1, 3, 5, 7, 9, 9, 4, 3, 38, 2, 7, 42, 6, 83, 2, 5];
    assert_eq!(median(&mut v), 7);
    assert_eq!(v, vec![1, 1, 2, 2, 3, 3, 4, 5, 5, 5, 6, 7, 7, 7, 8, 8, 9, 9, 9, 38, 42, 83]);
    let mut even = vec![4, 1, 3, 2];
    assert_eq!(median(&mut even), 3);
}

#[test]
fn sort_orders_ascending() {
    let mut v = vec![3, -1, 2, -1, 0];
    sort(&mut v);
    assert_eq!(v, vec![-1, -1, 0, 2, 3]);
}

#[test]
fn mode_is_a_most_frequent_value() {
    assert_eq!(mode(&vec![1, 2, 2, 3, 2, 1]), 2);
    assert_eq!(mode(&vec![]), 0);
    let m = mode(&vec![4, 4, 5, 5]);
    assert!(m == 4 || m == 5);
}

#[test]
fn pig_latin_of_consonant_and_vowel_words() {
    assert_eq!(to_pig_latin(String::from("first")), "irst-fay");
    assert_eq!(to_pig_latin(String::from("apple")), "apple-hay");
    assert_eq!(to_pig_latin(String::from("Apple")), "Apple-hay");
    assert_eq!(to_pig_latin(String::from("aelipe")), "aelipe-hay");
    assert_eq!(to_pig_latin(String::from("x")), "-xay");
}

#[test]
fn company_lists_people_by_department() {
    let mut company = Company::new();
    company.add("Sally", "Engineering");
    company.add("Amir", "Sales");
    company.add("Bob", "Engineering");
    assert_eq!(company.get_by_department("Engineering"), Some(&vec!["Sally".to_string(), "Bob".to_string()]));
    assert_eq!(company.get_by_department("Sales"), Some(&vec!["Amir".to_string()]));
    assert_eq!(company.get_by_department("Marketing"), None);
    assert_eq!(company.get_all(), vec!["Sally".to_string(), "Bob".to_string(), "Amir".to_string()]);
}

// Drawing.

#[test]
fn screen_draws_its_components_in_order() {
    let mut screen: Screen = Screen::new();
    assert!(screen.run().is_empty());
    screen.add(Box::new(Button { width: 32, height: 32 }));
    screen.add(Box::new(Input { label: String::from("Title"), length: 32 }));
    assert_eq!(screen.run(), vec!["Drawing button, 32 32".to_string(), "Drawing Input 32, Title".to_string()]);
}

#[test]
fn components_draw_themselves() {
    assert_eq!(Button { width: 0, height: 4_294_967_295 }.draw(), "Drawing button, 0 4294967295");
    assert_eq!(Input { length: 7, label: String::new() }.draw(), "Drawing Input 7, ");
}

// Fibonacci.

#[test]
fn fibonacci_numbers() {
    assert_eq!(fibonacci(0), 0);
    assert_eq!(fibonacci(1), 1);
    assert_eq!(fibonacci(2), 1);
    assert_eq!(fibonacci(10), 55);
    assert_eq!(fibonacci(80), 23_416_728_348_467_685);
    assert_eq!(fibonacci(93), 12_200_160_415_121_876_738);
}

// Rectangles, guesses, sums and greetings.

#[test]
fn rectangle_area_and_squares() {
    let rect = Shape { height: 32, width: 32 };
    let rect2 = Shape { height: 24, width: 24 };
    let rect3 = Shape { height: 24, width: 33 };
    let square = Shape::square(2);
    assert_eq!(rect.area(), 1024);
    assert!(rect.can_hold(&rect2));
    assert!(!rect.can_hold(&rect3));
    assert_eq!(square.area(), 4);
    assert_eq!((square.width, square.height), (2, 2));
}

#[test]
fn greeting_text() {
    assert_eq!(greeting("Felipe"), "Greetings from Felipe");
    assert_eq!(greeting(""), "Greetings from ");
}

#[test]
fn guesses_in_range() {
    let _low = Guess::new(2);
    let _high = Guess::new(99);
}

#[test]
fn equal_rectangles_cannot_hold_each_other() {
    let a = Rectangle { x: 3, y: 3 };
    let b = Rectangle { x: 3, y: 1 };
    assert!(!a.can_hold(&b));
}

// Restaurant.

#[test]
fn dishes_are_not_beef() {
    assert_eq!(eat_at_restaurant().portion, 3);
    assert_eq!(Dish::new_dish(5).portion, 5);
}

// Enums.

#[test]
fn coins_and_their_values() {
    assert_eq!(value_in_cents(Coin::Penny), 1);
    assert_eq!(value_in_cents(Coin::Nickel), 5);
    assert_eq!(value_in_cents(Coin::Dime), 10);
    assert_eq!(value_in_cents(Coin::Quarter(UsState::Alaska)), 25);
}

#[test]
fn optional_increment() {
    assert_eq!(add_one_option(Some(5)), Some(6));
    assert_eq!(add_one_option(None), None);
}

#[test]
fn dice_rolls() {
    assert_eq!(dice_roll_use_catch_all(3), "re-roll");
    assert_eq!(dice_roll_use_catch_all(7), "skip your turn");
    assert_eq!(dice_roll_use_catch_all(12), "12");
    assert_eq!(dice_roll_dont_use_catch_all(3), 3);
    assert_eq!(dice_roll_dont_use_catch_all(7), 7);
    assert_eq!(dice_roll_dont_use_catch_all(5), 0);
    assert_eq!(dice_roll_dont_use_catch_all_dont_do_nothing(3), Some("re-roll".to_string()));
    assert_eq!(dice_roll_dont_use_catch_all_dont_do_nothing(7), Some("skip your turn".to_string()));
    assert_eq!(dice_roll_dont_use_catch_all_dont_do_nothing(1), None);
}

// Generics.

#[test]
fn generic_points() {
    let point = GenericPoint { x: 2, y: 3 };
    let point_2 = GenericPoint { x: 2, y: "three" };
    assert_eq!(*point.get_x(), 2);
    assert_eq!(point.get_x_i32(), 2);
    assert_eq!(*point_2.get_y(), "three");
    let point_3 = point.mixup(point_2);
    assert_eq!((*point_3.get_x(), *point_3.get_y()), (2, "three"));
}

#[test]
fn largest_element() {
    let vec = vec![5, 7, 2, 7, 8, 12, 68, 9, 234, 27, 8, 2];
    assert_eq!(*get_largest(&vec), 234);
    assert_eq!(*get_largest(&vec!['a', 'z', 'q']), 'z');
    assert_eq!(*get_largest(&vec![-4]), -4);
}

// Lifetimes.

#[test]
fn longest_and_shortest() {
    assert_eq!(longest("123", "abcd"), "abcd");
    assert_eq!(longest("abcd", "123"), "abcd");
    assert_eq!(longest("ab", "cd"), "cd");
    assert_eq!(longest("é", "ab"), "ab");
    assert_eq!(shortest("123", "abcd"), "123");
    assert_eq!(shortest("abcd", "1"), "abcd");
}

#[test]
fn first_words() {
    assert_eq!(first_word(&String::from("Hello world my name is felipe")), "Hello");
    assert_eq!(first_word(&String::from("single")), "single");
    assert_eq!(first_word(&String::from(" leading")), "");
    assert_eq!(first_word(&String::new()), "");
    assert_eq!(first_word(&String::from("olá mundo")), "olá");
}

// Shoes.

#[test]
fn no_shoe_is_larger() {
    let shoes = vec![Shoe { size: 30 }, Shoe { size: 34 }];
    assert!(filter_shoes_size(&shoes, 34).is_empty());
}

// Closures.

#[test]
fn functions_as_values() {
    assert_eq!(add_one_i32(2), 3);
    assert_eq!(do_twice(add_one_i32, 2), 6);
    assert_eq!(do_twice(|x: i32| x * 10, 2), 40);
    let f = get_func();
    assert_eq!(f(10), 10);
    assert_eq!(get_func()(-3), 10);
}

// Media.

#[test]
fn summaries() {
    let news_article = NewsArticle {
        headline: String::from("headline"),
        location: String::from("location"),
        author: String::from("author"),
        content: String::from("content"),
    };
    let tweet = Tweet { username: String::from("username"), content: String::from("content"), reply: false, retweet: true };
    assert_eq!(tweet.summarize(), "username: content");
    assert_eq!(tweet.summarize_author(), "@username");
    assert_eq!(news_article.summarize(), "Read more from @author");
    assert_eq!(news_article.summarize_author(), "@author");
    assert_eq!(news_article.to_text(), "I'm a news article");
    assert_eq!(tweet.to_text(), "I'm a tweet");
}

// Pointers.

#[test]
fn my_box_derefs_to_its_value() {
    let z = MyBox::new(5);
    assert_eq!(*z, 5);
    assert_eq!(z.0, 5);
}

#[test]
fn split_a_slice() {
    let mut v = vec![1, 2, 3, 4, 5, 6];
    let r = &mut v[..];
    let (a, b) = split_at_mut(r, 3);
    assert_eq!(a, &mut [1, 2, 3]);
    assert_eq!(b, &mut [4, 5, 6]);
    a[0] = 10;
    b[0] = 40;
    assert_eq!(v, vec![10, 2, 3, 40, 5, 6]);
    let mut w = vec![1, 2];
    let (c, d) = split_at_mut(&mut w[..], 2);
    assert_eq!((c.len(), d.len()), (2, 0));
}

// Operators and text.

#[test]
fn adding_points_and_lengths() {
    let p1 = Point { x: 1, y: 1 };
    let p2 = Point { x: 2, y: 2 };
    assert_eq!(p1 + p2, Point { x: 3, y: 3 });
    assert_eq!((Millimeters(1) + Meters(1)).0, 1001);
}

#[test]
fn a_number_hands_out_itself() {
    assert_eq!(OwnIterator::next(&7i32), Some(7));
}

#[test]
fn point_text_and_outline() {
    let p = Point { x: 3, y: -1 };
    assert_eq!(p.to_text(), "(3, -1)");
    assert_eq!(
        p.outline(),
        vec![
            "***********".to_string(),
            "*         *".to_string(),
            "* (3, -1) *".to_string(),
            "*         *".to_string(),
            "***********".to_string(),
        ]
    );
}

#[test]
fn default_outline() {
    assert_eq!(
        outline("ab"),
        vec!["**".to_string(), "**".to_string(), "* ab *".to_string(), "**".to_string(), "**".to_string()]
    );
    assert_eq!(outline("abcd")[1], "****");
}

#[test]
fn wrapper_text() {
    let mut v = Wrapper(vec![String::from("1"), String::from("2"), String::from("3"), String::from("4")]);
    v.0.push(String::from("Felipe"));
    assert_eq!(v.to_text(), "[1, 2, 3, 4, Felipe]");
    assert_eq!(Wrapper(vec![]).to_text(), "[]");
}

// Workspace and equality.

#[test]
fn adding_an_amount() {
    assert_eq!(add_amount(3, 4), Some(7));
    assert_eq!(add_amount(200, 55), Some(255));
    assert_eq!(add_amount(200, 56), None);
}

#[test]
fn equality_of_unsized_values() {
    assert!(!eq("Felipe", "sss"));
    assert!(eq("Felipe", "Felipe"));
    assert!(eq(&[1, 2][..], &[1, 2][..]));
}

#[test]
fn average_collection_keeps_sum_and_count() {
    let mut c = AverageCollection::new();
    assert_eq!(c.totals(), (0, 0));
    c.add(1);
    c.add(2);
    c.add(3);
    c.add(4);
    assert_eq!(c.totals(), (10, 4));
    let (sum, count) = c.totals();
    assert_eq!(sum as f64 / count as f64, 2.5);
    assert_eq!(c.remove(), Some(4));
    assert_eq!(c.totals(), (6, 3));
    let (sum, count) = c.totals();
    assert_eq!(sum as f64 / count as f64, 2.0);
}

#[test]
fn average_collection_remove_from_empty() {
    let mut c = AverageCollection::new();
    assert_eq!(c.remove(), None);
    assert_eq!(c.totals(), (0, 0));
    c.add(-5);
    assert_eq!(c.remove(), Some(-5));
    assert_eq!(c.remove(), None);
    assert_eq!(c.totals(), (0, 0));
}

#[test]
fn add_one_stays_within_a_byte() {
    assert_eq!(add_one(254), Some(255));
    assert_eq!(add_one(255), None);
    for x in 0..255u8 {
        let v = add_one(x).expect("the sum fits in a byte");
        assert!(v > x);
    }
}
