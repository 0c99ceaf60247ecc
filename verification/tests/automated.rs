use workbook::shapes::Rectangle;
use workbook::testing::{add_two, greeting, Guess};

#[test]
fn exploration() {
    assert_eq!(2 + 2, 4);
}

#[test]
fn larger_can_hold_smaller() {
    let larger = Rectangle {
        width: 8,
        height: 7,
    };
    let smaller = Rectangle {
        width: 5,
        height: 1,
    };

    assert!(larger.can_hold(&smaller));
}

#[test]
fn smaller_cannot_hold_larger() {
    let larger = Rectangle {
        width: 8,
        height: 7,
    };
    let smaller = Rectangle {
        width: 5,
        height: 1,
    };
    assert!(!smaller.can_hold(&larger));
}

#[test]
fn it_adds_two() {
    assert_eq!(4, add_two(2));
}

#[test]
fn it_works() -> Result<(), String> {
    if 2 + 2 == 4 {
        Ok(())
    } else {
        Err(String::from("two plus two does not equal four"))
    }
}

#[test]
fn no_rectangle_holds_itself() {
    let r = Rectangle {
        width: 8,
        height: 7,
    };
    assert!(!r.can_hold(&r));
}

#[test]
fn greeting_is_fixed() {
    assert_eq!(greeting("Carol"), "Hello!".to_string());
}

#[test]
fn guesses_in_range_are_accepted() {
    let _lowest = Guess::new(1);
    let _highest = Guess::new(100);
    let _middle = Guess::new(50);
}

#[test]
fn rectangle_area_and_square() {
    let r = Rectangle {
        width: 30,
        height: 50,
    };
    assert_eq!(r.area(), 1500);
    assert!(r.width());
    let sq = Rectangle::square(3);
    assert_eq!(sq.width, 3);
    assert_eq!(sq.height, 3);
}
