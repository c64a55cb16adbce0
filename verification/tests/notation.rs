use coin_changing::{price, NotationError, Price};

#[test]
fn shillings_and_pence() {
    assert_eq!(price("5/2"), Ok(Price::new(0, 5, 4)));
    assert_eq!(price("1/3"), Ok(Price::new(0, 1, 6)));
    assert_eq!(price("0/0"), Ok(Price::new(0, 0, 0)));
}

#[test]
fn pounds_shillings_and_pence() {
    assert_eq!(price("1/17/5"), Ok(Price::new(1, 17, 10)));
    assert_eq!(price("9/12/9"), Ok(Price::new(9, 12, 18)));
    assert_eq!(price("100/0/11"), Ok(Price::new(100, 0, 22)));
}

#[test]
fn dash_stands_for_nothing() {
    assert_eq!(price("-/2"), Ok(Price::new(0, 0, 4)));
    assert_eq!(price("5/-"), Ok(Price::new(0, 5, 0)));
    assert_eq!(price("-/-"), Ok(Price::new(0, 0, 0)));
    assert_eq!(price("-/-/-"), Ok(Price::new(0, 0, 0)));
    assert_eq!(price("-/-/7"), Ok(Price::new(0, 0, 14)));
    assert_eq!(price("-/3/-"), Ok(Price::new(0, 3, 0)));
    assert_eq!(price("2/-/-"), Ok(Price::new(2, 0, 0)));
    assert_eq!(price("1/4/-"), Ok(Price::new(1, 4, 0)));
    assert_eq!(price("1/-/6"), Ok(Price::new(1, 0, 12)));
    assert_eq!(price("-/4/6"), Ok(Price::new(0, 4, 12)));
}

#[test]
fn lone_zero_is_nothing() {
    assert_eq!(price("0"), Ok(Price::default()));
}

#[test]
fn parts_are_not_carried() {
    assert_eq!(price("25/-"), Ok(Price::new(0, 25, 0)));
    assert_eq!(price("0/30/40"), Ok(Price::new(0, 30, 80)));
}

#[test]
fn leading_zeros_are_read() {
    assert_eq!(price("05/02"), Ok(Price::new(0, 5, 4)));
    assert_eq!(price("000/001/010"), Ok(Price::new(0, 1, 20)));
}

#[test]
fn malformed_texts_are_refused() {
    for text in [
        "", "5", "1", "00", "-", "/", "//", "///", "5/", "/5", "5//2", "1/2/3/4", "1/2/", "/1/2",
        "a/b", "5/2d", "5 /2", " 5/2", "5/2 ", "--/2", "5/--", "-5/2", "+5/2", "5/2.0", "1/-2/3",
        "1/2-/3", "5/\u{a3}",
    ] {
        assert_eq!(price(text), Err(NotationError::Malformed), "{:?}", text);
    }
}

#[test]
fn malformed_comes_before_too_large() {
    assert_eq!(price("99999999999999999999999999/x"), Err(NotationError::Malformed));
    assert_eq!(price("x/99999999999999999999999999"), Err(NotationError::Malformed));
    assert_eq!(price("99999999999999999999999999x/1"), Err(NotationError::Malformed));
    assert_eq!(price("1/99999999999999999999999999/"), Err(NotationError::Malformed));
}

#[test]
fn too_large_prices_are_refused() {
    assert_eq!(price("99999999999999999999999999/1"), Err(NotationError::TooLarge));
    assert_eq!(price("1/99999999999999999999999999"), Err(NotationError::TooLarge));
    assert_eq!(price("99999999999999999999999999/-/-"), Err(NotationError::TooLarge));
    let max = usize::MAX;
    assert_eq!(price(&format!("{}/0/0", max)), Err(NotationError::TooLarge));
    assert_eq!(price(&format!("{}/0", max)), Err(NotationError::TooLarge));
    assert_eq!(price(&format!("0/{}", max)), Err(NotationError::TooLarge));
    assert_eq!(price(&format!("{}/0/0", max / 480 + 1)), Err(NotationError::TooLarge));
    assert_eq!(price(&format!("{}/19/12", max / 480)), Err(NotationError::TooLarge));
}

#[test]
fn largest_prices_are_read() {
    let max = usize::MAX;
    assert_eq!(price(&format!("{}/0/0", max / 480)), Ok(Price::new(max / 480, 0, 0)));
    assert_eq!(price(&format!("0/{}", max / 2)), Ok(Price::new(0, 0, (max / 2) * 2)));
    assert_eq!(price(&format!("{}/-", max / 24)), Ok(Price::new(0, max / 24, 0)));
}

#[test]
fn price_is_written_out() {
    assert_eq!(price("5/2").unwrap().to_string(), "\u{a3}0 5s 2d".to_string());
    assert_eq!(price("1/4/-").unwrap().to_string(), "\u{a3}1 4s 0d".to_string());
    assert_eq!(price("-/2").unwrap().to_string(), "\u{a3}0 0s 2d".to_string());
}

#[test]
fn written_price_shows_whole_pence() {
    assert_eq!(Price::new(0, 0, 1).to_string(), "\u{a3}0 0s 0d");
    assert_eq!(Price::new(0, 0, 3).to_string(), "\u{a3}0 0s 1d");
    assert_eq!(Price::new(12, 19, 23).to_string(), "\u{a3}12 19s 11d");
    assert_eq!(Price::default().to_string(), "\u{a3}0 0s 0d");
}

#[test]
fn written_price_has_all_digits() {
    assert_eq!(Price::new(1234567890, 100, 2000).to_string(), "\u{a3}1234567890 100s 1000d");
    assert_eq!(Price::new(10, 20, 40).to_string(), "\u{a3}10 20s 20d");
    assert_eq!(Price::new(909, 101, 0).to_string(), "\u{a3}909 101s 0d");
}
