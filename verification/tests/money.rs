use coin_changing::{price, Currency, Price, Wallet};

fn p(text: &str) -> Price {
    price(text).unwrap()
}

#[test]
fn price_sum() {
    let prices: Vec<Price> = vec![p("5/2"), p("1/3"), p("1/17/5"), p("2/1")];
    let expected_sum = p("2/5/11");
    assert_eq!(Price::sum(&prices), expected_sum);
}

#[test]
fn add_and_change() {
    let price1 = p("3/16/11");
    let price2 = p("5/15/10");
    let total = p("9/12/9");
    assert_eq!(price1.add(price2), total);
    let change = Wallet {
        halfpence: 0,
        pennies: 0,
        threepence: 1,
        sixpence: 0,
        half_crowns: 1,
        crowns: 2,
        shillings: 0,
        florins: 0,
        one_pounds: 4,
        five_pounds: 1,
        ten_pounds: 0,
    };
    assert_eq!(Wallet::from(total), change);
}

#[test]
fn currency_from_halfpence() {
    assert_eq!(Currency::from_halfpence(1), Some(Currency::Halfpenny));
    assert_eq!(Currency::from_halfpence(2), Some(Currency::Penny));
    assert_eq!(Currency::from_halfpence(6), Some(Currency::Threepence));
    assert_eq!(Currency::from_halfpence(12), Some(Currency::Sixpence));
    assert_eq!(Currency::from_halfpence(24), Some(Currency::Shilling));
    assert_eq!(Currency::from_halfpence(48), Some(Currency::Florin));
    assert_eq!(Currency::from_halfpence(60), Some(Currency::HalfCrown));
    assert_eq!(Currency::from_halfpence(120), Some(Currency::Crown));
    assert_eq!(Currency::from_halfpence(480), Some(Currency::OnePound));
    assert_eq!(Currency::from_halfpence(2400), Some(Currency::FivePound));
    assert_eq!(Currency::from_halfpence(4800), Some(Currency::TenPound));
    assert_eq!(Currency::from_halfpence(0), None);
    assert_eq!(Currency::from_halfpence(3), None);
    assert_eq!(Currency::from_halfpence(4801), None);
}

#[test]
fn price_from_currency() {
    assert_eq!(Price::from(Currency::Halfpenny), Price::new(0, 0, 1));
    assert_eq!(Price::from(Currency::Penny), Price::new(0, 0, 2));
    assert_eq!(Price::from(Currency::Threepence), Price::new(0, 0, 3));
    assert_eq!(Price::from(Currency::Sixpence), Price::new(0, 0, 6));
    assert_eq!(Price::from(Currency::Shilling), Price::new(0, 1, 0));
    assert_eq!(Price::from(Currency::Florin), Price::new(0, 2, 0));
    assert_eq!(Price::from(Currency::HalfCrown), Price::new(0, 2, 6));
    assert_eq!(Price::from(Currency::Crown), Price::new(0, 5, 0));
    assert_eq!(Price::from(Currency::OnePound), Price::new(1, 0, 0));
    assert_eq!(Price::from(Currency::FivePound), Price::new(5, 0, 0));
    assert_eq!(Price::from(Currency::TenPound), Price::new(10, 0, 0));
}

#[test]
fn price_to_halfpence() {
    assert_eq!(Price::new(0, 0, 0).to_halfpence(), 0);
    assert_eq!(Price::new(1, 0, 0).to_halfpence(), 480);
    assert_eq!(Price::new(0, 1, 0).to_halfpence(), 24);
    assert_eq!(Price::new(9, 12, 18).to_halfpence(), 4320 + 288 + 18);
    assert_eq!(Price::new(0, 25, 30).to_halfpence(), 630);
}

#[test]
fn price_from_halfpence_is_normal() {
    assert_eq!(Price::from_halfpence(0), Price::new(0, 0, 0));
    assert_eq!(Price::from_halfpence(23), Price::new(0, 0, 23));
    assert_eq!(Price::from_halfpence(24), Price::new(0, 1, 0));
    assert_eq!(Price::from_halfpence(479), Price::new(0, 19, 23));
    assert_eq!(Price::from_halfpence(480), Price::new(1, 0, 0));
    assert_eq!(Price::from_halfpence(4626), Price::new(9, 12, 18));
    assert_eq!(Price::from_halfpence(630), Price::new(1, 6, 6));
}

#[test]
fn price_from_halfpence_goes_back() {
    for halfpence in 0..2000usize {
        assert_eq!(Price::from_halfpence(halfpence).to_halfpence(), halfpence);
    }
    assert_eq!(Price::from_halfpence(usize::MAX).to_halfpence(), usize::MAX);
}

#[test]
fn price_from_pence() {
    assert_eq!(Price::from_pence(0), Price::new(0, 0, 0));
    assert_eq!(Price::from_pence(5), Price::new(0, 0, 10));
    assert_eq!(Price::from_pence(12), Price::new(0, 1, 0));
    assert_eq!(Price::from_pence(241), Price::new(1, 0, 2));
}

#[test]
fn price_add_carries() {
    assert_eq!(Price::new(0, 0, 23).add(Price::new(0, 0, 1)), Price::new(0, 1, 0));
    assert_eq!(Price::new(0, 19, 23).add(Price::new(0, 0, 1)), Price::new(1, 0, 0));
    assert_eq!(Price::new(1, 2, 3).add(Price::default()), Price::new(1, 2, 3));
    // What is left to carry in the arguments is carried in the sum.
    assert_eq!(Price::new(0, 25, 30).add(Price::new(0, 0, 0)), Price::new(1, 6, 6));
}

#[test]
fn price_default_is_nothing() {
    assert_eq!(Price::default(), Price::new(0, 0, 0));
    assert_eq!(Price::default().to_halfpence(), 0);
}

#[test]
fn summing_prices_matches_summing_halfpence() {
    let prices = vec![
        Price::new(0, 5, 4),
        Price::new(0, 1, 6),
        Price::new(1, 17, 10),
        Price::new(0, 2, 2),
        Price::new(3, 19, 23),
        Price::new(0, 45, 100),
    ];
    for n in 0..=prices.len() {
        let halfpence: usize = prices[..n].iter().map(|q| q.to_halfpence()).sum();
        let pairwise = prices[..n].iter().fold(Price::default(), |acc, q| acc.add(*q));
        assert_eq!(Price::sum(&prices[..n]), pairwise);
        assert_eq!(Price::sum(&prices[..n]), Price::from_halfpence(halfpence));
    }
}

#[test]
fn sum_of_no_prices_is_nothing() {
    assert_eq!(Price::sum(&[]), Price::default());
}

#[test]
fn wallet_default_is_empty() {
    let wallet = Wallet::default();
    assert_eq!(wallet.to_halfpence(), 0);
    assert_eq!(
        wallet,
        Wallet {
            halfpence: 0,
            pennies: 0,
            threepence: 0,
            sixpence: 0,
            shillings: 0,
            florins: 0,
            half_crowns: 0,
            crowns: 0,
            one_pounds: 0,
            five_pounds: 0,
            ten_pounds: 0,
        }
    );
}

#[test]
fn wallet_add_and_remove() {
    let all = [
        Currency::Halfpenny,
        Currency::Penny,
        Currency::Threepence,
        Currency::Sixpence,
        Currency::Shilling,
        Currency::Florin,
        Currency::HalfCrown,
        Currency::Crown,
        Currency::OnePound,
        Currency::FivePound,
        Currency::TenPound,
    ];
    let values = [1, 2, 6, 12, 24, 48, 60, 120, 480, 2400, 4800];
    for (currency, value) in all.iter().zip(values.iter()) {
        let mut wallet = Wallet::default();
        wallet.add_currency(*currency);
        assert_eq!(wallet.to_halfpence(), *value);
        wallet.add_currency(*currency);
        assert_eq!(wallet.to_halfpence(), 2 * *value);
        wallet.remove_currency(*currency);
        assert_eq!(wallet.to_halfpence(), *value);
        wallet.remove_currency(*currency);
        assert_eq!(wallet, Wallet::default());
    }
}

#[test]
fn wallet_add_touches_one_counter() {
    let mut wallet = Wallet::default();
    wallet.add_currency(Currency::Florin);
    wallet.add_currency(Currency::Florin);
    wallet.add_currency(Currency::TenPound);
    assert_eq!(wallet.florins, 2);
    assert_eq!(wallet.ten_pounds, 1);
    assert_eq!(wallet.to_halfpence(), 96 + 4800);
    wallet.remove_currency(Currency::Florin);
    assert_eq!(wallet.florins, 1);
    assert_eq!(wallet.ten_pounds, 1);
}

#[test]
fn wallet_to_halfpence() {
    let wallet = Wallet {
        halfpence: 1,
        pennies: 1,
        threepence: 1,
        sixpence: 1,
        shillings: 1,
        florins: 1,
        half_crowns: 1,
        crowns: 1,
        one_pounds: 1,
        five_pounds: 1,
        ten_pounds: 1,
    };
    assert_eq!(wallet.to_halfpence(), 1 + 2 + 6 + 12 + 24 + 48 + 60 + 120 + 480 + 2400 + 4800);
}

#[test]
fn wallet_from_price_is_worth_the_price() {
    for halfpence in 0..1500usize {
        let wallet = Wallet::from(Price::from_halfpence(halfpence));
        assert_eq!(wallet.to_halfpence(), halfpence);
    }
}

#[test]
fn wallet_from_nothing_is_empty() {
    assert_eq!(Wallet::from(Price::default()), Wallet::default());
}

#[test]
fn wallet_from_price_takes_the_fewest_pieces() {
    // 2s 6d is one half crown, not a florin and a sixpence.
    let wallet = Wallet::from(Price::new(0, 2, 12));
    let mut expected = Wallet::default();
    expected.add_currency(Currency::HalfCrown);
    assert_eq!(wallet, expected);
    // 4s is two florins: the half crown does not help.
    let wallet = Wallet::from(Price::new(0, 4, 0));
    let mut expected = Wallet::default();
    expected.add_currency(Currency::Florin);
    expected.add_currency(Currency::Florin);
    assert_eq!(wallet, expected);
}

#[test]
fn price_from_wallet() {
    let mut wallet = Wallet::default();
    wallet.add_currency(Currency::FivePound);
    wallet.add_currency(Currency::HalfCrown);
    wallet.add_currency(Currency::Threepence);
    assert_eq!(Price::from_wallet(wallet), Price::new(5, 2, 18));
    assert_eq!(Price::from_wallet(Wallet::default()), Price::default());
    assert_eq!(Price::from_wallet(Wallet::from(Price::new(9, 12, 18))), Price::new(9, 12, 18));
}
