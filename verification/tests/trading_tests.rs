use katan::board::{Port, Ports};
use katan::game::Input;
use katan::resources::{Resource, Resources};
use katan::trading::{
    accept_trade_interaction, accept_trade_interaction_current, bank_trade_fits, trading_can_decrement,
    trading_decrement, trading_increment, verify_bank_trade, verify_trade, TradingResources,
};
use katan::turn_ui::Interaction;

fn trade(wood: i8, brick: i8, sheep: i8, wheat: i8, ore: i8) -> TradingResources {
    TradingResources { wood, brick, sheep, wheat, ore }
}

#[test]
fn given_and_taken_split_by_sign() {
    let t = trade(-2, 1, 0, 3, -1);
    let (given, taken) = t.given_and_taken();
    assert_eq!(given, vec![(Resource::Wood, -2), (Resource::Ore, -1)]);
    assert_eq!(taken, vec![(Resource::Brick, 1), (Resource::Wheat, 3)]);
    assert_eq!(t.get(Resource::Wheat), 3);
}

#[test]
fn a_trade_gives_and_takes() {
    assert!(verify_trade(&trade(-1, 1, 0, 0, 0)));
    assert!(!verify_trade(&trade(-1, 0, 0, 0, 0)));
    assert!(!verify_trade(&trade(0, 2, 0, 0, 0)));
    assert!(!verify_trade(&TradingResources::default()));
}

#[test]
fn bank_trades_follow_the_rates() {
    let none = Ports::new_player();
    assert!(verify_bank_trade(&trade(-4, 1, 0, 0, 0), Some(none)));
    assert!(!verify_bank_trade(&trade(-3, 1, 0, 0, 0), Some(none)));
    assert!(!verify_bank_trade(&trade(-4, 2, 0, 0, 0), Some(none)));
    assert!(verify_bank_trade(&trade(-8, 1, 1, 0, 0), Some(none)));
    let three = none.add(Port::ThreeForOne);
    assert!(verify_bank_trade(&trade(-3, 1, 0, 0, 0), Some(three)));
    let wood = none.add(Port::TwoForOne(Resource::Wood));
    assert!(verify_bank_trade(&trade(-2, 0, 0, 0, 1), Some(wood)));
    assert!(!verify_bank_trade(&trade(-2, 0, 0, 0, 1), None));
    assert!(!verify_bank_trade(&TradingResources::default(), Some(none)));
}

#[test]
fn spinners_step_one_card() {
    let mut t = TradingResources::default();
    trading_increment(&mut t, Resource::Sheep);
    trading_increment(&mut t, Resource::Sheep);
    trading_decrement(&mut t, Resource::Wood);
    assert_eq!(t, trade(-1, 0, 2, 0, 0));
    trading_decrement(&mut t, Resource::Sheep);
    trading_increment(&mut t, Resource::Wood);
    assert_eq!(t, trade(0, 0, 1, 0, 0));
}

#[test]
fn offering_needs_cards_in_hand() {
    let hand = Resources::new(2, 0, 0, 0, 0);
    assert!(trading_can_decrement(&trade(0, 1, 0, 0, 0), Resource::Brick, None));
    assert!(trading_can_decrement(&trade(-1, 0, 0, 0, 0), Resource::Wood, Some(hand)));
    assert!(!trading_can_decrement(&trade(-2, 0, 0, 0, 0), Resource::Wood, Some(hand)));
    assert!(!trading_can_decrement(&trade(0, 0, 0, 0, 0), Resource::Ore, Some(hand)));
    assert!(!trading_can_decrement(&trade(0, 0, 0, 0, 0), Resource::Wood, None));
}

#[test]
fn checked_trades() {
    let hand = Resources::new(2, 0, 1, 0, 0);
    assert_eq!(hand.checked_add(trade(-2, 1, 0, 0, 0)), Some(Resources::new(0, 1, 1, 0, 0)));
    assert_eq!(hand.checked_add(trade(-3, 1, 0, 0, 0)), None);
    assert_eq!(hand.checked_sub_trade(trade(2, -1, 0, 0, 0)), Some(Resources::new(0, 1, 1, 0, 0)));
    assert_eq!(hand.checked_sub_trade(trade(0, 1, 0, 0, 0)), None);
}

#[test]
fn wrapping_trades() {
    let hand = Resources::new(2, 0, 1, 0, 0);
    assert_eq!(hand.add_trade(trade(-2, 1, 0, 0, 0)), Resources::new(0, 1, 1, 0, 0));
    assert_eq!(hand.add_trade(trade(-3, 0, 0, 0, 0)), Resources::new(255, 0, 1, 0, 0));
    assert_eq!(hand.sub_trade(trade(2, 0, 0, 0, 0)), Resources::new(0, 0, 1, 0, 0));
    assert_eq!(hand.sub_trade(trade(0, 0, 0, 0, 1)), Resources::new(2, 0, 1, 0, 255));
}

#[test]
fn accepting_a_trade() {
    let hand = Resources::new(1, 0, 0, 0, 0);
    let t = trade(-1, 1, 0, 0, 0);
    assert_eq!(
        accept_trade_interaction_current(Some(hand), t, 9, Interaction::Pressed),
        Some(Input::TradeAccept(t, 9))
    );
    assert_eq!(accept_trade_interaction_current(Some(hand), t, 9, Interaction::Hovered), None);
    assert_eq!(
        accept_trade_interaction_current(Some(Resources::new_player()), t, 9, Interaction::Pressed),
        None
    );
    assert_eq!(accept_trade_interaction_current(None, t, 9, Interaction::Pressed), None);
    // the other side gives what the offer asks: brick
    let other = Resources::new(0, 1, 0, 0, 0);
    assert_eq!(accept_trade_interaction(Some(other), t, Interaction::Pressed), Some(Input::TradeResponce(t)));
    assert_eq!(accept_trade_interaction(Some(hand), t, Interaction::Pressed), None);
    assert_eq!(accept_trade_interaction(Some(other), t, Interaction::Idle), None);
}

#[test]
fn wrapping_trades_that_fit() {
    let hand = Resources::new(2, 0, 1, 0, 0);
    assert!(hand.can_add_trade(trade(-2, 1, 0, 0, 0)));
    assert!(hand.can_add_trade(trade(0, 0, 0, 0, -127)));
    assert!(!Resources::new(127, 0, 0, 0, 0).can_add_trade(trade(1, 0, 0, 0, 0)));
    assert!(hand.can_sub_trade(trade(2, 0, 0, 0, 0)));
    assert!(Resources::new(0, 0, 0, 0, 0).can_sub_trade(trade(0, 0, 0, 0, 127)));
    assert!(!Resources::new(128, 0, 0, 0, 0).can_sub_trade(trade(1, 0, 0, 0, 0)));
}

#[test]
fn bank_trades_that_can_be_weighed() {
    let none = Ports::new_player();
    assert!(bank_trade_fits(&trade(-4, 1, 0, 0, 0), Some(none)));
    assert!(!bank_trade_fits(&trade(0, 127, 1, 0, 0), Some(none)));
    assert!(bank_trade_fits(&trade(0, 127, 0, 0, 0), None));
    let all_two = none
        .add(Port::TwoForOne(Resource::Wood))
        .add(Port::TwoForOne(Resource::Brick))
        .add(Port::TwoForOne(Resource::Sheep));
    // -128 / 2 three times is worth -192 to the bank
    assert!(!bank_trade_fits(&trade(-128, -128, -128, 0, 0), Some(all_two)));
    assert!(bank_trade_fits(&trade(-128, -128, -128, 0, 0), None));
    assert!(bank_trade_fits(&trade(-128, -128, 0, 0, 0), Some(all_two)));
}

#[test]
fn trade_text_lists_given_then_taken() {
    let t = TradingResources { wood: -2, brick: 0, sheep: 1, wheat: 0, ore: 3 };
    assert_eq!(t.text(), "2 Wood -> 1 Sheep, 3 Ore");
    let u = TradingResources { wood: 0, brick: -12, sheep: -1, wheat: 127, ore: 0 };
    assert_eq!(u.text(), "12 Brick, 1 Sheep -> 127 Wheat");
    assert_eq!(TradingResources::default().text(), " -> ");
}
