use katan::cards::{
    can_buy_development_card, cards_to_show, full_deck, play_development_card, DevelopmentCard,
    DevelopmentCards,
};
use katan::game::{GameState, Knights};
use katan::resources::Resources;

fn cards(knight: u8, monopoly: u8, year_of_plenty: u8, road_building: u8, victory_point: u8) -> DevelopmentCards {
    DevelopmentCards { knight, monopoly, year_of_plenty, road_building, victory_point }
}

#[test]
fn the_deck_has_twenty_five_cards() {
    let deck = full_deck();
    assert_eq!(deck.len(), 25);
    assert_eq!(deck.iter().filter(|c| **c == DevelopmentCard::Knight).count(), 14);
    assert_eq!(deck.iter().filter(|c| **c == DevelopmentCard::VictoryPoint).count(), 5);
    assert_eq!(deck.iter().filter(|c| **c == DevelopmentCard::Monopoly).count(), 2);
    assert_eq!(deck.iter().filter(|c| **c == DevelopmentCard::RoadBuilding).count(), 2);
    assert_eq!(deck.iter().filter(|c| **c == DevelopmentCard::YearOfPlenty).count(), 2);
}

#[test]
fn hands_of_cards() {
    assert_eq!(DevelopmentCards::new_player(), cards(4, 0, 1, 1, 0));
    assert_eq!(DevelopmentCards::default(), cards(0, 0, 0, 0, 0));
    assert_eq!(DevelopmentCards::from(DevelopmentCard::Monopoly), cards(0, 1, 0, 0, 0));
    assert_eq!(DevelopmentCards::from(DevelopmentCard::Knight), cards(1, 0, 0, 0, 0));
    let h = cards(1, 2, 3, 4, 5);
    assert_eq!(h.count(), 15);
    assert_eq!(h.get(DevelopmentCard::YearOfPlenty), 3);
    assert_eq!(h.add(cards(1, 1, 1, 1, 1)), cards(2, 3, 4, 5, 6));
    let mut m = h;
    m.add_assign(cards(0, 0, 0, 0, 1));
    *m.get_mut(DevelopmentCard::Knight) += 2;
    assert_eq!(m, cards(3, 2, 3, 4, 6));
}

#[test]
fn playing_a_card() {
    let mut h = cards(2, 1, 0, 1, 0);
    let mut k = Knights(0);
    assert_eq!(play_development_card(&mut h, &mut k, DevelopmentCard::Knight), (GameState::PlaceRobber, false));
    assert_eq!(k, Knights(1));
    assert_eq!(h, cards(1, 1, 0, 1, 0));
    assert_eq!(play_development_card(&mut h, &mut k, DevelopmentCard::Monopoly), (GameState::Monopoly, true));
    assert_eq!(play_development_card(&mut h, &mut k, DevelopmentCard::RoadBuilding), (GameState::RoadBuilding, true));
    assert_eq!(k, Knights(1));
    let mut y = cards(0, 0, 2, 0, 0);
    assert_eq!(play_development_card(&mut y, &mut k, DevelopmentCard::YearOfPlenty), (GameState::YearOfPlenty, false));
}

#[test]
fn buying_needs_wood_and_brick() {
    assert!(can_buy_development_card(Some(Resources::new(1, 1, 0, 0, 0))));
    assert!(!can_buy_development_card(Some(Resources::new(1, 0, 5, 5, 5))));
    assert!(!can_buy_development_card(None));
}

#[test]
fn the_cards_to_show() {
    let (shown, vps) = cards_to_show(&cards(2, 0, 1, 0, 3));
    assert_eq!(shown, vec![(DevelopmentCard::Knight, 2), (DevelopmentCard::YearOfPlenty, 1)]);
    assert_eq!(vps, 3);
    let (shown, vps) = cards_to_show(&cards(0, 1, 0, 1, 0));
    assert_eq!(shown, vec![(DevelopmentCard::Monopoly, 1), (DevelopmentCard::RoadBuilding, 1)]);
    assert_eq!(vps, 0);
}
