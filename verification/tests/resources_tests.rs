use katan::resources::{
    city_resources, development_card_resources, pick_resource, road_resources, take_resource,
    town_resources, unit, Resource, Resources,
};

fn total(r: &Resources) -> u32 {
    r.wood as u32 + r.brick as u32 + r.sheep as u32 + r.wheat as u32 + r.ore as u32
}

#[test]
fn costs_of_the_pieces() {
    assert_eq!(city_resources(), Resources::new(0, 0, 0, 2, 3));
    assert_eq!(town_resources(), Resources::new(1, 1, 1, 1, 0));
    assert_eq!(road_resources(), Resources::new(1, 1, 0, 0, 0));
    assert_eq!(development_card_resources(), Resources::new(1, 1, 0, 0, 0));
}

#[test]
fn new_player_and_new_game() {
    assert_eq!(Resources::new_player(), Resources::new(0, 0, 0, 0, 0));
    assert_eq!(Resources::new_game(), Resources::new(19, 19, 19, 19, 19));
    assert_eq!(Resources::default(), Resources::new_player());
}

#[test]
fn get_and_get_mut_address_one_kind() {
    let mut r = Resources::new(1, 2, 3, 4, 5);
    assert_eq!(r.get(Resource::Wood), 1);
    assert_eq!(r.get(Resource::Brick), 2);
    assert_eq!(r.get(Resource::Sheep), 3);
    assert_eq!(r.get(Resource::Wheat), 4);
    assert_eq!(r.get(Resource::Ore), 5);
    *r.get_mut(Resource::Sheep) += 10;
    assert_eq!(r, Resources::new(1, 2, 13, 4, 5));
}

#[test]
fn arithmetic_kind_by_kind() {
    let a = Resources::new(1, 2, 3, 4, 5);
    let b = Resources::new(5, 4, 3, 2, 1);
    assert_eq!(a.add(b), Resources::new(6, 6, 6, 6, 6));
    assert_eq!(a.add(b).sub(b), a);
    assert_eq!(a.mul(3), Resources::new(3, 6, 9, 12, 15));
    assert_eq!(road_resources().mul(0), Resources::new(0, 0, 0, 0, 0));
    let mut c = a;
    c.add_assign(b);
    assert_eq!(c, Resources::new(6, 6, 6, 6, 6));
    c.sub_assign(a);
    assert_eq!(c, b);
}

#[test]
fn checked_sub_only_when_covered() {
    let a = Resources::new(1, 1, 1, 1, 0);
    assert_eq!(a.checked_sub(town_resources()), Some(Resources::new(0, 0, 0, 0, 0)));
    assert_eq!(a.checked_sub(city_resources()), None);
    assert_eq!(Resources::new(0, 0, 0, 2, 2).checked_sub(city_resources()), None);
    assert_eq!(Resources::new(0, 0, 0, 3, 3).checked_sub(city_resources()), Some(Resources::new(0, 0, 0, 1, 0)));
}

#[test]
fn count_and_contains() {
    assert_eq!(Resources::new(1, 2, 3, 4, 5).count(), 15);
    assert_eq!(Resources::new_player().count(), 0);
    assert!(Resources::new(1, 1, 1, 1, 0).contains(town_resources()));
    assert!(!Resources::new(1, 1, 1, 0, 0).contains(town_resources()));
    assert!(Resources::new_player().contains(Resources::new_player()));
}

#[test]
fn unit_is_one_card() {
    assert_eq!(unit(Resource::Wood), Resources::new(1, 0, 0, 0, 0));
    assert_eq!(unit(Resource::Ore), Resources::new(0, 0, 0, 0, 1));
}

#[test]
fn pick_resource_picks_a_held_kind() {
    assert_eq!(pick_resource(&Resources::new_player()), None);
    for _ in 0..50 {
        let held = Resources::new(0, 3, 0, 1, 0);
        let picked = pick_resource(&held).unwrap();
        assert!(picked == Resource::Brick || picked == Resource::Wheat);
    }
    assert_eq!(pick_resource(&Resources::new(0, 0, 0, 0, 7)), Some(Resource::Ore));
}

#[test]
fn take_resource_moves_one_card() {
    for _ in 0..50 {
        let mut thief = Resources::new(1, 1, 1, 1, 1);
        let mut robbed = Resources::new(0, 2, 0, 0, 1);
        take_resource(&mut thief, &mut robbed);
        assert_eq!(total(&thief), 6);
        assert_eq!(total(&robbed), 2);
        assert!(
            (robbed == Resources::new(0, 1, 0, 0, 1) && thief == Resources::new(1, 2, 1, 1, 1))
                || (robbed == Resources::new(0, 2, 0, 0, 0) && thief == Resources::new(1, 1, 1, 1, 2))
        );
    }
}
