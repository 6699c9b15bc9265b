use katan::lobby::session_seed;

#[test]
fn seed_of_a_lone_peer_is_its_own_key() {
    assert_eq!(session_seed((0b1100, 0b1010), &vec![]), 0b0110);
}

#[test]
fn seed_xors_every_half() {
    let seed = session_seed((1, 2), &vec![(4, 8), (16, 32)]);
    assert_eq!(seed, 1 ^ 2 ^ 4 ^ 8 ^ 16 ^ 32);
}

#[test]
fn every_peer_derives_the_same_seed() {
    let a = (0x1234_5678_9abc_def0, 0x0fed_cba9_8765_4321);
    let b = (0xdead_beef, 0xfeed_face_cafe_f00d);
    let c = (7, 0xffff_ffff_ffff_fff0);
    let from_a = session_seed(a, &vec![b, c]);
    let from_b = session_seed(b, &vec![c, a]);
    let from_c = session_seed(c, &vec![a, b]);
    assert_eq!(from_a, from_b);
    assert_eq!(from_b, from_c);
}
