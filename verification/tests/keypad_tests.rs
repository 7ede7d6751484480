use rchip8::keypad::{HostKey, Keypad};

#[test]
fn new_keypad_has_every_key_up() {
    let mut k = Keypad::new();
    for i in 0..16 {
        assert!(!k.pressed(i));
    }
}

#[test]
fn press_maps_host_keys_to_hex_keys() {
    let layout = [
        (HostKey::Num1, 0x1),
        (HostKey::Num2, 0x2),
        (HostKey::Num3, 0x3),
        (HostKey::Num4, 0xc),
        (HostKey::Q, 0x4),
        (HostKey::W, 0x5),
        (HostKey::E, 0x6),
        (HostKey::R, 0xd),
        (HostKey::A, 0x7),
        (HostKey::S, 0x8),
        (HostKey::D, 0x9),
        (HostKey::F, 0xe),
        (HostKey::Z, 0xa),
        (HostKey::X, 0x0),
        (HostKey::C, 0xb),
        (HostKey::V, 0xf),
    ];
    for (key, index) in layout {
        let mut k = Keypad::new();
        k.press(key, true);
        for j in 0..16 {
            assert_eq!(k.pressed(j), j == index);
        }
        k.press(key, false);
        assert!(!k.pressed(index));
    }
}

#[test]
fn other_keys_are_ignored() {
    let mut k = Keypad::new();
    k.press(HostKey::Num1, true);
    k.press(HostKey::Other, true);
    k.press(HostKey::Other, false);
    for j in 0..16 {
        assert_eq!(k.pressed(j), j == 1);
    }
}

#[test]
fn set_key_sets_one_key() {
    let mut k = Keypad::new();
    k.set_key(7, true);
    assert!(k.pressed(7));
    assert!(!k.pressed(6));
    k.set_key(7, false);
    assert!(!k.pressed(7));
}
