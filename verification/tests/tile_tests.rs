use tenhou_bot::tile::{
    deaka, is_aka, is_red_five, t136_to_t34, t34_to_t136, tile136_display, tile34_display,
    tile34_is_honor, tile34_is_terminal, tile34_is_valid, tile34_is_yaochuu, tile34_number,
    tile34_suit, tiles136_display, tiles34_display, Suit,
};

#[test]
fn test_conversions() {
    assert_eq!(t136_to_t34(0), 0); // 1m
    assert_eq!(t136_to_t34(16), 4); // red 5m -> 5m
    assert_eq!(t136_to_t34(135), 33); // chun
    assert_eq!(t34_to_t136(0), 0);
    assert_eq!(t34_to_t136(5), 20);
}

#[test]
fn test_red_five() {
    assert!(is_red_five(16));
    assert!(is_red_five(52));
    assert!(is_red_five(88));
    assert!(!is_red_five(15));
}

#[test]
fn test_display() {
    assert_eq!(tile34_display(0), "1m");
    assert_eq!(tile34_display(33), "中");
    assert_eq!(tiles34_display(&[0, 1, 2, 9, 10, 11]), "123m123p");
}

#[test]
fn test_display_sorts_and_groups_honors() {
    assert_eq!(tiles34_display(&[33, 2, 27, 0, 18, 2]), "133m1s17z");
    assert_eq!(tiles34_display(&[]), "");
    assert_eq!(tile34_display(40), "??");
}

#[test]
fn test_tile136_display_marks_red_fives() {
    assert_eq!(tile136_display(16), "[5m]");
    assert_eq!(tile136_display(17), "5m");
    assert_eq!(tile136_display(135), "中");
    assert_eq!(tiles136_display(&[135, 0, 4, 36]), "12m1p7z");
}

#[test]
fn test_suit_and_number() {
    assert_eq!(tile34_suit(8), Suit::Man);
    assert_eq!(tile34_suit(9), Suit::Pin);
    assert_eq!(tile34_suit(26), Suit::Sou);
    assert_eq!(tile34_suit(27), Suit::Honor);
    assert_eq!(tile34_number(13), 5);
    assert_eq!(tile34_number(33), 7);
    assert!(tile34_is_terminal(17));
    assert!(!tile34_is_terminal(27));
    assert!(tile34_is_honor(30));
    assert!(tile34_is_yaochuu(0));
    assert!(!tile34_is_yaochuu(4));
    assert!(tile34_is_valid(33));
    assert!(!tile34_is_valid(34));
}

#[test]
fn test_aka_and_deaka() {
    assert!(is_aka(52));
    assert!(!is_aka(53));
    let plain = deaka(16);
    assert_eq!(t136_to_t34(plain), 4);
    assert!(!is_red_five(plain));
    assert_eq!(deaka(20), 20);
}

#[test]
fn display_ignores_order() {
    let a = [33, 2, 27, 0, 18, 2, 12];
    let b = [2, 12, 0, 27, 2, 33, 18];
    assert_eq!(tiles34_display(&a), tiles34_display(&b));
    assert_eq!(tiles34_display(&a), "133m4p1s17z");
}

#[test]
fn base_copy_of_a_five_is_not_red() {
    for t in [4u8, 13, 22] {
        let b = t34_to_t136(t);
        assert_eq!(t136_to_t34(b), t);
        assert!(!is_red_five(b));
        assert_eq!(b, t as u16 * 4 + 1);
    }
}
