use ansi_gfx::{mode, AsCodes, Code, CodeBuf, Ground, Item, BG, BOLD, FG, PAL, RGB, UNDERLINE};

#[test]
fn palette_color_expands_to_three_codes() {
    let composed = mode::<3>(&[Item::Palette(Ground::Bg, 28)]).unwrap();
    assert_eq!(composed.erase().codes, &[48u8, 5, 28][..]);
    assert_eq!(composed.to_string().unwrap(), "\x1b[48;5;28m");
    let other = mode::<3>(&[Item::Palette(Ground::Fg, 9)]).unwrap();
    assert_eq!(other.erase().codes, &[FG, PAL, 9][..]);
}

#[test]
fn rgb_color_expands_to_five_codes() {
    let composed = mode::<5>(&[Item::Rgb(Ground::Fg, 243, 159, 24)]).unwrap();
    assert_eq!(composed.erase().codes, &[38u8, 2, 243, 159, 24][..]);
    assert_eq!(composed.to_string().unwrap(), "\x1b[38;2;243;159;24m");
    let other = mode::<5>(&[Item::Rgb(Ground::Bg, 255, 0, 0)]).unwrap();
    assert_eq!(other.erase().codes, &[BG, RGB, 255, 0, 0][..]);
}

#[test]
fn plain_code_expands_to_itself() {
    let composed = mode::<1>(&[Item::Plain(Code::new(UNDERLINE))]).unwrap();
    assert_eq!(composed.erase().codes, &[4u8][..]);
    assert_eq!(composed.to_string().unwrap(), "\x1b[4m");
}

#[test]
fn documented_combination() {
    let composed = mode::<16>(&[
        Item::Plain(Code::new(UNDERLINE)),
        Item::Rgb(Ground::Fg, 243, 159, 24),
        Item::Palette(Ground::Bg, 28),
    ])
    .unwrap();
    assert_eq!(composed.erase().codes, &[4u8, 38, 2, 243, 159, 24, 48, 5, 28][..]);
    assert_eq!(composed.to_string().unwrap(), "\x1b[4;38;2;243;159;24;48;5;28m");
    assert_eq!(composed.debug(), "\"\\x1b[4;38;2;243;159;24;48;5;28m\"");
}

#[test]
fn no_items_compose_the_empty_sequence() {
    let composed = mode::<0>(&[]).unwrap();
    assert_eq!(composed.erase().codes.len(), 0);
    assert_eq!(composed.to_string(), Some(String::new()));
    assert_eq!(composed.debug(), "");
}

#[test]
fn items_keep_their_order() {
    let forward = mode::<8>(&[Item::Plain(Code::new(BOLD)), Item::Palette(Ground::Fg, 9)]).unwrap();
    let backward = mode::<8>(&[Item::Palette(Ground::Fg, 9), Item::Plain(Code::new(BOLD))]).unwrap();
    assert_eq!(forward.to_string().unwrap(), "\x1b[1;38;5;9m");
    assert_eq!(backward.to_string().unwrap(), "\x1b[38;5;9;1m");
}

#[test]
fn mode_fails_over_its_capacity() {
    let items = [Item::Plain(Code::new(BOLD)), Item::Rgb(Ground::Bg, 1, 2, 3)];
    assert!(mode::<6>(&items).is_some());
    assert!(mode::<5>(&items).is_none());
    assert!(mode::<0>(&items).is_none());
    assert!(mode::<2>(&[Item::Palette(Ground::Fg, 0)]).is_none());
    assert!(mode::<4>(&[Item::Rgb(Ground::Fg, 0, 0, 0)]).is_none());
}

#[test]
fn try_push_appends_all_or_nothing() {
    let mut list: CodeBuf<4> = CodeBuf::new();
    assert_eq!(list.len(), 0);
    assert!(list.try_push(Item::Plain(Code::new(7))));
    assert_eq!(list.as_codes(), &[7u8][..]);
    assert!(!list.try_push(Item::Rgb(Ground::Fg, 1, 2, 3)));
    assert_eq!(list.as_codes(), &[7u8][..]);
    assert!(list.try_push(Item::Palette(Ground::Bg, 200)));
    assert_eq!(list.as_codes(), &[7u8, 48, 5, 200][..]);
    assert_eq!(list.len(), 4);
    assert!(!list.try_push(Item::Plain(Code::new(1))));
    assert_eq!(list.as_codes(), &[7u8, 48, 5, 200][..]);
}

#[test]
fn ground_selectors() {
    assert_eq!(Ground::Fg.selector(), 38);
    assert_eq!(Ground::Bg.selector(), 48);
    assert!(Ground::Fg != Ground::Bg);
}

#[test]
fn containers_hand_out_their_codes() {
    assert_eq!([1u8, 2, 3].as_codes(), &[1u8, 2, 3][..]);
    assert_eq!(vec![9u8, 8].as_codes(), &[9u8, 8][..]);
    let slice: &[u8] = &[4, 5];
    assert_eq!(slice.as_codes(), &[4u8, 5][..]);
}
