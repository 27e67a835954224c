use ansi_gfx::{Code, Ground, Item, BOLD, RED, UNDERLINE};

#[test]
fn simple() {
    assert_eq!(Code::new(BOLD).to_string(), "\x1b[1m");
    assert_eq!(Code::new(RED).to_string(), "\x1b[31m");
}

#[test]
fn mode() {
    let style = Code::new(UNDERLINE);
    let composed = ansi_gfx::mode::<10>(&[
        Item::Plain(Code::new(BOLD)),
        Item::Plain(style),
        Item::Palette(Ground::Fg, 9),
        Item::Rgb(Ground::Bg, 255, 0, 0),
    ])
    .unwrap();
    assert_eq!(composed.to_string().unwrap(), "\u{1b}[1;4;38;5;9;48;2;255;0;0m");
}
