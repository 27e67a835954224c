use ansi_gfx::{
    Code, BG, BLACK, BLACK_BG, BLINK, BLUE, BLUE_BG, BOLD, BRIGHT_BLACK, BRIGHT_BLACK_BG,
    BRIGHT_BLUE, BRIGHT_BLUE_BG, BRIGHT_CYAN, BRIGHT_CYAN_BG, BRIGHT_GREEN, BRIGHT_GREEN_BG,
    BRIGHT_MAGENTA, BRIGHT_MAGENTA_BG, BRIGHT_RED, BRIGHT_RED_BG, BRIGHT_WHITE, BRIGHT_WHITE_BG,
    BRIGHT_YELLOW, BRIGHT_YELLOW_BG, CYAN, CYAN_BG, DEFAULT, DEFAULT_BG, DIM, FG, GREEN, GREEN_BG,
    HIDDEN, INVERSE, ITALIC, MAGENTA, MAGENTA_BG, PAL, RED, RED_BG, RESET, RESET_BLINK,
    RESET_HIDDEN, RESET_INVERSE, RESET_ITALIC, RESET_STRIKE, RESET_UNDERLINE, RESET_WEIGHT, RGB,
    STRIKE, UNDERLINE, WHITE, WHITE_BG, YELLOW, YELLOW_BG,
};

#[test]
fn attributes_have_their_numbers() {
    assert_eq!([BOLD, DIM, ITALIC, UNDERLINE, BLINK, INVERSE, HIDDEN, STRIKE], [1, 2, 3, 4, 5, 7, 8, 9]);
}

#[test]
fn resets_have_their_numbers() {
    assert_eq!(RESET, 0);
    assert_eq!(
        [
            RESET_WEIGHT,
            RESET_ITALIC,
            RESET_UNDERLINE,
            RESET_BLINK,
            RESET_INVERSE,
            RESET_HIDDEN,
            RESET_STRIKE,
        ],
        [22, 23, 24, 25, 27, 28, 29]
    );
}

#[test]
fn basic_colors_have_their_numbers() {
    assert_eq!(
        [BLACK, RED, GREEN, YELLOW, BLUE, MAGENTA, CYAN, WHITE, DEFAULT],
        [30, 31, 32, 33, 34, 35, 36, 37, 39]
    );
    assert_eq!(
        [BLACK_BG, RED_BG, GREEN_BG, YELLOW_BG, BLUE_BG, MAGENTA_BG, CYAN_BG, WHITE_BG, DEFAULT_BG],
        [40, 41, 42, 43, 44, 45, 46, 47, 49]
    );
}

#[test]
fn bright_colors_have_their_numbers() {
    assert_eq!(
        [
            BRIGHT_BLACK,
            BRIGHT_RED,
            BRIGHT_GREEN,
            BRIGHT_YELLOW,
            BRIGHT_BLUE,
            BRIGHT_MAGENTA,
            BRIGHT_CYAN,
            BRIGHT_WHITE,
        ],
        [90, 91, 92, 93, 94, 95, 96, 97]
    );
    assert_eq!(
        [
            BRIGHT_BLACK_BG,
            BRIGHT_RED_BG,
            BRIGHT_GREEN_BG,
            BRIGHT_YELLOW_BG,
            BRIGHT_BLUE_BG,
            BRIGHT_MAGENTA_BG,
            BRIGHT_CYAN_BG,
            BRIGHT_WHITE_BG,
        ],
        [100, 101, 102, 103, 104, 105, 106, 107]
    );
}

#[test]
fn selectors_have_their_numbers() {
    assert_eq!([FG, BG, RGB, PAL], [38, 48, 2, 5]);
}

#[test]
fn named_codes_render() {
    assert_eq!(Code::new(RESET).to_string(), "\x1b[0m");
    assert_eq!(Code::new(UNDERLINE).to_string(), "\x1b[4m");
    assert_eq!(Code::new(BRIGHT_WHITE_BG).to_string(), "\x1b[107m");
    assert_eq!(Code::new(BRIGHT_BLACK_BG).to_string(), "\x1b[100m");
    assert_eq!(Code::new(DEFAULT_BG).to_string(), "\x1b[49m");
}
