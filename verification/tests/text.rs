use amarillo::render::{
    arr_to_str, color_arr, colorise, colorise_adv, decimal_string, name_of, options_to_str,
};

#[test]
fn numbers_are_written_in_decimal() {
    assert_eq!(decimal_string(0), "0");
    assert_eq!(decimal_string(7), "7");
    assert_eq!(decimal_string(10), "10");
    assert_eq!(decimal_string(42), "42");
    assert_eq!(decimal_string(100), "100");
    assert_eq!(decimal_string(109), "109");
    assert_eq!(decimal_string(255), "255");
    for n in 0..=255u8 {
        assert_eq!(decimal_string(n), format!("{}", n));
    }
}

#[test]
fn colours_have_their_names() {
    let names: Vec<char> = (0..6).map(name_of).collect();
    assert_eq!(names, vec!['B', 'Y', 'R', 'G', 'C', 'F']);
}

#[test]
fn text_is_wrapped_in_its_colour() {
    assert_eq!(colorise_adv("x", 'B'), "\u{1b}[38;2;0;0;255mx\u{1b}[39m");
    assert_eq!(colorise_adv("12", 'G'), "\u{1b}[38;2;0;255;0m12\u{1b}[39m");
    assert_eq!(colorise_adv(".", 'Y'), "\u{1b}[38;2;255;255;0m.\u{1b}[39m");
    assert_eq!(colorise_adv("", 'C'), "\u{1b}[38;2;0;255;255m\u{1b}[39m");
    assert_eq!(colorise_adv("r", 'R'), "\u{1b}[38;2;255;0;0mr\u{1b}[39m");
    assert_eq!(colorise_adv("F", 'F'), "\u{1b}[38;2;128;0;128mF\u{1b}[39m");
    assert_eq!(colorise_adv("W", 'W'), "\u{1b}[38;2;255;255;255mW\u{1b}[39m");
}

#[test]
fn letter_is_shown_in_its_own_colour() {
    assert_eq!(colorise('B'), "\u{1b}[38;2;0;0;255mB\u{1b}[39m");
    assert_eq!(colorise('F'), colorise_adv("F", 'F'));
}

#[test]
fn counts_are_listed_colour_by_colour() {
    let listed = color_arr(&[2, 0, 13, 0, 0, 1], false);
    let expected = format!(
        "{} {} {} ",
        colorise_adv("2", 'B'),
        colorise_adv("13", 'R'),
        colorise_adv("1", 'F')
    );
    assert_eq!(listed, expected);
    let compact = color_arr(&[2, 0, 13, 0, 0, 1], true);
    assert_eq!(
        compact,
        format!("{}{}{}", colorise_adv("2", 'B'), colorise_adv("13", 'R'), colorise_adv("1", 'F'))
    );
    assert_eq!(color_arr(&[0, 0, 0, 0, 0], false), "");
    assert_eq!(color_arr(&[], false), "");
    assert_eq!(color_arr(&[0, 20], false), format!("{} ", colorise_adv("20", 'Y')));
}

#[test]
fn tiles_are_shown_one_letter_each() {
    assert_eq!(arr_to_str([0; 6]), "");
    let shown = arr_to_str([2, 0, 1, 0, 0, 1]);
    assert_eq!(shown, format!("{}{}{}{}", colorise('B'), colorise('B'), colorise('R'), colorise('F')));
}

#[test]
fn options_are_joined_with_commas_and_or() {
    let words = |items: &[&str]| -> Vec<String> { items.iter().map(|s| s.to_string()).collect() };
    assert_eq!(options_to_str(&words(&[])), "");
    assert_eq!(options_to_str(&words(&["1"])), "1");
    assert_eq!(options_to_str(&words(&["1", "2"])), "1 or 2");
    assert_eq!(options_to_str(&words(&["1", "2", "5"])), "1, 2 or 5");
    assert_eq!(options_to_str(&words(&["b", "g", "r", "y"])), "b, g, r or y");
}
