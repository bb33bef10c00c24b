//! Coloured text for tiles and tile counts, as a terminal shows it.

use vstd::prelude::*;
use vstd::string::StringExecFns;
use crate::game_state::COLOR_NAMES;

verus! {

/// The character of decimal digit `d`.
pub open spec fn digit_char(d: int) -> char {
    if d == 0 {
        '0'
    } else if d == 1 {
        '1'
    } else if d == 2 {
        '2'
    } else if d == 3 {
        '3'
    } else if d == 4 {
        '4'
    } else if d == 5 {
        '5'
    } else if d == 6 {
        '6'
    } else if d == 7 {
        '7'
    } else if d == 8 {
        '8'
    } else {
        '9'
    }
}

/// The decimal digits of `n`, without leading zeros.
pub open spec fn decimal(n: int) -> Seq<char>
    decreases n,
{
    if n < 10 {
        seq![digit_char(n)]
    } else {
        decimal(n / 10).push(digit_char(n % 10))
    }
}

/// The escape sequence that sets the foreground colour to `(r, g, b)`.
pub open spec fn fg_rgb_code(r: int, g: int, b: int) -> Seq<char> {
    seq!['\u{1b}', '[', '3', '8', ';', '2', ';'] + decimal(r) + seq![';'] + decimal(g) + seq![';']
        + decimal(b) + seq!['m']
}

/// The escape sequence that resets the foreground colour.
pub open spec fn fg_reset_code() -> Seq<char> {
    seq!['\u{1b}', '[', '3', '9', 'm']
}

/// The name of tile colour `color`; the marker is the sixth.
pub open spec fn color_name(color: int) -> char {
    if color == 0 {
        'B'
    } else if color == 1 {
        'Y'
    } else if color == 2 {
        'R'
    } else if color == 3 {
        'G'
    } else if color == 4 {
        'C'
    } else {
        'F'
    }
}

/// The red, green and blue parts of the colour in which a name is shown.
pub open spec fn rgb_of(color_char: char) -> (u8, u8, u8) {
    if color_char == 'B' {
        (0, 0, 255)
    } else if color_char == 'G' {
        (0, 255, 0)
    } else if color_char == 'Y' {
        (255, 255, 0)
    } else if color_char == 'C' {
        (0, 255, 255)
    } else if color_char == 'R' {
        (255, 0, 0)
    } else if color_char == 'F' {
        (128, 0, 128)
    } else {
        (255, 255, 255)
    }
}

/// `text` in the colour of `color_char`, the colour reset behind it.
pub open spec fn colorised(text: Seq<char>, color_char: char) -> Seq<char> {
    let rgb = rgb_of(color_char);
    fg_rgb_code(rgb.0 as int, rgb.1 as int, rgb.2 as int) + text + fg_reset_code()
}

/// `text` written `n` times.
pub open spec fn repeated(text: Seq<char>, n: int) -> Seq<char>
    decreases n,
{
    if n <= 0 {
        Seq::empty()
    } else {
        repeated(text, n - 1) + text
    }
}

/// One coloured count: nothing for zero, else the number in its colour,
/// followed by a blank unless `compact`.
pub open spec fn color_item(count: u8, color: int, compact: bool) -> Seq<char> {
    if count == 0 {
        Seq::empty()
    } else if compact {
        colorised(decimal(count as int), color_name(color))
    } else {
        colorised(decimal(count as int), color_name(color)) + seq![' ']
    }
}

/// The coloured counts of the colours `0..counts.len()`, in order.
pub open spec fn color_list(counts: Seq<u8>, compact: bool) -> Seq<char>
    decreases counts.len(),
{
    if counts.len() == 0 {
        Seq::empty()
    } else {
        color_list(counts.drop_last(), compact) + color_item(
            counts.last(),
            counts.len() - 1,
            compact,
        )
    }
}

/// One coloured letter for each tile of the colours `0..n`.
pub open spec fn tile_letters(row: [u8; 6], n: int) -> Seq<char>
    decreases n,
{
    if n <= 0 {
        Seq::empty()
    } else {
        tile_letters(row, n - 1) + repeated(
            colorised(seq![color_name(n - 1)], color_name(n - 1)),
            row[n - 1] as int,
        )
    }
}

/// What stands behind option `idx` of `len`: ` or ` before the last option,
/// a comma before the others, nothing behind the last.
pub open spec fn separator(idx: int, len: int) -> Seq<char> {
    if idx == len - 2 {
        seq![' ', 'o', 'r', ' ']
    } else if idx < len - 1 {
        seq![',', ' ']
    } else {
        Seq::empty()
    }
}

/// The options `0..n`, each with its separator.
pub open spec fn options_text(options: Seq<String>, n: int) -> Seq<char>
    decreases n,
{
    if n <= 0 {
        Seq::empty()
    } else {
        options_text(options, n - 1) + options[n - 1]@ + separator(n - 1, options.len() as int)
    }
}

/// `String::push` appends one character.
pub assume_specification[ String::push ](s: &mut String, ch: char)
    ensures
        final(s)@ == old(s)@.push(ch),
;

/// Formats termion's `Fg(Rgb(r, g, b))`, which writes the escape `ESC [ 38 ;
/// 2 ;`, the three parts in decimal with `;` between them, and `m`.
#[verifier::external_body]
fn fg_rgb(r: u8, g: u8, b: u8) -> (code: String)
    ensures
        code@ == fg_rgb_code(r as int, g as int, b as int),
{
    format!("{}", termion::color::Fg(termion::color::Rgb(r, g, b)))
}

/// Formats termion's `Fg(Reset)`, which writes the escape `ESC [ 39 m`.
#[verifier::external_body]
fn fg_reset() -> (code: String)
    ensures
        code@ == fg_reset_code(),
{
    format!("{}", termion::color::Fg(termion::color::Reset))
}

fn push_digit(text: &mut String, d: u32)
    requires
        d < 10,
    ensures
        final(text)@ == old(text)@.push(digit_char(d as int)),
{
    let c: char = if d == 0 {
        '0'
    } else if d == 1 {
        '1'
    } else if d == 2 {
        '2'
    } else if d == 3 {
        '3'
    } else if d == 4 {
        '4'
    } else if d == 5 {
        '5'
    } else if d == 6 {
        '6'
    } else if d == 7 {
        '7'
    } else if d == 8 {
        '8'
    } else {
        '9'
    };
    text.push(c);
}

/// Appends the decimal digits of `n`.
pub fn push_decimal(text: &mut String, n: u32)
    ensures
        final(text)@ == old(text)@ + decimal(n as int),
    decreases n,
{
    let ghost before = text@;
    if n >= 10 {
        push_decimal(text, n / 10);
    }
    push_digit(text, n % 10);
    assert(text@ =~= before + decimal(n as int));
}

/// The text of a number below 256.
pub fn decimal_string(n: u8) -> (text: String)
    ensures
        text@ == decimal(n as int),
{
    let mut text = String::new();
    push_decimal(&mut text, n as u32);
    assert(text@ =~= decimal(n as int));
    text
}

/// The name of tile colour `color`.
pub fn name_of(color: usize) -> (name: char)
    requires
        color < 6,
    ensures
        name == color_name(color as int),
{
    COLOR_NAMES[color]
}

/// Shows `string` in the colour that belongs to `color_char`; any other
/// character gives white.
pub fn colorise_adv(string: &str, color_char: char) -> (text: String)
    ensures
        text@ == colorised(string@, color_char),
{
    let rgb: (u8, u8, u8) = if color_char == 'B' {
        (0, 0, 255)
    } else if color_char == 'G' {
        (0, 255, 0)
    } else if color_char == 'Y' {
        (255, 255, 0)
    } else if color_char == 'C' {
        (0, 255, 255)
    } else if color_char == 'R' {
        (255, 0, 0)
    } else if color_char == 'F' {
        (128, 0, 128)
    } else {
        (255, 255, 255)
    };
    let mut text: String = fg_rgb(rgb.0, rgb.1, rgb.2);
    text.append(string);
    let reset: String = fg_reset();
    text.append(reset.as_str());
    text
}

/// Shows the character `color_char` in its own colour.
pub fn colorise(color_char: char) -> (text: String)
    ensures
        text@ == colorised(seq![color_char], color_char),
{
    let mut letter = String::new();
    letter.push(color_char);
    colorise_adv(letter.as_str(), color_char)
}

/// Shows the counts of the colours `0..arr.len()`, each in its colour;
/// colours without a tile are left out. Unless `compact`, a blank follows
/// each count.
pub fn color_arr(arr: &[u8], compact: bool) -> (out_str: String)
    requires
        arr.len() <= 6,
    ensures
        out_str@ == color_list(arr@, compact),
{
    let mut out_str = String::new();
    let mut color: usize = 0;
    while color < arr.len()
        invariant
            color <= arr.len() <= 6,
            out_str@ == color_list(arr@.take(color as int), compact),
        decreases arr.len() - color,
    {
        let count: u8 = arr[color];
        proof {
            assert(arr@.take(color as int + 1).drop_last() =~= arr@.take(color as int));
        }
        if count != 0 {
            let number: String = decimal_string(count);
            let shown: String = colorise_adv(number.as_str(), name_of(color));
            out_str.append(shown.as_str());
            if !compact {
                out_str.push(' ');
            }
        }
        color += 1;
    }
    assert(arr@.take(arr.len() as int) =~= arr@);
    out_str
}

/// One coloured letter for each tile that `row` counts, colour by colour.
pub fn arr_to_str(row: [u8; 6]) -> (output: String)
    ensures
        output@ == tile_letters(row, 6),
{
    let mut output = String::new();
    let mut i: usize = 0;
    while i < 6
        invariant
            i <= 6,
            output@ == tile_letters(row, i as int),
        decreases 6 - i,
    {
        let letter: String = colorise(name_of(i));
        let ghost start = output@;
        let mut k: u8 = 0;
        while k < row[i]
            invariant
                i < 6,
                k <= row[i as int],
                letter@ == colorised(seq![color_name(i as int)], color_name(i as int)),
                output@ == start + repeated(letter@, k as int),
            decreases row[i as int] - k,
        {
            output.append(letter.as_str());
            k += 1;
        }
        i += 1;
    }
    output
}

/// Joins the options into one phrase: commas between them, and ` or `
/// before the last.
pub fn options_to_str(options: &Vec<String>) -> (output: String)
    ensures
        output@ == options_text(options@, options.len() as int),
{
    let mut output = String::new();
    let mut idx: usize = 0;
    while idx < options.len()
        invariant
            idx <= options.len(),
            output@ == options_text(options@, idx as int),
        decreases options.len() - idx,
    {
        output.append(options[idx].as_str());
        let left: usize = options.len() - idx;
        if left == 2 {
            proof {
                reveal_strlit(" or ");
            }
            output.append(" or ");
        } else if left > 1 {
            proof {
                reveal_strlit(", ");
            }
            output.append(", ");
        }
        idx += 1;
    }
    output
}

} // verus!
