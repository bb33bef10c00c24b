//! Positions and moves as text for a terminal: the boards side by side in
//! columns, the pool, the bag and the lid.

use vstd::prelude::*;
use vstd::string::{StrSliceExecFns, StringExecFns};
use crate::game_state::{Action, CentralState, PlayerState, State};
use crate::render::{
    arr_to_str, color_arr, color_list, color_name, colorise, colorise_adv, colorised, decimal,
    name_of, push_decimal, repeated, tile_letters,
};

verus! {

/// The digits of `n`, with a minus sign before them when `n` is negative.
pub open spec fn signed_decimal(n: int) -> Seq<char> {
    if n < 0 {
        seq!['-'] + decimal(-n)
    } else {
        decimal(n)
    }
}

/// `n` blanks.
pub open spec fn blanks(n: int) -> Seq<char> {
    repeated(seq![' '], n)
}

/// `text` without the blanks at its end.
pub open spec fn trimmed(text: Seq<char>) -> Seq<char>
    decreases text.len(),
{
    if text.len() > 0 && text.last() == ' ' {
        trimmed(text.drop_last())
    } else {
        text
    }
}

/// What `strip_ansi_escapes::strip` returns for the bytes of `text`: the
/// bytes that are left without the escape sequences, or nothing where it
/// fails.
pub uninterp spec fn stripped_bytes(text: Seq<char>) -> Option<Seq<u8>>;

/// Whether the escape sequences of `text` can be stripped.
pub open spec fn strips(text: Seq<char>) -> bool {
    stripped_bytes(text) is Some
}

/// How many bytes of `text` a terminal shows, the escape sequences left
/// out; zero where they cannot be stripped.
pub open spec fn shown_len(text: Seq<char>) -> int {
    match stripped_bytes(text) {
        Some(bytes) => bytes.len() as int,
        None => 0,
    }
}

/// Calls `strip_ansi_escapes::strip` on the bytes of `string`, which
/// returns them without the escape sequences among them, or an error of
/// writing. The function works on the bytes alone and in memory, so what
/// comes back, the failure too, goes by the text. The error is dropped.
#[verifier::external_body]
fn strip_escapes(string: &str) -> (stripped: Option<Vec<u8>>)
    ensures
        stripped is Some <==> stripped_bytes(string@) is Some,
        stripped matches Some(bytes) ==> stripped_bytes(string@) == Some(bytes@),
{
    strip_ansi_escapes::strip(string.as_bytes()).ok()
}

/// How many bytes of `string` a terminal shows; None exactly when the
/// escape sequences cannot be stripped.
pub fn stripped_len(string: &str) -> (len: Option<usize>)
    ensures
        len is Some <==> strips(string@),
        len matches Some(n) ==> n == shown_len(string@),
{
    match strip_escapes(string) {
        Some(bytes) => Some(bytes.len()),
        None => None,
    }
}

/// The text of a number.
pub fn number_string(n: i32) -> (text: String)
    ensures
        text@ == signed_decimal(n as int),
{
    let mut text = String::new();
    if n < 0 {
        text.push('-');
        let magnitude: u32 = (-(n as i64)) as u32;
        push_decimal(&mut text, magnitude);
    } else {
        push_decimal(&mut text, n as u32);
    }
    text
}

/// Appends `n` blanks.
pub fn push_blanks(text: &mut String, n: usize)
    ensures
        final(text)@ == old(text)@ + blanks(n as int),
{
    let ghost before = text@;
    let mut k: usize = 0;
    while k < n
        invariant
            k <= n,
            text@ == before + blanks(k as int),
        decreases n - k,
    {
        text.push(' ');
        k += 1;
    }
}

/// Appends blanks to `text`, of which `shown` places are seen, until
/// `width` places are filled; none when they are filled already.
pub fn pad_right(text: &mut String, shown: usize, width: usize)
    ensures
        final(text)@ == old(text)@ + blanks(width - shown),
{
    if shown < width {
        push_blanks(text, width - shown);
    }
}

/// `text` without the blanks at its end.
pub fn trim_blanks(text: &str) -> (short: String)
    ensures
        short@ == trimmed(text@),
{
    let mut n: usize = text.unicode_len();
    proof {
        assert(text@.take(n as int) =~= text@);
    }
    while n > 0 && text.get_char(n - 1) == ' '
        invariant
            n <= text@.len(),
            trimmed(text@) == trimmed(text@.take(n as int)),
        decreases n,
    {
        proof {
            assert(text@.take(n as int).drop_last() =~= text@.take(n as int - 1));
        }
        n -= 1;
    }
    String::from_str(text.substring_char(0, n))
}

impl Action {
    /// The move in words.
    pub open spec fn text(self) -> Seq<char> {
        "Move "@ + colorised(seq![color_name(self.color as int)], color_name(self.color as int))
            + " tiles from display "@ + decimal(self.display_number as int) + " to row "@ + decimal(
            self.row_id as int,
        ) + "."@
    }

    /// The move in words, the colour's letter in its colour.
    pub fn to_string(&self) -> (text: String)
        requires
            self.color < 6,
        ensures
            text@ == self.text(),
    {
        let mut text = String::from_str("Move ");
        let letter: String = colorise(name_of(self.color as usize));
        text.append(letter.as_str());
        text.append(" tiles from display ");
        push_decimal(&mut text, self.display_number as u32);
        text.append(" to row ");
        push_decimal(&mut text, self.row_id as u32);
        text.append(".");
        text
    }
}

impl CentralState {
    /// The heading of display `display`: its number, with four blanks
    /// behind it; nothing for an empty display.
    pub open spec fn heading(self, display: int) -> Seq<char> {
        if self.display_count(display) == 0 {
            Seq::empty()
        } else if display == 7 {
            decimal(display) + ": the centre"@ + "    "@
        } else {
            decimal(display) + "    "@
        }
    }

    /// The headings of the displays `0..n`.
    pub open spec fn headings(self, n: int) -> Seq<char>
        decreases n,
    {
        if n <= 0 {
            Seq::empty()
        } else {
            self.headings(n - 1) + self.heading(n - 1)
        }
    }

    /// The tiles of display `display`, one letter each; a factory display
    /// is filled up with blanks to five places. Nothing for an empty display.
    pub open spec fn display_text(self, display: int) -> Seq<char> {
        if self.display_count(display) == 0 {
            Seq::empty()
        } else if display == 7 {
            tile_letters(self.central_state_arr[display], 6)
        } else {
            tile_letters(self.central_state_arr[display], 6) + blanks(
                5 - self.display_count(display),
            )
        }
    }

    /// The tiles of the displays `0..n`.
    pub open spec fn displays_text(self, n: int) -> Seq<char>
        decreases n,
    {
        if n <= 0 {
            Seq::empty()
        } else {
            self.displays_text(n - 1) + self.display_text(n - 1)
        }
    }

    /// The pool in two lines: the headings, and below them the tiles.
    pub open spec fn text(self) -> Seq<char> {
        self.headings(8) + "\n"@ + self.displays_text(8)
    }

    /// Counts the tiles on display `display`.
    pub fn count_display(&self, display: usize) -> (n: usize)
        requires
            display < 8,
        ensures
            n == self.display_count(display as int),
    {
        let d = &self.central_state_arr[display];
        d[0] as usize + d[1] as usize + d[2] as usize + d[3] as usize + d[4] as usize
            + d[5] as usize
    }

    /// The line of headings.
    pub fn heading_line(&self) -> (output: String)
        ensures
            output@ == self.headings(8),
    {
        let mut output = String::new();
        let mut i: usize = 0;
        while i < 8
            invariant
                i <= 8,
                output@ == self.headings(i as int),
            decreases 8 - i,
        {
            if self.count_display(i) > 0 {
                push_decimal(&mut output, i as u32);
                if i == 7 {
                    output.append(": the centre");
                }
                output.append("    ");
            }
            i += 1;
        }
        output
    }

    /// The line of tiles.
    pub fn tile_line(&self) -> (output: String)
        ensures
            output@ == self.displays_text(8),
    {
        let mut output = String::new();
        let mut factory_display: usize = 0;
        while factory_display < 8
            invariant
                factory_display <= 8,
                output@ == self.displays_text(factory_display as int),
            decreases 8 - factory_display,
        {
            let num_tiles: usize = self.count_display(factory_display);
            if num_tiles > 0 {
                let letters: String = arr_to_str(self.central_state_arr[factory_display]);
                output.append(letters.as_str());
                if factory_display < 7 {
                    pad_right(&mut output, num_tiles, 5);
                }
            }
            factory_display += 1;
        }
        output
    }

    /// The pool in two lines.
    pub fn to_string(&self) -> (output: String)
        ensures
            output@ == self.text(),
    {
        let mut output: String = self.heading_line();
        output.append("\n");
        let tiles: String = self.tile_line();
        output.append(tiles.as_str());
        output
    }
}

/// `line` filled up with blanks to the thirteen places of a column.
pub open spec fn column(line: Seq<char>) -> Seq<char> {
    line + blanks(13 - shown_len(line))
}

/// Appends `line` as a column of thirteen places. Where the escape
/// sequences of `line` cannot be stripped, nothing is appended and the
/// result is false.
pub fn push_column(text: &mut String, line: &str) -> (done: bool)
    ensures
        done == strips(line@),
        done ==> final(text)@ == old(text)@ + column(line@),
        !done ==> final(text)@ == old(text)@,
{
    match stripped_len(line) {
        Some(shown) => {
            text.append(line);
            pad_right(text, shown, 13);
            true
        },
        None => false,
    }
}

impl PlayerState {
    /// Whether every pattern line with tiles holds a colour that has a name.
    pub open spec fn showable(self) -> bool {
        forall|r: int| 0 <= r < 5 ==> (#[trigger] self.rows[r]).count > 0 ==> self.rows[r].color < 6
    }

    /// The letter under which pattern line `row` is shown: that of its
    /// colour, or `W` when the line is empty.
    pub open spec fn line_name(self, row: int) -> char {
        if self.rows[row].count > 0 {
            color_name(self.rows[row].color as int)
        } else {
            'W'
        }
    }

    /// Place `i` of pattern line `row`, the line standing flush right: a
    /// blank where the line has no place, the letter for a tile, a dot for
    /// a free place.
    pub open spec fn line_place(self, row: int, i: int) -> Seq<char> {
        if i + row < 4 {
            seq![' ']
        } else if i + self.rows[row].count > 4 {
            colorised(seq![self.line_name(row)], self.line_name(row))
        } else {
            colorised(seq!['.'], self.line_name(row))
        }
    }

    /// The places `0..n` of pattern line `row`.
    pub open spec fn line_places(self, row: int, n: int) -> Seq<char>
        decreases n,
    {
        if n <= 0 {
            Seq::empty()
        } else {
            self.line_places(row, n - 1) + self.line_place(row, n - 1)
        }
    }

    /// Cell `col` of wall row `row`: the letter of its colour when filled,
    /// else a dot in that colour.
    pub open spec fn wall_place(self, row: int, col: int) -> Seq<char> {
        let name = color_name((col - row + 5) % 5);
        if self.wall_state[row][col] {
            colorised(seq![name], name)
        } else {
            colorised(seq!['.'], name)
        }
    }

    /// The cells `0..n` of wall row `row`.
    pub open spec fn wall_places(self, row: int, n: int) -> Seq<char>
        decreases n,
    {
        if n <= 0 {
            Seq::empty()
        } else {
            self.wall_places(row, n - 1) + self.wall_place(row, n - 1)
        }
    }

    /// Pattern line `row` and, a blank between them, wall row `row`.
    pub open spec fn row_text(self, row: int) -> Seq<char> {
        self.line_places(row, 5) + " "@ + self.wall_places(row, 5)
    }

    /// Whether the board can be shown: the escape sequences of the counts
    /// on its floor line can be stripped, which is how their width is found.
    pub open spec fn shows(self) -> bool {
        strips(color_list(self.floor_tiles@, false))
    }

    /// The floor line and the score: the counts on the floor line, then the
    /// score, moved right so that both take eleven places where they fit.
    pub open spec fn floor_text(self) -> Seq<char> {
        let floor = color_list(self.floor_tiles@, false);
        let score = signed_decimal(self.score as int);
        floor + blanks(11 - shown_len(floor) - score.len()) + score
    }

    /// Line `n` of the board: the five rows, then the floor line.
    pub open spec fn text_line(self, n: int) -> Seq<char> {
        if n < 5 {
            self.row_text(n)
        } else {
            self.floor_text()
        }
    }

    /// The lines `0..n` of the board, a line feed behind each.
    pub open spec fn text_rows(self, n: int) -> Seq<char>
        decreases n,
    {
        if n <= 0 {
            Seq::empty()
        } else {
            self.text_rows(n - 1) + self.row_text(n - 1) + "\n"@
        }
    }

    /// The board in six lines.
    pub open spec fn text(self) -> Seq<char> {
        self.text_rows(5) + self.floor_text()
    }

    /// Pattern line `row_id` and wall row `row_id`.
    pub fn row_string(&self, row_id: usize) -> (text: String)
        requires
            row_id < 5,
            self.showable(),
        ensures
            text@ == self.row_text(row_id as int),
    {
        let row = self.rows[row_id];
        let colname: char = if row.count > 0 {
            name_of(row.color as usize)
        } else {
            'W'
        };
        let mut text = String::new();
        let mut i: usize = 0;
        while i < 5
            invariant
                i <= 5,
                row_id < 5,
                row == self.rows[row_id as int],
                colname == self.line_name(row_id as int),
                text@ == self.line_places(row_id as int, i as int),
            decreases 5 - i,
        {
            if i + row_id < 4 {
                text.push(' ');
            } else if i + (row.count as usize) > 4 {
                let tile: String = colorise(colname);
                text.append(tile.as_str());
            } else {
                proof {
                    reveal_strlit(".");
                }
                let free: String = colorise_adv(".", colname);
                text.append(free.as_str());
            }
            i += 1;
        }
        text.append(" ");
        let ghost lines = text@;
        let mut j: usize = 0;
        while j < 5
            invariant
                j <= 5,
                row_id < 5,
                text@ == lines + self.wall_places(row_id as int, j as int),
            decreases 5 - j,
        {
            let idx: usize = (j + 5 - row_id) % 5;
            let colname: char = name_of(idx);
            if self.wall_state[row_id][j] {
                let tile: String = colorise(colname);
                text.append(tile.as_str());
            } else {
                proof {
                    reveal_strlit(".");
                }
                let free: String = colorise_adv(".", colname);
                text.append(free.as_str());
            }
            j += 1;
        }
        text
    }

    /// The floor line and the score; None exactly when the board does not
    /// show.
    pub fn floor_string(&self) -> (text: Option<String>)
        ensures
            text is Some <==> self.shows(),
            text matches Some(line) ==> line@ == self.floor_text(),
    {
        let mut floor_str: String = color_arr(self.floor_tiles.as_slice(), false);
        let score_str: String = number_string(self.score);
        let score_len: usize = score_str.as_str().unicode_len();
        match stripped_len(floor_str.as_str()) {
            Some(shown) => {
                if shown < 11 && score_len < 11 {
                    pad_right(&mut floor_str, shown + score_len, 11);
                }
                floor_str.append(score_str.as_str());
                Some(floor_str)
            },
            None => None,
        }
    }

    /// The six lines of the board; None exactly when the board does not show.
    pub fn lines(&self) -> (lines: Option<Vec<String>>)
        requires
            self.showable(),
        ensures
            lines is Some <==> self.shows(),
            lines matches Some(found) ==> found@.len() == 6 && forall|n: int|
                0 <= n < 6 ==> (#[trigger] found@[n])@ == self.text_line(n),
    {
        let mut lines: Vec<String> = Vec::new();
        let mut row_id: usize = 0;
        while row_id < 5
            invariant
                row_id <= 5,
                self.showable(),
                lines@.len() == row_id,
                forall|n: int| 0 <= n < row_id ==> (#[trigger] lines@[n])@ == self.text_line(n),
            decreases 5 - row_id,
        {
            let line: String = self.row_string(row_id);
            lines.push(line);
            row_id += 1;
        }
        match self.floor_string() {
            Some(line) => {
                lines.push(line);
                Some(lines)
            },
            None => None,
        }
    }

    /// The board in six lines; None exactly when the board does not show.
    pub fn to_string(&self) -> (text: Option<String>)
        requires
            self.showable(),
        ensures
            text is Some <==> self.shows(),
            text matches Some(shown) ==> shown@ == self.text(),
    {
        let mut text = String::new();
        let mut row_id: usize = 0;
        while row_id < 5
            invariant
                row_id <= 5,
                self.showable(),
                text@ == self.text_rows(row_id as int),
            decreases 5 - row_id,
        {
            let line: String = self.row_string(row_id);
            text.append(line.as_str());
            text.append("\n");
            row_id += 1;
        }
        match self.floor_string() {
            Some(line) => {
                text.append(line.as_str());
                Some(text)
            },
            None => None,
        }
    }
}

impl State {
    /// Who is to play; nothing when the game is finished.
    pub open spec fn to_play_text(self) -> Seq<char> {
        if self.is_finished {
            Seq::empty()
        } else {
            "Player "@ + decimal(self.player_to_play as int) + " to play. "@
        }
    }

    /// Line `n` of the column beside the boards: who is to play, the two
    /// lines of the pool, the bag and the lid.
    pub open spec fn info_line(self, n: int) -> Seq<char> {
        if n == 0 {
            self.to_play_text()
        } else if n == 1 {
            self.central_state.headings(8)
        } else if n == 2 {
            self.central_state.displays_text(8)
        } else if n == 3 {
            "bag "@ + color_list(self.bag@, false)
        } else {
            "lid "@ + color_list(self.lid@, false)
        }
    }

    /// Line `n` of the position: line `n` of each board and of the column
    /// beside them, each in a column of thirteen places. The column beside
    /// the boards has five lines.
    pub open spec fn text_row(self, n: int) -> Seq<char> {
        column(self.board_states[0].text_line(n)) + column(self.board_states[1].text_line(n))
            + column(self.board_states[2].text_line(n)) + if n < 5 {
            column(self.info_line(n))
        } else {
            Seq::empty()
        }
    }

    /// Whether line `n` of the position can be laid out: the escape
    /// sequences of each of its parts can be stripped, which is how the
    /// width of a column is found.
    pub open spec fn row_shows(self, n: int) -> bool {
        &&& strips(self.board_states[0].text_line(n))
        &&& strips(self.board_states[1].text_line(n))
        &&& strips(self.board_states[2].text_line(n))
        &&& n < 5 ==> strips(self.info_line(n))
    }

    /// Whether the lines `0..n` of the position can be laid out.
    pub open spec fn rows_show(self, n: int) -> bool
        decreases n,
    {
        n <= 0 || (self.rows_show(n - 1) && self.row_shows(n - 1))
    }

    /// Whether the position can be shown: each board can, and each of the
    /// six lines can be laid out.
    pub open spec fn shows(self) -> bool {
        &&& self.board_states[0].shows()
        &&& self.board_states[1].shows()
        &&& self.board_states[2].shows()
        &&& self.rows_show(6)
    }

    /// The lines `0..n` of the position, each without the blanks at its end
    /// and with a line feed behind it.
    pub open spec fn text_rows(self, n: int) -> Seq<char>
        decreases n,
    {
        if n <= 0 {
            Seq::empty()
        } else {
            self.text_rows(n - 1) + trimmed(self.text_row(n - 1)) + "\n"@
        }
    }

    /// The position in six lines.
    pub open spec fn text(self) -> Seq<char> {
        self.text_rows(6)
    }

    /// The five lines of the column beside the boards.
    pub fn info_lines(&self) -> (lines: Vec<String>)
        ensures
            lines@.len() == 5,
            forall|n: int| 0 <= n < 5 ==> (#[trigger] lines@[n])@ == self.info_line(n),
    {
        let mut to_play_str = String::new();
        if !self.is_finished {
            to_play_str.append("Player ");
            push_decimal(&mut to_play_str, self.player_to_play as u32);
            to_play_str.append(" to play. ");
        }
        let mut bag_str = String::from_str("bag ");
        let bag: String = color_arr(self.bag.as_slice(), false);
        bag_str.append(bag.as_str());
        let mut lid_str = String::from_str("lid ");
        let lid: String = color_arr(self.lid.as_slice(), false);
        lid_str.append(lid.as_str());
        let mut lines: Vec<String> = Vec::new();
        lines.push(to_play_str);
        lines.push(self.central_state.heading_line());
        lines.push(self.central_state.tile_line());
        lines.push(bag_str);
        lines.push(lid_str);
        lines
    }

    /// The position in six lines: the three boards side by side, and beside
    /// them who is to play, the pool, the bag and the lid. None exactly
    /// when the position does not show.
    pub fn to_string(&self) -> (text: Option<String>)
        requires
            forall|p: int| 0 <= p < 3 ==> (#[trigger] self.board_states[p]).showable(),
        ensures
            text is Some <==> self.shows(),
            text matches Some(shown) ==> shown@ == self.text(),
    {
        let first = match self.board_states[0].lines() {
            Some(lines) => lines,
            None => {
                return None;
            },
        };
        let second = match self.board_states[1].lines() {
            Some(lines) => lines,
            None => {
                return None;
            },
        };
        let third = match self.board_states[2].lines() {
            Some(lines) => lines,
            None => {
                return None;
            },
        };
        let info: Vec<String> = self.info_lines();
        let mut output = String::new();
        let mut line_num: usize = 0;
        while line_num < 6
            invariant
                line_num <= 6,
                first@.len() == 6,
                second@.len() == 6,
                third@.len() == 6,
                info@.len() == 5,
                forall|n: int|
                    0 <= n < 6 ==> (#[trigger] first@[n])@ == self.board_states[0].text_line(n),
                forall|n: int|
                    0 <= n < 6 ==> (#[trigger] second@[n])@ == self.board_states[1].text_line(n),
                forall|n: int|
                    0 <= n < 6 ==> (#[trigger] third@[n])@ == self.board_states[2].text_line(n),
                forall|n: int| 0 <= n < 5 ==> (#[trigger] info@[n])@ == self.info_line(n),
                output@ == self.text_rows(line_num as int),
                self.board_states[0].shows(),
                self.board_states[1].shows(),
                self.board_states[2].shows(),
                self.rows_show(line_num as int),
            decreases 6 - line_num,
        {
            proof {
                lemma_rows_show_all(*self, line_num as int + 1);
            }
            let mut line = String::new();
            if !push_column(&mut line, first[line_num].as_str()) {
                return None;
            }
            if !push_column(&mut line, second[line_num].as_str()) {
                return None;
            }
            if !push_column(&mut line, third[line_num].as_str()) {
                return None;
            }
            if line_num < 5 {
                if !push_column(&mut line, info[line_num].as_str()) {
                    return None;
                }
            }
            let short: String = trim_blanks(line.as_str());
            output.append(short.as_str());
            output.append("\n");
            line_num += 1;
        }
        Some(output)
    }
}

/// Where the lines `0..m` can be laid out, so can the lines `0..n` of them.
proof fn lemma_rows_show_prefix(s: State, n: int, m: int)
    requires
        0 <= n <= m,
        s.rows_show(m),
    ensures
        s.rows_show(n),
    decreases m - n,
{
    if n < m {
        lemma_rows_show_prefix(s, n, m - 1);
    }
}

/// The lines `0..n` can be laid out exactly when the lines before the last
/// can and the last can; and all of them can where all six can.
proof fn lemma_rows_show_all(s: State, n: int)
    requires
        0 < n <= 6,
    ensures
        s.rows_show(6) ==> s.rows_show(n) && s.row_shows(n - 1),
        s.rows_show(n) <==> s.rows_show(n - 1) && s.row_shows(n - 1),
{
    if s.rows_show(6) {
        lemma_rows_show_prefix(s, n, 6);
    }
}

} // verus!
