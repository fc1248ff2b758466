//! ANSI cursor control sequences. Every function returns the escape sequence it
//! names; relative moves by zero cells are the empty string.
use vstd::prelude::*;

use crate::text::{decimal, push_char, push_decimal};

verus! {

/// The control sequence introducer, ESC `[`.
pub open spec fn csi() -> Seq<char> {
    seq!['\u{1b}', '[']
}

/// CSI followed by the decimal `n` and the final character `fin`.
pub open spec fn csi_count(n: nat, fin: char) -> Seq<char> {
    csi() + decimal(n) + seq![fin]
}

/// A relative move: empty for zero cells, else `csi_count(n, fin)`.
pub open spec fn relative_move(n: nat, fin: char) -> Seq<char> {
    if n == 0 {
        Seq::empty()
    } else {
        csi_count(n, fin)
    }
}

fn csi_sequence(n: u16, fin: char) -> (r: String)
    ensures
        r@ == csi_count(n as nat, fin),
{
    let mut s = String::new();
    push_char(&mut s, '\u{1b}');
    push_char(&mut s, '[');
    push_decimal(&mut s, n as u64);
    push_char(&mut s, fin);
    assert(s@ =~= csi_count(n as nat, fin));
    s
}

fn relative(n: u16, fin: char) -> (r: String)
    ensures
        r@ == relative_move(n as nat, fin),
{
    if n == 0 {
        String::new()
    } else {
        csi_sequence(n, fin)
    }
}

/// Moves the cursor to the 1-based `row` and `column`: ESC `[` row `;` column `H`.
pub fn move_to(row: u16, column: u16) -> (r: String)
    ensures
        r@ == csi() + decimal(row as nat) + seq![';'] + decimal(column as nat) + seq!['H'],
{
    let mut s = String::new();
    push_char(&mut s, '\u{1b}');
    push_char(&mut s, '[');
    push_decimal(&mut s, row as u64);
    push_char(&mut s, ';');
    push_decimal(&mut s, column as u64);
    push_char(&mut s, 'H');
    assert(s@ =~= csi() + decimal(row as nat) + seq![';'] + decimal(column as nat) + seq!['H']);
    s
}

/// Moves the cursor to the 1-based `column` of the current row: ESC `[` column `G`.
pub fn move_to_column(column: u16) -> (r: String)
    ensures
        r@ == csi_count(column as nat, 'G'),
{
    csi_sequence(column, 'G')
}

/// Moves the cursor down `lines` rows, to column 1: ESC `[` lines `E`.
pub fn move_down_lines(lines: u16) -> (r: String)
    ensures
        r@ == relative_move(lines as nat, 'E'),
{
    relative(lines, 'E')
}

/// Moves the cursor up `lines` rows, to column 1: ESC `[` lines `F`.
pub fn move_up_lines(lines: u16) -> (r: String)
    ensures
        r@ == relative_move(lines as nat, 'F'),
{
    relative(lines, 'F')
}

/// Moves the cursor right by `cols` columns: ESC `[` cols `C`.
pub fn move_right(cols: u16) -> (r: String)
    ensures
        r@ == relative_move(cols as nat, 'C'),
{
    relative(cols, 'C')
}

/// Moves the cursor left by `cols` columns: ESC `[` cols `D`.
pub fn move_left(cols: u16) -> (r: String)
    ensures
        r@ == relative_move(cols as nat, 'D'),
{
    relative(cols, 'D')
}

/// Saves the cursor position: ESC `[s`.
pub fn save_position() -> (r: &'static str)
    ensures
        r@ == csi() + seq!['s'],
{
    proof {
        reveal_strlit("\x1b[s");
    }
    "\x1b[s"
}

/// Restores the saved cursor position: ESC `[u`.
pub fn restore_position() -> (r: &'static str)
    ensures
        r@ == csi() + seq!['u'],
{
    proof {
        reveal_strlit("\x1b[u");
    }
    "\x1b[u"
}

/// Hides the cursor: ESC `[?25l`.
pub fn hide_cursor() -> (r: &'static str)
    ensures
        r@ == csi() + seq!['?', '2', '5', 'l'],
{
    proof {
        reveal_strlit("\x1b[?25l");
    }
    "\x1b[?25l"
}

/// Shows the cursor: ESC `[?25h`.
pub fn show() -> (r: &'static str)
    ensures
        r@ == csi() + seq!['?', '2', '5', 'h'],
{
    proof {
        reveal_strlit("\x1b[?25h");
    }
    "\x1b[?25h"
}

/// Clears from the cursor to the end of the line: ESC `[K`.
pub fn clear_to_line_end() -> (r: &'static str)
    ensures
        r@ == csi() + seq!['K'],
{
    proof {
        reveal_strlit("\x1b[K");
    }
    "\x1b[K"
}

} // verus!
