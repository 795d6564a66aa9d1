//! The three output calls of the protocol engine. Nothing is written here:
//! each call hands back the line, if any, that goes to the host's log.

use vstd::prelude::*;
use crate::constants::{c_int, to_unsigned, unsigned};
use crate::printf::{
    arg_views, func, lossy, parse, push_char, render_all, utf8_lossy, write_all, VaArg, VaArgView,
};

verus! {

/// The format of one cell of a hex dump: `%02x` and a space.
pub open spec fn row_format() -> Seq<u8> {
    seq![0x25u8, 0x30u8, 0x32u8, 0x78u8, 0x20u8]
}

/// The text that `format` renders to with the arguments `args`.
pub open spec fn rendered(format: Seq<u8>, args: Seq<VaArgView>) -> Seq<char> {
    let items = parse(format, args).items;
    render_all(items, items.len() as int)
}

fn is_row_format(format: &[u8]) -> (row: bool)
    ensures
        row == (format@ == row_format()),
{
    let row = format.len() == 5 && format[0] == 0x25 && format[1] == 0x30 && format[2] == 0x32
        && format[3] == 0x78 && format[4] == 0x20;
    proof {
        if row {
            assert(format@ =~= row_format());
        } else if format@.len() == 5 {
            assert(row_format()[0] == 0x25u8 && row_format()[1] == 0x30u8 && row_format()[2]
                == 0x32u8 && row_format()[3] == 0x78u8 && row_format()[4] == 0x20u8);
        }
    }
    row
}

/// Formatted output. The one format of a hex dump cell is not put out: its
/// text is added to the row that `row` gathers. The text of every other
/// format is handed back for the log at once, and `row` stays as it is.
/// Always reports 0.
pub fn printf<'a>(row: &mut String, format: &'a [u8], args: &[VaArg<'a>]) -> (out: (
    c_int,
    Option<String>,
))
    ensures
        out.0 == 0,
        format@ == row_format() ==> out.1 is None && final(row)@ == old(row)@ + rendered(
            format@,
            arg_views(args@),
        ),
        format@ != row_format() ==> final(row)@ == old(row)@ && out.1 is Some && out.1->0@
            == rendered(format@, arg_views(args@)),
{
    let (items, _) = func(format, args);
    if is_row_format(format) {
        write_all(row, &items);
        (0, None)
    } else {
        let mut text = String::new();
        write_all(&mut text, &items);
        proof {
            assert(text@ =~= rendered(format@, arg_views(args@)));
        }
        (0, Some(text))
    }
}

/// Puts out a string: hands its text back for the log and reports 0.
pub fn puts(s: &[u8]) -> (out: (c_int, String))
    ensures
        out.0 == 0,
        out.1@ == utf8_lossy(s@),
{
    (0, lossy(s))
}

/// Whether `v` is a Unicode scalar value.
pub open spec fn is_scalar(v: int) -> bool {
    0 <= v <= 0xD7FF || 0xE000 <= v <= 0x10FFFF
}

/// `char::from_u32`: the character with the code `v`, which there is exactly
/// if `v` is a scalar value.
#[verifier::external_body]
fn char_of(v: u32) -> (c: Option<char>)
    ensures
        c == (if is_scalar(v as int) {
            Some(v as char)
        } else {
            None
        }),
{
    char::from_u32(v)
}

/// The line feed.
pub const NEWLINE: c_int = 10;

/// Puts out one character. A line feed ends the row of the hex dump: the row
/// is handed back for the log and `row` is cleared. Any other character is
/// handed back by itself, if its code is a character at all, and `row` stays
/// as it is. Always reports 0.
pub fn putchar(row: &mut String, s: c_int) -> (out: (c_int, Option<String>))
    ensures
        out.0 == 0,
        s == NEWLINE ==> out.1 is Some && out.1->0@ == old(row)@ && final(row)@ == Seq::<
            char,
        >::empty(),
        s != NEWLINE ==> final(row)@ == old(row)@,
        s != NEWLINE && is_scalar(unsigned(s)) ==> out.1 is Some && out.1->0@ == seq![
            unsigned(s) as char,
        ],
        s != NEWLINE && !is_scalar(unsigned(s)) ==> out.1 is None,
{
    if s == NEWLINE {
        let mut line = String::new();
        std::mem::swap(row, &mut line);
        (0, Some(line))
    } else {
        match char_of(to_unsigned(s)) {
            Some(c) => {
                let mut text = String::new();
                push_char(&mut text, c);
                proof {
                    assert(text@ =~= seq![c]);
                }
                (0, Some(text))
            },
            None => (0, None),
        }
    }
}

/// Cells of a hex dump gather in the row from call to call: after two of them
/// the row holds what it held, then the text of the first, then that of the
/// second, and a line feed then hands all of it out and leaves the row empty.
pub proof fn lemma_rows_accumulate(
    row0: Seq<char>,
    args1: Seq<VaArgView>,
    row1: Seq<char>,
    args2: Seq<VaArgView>,
    row2: Seq<char>,
)
    requires
        row1 == row0 + rendered(row_format(), args1),
        row2 == row1 + rendered(row_format(), args2),
    ensures
        row2 == row0 + rendered(row_format(), args1) + rendered(row_format(), args2),
{
}

} // verus!
