//! The wire encoding of terminal operations: each operation is turned into
//! the text crossterm writes for the matching terminal command.

use vstd::prelude::*;
use crossterm::Command as CrosstermCommand;
use crate::renderer::command::{TermOp, ClearKind};

verus! {

/// The character the decimal digit `d` prints as.
pub open spec fn digit_char(d: int) -> char {
    if d == 0 {
        '0'
    } else if d == 1 {
        '1'
    } else if d == 2 {
        '2'
    } else if d == 3 {
        '3'
    } else if d == 4 {
        '4'
    } else if d == 5 {
        '5'
    } else if d == 6 {
        '6'
    } else if d == 7 {
        '7'
    } else if d == 8 {
        '8'
    } else {
        '9'
    }
}

/// The decimal rendering of `n`, most significant digit first, without
/// leading zeroes.
pub open spec fn dec_digits(n: int) -> Seq<char>
    decreases n,
{
    if n < 10 {
        seq![digit_char(n)]
    } else {
        dec_digits(n / 10).push(digit_char(n % 10))
    }
}

/// The control sequence introducer every CSI code opens with.
pub open spec fn csi() -> Seq<char> {
    seq!['\u{1b}', '[']
}

/// The code that sets the foreground to an RGB colour.
pub open spec fn fg_rgb_code(r: u8, g: u8, b: u8) -> Seq<char> {
    csi() + seq!['3', '8', ';', '2', ';'] + dec_digits(r as int) + seq![';'] + dec_digits(g as int)
        + seq![';'] + dec_digits(b as int) + seq!['m']
}

/// The code a foreground set degenerates to when crossterm has colours
/// disabled for the process.
pub open spec fn fg_disabled_code() -> Seq<char> {
    csi() + seq!['m']
}

/// The code that moves the cursor to column `x`, row `y` (both zero-based;
/// the wire encoding is one-based).
pub open spec fn move_to_code(x: u16, y: u16) -> Seq<char> {
    csi() + dec_digits(y as int + 1) + seq![';'] + dec_digits(x as int + 1) + seq!['H']
}

/// The code that moves the cursor to `row`, keeping the column.
pub open spec fn move_to_row_code(row: u16) -> Seq<char> {
    csi() + dec_digits(row as int + 1) + seq!['d']
}

/// The code that remembers the cursor position.
pub open spec fn save_position_code() -> Seq<char> {
    seq!['\u{1b}', '7']
}

/// The code that returns the cursor to the remembered position.
pub open spec fn restore_position_code() -> Seq<char> {
    seq!['\u{1b}', '8']
}

/// The code of each primitive clearing operation.
pub open spec fn clear_code(k: ClearKind) -> Seq<char> {
    match k {
        ClearKind::All => csi() + seq!['2', 'J'],
        ClearKind::AfterCursor => csi() + seq!['J'],
        ClearKind::BeforeCursor => csi() + seq!['1', 'J'],
        ClearKind::CurrentLine => csi() + seq!['2', 'K'],
        ClearKind::UntilNewLine => csi() + seq!['K'],
    }
}

/// Whether `text` is what the encoding writes for `op`. For every operation
/// but the foreground set the text is unique; the foreground set writes the
/// truecolor code, or only the bare code when crossterm has colours disabled
/// for the process (a process-wide switch read from the environment). A
/// flush writes nothing: it is performed by whoever drains the sink.
pub open spec fn op_text_ok(op: TermOp, text: Seq<char>) -> bool {
    match op {
        TermOp::SetForeground(c) => text == fg_rgb_code(c.r, c.g, c.b) || text
            == fg_disabled_code(),
        TermOp::MoveTo(x, y) => text == move_to_code(x, y),
        TermOp::Print(ch) => text == seq![ch],
        TermOp::ClearScreen(k) => text == clear_code(k),
        TermOp::SavePosition => text == save_position_code(),
        TermOp::RestorePosition => text == restore_position_code(),
        TermOp::MoveToRow(row) => text == move_to_row_code(row),
        TermOp::Flush => text == Seq::<char>::empty(),
    }
}

/// Whether `text` encodes `ops`, operation by operation, in order.
pub open spec fn ops_text_ok(ops: Seq<TermOp>, text: Seq<char>) -> bool
    decreases ops.len(),
{
    if ops.len() == 0 {
        text == Seq::<char>::empty()
    } else {
        exists|prefix: Seq<char>, last: Seq<char>|
            text == prefix + last && ops_text_ok(ops.drop_last(), prefix) && op_text_ok(
                ops.last(),
                last,
            )
    }
}

/// Whether `op` fits the wire encoding. Cursor positions go on the wire
/// one-based, as `u16` values, so the largest zero-based coordinate cannot
/// be written; every other operation always fits.
pub open spec fn op_encodable(op: TermOp) -> bool {
    match op {
        TermOp::MoveTo(x, y) => x < u16::MAX && y < u16::MAX,
        TermOp::MoveToRow(row) => row < u16::MAX,
        _ => true,
    }
}

/// Whether every operation of `ops` fits the wire encoding.
pub open spec fn ops_encodable(ops: Seq<TermOp>) -> bool {
    forall|i: int| 0 <= i < ops.len() ==> op_encodable(#[trigger] ops[i])
}

/// Whether `op` fits the wire encoding, decided at run time.
pub fn op_fits_wire(op: &TermOp) -> (r: bool)
    ensures
        r == op_encodable(*op),
{
    match *op {
        TermOp::MoveTo(x, y) => x < u16::MAX && y < u16::MAX,
        TermOp::MoveToRow(row) => row < u16::MAX,
        _ => true,
    }
}

/// Relies on crossterm's `SetForegroundColor` command: writing it appends
/// the CSI truecolor foreground code for the colour, or only the bare CSI
/// code when crossterm has colours disabled for the process.
#[verifier::external_body]
fn write_set_foreground(out: &mut String, r: u8, g: u8, b: u8)
    ensures
        final(out)@ == old(out)@ + fg_rgb_code(r, g, b) || final(out)@ == old(out)@
            + fg_disabled_code(),
{
    let _ = crossterm::style::SetForegroundColor(crossterm::style::Color::Rgb { r, g, b })
        .write_ansi(out);
}

/// Relies on crossterm's `MoveTo` command: writing it appends the CSI
/// cursor-position code, row first, both one-based. crossterm computes the
/// one-based values as `u16`, which overflows at the largest coordinate, so
/// that coordinate is left out.
#[verifier::external_body]
fn write_move_to(out: &mut String, x: u16, y: u16)
    requires
        x < u16::MAX,
        y < u16::MAX,
    ensures
        final(out)@ == old(out)@ + move_to_code(x, y),
{
    let _ = crossterm::cursor::MoveTo(x, y).write_ansi(out);
}

/// Relies on crossterm's `Print` command over a single character: writing
/// it appends that character and nothing else.
#[verifier::external_body]
fn write_print(out: &mut String, ch: char)
    ensures
        final(out)@ == old(out)@ + seq![ch],
{
    let _ = crossterm::style::Print(ch).write_ansi(out);
}

/// Relies on crossterm's `Clear` command: writing it appends the CSI erase
/// code of the given clear type.
#[verifier::external_body]
fn write_clear(out: &mut String, k: ClearKind)
    ensures
        final(out)@ == old(out)@ + clear_code(k),
{
    let ct = match k {
        ClearKind::All => crossterm::terminal::ClearType::All,
        ClearKind::AfterCursor => crossterm::terminal::ClearType::FromCursorDown,
        ClearKind::BeforeCursor => crossterm::terminal::ClearType::FromCursorUp,
        ClearKind::CurrentLine => crossterm::terminal::ClearType::CurrentLine,
        ClearKind::UntilNewLine => crossterm::terminal::ClearType::UntilNewLine,
    };
    let _ = crossterm::terminal::Clear(ct).write_ansi(out);
}

/// Relies on crossterm's `SavePosition` command: writing it appends the
/// save-cursor escape.
#[verifier::external_body]
fn write_save_position(out: &mut String)
    ensures
        final(out)@ == old(out)@ + save_position_code(),
{
    let _ = crossterm::cursor::SavePosition.write_ansi(out);
}

/// Relies on crossterm's `RestorePosition` command: writing it appends the
/// restore-cursor escape.
#[verifier::external_body]
fn write_restore_position(out: &mut String)
    ensures
        final(out)@ == old(out)@ + restore_position_code(),
{
    let _ = crossterm::cursor::RestorePosition.write_ansi(out);
}

/// Relies on crossterm's `MoveToRow` command: writing it appends the CSI
/// row-position code, one-based. crossterm computes the one-based value as
/// a `u16`, which overflows at the largest row, so that row is left out.
#[verifier::external_body]
fn write_move_to_row(out: &mut String, row: u16)
    requires
        row < u16::MAX,
    ensures
        final(out)@ == old(out)@ + move_to_row_code(row),
{
    let _ = crossterm::cursor::MoveToRow(row).write_ansi(out);
}

/// Append the encoding of one operation to `out`.
pub fn encode_op(out: &mut String, op: &TermOp)
    requires
        op_encodable(*op),
    ensures
        exists|t: Seq<char>|
            final(out)@ == old(out)@ + t && op_text_ok(*op, t),
{
    match *op {
        TermOp::SetForeground(c) => {
            write_set_foreground(out, c.r, c.g, c.b);
            proof {
                if out@ == old(out)@ + fg_rgb_code(c.r, c.g, c.b) {
                    assert(op_text_ok(*op, fg_rgb_code(c.r, c.g, c.b)));
                } else {
                    assert(op_text_ok(*op, fg_disabled_code()));
                }
            }
        },
        TermOp::MoveTo(x, y) => {
            write_move_to(out, x, y);
            proof {
                assert(op_text_ok(*op, move_to_code(x, y)));
            }
        },
        TermOp::Print(ch) => {
            write_print(out, ch);
            proof {
                assert(op_text_ok(*op, seq![ch]));
            }
        },
        TermOp::ClearScreen(k) => {
            write_clear(out, k);
            proof {
                assert(op_text_ok(*op, clear_code(k)));
            }
        },
        TermOp::SavePosition => {
            write_save_position(out);
            proof {
                assert(op_text_ok(*op, save_position_code()));
            }
        },
        TermOp::RestorePosition => {
            write_restore_position(out);
            proof {
                assert(op_text_ok(*op, restore_position_code()));
            }
        },
        TermOp::MoveToRow(row) => {
            write_move_to_row(out, row);
            proof {
                assert(op_text_ok(*op, move_to_row_code(row)));
            }
        },
        TermOp::Flush => {
            proof {
                assert(out@ =~= old(out)@ + Seq::<char>::empty());
                assert(op_text_ok(*op, Seq::<char>::empty()));
            }
        },
    }
}

/// Append the encoding of every operation of `ops` to `out`, in order.
pub fn encode_ops(out: &mut String, ops: &Vec<TermOp>)
    requires
        ops_encodable(ops@),
    ensures
        exists|t: Seq<char>|
            final(out)@ == old(out)@ + t && ops_text_ok(ops@, t),
{
    let ghost start = out@;
    let ghost mut t: Seq<char> = Seq::empty();
    proof {
        assert(start + t =~= start);
        assert(ops@.take(0) =~= Seq::<TermOp>::empty());
    }
    let mut i: usize = 0;
    while i < ops.len()
        invariant
            i <= ops.len(),
            ops_encodable(ops@),
            out@ == start + t,
            ops_text_ok(ops@.take(i as int), t),
        decreases ops.len() - i,
    {
        let ghost before = out@;
        encode_op(out, &ops[i]);
        proof {
            let t1 = choose|t1: Seq<char>| out@ == before + t1 && op_text_ok(ops@[i as int], t1);
            assert(ops@.take(i as int + 1).drop_last() =~= ops@.take(i as int));
            assert(ops@.take(i as int + 1).last() == ops@[i as int]);
            assert((t + t1 == t + t1) && ops_text_ok(ops@.take(i as int), t) && op_text_ok(
                ops@[i as int],
                t1,
            ));
            assert(ops_text_ok(ops@.take(i as int + 1), t + t1));
            assert(out@ =~= start + (t + t1));
            t = t + t1;
        }
        i = i + 1;
    }
    proof {
        assert(ops@.take(ops@.len() as int) =~= ops@);
    }
}

} // verus!
