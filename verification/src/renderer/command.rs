//! The command vocabulary shared by the builder and the playback pass, and
//! the terminal operations playback emits.

use vstd::prelude::*;
use crate::renderer::colours::Colour;

verus! {

/// One character cell to paint: a colour, a screen position and a glyph.
#[derive(Clone, Copy, Debug, PartialEq, Eq, Structural)]
pub struct DrawInfo {
    pub colour: Colour,
    pub draw_pos_x: u16,
    pub draw_pos_y: u16,
    pub character: char,
}

/// What kind of clearing to do. Clearing can start from the current cursor,
/// or from a given position.
#[derive(Clone, Copy, Debug, PartialEq, Eq, Structural)]
pub enum ClearInfo {
    /// Clear the entire visible screen. All draw commands before this are
    /// purged from the finished buffer.
    All,
    /// Clear everything past the cursor position.
    AfterCursor,
    /// Clear everything before the cursor position.
    BeforeCursor,
    /// Clear everything on the current line.
    CurrentLine,
    /// Clear everything until a new line.
    UntilNewLine,
    /// Clear everything after the given screen coordinate.
    After(u16, u16),
    /// Clear everything before the given screen coordinate.
    Before(u16, u16),
    /// Clear everything on the line given by the argument.
    Line(u16),
    /// Clear everything from the screen coordinate until a new line.
    UntilNewLineFrom(u16, u16),
}

/// A single command to modify contents of the screen buffer.
#[derive(Clone, Copy, Debug, PartialEq, Eq, Structural)]
pub enum Command {
    /// Clear the terminal.
    Clear(ClearInfo),
    /// Draw to the terminal.
    Draw(DrawInfo),
    /// Set the cursor position to the given screen coordinates.
    SetCursorPosition(u16, u16),
    /// Flush the current buffer to the screen.
    Flush,
}

/// A clearing operation the terminal surface performs in one step, always
/// relative to the cursor.
#[derive(Clone, Copy, Debug, PartialEq, Eq, Structural)]
pub enum ClearKind {
    All,
    AfterCursor,
    BeforeCursor,
    CurrentLine,
    UntilNewLine,
}

/// One operation handed to the terminal surface. Playing a compiled buffer
/// yields a sequence of these; the surface performs them in order.
#[derive(Clone, Copy, Debug, PartialEq, Eq, Structural)]
pub enum TermOp {
    /// Set the foreground colour for the glyphs that follow.
    SetForeground(Colour),
    /// Move the cursor to the given column and row.
    MoveTo(u16, u16),
    /// Print one glyph at the cursor.
    Print(char),
    /// Perform one primitive clearing operation.
    ClearScreen(ClearKind),
    /// Remember the cursor position.
    SavePosition,
    /// Return the cursor to the remembered position.
    RestorePosition,
    /// Move the cursor to the given row, first column.
    MoveToRow(u16),
    /// Force queued bytes to the device now.
    Flush,
}

/// The operations that perform one `ClearInfo`. The positional variants save
/// the cursor, move it, clear relative to it, and restore it.
pub open spec fn clear_ops(ci: ClearInfo) -> Seq<TermOp> {
    match ci {
        ClearInfo::All => seq![TermOp::ClearScreen(ClearKind::All)],
        ClearInfo::AfterCursor => seq![TermOp::ClearScreen(ClearKind::AfterCursor)],
        ClearInfo::BeforeCursor => seq![TermOp::ClearScreen(ClearKind::BeforeCursor)],
        ClearInfo::CurrentLine => seq![TermOp::ClearScreen(ClearKind::CurrentLine)],
        ClearInfo::UntilNewLine => seq![TermOp::ClearScreen(ClearKind::UntilNewLine)],
        ClearInfo::After(x, y) => seq![
            TermOp::SavePosition,
            TermOp::MoveTo(x, y),
            TermOp::ClearScreen(ClearKind::AfterCursor),
            TermOp::RestorePosition,
        ],
        ClearInfo::Before(x, y) => seq![
            TermOp::SavePosition,
            TermOp::MoveTo(x, y),
            TermOp::ClearScreen(ClearKind::BeforeCursor),
            TermOp::RestorePosition,
        ],
        ClearInfo::Line(row) => seq![
            TermOp::SavePosition,
            TermOp::MoveToRow(row),
            TermOp::ClearScreen(ClearKind::CurrentLine),
            TermOp::RestorePosition,
        ],
        ClearInfo::UntilNewLineFrom(x, y) => seq![
            TermOp::SavePosition,
            TermOp::MoveTo(x, y),
            TermOp::ClearScreen(ClearKind::UntilNewLine),
            TermOp::RestorePosition,
        ],
    }
}

/// Append the operations that perform `ci` to `out`.
pub fn push_clear_ops(out: &mut Vec<TermOp>, ci: ClearInfo)
    ensures
        final(out)@ == old(out)@ + clear_ops(ci),
{
    match ci {
        ClearInfo::All => {
            out.push(TermOp::ClearScreen(ClearKind::All));
        },
        ClearInfo::AfterCursor => {
            out.push(TermOp::ClearScreen(ClearKind::AfterCursor));
        },
        ClearInfo::BeforeCursor => {
            out.push(TermOp::ClearScreen(ClearKind::BeforeCursor));
        },
        ClearInfo::CurrentLine => {
            out.push(TermOp::ClearScreen(ClearKind::CurrentLine));
        },
        ClearInfo::UntilNewLine => {
            out.push(TermOp::ClearScreen(ClearKind::UntilNewLine));
        },
        ClearInfo::After(x, y) => {
            out.push(TermOp::SavePosition);
            out.push(TermOp::MoveTo(x, y));
            out.push(TermOp::ClearScreen(ClearKind::AfterCursor));
            out.push(TermOp::RestorePosition);
        },
        ClearInfo::Before(x, y) => {
            out.push(TermOp::SavePosition);
            out.push(TermOp::MoveTo(x, y));
            out.push(TermOp::ClearScreen(ClearKind::BeforeCursor));
            out.push(TermOp::RestorePosition);
        },
        ClearInfo::Line(row) => {
            out.push(TermOp::SavePosition);
            out.push(TermOp::MoveToRow(row));
            out.push(TermOp::ClearScreen(ClearKind::CurrentLine));
            out.push(TermOp::RestorePosition);
        },
        ClearInfo::UntilNewLineFrom(x, y) => {
            out.push(TermOp::SavePosition);
            out.push(TermOp::MoveTo(x, y));
            out.push(TermOp::ClearScreen(ClearKind::UntilNewLine));
            out.push(TermOp::RestorePosition);
        },
    }
    proof {
        assert(out@ =~= old(out)@ + clear_ops(ci));
    }
}

} // verus!
