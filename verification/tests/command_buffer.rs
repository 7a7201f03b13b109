use termpipe::renderer::colours::Colour;
use termpipe::renderer::command::{ClearInfo, ClearKind, Command, DrawInfo, TermOp};
use termpipe::renderer::command_buffer::{
    CommandBuffer, CommandBufferCreator, ConsecutiveBuffer, DrawBuffer, RenderError,
};

fn draw(colour: Colour, x: u16, y: u16, ch: char) -> Command {
    Command::Draw(DrawInfo { colour, draw_pos_x: x, draw_pos_y: y, character: ch })
}

#[test]
fn run_compression() {
    // Four draws in one row: red, red, blue, red, compress to three runs.
    let red = Colour::red();
    let blue = Colour::blue();
    let buffer = CommandBuffer::new()
        .add_commands()
        .execute(draw(red, 0, 0, 'a'))
        .execute(draw(red, 1, 0, 'b'))
        .execute(draw(blue, 2, 0, 'c'))
        .execute(draw(red, 3, 0, 'd'))
        .compile();
    assert_eq!(buffer.draw_buffers.len(), 1);
    let runs = &buffer.draw_buffers[0].consecutive_buffers;
    assert_eq!(runs.len(), 3);
    assert_eq!(runs[0].colour, red);
    assert_eq!(runs[0].draw_commands.len(), 2);
    assert_eq!(runs[0].draw_commands[0].draw_pos_x, 0);
    assert_eq!(runs[0].draw_commands[1].draw_pos_x, 1);
    assert_eq!(runs[1].colour, blue);
    assert_eq!(runs[1].draw_commands.len(), 1);
    assert_eq!(runs[1].draw_commands[0].draw_pos_x, 2);
    assert_eq!(runs[2].colour, red);
    assert_eq!(runs[2].draw_commands.len(), 1);
    assert_eq!(runs[2].draw_commands[0].draw_pos_x, 3);
}

#[test]
fn run_compression_sorts_by_raster_index() {
    // Same colour on two rows, submitted out of raster order: one run,
    // members sorted by x + y * width.
    let red = Colour::red();
    let buffer = CommandBuffer::new()
        .add_commands()
        .execute(draw(red, 2, 1, 'x'))
        .execute(draw(red, 0, 0, 'y'))
        .execute(draw(red, 1, 0, 'z'))
        .compile();
    let runs = &buffer.draw_buffers[0].consecutive_buffers;
    assert_eq!(runs.len(), 1);
    let chars: Vec<char> = runs[0].draw_commands.iter().map(|d| d.character).collect();
    assert_eq!(chars, vec!['y', 'z', 'x']);
}

#[test]
fn segment_boundary() {
    // [Draw, Clear(All), Draw, Draw] splits into two segments before any
    // pruning: the first holds one draw and no clear, the second opens with
    // the clear and holds two draws.
    let red = Colour::red();
    let creator = CommandBuffer::new()
        .add_commands()
        .execute(draw(red, 0, 0, '1'))
        .execute(Command::Clear(ClearInfo::All))
        .execute(draw(red, 1, 0, '2'))
        .execute(draw(red, 2, 0, '3'));
    assert_eq!(creator.draw_buffers.len(), 1);
    assert_eq!(creator.draw_buffers[0].draw_commands.len(), 1);
    assert!(creator.draw_buffers[0].clear_command.is_none());
    assert!(matches!(creator.working_draw_buffer.clear_command, Some(ClearInfo::All)));
    assert_eq!(creator.working_draw_buffer.draw_commands.len(), 2);
}

#[test]
fn pruning_drops_segments_before_last_all_clear() {
    // Segments [A(no clear), B(All), C(no clear), D(All), E(no clear)]
    // finalize to exactly [D, E].
    let red = Colour::red();
    let seg = |clear: Option<ClearInfo>, ch: char| DrawBuffer {
        draw_commands: vec![draw(red, 0, 0, ch)],
        consecutive_buffers: Vec::new(),
        clear_command: clear,
        ready: false,
    };
    let creator = CommandBufferCreator {
        draw_buffers: vec![
            seg(None, 'a'),
            seg(Some(ClearInfo::All), 'b'),
            seg(None, 'c'),
            seg(Some(ClearInfo::All), 'd'),
        ],
        working_draw_buffer: seg(None, 'e'),
        first_command: false,
    };
    let buffer = creator.compile();
    assert_eq!(buffer.draw_buffers.len(), 2);
    assert!(matches!(buffer.draw_buffers[0].clear_command, Some(ClearInfo::All)));
    assert!(matches!(buffer.draw_buffers[0].draw_commands[0], Command::Draw(d) if d.character == 'd'));
    assert!(buffer.draw_buffers[1].clear_command.is_none());
    assert!(matches!(buffer.draw_buffers[1].draw_commands[0], Command::Draw(d) if d.character == 'e'));
    assert!(buffer.draw_buffers[0].ready);
    assert!(buffer.draw_buffers[1].ready);
}

#[test]
fn empty_segment_compiles_to_no_runs() {
    // A segment with zero draws yields zero runs, and playback performs
    // only its clear.
    let buffer = CommandBuffer::new()
        .add_commands()
        .execute(Command::Clear(ClearInfo::AfterCursor))
        .compile();
    assert_eq!(buffer.draw_buffers.len(), 1);
    assert_eq!(buffer.draw_buffers[0].consecutive_buffers.len(), 0);
    let ops = buffer.execute().unwrap();
    assert_eq!(ops, vec![TermOp::ClearScreen(ClearKind::AfterCursor)]);
}

#[test]
fn empty_buffer_compiles_and_plays_nothing() {
    let buffer = CommandBuffer::new().add_commands().compile();
    assert_eq!(buffer.draw_buffers.len(), 0);
    assert_eq!(buffer.execute().unwrap(), Vec::<TermOp>::new());
}

#[test]
fn playing_uncompiled_segment_is_refused() {
    let buffer = CommandBuffer { draw_buffers: vec![DrawBuffer::new()] };
    assert_eq!(buffer.execute(), Err(RenderError::NotCompiled));
    let mut out = Vec::new();
    assert_eq!(DrawBuffer::new().execute(&mut out), Err(RenderError::NotCompiled));
    assert!(out.is_empty());
}

#[test]
fn playback_interleaves_runs_moves_and_flushes() {
    // One run fires per draw command met in the original order; cursor
    // moves and flushes pass through where they stood.
    let red = Colour::red();
    let blue = Colour::blue();
    let buffer = CommandBuffer::new()
        .add_commands()
        .execute(draw(red, 1, 0, 'r'))
        .execute(Command::SetCursorPosition(5, 6))
        .execute(draw(blue, 0, 0, 'b'))
        .execute(Command::Flush)
        .compile();
    let ops = buffer.execute().unwrap();
    assert_eq!(
        ops,
        vec![
            // First draw met: the first run in raster order is the blue one.
            TermOp::SetForeground(blue),
            TermOp::MoveTo(0, 0),
            TermOp::Print('b'),
            TermOp::MoveTo(5, 6),
            // Second draw met: the red run.
            TermOp::SetForeground(red),
            TermOp::MoveTo(1, 0),
            TermOp::Print('r'),
            TermOp::Flush,
        ]
    );
}

#[test]
fn positional_clear_saves_and_restores_cursor() {
    let buffer = CommandBuffer::new()
        .add_commands()
        .execute(Command::Clear(ClearInfo::After(3, 4)))
        .compile();
    let ops = buffer.execute().unwrap();
    assert_eq!(
        ops,
        vec![
            TermOp::SavePosition,
            TermOp::MoveTo(3, 4),
            TermOp::ClearScreen(ClearKind::AfterCursor),
            TermOp::RestorePosition,
        ]
    );
}

#[test]
fn runs_are_independently_sortable() {
    // A run built by hand, out of raster order, sorts its own members by
    // raster index at the given width.
    let red = Colour::red();
    let member = |x: u16, y: u16, ch: char| DrawInfo {
        colour: red,
        draw_pos_x: x,
        draw_pos_y: y,
        character: ch,
    };
    let mut run = ConsecutiveBuffer {
        end: 0,
        colour: red,
        draw_commands: vec![member(1, 1, 'c'), member(1, 0, 'b'), member(0, 0, 'a')],
    };
    run.prepare(4);
    let chars: Vec<char> = run.draw_commands.iter().map(|d| d.character).collect();
    assert_eq!(chars, vec!['a', 'b', 'c']);
}

#[test]
fn pruning_is_idempotent_on_already_pruned_segments() {
    // Feeding the survivors [D(All), E(no clear)] back through finalize
    // keeps them both: the last whole-surface clear already leads.
    let red = Colour::red();
    let seg = |clear: Option<ClearInfo>, ch: char| DrawBuffer {
        draw_commands: vec![draw(red, 0, 0, ch)],
        consecutive_buffers: Vec::new(),
        clear_command: clear,
        ready: false,
    };
    let creator = CommandBufferCreator {
        draw_buffers: vec![seg(Some(ClearInfo::All), 'd')],
        working_draw_buffer: seg(None, 'e'),
        first_command: false,
    };
    let buffer = creator.compile();
    assert_eq!(buffer.draw_buffers.len(), 2);
    assert!(matches!(buffer.draw_buffers[0].clear_command, Some(ClearInfo::All)));
    assert!(buffer.draw_buffers[1].clear_command.is_none());
}

#[test]
fn extreme_coordinates_compile_without_overflow() {
    // The raster index x + y * width tops out near u16::MAX squared; the
    // compiler orders such draws correctly rather than wrapping.
    let red = Colour::red();
    let buffer = CommandBuffer::new()
        .add_commands()
        .execute(draw(red, 65535, 65535, 'z'))
        .execute(draw(red, 0, 0, 'a'))
        .compile();
    let runs = &buffer.draw_buffers[0].consecutive_buffers;
    assert_eq!(runs.len(), 1);
    let chars: Vec<char> = runs[0].draw_commands.iter().map(|d| d.character).collect();
    assert_eq!(chars, vec!['a', 'z']);
}

#[test]
fn wire_fit_rejects_the_largest_cursor_coordinate() {
    // Cursor positions go on the wire one-based in sixteen bits, so the
    // largest zero-based coordinate cannot be encoded.
    let out_of_range = CommandBuffer::new()
        .add_commands()
        .execute(Command::SetCursorPosition(u16::MAX, 0))
        .compile();
    assert!(!out_of_range.fits_wire());

    let in_range = CommandBuffer::new()
        .add_commands()
        .execute(Command::SetCursorPosition(u16::MAX - 1, 0))
        .compile();
    assert!(in_range.fits_wire());

    // A buffer that cannot play at all does not fit either.
    let uncompiled = CommandBuffer { draw_buffers: vec![DrawBuffer::new()] };
    assert!(!uncompiled.fits_wire());
}

#[test]
fn extra_draw_commands_fire_no_runs() {
    // Two draws of one colour make a single run; the run fires at the
    // first draw and the second draw is a no-op.
    let red = Colour::red();
    let buffer = CommandBuffer::new()
        .add_commands()
        .execute(draw(red, 0, 0, 'a'))
        .execute(draw(red, 1, 0, 'b'))
        .compile();
    let ops = buffer.execute().unwrap();
    assert_eq!(
        ops,
        vec![
            TermOp::SetForeground(red),
            TermOp::MoveTo(0, 0),
            TermOp::Print('a'),
            TermOp::MoveTo(1, 0),
            TermOp::Print('b'),
        ]
    );
}
