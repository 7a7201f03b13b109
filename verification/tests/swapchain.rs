use termpipe::renderer::colours::Colour;
use termpipe::renderer::command::{ClearInfo, Command, DrawInfo};
use termpipe::renderer::command_buffer::{CommandBuffer, DrawBuffer, RenderError};
use termpipe::renderer::swapchain::{Framebuffer, Swapchain};

#[test]
fn rotation_order() {
    // A ring of three targets visits 1, 2, 0, 1, 2 over five rotations, and
    // each rotation reports the index that was just filled.
    let mut chain = Swapchain::new(3);
    assert_eq!(chain.working_framebuffer, 0);
    let mut filled = Vec::new();
    let mut visited = Vec::new();
    for _ in 0..5 {
        filled.push(chain.swap());
        visited.push(chain.working_framebuffer);
    }
    assert_eq!(filled, vec![0, 1, 2, 0, 1]);
    assert_eq!(visited, vec![1, 2, 0, 1, 2]);
}

#[test]
fn queue_writes_into_current_target_only() {
    let mut chain = Swapchain::new(2);
    let buffer = CommandBuffer::new()
        .add_commands()
        .execute(Command::Clear(ClearInfo::All))
        .compile();
    chain.queue_commands(&buffer).unwrap();
    assert_eq!(chain.framebuffers[0].queued, "\u{1b}[2J");
    assert_eq!(chain.framebuffers[1].queued, "");
    let filled = chain.swap();
    let text = chain.framebuffers[filled].flush();
    assert_eq!(text, "\u{1b}[2J");
    assert_eq!(chain.framebuffers[0].queued, "");
}

#[test]
fn queue_refuses_uncompiled_buffers() {
    let mut chain = Swapchain::new(1);
    let buffer = CommandBuffer { draw_buffers: vec![DrawBuffer::new()] };
    assert_eq!(chain.queue_commands(&buffer), Err(RenderError::NotCompiled));
    assert_eq!(chain.framebuffers[0].queued, "");
}

#[test]
fn draws_encode_as_colour_move_and_glyph() {
    // One red draw at the origin: the truecolor foreground code, the
    // one-based cursor move, then the glyph itself.
    let mut chain = Swapchain::new(1);
    let buffer = CommandBuffer::new()
        .add_commands()
        .execute(Command::Draw(DrawInfo {
            colour: Colour::red(),
            draw_pos_x: 0,
            draw_pos_y: 0,
            character: 'X',
        }))
        .compile();
    chain.queue_commands(&buffer).unwrap();
    let text = chain.framebuffers[0].flush();
    assert_eq!(text, "\u{1b}[38;2;239;41;41m\u{1b}[1;1HX");
}

#[test]
fn positional_clear_encodes_save_move_clear_restore() {
    let mut fb = Framebuffer::new();
    let buffer = CommandBuffer::new()
        .add_commands()
        .execute(Command::Clear(ClearInfo::Line(4)))
        .compile();
    let ops = buffer.execute().unwrap();
    fb.queue_ops(&ops);
    assert_eq!(fb.flush(), "\u{1b}7\u{1b}[5d\u{1b}[2K\u{1b}8");
}

#[test]
fn cursor_moves_and_flushes_encode_in_order() {
    let mut fb = Framebuffer::new();
    let buffer = CommandBuffer::new()
        .add_commands()
        .execute(Command::SetCursorPosition(9, 19))
        .execute(Command::Flush)
        .execute(Command::SetCursorPosition(0, 1))
        .compile();
    let ops = buffer.execute().unwrap();
    fb.queue_ops(&ops);
    assert_eq!(fb.flush(), "\u{1b}[20;10H\u{1b}[2;1H");
}
