pub mod colours;
pub mod command;
pub mod palette;
pub mod command_buffer;
pub mod ansi;
pub mod swapchain;
pub mod render_system;
