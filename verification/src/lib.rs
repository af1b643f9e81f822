pub mod gdt;
pub mod keyboard;
pub mod libft;
pub mod shell;
pub mod stack;
pub mod types;
