//! A CHIP-8 virtual machine: memory, framebuffer, keypad and the
//! instruction interpreter, with their behaviour stated as contracts.

pub mod cpu;
pub mod display;
pub mod error;
pub mod keyboard;
pub mod laws;
pub mod rand;
pub mod ram;

pub use cpu::Cpu;
pub use display::Display;
pub use error::Chip8Error;
pub use keyboard::Keyboard;
pub use rand::ComplementaryMultiplyWithCarryGen;
pub use ram::Ram;
