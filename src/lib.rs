//! Driver for ST7789 TFT panel controllers reached over a bus that tells
//! command bytes from data bytes (SPI with a data/command line), with an
//! optional hardware reset line, and the helpers of a status screen drawn on it.

pub mod driver;
pub mod instruction;
mod link;
pub mod modem;
pub mod screen;

pub use driver::{DelayUs, Error, Interface, Orientation, ResetPin, Signal, TearingEffect, ST7789};
pub use instruction::Instruction;
pub use modem::{first_step, login_body, login_json, next_step, unescape_public_key, Outcome, Step};
pub use screen::{chomp, draw_image, rgb565};
