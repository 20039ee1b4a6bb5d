use std::cell::RefCell;
use std::rc::Rc;

use dhatmini::{chomp, draw_image, rgb565, Interface, ResetPin, ST7789};
use display_interface::DisplayError;

struct Bus {
    data: Rc<RefCell<Vec<u8>>>,
    commands: Rc<RefCell<Vec<u8>>>,
}

impl Interface for Bus {
    fn send_commands(&mut self, cmd: &[u8]) -> Result<(), DisplayError> {
        self.commands.borrow_mut().extend_from_slice(cmd);
        Ok(())
    }

    fn send_data(&mut self, buf: &[u8]) -> Result<(), DisplayError> {
        self.data.borrow_mut().extend_from_slice(buf);
        Ok(())
    }
}

struct NoPin;

impl ResetPin for NoPin {
    type Error = ();

    fn set_low(&mut self) -> Result<(), ()> {
        Ok(())
    }

    fn set_high(&mut self) -> Result<(), ()> {
        Ok(())
    }
}

#[test]
fn chomp_drops_the_trailing_newline() {
    assert_eq!(chomp("192.168.0.2\n"), "192.168.0.2");
    assert_eq!(chomp("x"), "");
    assert_eq!(chomp("temp=48.3'C\n"), "temp=48.3'C");
}

#[test]
fn chomp_keeps_characters_of_several_bytes_before_the_last() {
    assert_eq!(chomp("48\u{b0}C\n"), "48\u{b0}C");
}

#[test]
fn rgb565_packs_the_top_bits() {
    assert_eq!(rgb565(255, 255, 255), 0xFFFF);
    assert_eq!(rgb565(0, 0, 0), 0x0000);
    assert_eq!(rgb565(255, 0, 0), 0xF800);
    assert_eq!(rgb565(0, 255, 0), 0x07E0);
    assert_eq!(rgb565(0, 0, 255), 0x001F);
    assert_eq!(rgb565(8, 4, 8), 0x0821);
    assert_eq!(rgb565(7, 3, 7), 0x0000);
}

#[test]
fn draw_image_sends_the_frame_window_and_packed_colors() {
    let data = Rc::new(RefCell::new(Vec::new()));
    let commands = Rc::new(RefCell::new(Vec::new()));
    let bus = Bus { data: data.clone(), commands: commands.clone() };
    let mut d: ST7789<Bus, NoPin> = ST7789::new(bus, None, 320, 240);
    let mut rgb = vec![0u8; 320 * 240 * 3];
    rgb[0] = 255;
    rgb[4] = 255;
    rgb[320 * 240 * 3 - 1] = 255;
    draw_image(&mut d, &rgb).unwrap();
    assert_eq!(*commands.borrow(), vec![0x2A, 0x2B, 0x2C]);
    let data = data.borrow();
    assert_eq!(data[..8].to_vec(), vec![0x00, 0x00, 0x01, 0x3F, 0x00, 0x00, 0x00, 0xEF]);
    assert_eq!(data.len(), 8 + 153600);
    assert_eq!(data[8..12].to_vec(), vec![0xF8, 0x00, 0x07, 0xE0]);
    assert_eq!(data[data.len() - 2..].to_vec(), vec![0x00, 0x1F]);
}
