use std::cell::RefCell;
use std::rc::Rc;

use dhatmini::{DelayUs, Error, Instruction, Interface, Orientation, ResetPin, TearingEffect, ST7789};
use display_interface::DisplayError;

#[derive(Clone, Debug, PartialEq)]
enum Ev {
    Cmd(Vec<u8>),
    Dat(Vec<u8>),
    High,
    Low,
    Wait(u32),
}

type Log = Rc<RefCell<Vec<Ev>>>;

struct Bus {
    log: Log,
    sends: usize,
    fail_at: Option<usize>,
}

impl Bus {
    fn send(&mut self, ev: Ev) -> Result<(), DisplayError> {
        self.log.borrow_mut().push(ev);
        let n = self.sends;
        self.sends += 1;
        if self.fail_at == Some(n) {
            Err(DisplayError::BusWriteError)
        } else {
            Ok(())
        }
    }
}

impl Interface for Bus {
    fn send_commands(&mut self, cmd: &[u8]) -> Result<(), DisplayError> {
        self.send(Ev::Cmd(cmd.to_vec()))
    }

    fn send_data(&mut self, buf: &[u8]) -> Result<(), DisplayError> {
        self.send(Ev::Dat(buf.to_vec()))
    }
}

struct Pin {
    log: Log,
    fail_on_low: bool,
}

impl ResetPin for Pin {
    type Error = &'static str;

    fn set_low(&mut self) -> Result<(), Self::Error> {
        self.log.borrow_mut().push(Ev::Low);
        if self.fail_on_low {
            Err("stuck")
        } else {
            Ok(())
        }
    }

    fn set_high(&mut self) -> Result<(), Self::Error> {
        self.log.borrow_mut().push(Ev::High);
        Ok(())
    }
}

struct Clock {
    log: Log,
}

impl DelayUs for Clock {
    fn delay_us(&mut self, us: u32) {
        self.log.borrow_mut().push(Ev::Wait(us));
    }
}

fn log() -> Log {
    Rc::new(RefCell::new(Vec::new()))
}

fn display(log: &Log, fail_at: Option<usize>, pin: bool) -> ST7789<Bus, Pin> {
    let bus = Bus { log: log.clone(), sends: 0, fail_at };
    let rst = if pin {
        Some(Pin { log: log.clone(), fail_on_low: false })
    } else {
        None
    };
    ST7789::new(bus, rst, 320, 240)
}

/// Command bytes and data bytes in order, with each run of data joined.
fn wire(events: &[Ev]) -> Vec<(bool, Vec<u8>)> {
    let mut out: Vec<(bool, Vec<u8>)> = Vec::new();
    for ev in events {
        match ev {
            Ev::Cmd(b) => out.push((true, b.clone())),
            Ev::Dat(b) => match out.last_mut() {
                Some((false, d)) => d.extend_from_slice(b),
                _ => out.push((false, b.clone())),
            },
            _ => {}
        }
    }
    out
}

fn init_wire() -> Vec<(bool, Vec<u8>)> {
    vec![
        (true, vec![0x01]),
        (true, vec![0x36]),
        (false, vec![0x70]),
        (true, vec![0xB2]),
        (false, vec![0x0C, 0x0C, 0x00, 0x33, 0x33]),
        (true, vec![0x3A]),
        (false, vec![0x05]),
        (true, vec![0xB7]),
        (false, vec![0x14]),
        (true, vec![0xBB]),
        (false, vec![0x37]),
        (true, vec![0xC0]),
        (false, vec![0x2C]),
        (true, vec![0xC2]),
        (false, vec![0x01]),
        (true, vec![0xC3]),
        (false, vec![0x12]),
        (true, vec![0xC4]),
        (false, vec![0x20]),
        (true, vec![0xD0]),
        (false, vec![0xA4, 0xA1]),
        (true, vec![0xC6]),
        (false, vec![0x0F]),
        (true, vec![0xE0]),
        (false, vec![0xD0, 0x04, 0x0D, 0x11, 0x13, 0x2B, 0x3F, 0x54, 0x4C, 0x18, 0x0D, 0x0B, 0x1F, 0x23]),
        (true, vec![0xE1]),
        (false, vec![0xD0, 0x04, 0x0C, 0x11, 0x13, 0x2C, 0x3F, 0x44, 0x51, 0x2F, 0x1F, 0x1F, 0x20, 0x23]),
        (true, vec![0x11]),
        (true, vec![0x29]),
    ]
}

#[test]
fn new_starts_in_portrait_and_sends_nothing() {
    let l = log();
    let d = display(&l, None, true);
    assert_eq!(d.orientation(), Orientation::Portrait);
    assert!(l.borrow().is_empty());
    assert_eq!(Orientation::default(), Orientation::Portrait);
}

#[test]
fn set_orientation_writes_one_register_for_each_variant() {
    let cases = [
        (Orientation::Portrait, 0x00u8),
        (Orientation::Landscape, 0x60),
        (Orientation::PortraitSwapped, 0xC0),
        (Orientation::LandscapeSwapped, 0xA0),
    ];
    for (o, bits) in cases {
        let l = log();
        let mut d = display(&l, None, false);
        d.set_orientation(o).unwrap();
        assert_eq!(*l.borrow(), vec![Ev::Cmd(vec![0x36]), Ev::Dat(vec![bits])]);
        assert_eq!(d.orientation(), o);
        assert_eq!(o.bits(), bits);
    }
}

#[test]
fn set_orientation_keeps_the_old_value_when_the_bus_fails() {
    for fail_at in 0..2 {
        let l = log();
        let mut d = display(&l, Some(fail_at), false);
        let r = d.set_orientation(Orientation::Landscape);
        assert!(matches!(r, Err(Error::DisplayError)));
        assert_eq!(d.orientation(), Orientation::Portrait);
        assert_eq!(l.borrow().len(), fail_at + 1);
    }
}

#[test]
fn set_pixel_matches_a_one_pixel_region() {
    let a = log();
    let mut d = display(&a, None, false);
    d.set_pixel(10, 300, 0xABCD).unwrap();
    let b = log();
    let mut e = display(&b, None, false);
    e.set_pixels(10, 300, 10, 300, &[0xABCD]).unwrap();
    assert_eq!(wire(&a.borrow()), wire(&b.borrow()));
    assert_eq!(
        wire(&a.borrow()),
        vec![
            (true, vec![0x2A]),
            (false, vec![0x00, 0x0A, 0x00, 0x0A]),
            (true, vec![0x2B]),
            (false, vec![0x01, 0x2C, 0x01, 0x2C]),
            (true, vec![0x2C]),
            (false, vec![0xAB, 0xCD]),
        ]
    );
}

#[test]
fn set_pixels_full_frame_keeps_the_order_of_colors() {
    let l = log();
    let mut d = display(&l, None, false);
    let colors: Vec<u16> = (0..76800u32).map(|i| (i * 7 % 65536) as u16).collect();
    d.set_pixels(0, 0, 319, 239, &colors).unwrap();
    let w = wire(&l.borrow());
    assert_eq!(w.len(), 6);
    assert_eq!(w[0], (true, vec![0x2A]));
    assert_eq!(w[1], (false, vec![0x00, 0x00, 0x01, 0x3F]));
    assert_eq!(w[2], (true, vec![0x2B]));
    assert_eq!(w[3], (false, vec![0x00, 0x00, 0x00, 0xEF]));
    assert_eq!(w[4], (true, vec![0x2C]));
    let expected: Vec<u8> = colors.iter().flat_map(|c| c.to_be_bytes()).collect();
    assert_eq!(w[5].1.len(), 153600);
    assert_eq!(w[5], (false, expected));
}

#[test]
fn set_pixels_with_no_colors_only_sets_the_window() {
    let l = log();
    let mut d = display(&l, None, false);
    d.set_pixels(1, 2, 3, 4, &[]).unwrap();
    assert_eq!(
        wire(&l.borrow()),
        vec![
            (true, vec![0x2A]),
            (false, vec![0, 1, 0, 3]),
            (true, vec![0x2B]),
            (false, vec![0, 2, 0, 4]),
            (true, vec![0x2C]),
        ]
    );
}

#[test]
fn set_pixels_stops_at_a_failed_chunk() {
    let l = log();
    // window: 4 sends, memory write: 1, then the colors in chunks
    let mut d = display(&l, Some(6), false);
    let colors = vec![0x1234u16; 100];
    let r = d.set_pixels(0, 0, 9, 9, &colors);
    assert!(matches!(r, Err(Error::DisplayError)));
    assert_eq!(l.borrow().len(), 7);
}

#[test]
fn init_with_pin_pulses_reset_then_sends_the_sequence() {
    let l = log();
    let mut d = display(&l, None, true);
    let mut clock = Clock { log: l.clone() };
    d.init(&mut clock).unwrap();
    let events = l.borrow().clone();
    assert_eq!(
        events[..7].to_vec(),
        vec![Ev::High, Ev::Wait(10), Ev::Low, Ev::Wait(10), Ev::High, Ev::Wait(10), Ev::Cmd(vec![0x01])]
    );
    assert_eq!(events[7], Ev::Wait(150_000));
    assert_eq!(*events.last().unwrap(), Ev::Wait(10_000));
    assert_eq!(wire(&events), init_wire());
}

#[test]
fn init_without_pin_sends_the_same_sequence() {
    let l = log();
    let mut d = display(&l, None, false);
    let mut clock = Clock { log: l.clone() };
    d.init(&mut clock).unwrap();
    let events = l.borrow().clone();
    assert_eq!(events[0], Ev::Cmd(vec![0x01]));
    assert!(!events.contains(&Ev::High) && !events.contains(&Ev::Low));
    assert_eq!(wire(&events), init_wire());
    assert_eq!(
        events.iter().filter(|e| matches!(e, Ev::Wait(_))).cloned().collect::<Vec<_>>(),
        vec![Ev::Wait(150_000), Ev::Wait(10_000)]
    );
}

#[test]
fn init_stops_at_the_first_bus_failure() {
    let l = log();
    let mut d = display(&l, None, false);
    let mut clock = Clock { log: l.clone() };
    d.init(&mut clock).unwrap();
    let sends = l.borrow().iter().filter(|e| matches!(e, Ev::Cmd(_) | Ev::Dat(_))).count();
    assert_eq!(sends, 29);
    for fail_at in 0..sends {
        let l = log();
        let mut d = display(&l, Some(fail_at), false);
        let mut clock = Clock { log: l.clone() };
        let r = d.init(&mut clock);
        assert!(matches!(r, Err(Error::DisplayError)));
        let events = l.borrow().clone();
        let sent: Vec<&Ev> = events.iter().filter(|e| matches!(e, Ev::Cmd(_) | Ev::Dat(_))).collect();
        assert_eq!(sent.len(), fail_at + 1);
        assert!(matches!(events.last().unwrap(), Ev::Cmd(_) | Ev::Dat(_)));
    }
}

#[test]
fn init_reports_a_pin_failure_before_any_command() {
    let l = log();
    let bus = Bus { log: l.clone(), sends: 0, fail_at: None };
    let pin = Pin { log: l.clone(), fail_on_low: true };
    let mut d = ST7789::new(bus, Some(pin), 320, 240);
    let mut clock = Clock { log: l.clone() };
    let r = d.init(&mut clock);
    assert!(matches!(r, Err(Error::Pin("stuck"))));
    assert_eq!(*l.borrow(), vec![Ev::High, Ev::Wait(10), Ev::Low]);
}

#[test]
fn hard_reset_without_pin_does_nothing() {
    let l = log();
    let mut d = display(&l, None, false);
    let mut clock = Clock { log: l.clone() };
    d.hard_reset(&mut clock).unwrap();
    assert!(l.borrow().is_empty());
}

#[test]
fn tearing_effect_commands() {
    let cases = [
        (TearingEffect::Off, vec![Ev::Cmd(vec![0x34])]),
        (TearingEffect::Vertical, vec![Ev::Cmd(vec![0x35]), Ev::Dat(vec![0])]),
        (TearingEffect::HorizontalAndVertical, vec![Ev::Cmd(vec![0x35]), Ev::Dat(vec![1])]),
    ];
    for (t, expected) in cases {
        let l = log();
        let mut d = display(&l, None, false);
        d.set_tearing_effect(t).unwrap();
        assert_eq!(*l.borrow(), expected);
    }
}

#[test]
fn scroll_offset_is_big_endian() {
    let l = log();
    let mut d = display(&l, None, false);
    d.set_scroll_offset(0x0102).unwrap();
    assert_eq!(*l.borrow(), vec![Ev::Cmd(vec![0x37]), Ev::Dat(vec![0x01, 0x02])]);
}

#[test]
fn release_hands_back_the_bus_and_pin() {
    let l = log();
    let mut d = display(&l, None, true);
    d.set_scroll_offset(5).unwrap();
    let (bus, pin) = d.release();
    assert_eq!(bus.sends, 2);
    assert!(pin.is_some());
}

#[test]
fn instruction_opcodes() {
    assert_eq!(Instruction::SWRESET.opcode(), 0x01);
    assert_eq!(Instruction::CASET.opcode(), 0x2A);
    assert_eq!(Instruction::RASET.opcode(), 0x2B);
    assert_eq!(Instruction::RAMWR.opcode(), 0x2C);
    assert_eq!(Instruction::MADCTL.opcode(), 0x36);
    assert_eq!(Instruction::TEOFF.opcode(), 0x34);
    assert_eq!(Instruction::TEON.opcode(), 0x35);
    assert_eq!(Instruction::VSCAD.opcode(), 0x37);
    assert_eq!(Instruction::GMCTRN1.opcode(), 0xE1);
}

#[test]
fn hard_reset_reports_the_pins_own_error_and_stops() {
    let l = log();
    let bus = Bus { log: l.clone(), sends: 0, fail_at: None };
    let pin = Pin { log: l.clone(), fail_on_low: true };
    let mut d = ST7789::new(bus, Some(pin), 320, 240);
    let mut clock = Clock { log: l.clone() };
    let r = d.hard_reset(&mut clock);
    assert!(matches!(r, Err(Error::Pin("stuck"))));
    assert_eq!(*l.borrow(), vec![Ev::High, Ev::Wait(10), Ev::Low]);
}
