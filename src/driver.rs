use vstd::prelude::*;

use crate::instruction::Instruction;
use crate::link::{commands_signals, Link};
use display_interface::DisplayError;

verus! {

/// display_interface::DisplayError, the error of a bus transport, declared so that it can cross
/// the bus trait's signatures; its variants are never inspected here.
#[verifier::external_type_specification]
#[verifier::external_body]
pub struct ExDisplayError(DisplayError);

/// A bus that carries command bytes and data bytes to the controller and
/// tells the two apart (typically with a data/command select line).
pub trait Interface {
    /// Sends bytes in command mode.
    fn send_commands(&mut self, cmd: &[u8]) -> Result<(), DisplayError>;

    /// Sends bytes in data mode.
    fn send_data(&mut self, buf: &[u8]) -> Result<(), DisplayError>;
}

/// A digital output line, used for the controller's hardware reset.
pub trait ResetPin {
    type Error;

    fn set_low(&mut self) -> Result<(), Self::Error>;

    fn set_high(&mut self) -> Result<(), Self::Error>;
}

/// A blocking delay with microsecond granularity.
pub trait DelayUs {
    fn delay_us(&mut self, us: u32);
}

/// What the driver asks of its collaborators, one event at a time.
#[derive(Clone, Copy, Debug, PartialEq, Eq, Structural)]
pub enum Signal {
    /// A byte sent in command mode.
    Command(u8),
    /// A byte sent in data mode.
    Data(u8),
    /// The reset line driven high.
    ResetHigh,
    /// The reset line driven low.
    ResetLow,
    /// A blocking wait of the given number of microseconds.
    Delay(u32),
    /// The collaborator reported a failure for the event just before.
    Refused,
}

/// Display orientation.
#[derive(Clone, Copy, Debug, PartialEq, Eq, Structural)]
pub enum Orientation {
    /// No inverting.
    Portrait,
    /// Invert column and page/column order.
    Landscape,
    /// Invert page and column order.
    PortraitSwapped,
    /// Invert page and page/column order.
    LandscapeSwapped,
}

impl Orientation {
    /// The memory-access-control register value of the orientation.
    pub open spec fn spec_bits(self) -> u8 {
        match self {
            Orientation::Portrait => 0b0000_0000,
            Orientation::Landscape => 0b0110_0000,
            Orientation::PortraitSwapped => 0b1100_0000,
            Orientation::LandscapeSwapped => 0b1010_0000,
        }
    }

    /// Returns the memory-access-control register value of the orientation.
    #[verifier::when_used_as_spec(spec_bits)]
    pub fn bits(self) -> (r: u8)
        ensures
            r == self.spec_bits(),
    {
        match self {
            Orientation::Portrait => 0b0000_0000,
            Orientation::Landscape => 0b0110_0000,
            Orientation::PortraitSwapped => 0b1100_0000,
            Orientation::LandscapeSwapped => 0b1010_0000,
        }
    }
}

impl Default for Orientation {
    fn default() -> (r: Self)
        ensures
            r == Orientation::Portrait,
    {
        Orientation::Portrait
    }
}

/// Tearing effect output setting.
#[derive(Clone, Copy, Debug, PartialEq, Eq, Structural)]
pub enum TearingEffect {
    /// Disable output.
    Off,
    /// Output vertical blanking information.
    Vertical,
    /// Output horizontal and vertical blanking information.
    HorizontalAndVertical,
}

/// Error holding its source (the bus or the reset pin).
#[derive(Debug)]
pub enum Error<PinE> {
    DisplayError,
    Pin(PinE),
}

/// The signals of one command byte.
pub open spec fn command_signals(op: u8) -> Seq<Signal> {
    seq![Signal::Command(op)]
}

/// The signals of a run of data bytes.
pub open spec fn data_signals(bytes: Seq<u8>) -> Seq<Signal> {
    bytes.map_values(|b: u8| Signal::Data(b))
}

/// A 16-bit value as the controller takes it: most significant byte first.
pub open spec fn be_bytes(v: u16) -> Seq<u8> {
    seq![(v >> 8u16) as u8, v as u8]
}

/// A run of 16-bit values, each most significant byte first, in order.
pub open spec fn words_be(words: Seq<u16>) -> Seq<u8>
    decreases words.len(),
{
    if words.len() == 0 {
        Seq::empty()
    } else {
        words_be(words.drop_last()) + be_bytes(words.last())
    }
}

/// `after` is `before` followed by `plan` when `ok`; otherwise by a nonempty
/// prefix of `plan` whose last event, a bus or pin call, was refused, and by
/// nothing else.
pub open spec fn ran(before: Seq<Signal>, after: Seq<Signal>, plan: Seq<Signal>, ok: bool) -> bool {
    if ok {
        after == before + plan
    } else {
        exists|k: int|
            0 < k <= plan.len() && !(plan[k - 1] is Delay) && after == before + plan.take(k).push(
                Signal::Refused,
            )
    }
}

/// Sets the addressing window to the columns `sx..=ex` and the rows `sy..=ey`.
pub open spec fn window_signals(sx: u16, sy: u16, ex: u16, ey: u16) -> Seq<Signal> {
    command_signals(Instruction::CASET.spec_opcode()) + data_signals(be_bytes(sx) + be_bytes(ex))
        + command_signals(Instruction::RASET.spec_opcode()) + data_signals(
        be_bytes(sy) + be_bytes(ey),
    )
}

/// Writes `colors` into the window `sx..=ex` by `sy..=ey`.
pub open spec fn pixels_signals(sx: u16, sy: u16, ex: u16, ey: u16, colors: Seq<u16>) -> Seq<
    Signal,
> {
    window_signals(sx, sy, ex, ey) + command_signals(Instruction::RAMWR.spec_opcode())
        + data_signals(words_be(colors))
}

/// Writes one color at `(x, y)`.
pub open spec fn pixel_signals(x: u16, y: u16, color: u16) -> Seq<Signal> {
    window_signals(x, y, x, y) + command_signals(Instruction::RAMWR.spec_opcode()) + data_signals(
        be_bytes(color),
    )
}

/// Writes the memory-access-control register for `o`.
pub open spec fn orientation_signals(o: Orientation) -> Seq<Signal> {
    command_signals(Instruction::MADCTL.spec_opcode()) + data_signals(seq![o.spec_bits()])
}

/// Configures the tearing effect output.
pub open spec fn tearing_signals(t: TearingEffect) -> Seq<Signal> {
    match t {
        TearingEffect::Off => command_signals(Instruction::TEOFF.spec_opcode()),
        TearingEffect::Vertical => command_signals(Instruction::TEON.spec_opcode()) + data_signals(
            seq![0u8],
        ),
        TearingEffect::HorizontalAndVertical => command_signals(Instruction::TEON.spec_opcode())
            + data_signals(seq![1u8]),
    }
}

/// Sets the vertical scroll offset.
pub open spec fn scroll_signals(offset: u16) -> Seq<Signal> {
    command_signals(Instruction::VSCAD.spec_opcode()) + data_signals(be_bytes(offset))
}

/// The hard reset pulse: high, low, high, each held for 10 us; nothing without a pin.
pub open spec fn reset_signals(has_pin: bool) -> Seq<Signal> {
    if has_pin {
        seq![
            Signal::ResetHigh,
            Signal::Delay(10),
            Signal::ResetLow,
            Signal::Delay(10),
            Signal::ResetHigh,
            Signal::Delay(10),
        ]
    } else {
        Seq::empty()
    }
}

/// Number of register writes in the power-up sequence.
pub const POWER_UP_STEPS: usize = 13;

/// The register writes of the power-up sequence, in order: the instruction and its parameters.
pub open spec fn power_up_table(i: int) -> (Instruction, Seq<u8>) {
    if i == 0 {
        (Instruction::MADCTL, seq![0x70u8])
    } else if i == 1 {
        (Instruction::FRMCTR2, seq![0x0Cu8, 0x0C, 0x00, 0x33, 0x33])
    } else if i == 2 {
        (Instruction::COLMOD, seq![0x05u8])
    } else if i == 3 {
        (Instruction::GCTRL, seq![0x14u8])
    } else if i == 4 {
        (Instruction::VCOMS, seq![0x37u8])
    } else if i == 5 {
        (Instruction::LCMCTRL, seq![0x2Cu8])
    } else if i == 6 {
        (Instruction::VDVVRHEN, seq![0x01u8])
    } else if i == 7 {
        (Instruction::VRHS, seq![0x12u8])
    } else if i == 8 {
        (Instruction::VDVS, seq![0x20u8])
    } else if i == 9 {
        (Instruction::PWCTRL1, seq![0xA4u8, 0xA1])
    } else if i == 10 {
        (Instruction::FRCTRL2, seq![0x0Fu8])
    } else if i == 11 {
        (
            Instruction::GMCTRP1,
            seq![
                0xD0u8, 0x04, 0x0D, 0x11, 0x13, 0x2B, 0x3F, 0x54, 0x4C, 0x18, 0x0D, 0x0B, 0x1F,
                0x23,
            ],
        )
    } else {
        (
            Instruction::GMCTRN1,
            seq![
                0xD0u8, 0x04, 0x0C, 0x11, 0x13, 0x2C, 0x3F, 0x44, 0x51, 0x2F, 0x1F, 0x1F, 0x20,
                0x23,
            ],
        )
    }
}

/// The signals of the first `n` register writes of the power-up sequence.
pub open spec fn power_up_signals(n: nat) -> Seq<Signal>
    decreases n,
{
    if n == 0 {
        Seq::empty()
    } else {
        let (op, params) = power_up_table(n - 1);
        power_up_signals((n - 1) as nat) + command_signals(op.spec_opcode()) + data_signals(params)
    }
}

/// The whole initialisation: hard reset, software reset and its settle time,
/// the power-up register writes, sleep out, display on and a final settle time.
pub open spec fn init_signals(has_pin: bool) -> Seq<Signal> {
    reset_signals(has_pin) + command_signals(Instruction::SWRESET.spec_opcode()) + seq![
        Signal::Delay(150_000),
    ] + power_up_signals(POWER_UP_STEPS as nat) + command_signals(
        Instruction::SLPOUT.spec_opcode(),
    ) + command_signals(Instruction::DISPON.spec_opcode()) + seq![Signal::Delay(10_000)]
}

/// Returns the `i`-th register write of the power-up sequence.
fn power_up_step(i: usize) -> (r: (Instruction, Vec<u8>))
    requires
        i < POWER_UP_STEPS,
    ensures
        r.0 == power_up_table(i as int).0,
        r.1@ == power_up_table(i as int).1,
{
    if i == 0 {
        (Instruction::MADCTL, vec![0x70])
    } else if i == 1 {
        (Instruction::FRMCTR2, vec![0x0C, 0x0C, 0x00, 0x33, 0x33])
    } else if i == 2 {
        (Instruction::COLMOD, vec![0x05])
    } else if i == 3 {
        (Instruction::GCTRL, vec![0x14])
    } else if i == 4 {
        (Instruction::VCOMS, vec![0x37])
    } else if i == 5 {
        (Instruction::LCMCTRL, vec![0x2C])
    } else if i == 6 {
        (Instruction::VDVVRHEN, vec![0x01])
    } else if i == 7 {
        (Instruction::VRHS, vec![0x12])
    } else if i == 8 {
        (Instruction::VDVS, vec![0x20])
    } else if i == 9 {
        (Instruction::PWCTRL1, vec![0xA4, 0xA1])
    } else if i == 10 {
        (Instruction::FRCTRL2, vec![0x0F])
    } else if i == 11 {
        (
            Instruction::GMCTRP1,
            vec![0xD0, 0x04, 0x0D, 0x11, 0x13, 0x2B, 0x3F, 0x54, 0x4C, 0x18, 0x0D, 0x0B, 0x1F, 0x23],
        )
    } else {
        (
            Instruction::GMCTRN1,
            vec![0xD0, 0x04, 0x0C, 0x11, 0x13, 0x2C, 0x3F, 0x44, 0x51, 0x2F, 0x1F, 0x1F, 0x20, 0x23],
        )
    }
}

/// Colors sent per data transmission while streaming pixels.
const CHUNK: usize = 32;

/// Running `p` in full and then `q` is running `p + q`.
proof fn lemma_ran_then(
    a: Seq<Signal>,
    b: Seq<Signal>,
    c: Seq<Signal>,
    p: Seq<Signal>,
    q: Seq<Signal>,
    ok: bool,
)
    requires
        ran(a, b, p, true),
        ran(b, c, q, ok),
    ensures
        ran(a, c, p + q, ok),
        !ok ==> c.len() >= a.len() + p.len() + 2,
{
    if ok {
        assert(c =~= a + (p + q));
    } else {
        let k = choose|k: int|
            0 < k <= q.len() && !(q[k - 1] is Delay) && c == b + q.take(k).push(Signal::Refused);
        assert((p + q).take(p.len() + k) =~= p + q.take(k));
        assert(c =~= a + (p + q).take(p.len() + k).push(Signal::Refused));
    }
}

/// A run refused within `p` is a run refused within any plan that starts with `p`.
proof fn lemma_ran_refused_prefix(a: Seq<Signal>, c: Seq<Signal>, p: Seq<Signal>, rest: Seq<Signal>)
    requires
        ran(a, c, p, false),
    ensures
        ran(a, c, p + rest, false),
{
    let k = choose|k: int|
        0 < k <= p.len() && !(p[k - 1] is Delay) && c == a + p.take(k).push(Signal::Refused);
    assert((p + rest).take(k) =~= p.take(k));
    assert((p + rest)[k - 1] == p[k - 1]);
}

/// The signals of data bytes split anywhere are the signals of the pieces.
proof fn lemma_data_concat(x: Seq<u8>, y: Seq<u8>)
    ensures
        data_signals(x + y) == data_signals(x) + data_signals(y),
{
    assert(data_signals(x + y) =~= data_signals(x) + data_signals(y));
}

/// Big-endian runs of words concatenate as the words do.
proof fn lemma_words_concat(x: Seq<u16>, y: Seq<u16>)
    ensures
        words_be(x + y) == words_be(x) + words_be(y),
    decreases y.len(),
{
    if y.len() == 0 {
        assert(x + y =~= x);
        assert(words_be(y) =~= Seq::<u8>::empty());
        assert(words_be(x) + words_be(y) =~= words_be(x));
    } else {
        assert((x + y).drop_last() =~= x + y.drop_last());
        assert((x + y).last() == y.last());
        lemma_words_concat(x, y.drop_last());
        assert(words_be(x + y) =~= words_be(x) + words_be(y));
    }
}

/// Two bytes for each word.
pub proof fn lemma_words_len(w: Seq<u16>)
    ensures
        words_be(w).len() == 2 * w.len(),
    decreases w.len(),
{
    if w.len() > 0 {
        lemma_words_len(w.drop_last());
    }
}

/// The first `n` power-up writes start the first `m`.
proof fn lemma_power_up_prefix(n: nat, m: nat)
    requires
        n <= m,
    ensures
        power_up_signals(n).len() <= power_up_signals(m).len(),
        power_up_signals(m) =~= power_up_signals(n) + power_up_signals(m).subrange(
            power_up_signals(n).len() as int,
            power_up_signals(m).len() as int,
        ),
    decreases m - n,
{
    if n < m {
        lemma_power_up_prefix(n, (m - 1) as nat);
        let (op, params) = power_up_table(m - 1);
        assert(power_up_signals(m) == power_up_signals((m - 1) as nat) + command_signals(
            op.spec_opcode(),
        ) + data_signals(params));
    }
}

/// The bytes of each word stand at its place, in the order of the words.
pub proof fn lemma_words_be_index(w: Seq<u16>, i: int)
    requires
        0 <= i < w.len(),
    ensures
        words_be(w).len() == 2 * w.len(),
        words_be(w)[2 * i] == (w[i] >> 8u16) as u8,
        words_be(w)[2 * i + 1] == w[i] as u8,
    decreases w.len(),
{
    lemma_words_len(w);
    lemma_words_len(w.drop_last());
    if i < w.len() - 1 {
        lemma_words_be_index(w.drop_last(), i);
    }
}

/// Setting an orientation is one memory-access-control command byte followed
/// by one data byte, the orientation's register value.
pub proof fn lemma_orientation_is_one_register_write(o: Orientation)
    ensures
        orientation_signals(o) == seq![Signal::Command(0x36), Signal::Data(o.spec_bits())],
        o == Orientation::Portrait ==> o.spec_bits() == 0x00,
        o == Orientation::Landscape ==> o.spec_bits() == 0x60,
        o == Orientation::PortraitSwapped ==> o.spec_bits() == 0xC0,
        o == Orientation::LandscapeSwapped ==> o.spec_bits() == 0xA0,
{
    assert(orientation_signals(o) =~= seq![Signal::Command(0x36), Signal::Data(o.spec_bits())]);
}

/// Writing one pixel sends exactly what writing a one-pixel region with that
/// single color sends.
pub proof fn lemma_pixel_is_unit_region(x: u16, y: u16, color: u16)
    ensures
        pixel_signals(x, y, color) == pixels_signals(x, y, x, y, seq![color]),
{
    let one = seq![color];
    assert(one.drop_last() =~= Seq::<u16>::empty());
    assert(one.last() == color);
    assert(words_be(one.drop_last()) =~= Seq::<u8>::empty());
    assert(words_be(one) =~= be_bytes(color));
}

/// A full-frame write on a 320 by 240 panel: one column-address set for
/// 0..=319, one row-address set for 0..=239, one memory write, then each of the
/// 76800 colors as two bytes, most significant first, in the order given.
pub proof fn lemma_full_frame_write(colors: Seq<u16>)
    requires
        colors.len() == 76800,
    ensures
        pixels_signals(0, 0, 319, 239, colors) == seq![
            Signal::Command(0x2A),
            Signal::Data(0x00),
            Signal::Data(0x00),
            Signal::Data(0x01),
            Signal::Data(0x3F),
            Signal::Command(0x2B),
            Signal::Data(0x00),
            Signal::Data(0x00),
            Signal::Data(0x00),
            Signal::Data(0xEF),
            Signal::Command(0x2C),
        ] + data_signals(words_be(colors)),
        words_be(colors).len() == 153600,
        forall|i: int|
            0 <= i < 76800 ==> #[trigger] words_be(colors)[2 * i] == (colors[i] >> 8u16) as u8
                && words_be(colors)[2 * i + 1] == colors[i] as u8,
{
    lemma_words_len(colors);
    assert((0u16 >> 8u16) as u8 == 0x00u8 && 0u16 as u8 == 0x00u8) by (bit_vector);
    assert((319u16 >> 8u16) as u8 == 0x01u8 && 319u16 as u8 == 0x3Fu8) by (bit_vector);
    assert((239u16 >> 8u16) as u8 == 0x00u8 && 239u16 as u8 == 0xEFu8) by (bit_vector);
    assert(pixels_signals(0, 0, 319, 239, colors) =~= seq![
        Signal::Command(0x2A),
        Signal::Data(0x00),
        Signal::Data(0x00),
        Signal::Data(0x01),
        Signal::Data(0x3F),
        Signal::Command(0x2B),
        Signal::Data(0x00),
        Signal::Data(0x00),
        Signal::Data(0x00),
        Signal::Data(0xEF),
        Signal::Command(0x2C),
    ] + data_signals(words_be(colors)));
    assert forall|i: int| 0 <= i < 76800 implies #[trigger] words_be(colors)[2 * i] == (
    colors[i] >> 8u16) as u8 && words_be(colors)[2 * i + 1] == colors[i] as u8 by {
        lemma_words_be_index(colors, i);
    }
}

/// Initialisation with a reset pin is the reset pulse (high, low, high, each
/// held 10 us) followed by exactly the sequence sent without one, which begins
/// with the software reset.
pub proof fn lemma_init_with_and_without_pin()
    ensures
        init_signals(true) == seq![
            Signal::ResetHigh,
            Signal::Delay(10),
            Signal::ResetLow,
            Signal::Delay(10),
            Signal::ResetHigh,
            Signal::Delay(10),
        ] + init_signals(false),
        init_signals(false)[0] == Signal::Command(0x01),
{
    assert(init_signals(true) =~= reset_signals(true) + init_signals(false));
}

/// Tearing effect off is the TEOFF command alone; vertical and
/// horizontal-and-vertical are TEON with the single data byte 0 and 1.
pub proof fn lemma_tearing_effect_signals()
    ensures
        tearing_signals(TearingEffect::Off) == seq![Signal::Command(0x34)],
        tearing_signals(TearingEffect::Vertical) == seq![Signal::Command(0x35), Signal::Data(0)],
        tearing_signals(TearingEffect::HorizontalAndVertical) == seq![
            Signal::Command(0x35),
            Signal::Data(1),
        ],
{
    assert(tearing_signals(TearingEffect::Vertical) =~= seq![
        Signal::Command(0x35),
        Signal::Data(0),
    ]);
    assert(tearing_signals(TearingEffect::HorizontalAndVertical) =~= seq![
        Signal::Command(0x35),
        Signal::Data(1),
    ]);
}

/// A refused run sends the steps of its plan in order up to the refused one
/// and nothing after it: the refusal is the last event.
pub proof fn lemma_refused_run_stops(before: Seq<Signal>, after: Seq<Signal>, plan: Seq<Signal>)
    requires
        ran(before, after, plan, false),
    ensures
        before.len() < after.len() - 1 <= before.len() + plan.len(),
        after.last() == Signal::Refused,
        !(after[after.len() - 2] is Delay),
        after.subrange(0, before.len() as int) == before,
        forall|j: int|
            before.len() <= j < after.len() - 1 ==> #[trigger] after[j] == plan[j - before.len()],
{
    let k = choose|k: int|
        0 < k <= plan.len() && !(plan[k - 1] is Delay) && after == before + plan.take(k).push(
            Signal::Refused,
        );
    assert(after.subrange(0, before.len() as int) =~= before);
}

/// ST7789 driver to connect to TFT displays.
pub struct ST7789<DI, RST: ResetPin> {
    // Display interface and reset pin, with the record of every call on them
    link: Link<DI, RST>,
    // Visible size (x, y)
    size_x: u16,
    size_y: u16,
    // Current orientation
    orientation: Orientation,
}

impl<DI: Interface, RST: ResetPin> ST7789<DI, RST> {
    /// Every call the driver has made on the bus, the reset pin and the delay
    /// providers since it was made, in order, each failed one followed by
    /// `Refused`.
    pub closed spec fn trace(&self) -> Seq<Signal> {
        self.link.trace()
    }

    /// The error that the reset pin returned from its last failed call.
    pub closed spec fn pin_error(&self) -> Option<RST::Error> {
        self.link.pin_error()
    }

    /// The display interface held.
    pub closed spec fn interface(&self) -> DI {
        self.link.interface()
    }

    /// The reset pin held, if any.
    pub closed spec fn reset_pin(&self) -> Option<RST> {
        self.link.reset_pin()
    }

    /// The visible width in pixels.
    pub closed spec fn width(&self) -> u16 {
        self.size_x
    }

    /// The visible height in pixels.
    pub closed spec fn height(&self) -> u16 {
        self.size_y
    }

    pub closed spec fn spec_orientation(&self) -> Orientation {
        self.orientation
    }

    /// Whether a reset pin is held.
    pub open spec fn has_reset_pin(&self) -> bool {
        self.reset_pin() is Some
    }

    /// Same panel size, same presence of a reset pin, same orientation.
    pub open spec fn same_setup(&self, other: &Self) -> bool {
        &&& self.width() == other.width()
        &&& self.height() == other.height()
        &&& self.has_reset_pin() == other.has_reset_pin()
        &&& self.spec_orientation() == other.spec_orientation()
    }

    /// Creates a new ST7789 driver instance
    ///
    /// # Arguments
    ///
    /// * `di` - a display interface for talking with the display
    /// * `rst` - display hard reset pin
    /// * `size_x` - x axis resolution of the display in pixels
    /// * `size_y` - y axis resolution of the display in pixels
    pub fn new(di: DI, rst: Option<RST>, size_x: u16, size_y: u16) -> (r: Self)
        ensures
            r.interface() == di,
            r.reset_pin() == rst,
            r.width() == size_x,
            r.height() == size_y,
            r.spec_orientation() == Orientation::Portrait,
            r.trace() == Seq::<Signal>::empty(),
            r.pin_error() is None,
    {
        ST7789 { link: Link::new(di, rst), size_x, size_y, orientation: Orientation::default() }
    }

    /// Returns currently set orientation
    #[verifier::when_used_as_spec(spec_orientation)]
    pub fn orientation(&self) -> (r: Orientation)
        ensures
            r == self.spec_orientation(),
    {
        self.orientation
    }

    /// Release resources allocated to this driver back.
    /// This returns the display interface and the RST pin deconstructing the driver.
    pub fn release(self) -> (r: (DI, Option<RST>))
        ensures
            r.0 == self.interface(),
            r.1 == self.reset_pin(),
    {
        self.link.into_parts()
    }

    fn write_command(&mut self, command: Instruction) -> (r: Result<(), Error<RST::Error>>)
        ensures
            ran(old(self).trace(), final(self).trace(), command_signals(command.opcode()), r is Ok),
            r matches Err(e) ==> e is DisplayError,
            final(self).same_setup(old(self)),
            final(self).pin_error() == old(self).pin_error(),
    {
        let bytes = [command.opcode()];
        let res = self.link.send_commands(&bytes);
        proof {
            assert(commands_signals(bytes@) =~= command_signals(command.opcode()));
            assert(command_signals(command.opcode()).take(1) =~= command_signals(command.opcode()));
        }
        if res.is_ok() {
            assert(self.link.trace() =~= old(self).trace() + command_signals(command.opcode()));
            Ok(())
        } else {
            let ghost plan = command_signals(command.opcode());
            assert(self.link.trace() =~= old(self).trace() + plan.take(1).push(Signal::Refused));
            assert(!(plan[0] is Delay));
            Err(Error::DisplayError)
        }
    }

    fn write_data(&mut self, data: &[u8]) -> (r: Result<(), Error<RST::Error>>)
        ensures
            ran(old(self).trace(), final(self).trace(), data_signals(data@), r is Ok),
            r matches Err(e) ==> e is DisplayError,
            final(self).same_setup(old(self)),
            final(self).pin_error() == old(self).pin_error(),
    {
        if data.len() == 0 {
            // an empty run of data needs no transmission
            assert(data_signals(data@) =~= Seq::<Signal>::empty());
            assert(self.link.trace() + data_signals(data@) =~= self.link.trace());
            return Ok(());
        }
        let res = self.link.send_data(data);
        proof {
            assert(data_signals(data@).take(data@.len() as int) =~= data_signals(data@));
        }
        if res.is_ok() {
            assert(self.link.trace() =~= old(self).trace() + data_signals(data@));
            Ok(())
        } else {
            let ghost plan = data_signals(data@);
            let ghost k = data@.len() as int;
            assert(self.link.trace() =~= old(self).trace() + plan.take(k).push(Signal::Refused));
            assert(!(plan[k - 1] is Delay));
            Err(Error::DisplayError)
        }
    }

    fn write_word(&mut self, word: u16) -> (r: Result<(), Error<RST::Error>>)
        ensures
            ran(old(self).trace(), final(self).trace(), data_signals(be_bytes(word)), r is Ok),
            r matches Err(e) ==> e is DisplayError,
            final(self).same_setup(old(self)),
            final(self).pin_error() == old(self).pin_error(),
    {
        let bytes = [(word >> 8) as u8, word as u8];
        assert(bytes@ =~= be_bytes(word));
        self.write_data(&bytes)
    }

    fn pause<D: DelayUs>(&mut self, delay_source: &mut D, us: u32)
        ensures
            final(self).trace() == old(self).trace().push(Signal::Delay(us)),
            final(self).same_setup(old(self)),
            final(self).pin_error() == old(self).pin_error(),
    {
        self.link.wait(delay_source, us);
    }

    fn write_command_with_data(&mut self, command: Instruction, data: &[u8]) -> (r: Result<
        (),
        Error<RST::Error>,
    >)
        requires
            data@.len() > 0,
        ensures
            ran(
                old(self).trace(),
                final(self).trace(),
                command_signals(command.opcode()) + data_signals(data@),
                r is Ok,
            ),
            r matches Err(e) ==> e is DisplayError,
            final(self).same_setup(old(self)),
    {
        let ghost start = self.link.trace();
        let res = self.write_command(command);
        if res.is_err() {
            proof {
                lemma_ran_refused_prefix(
                    start,
                    self.link.trace(),
                    command_signals(command.opcode()),
                    data_signals(data@),
                );
            }
            return res;
        }
        let ghost mid = self.link.trace();
        let res = self.write_data(data);
        proof {
            lemma_ran_then(
                start,
                mid,
                self.link.trace(),
                command_signals(command.opcode()),
                data_signals(data@),
                res is Ok,
            );
        }
        res
    }

    /// Sets display orientation
    pub fn set_orientation(&mut self, orientation: Orientation) -> (r: Result<
        (),
        Error<RST::Error>,
    >)
        ensures
            ran(old(self).trace(), final(self).trace(), orientation_signals(orientation), r is Ok),
            r matches Err(e) ==> e is DisplayError,
            final(self).orientation() == (if r is Ok {
                orientation
            } else {
                old(self).orientation()
            }),
            final(self).width() == old(self).width(),
            final(self).height() == old(self).height(),
            final(self).has_reset_pin() == old(self).has_reset_pin(),
    {
        let bytes = [orientation.bits()];
        assert(bytes@ =~= seq![orientation.bits()]);
        let res = self.write_command_with_data(Instruction::MADCTL, &bytes);
        if res.is_ok() {
            self.orientation = orientation;
        }
        res
    }

    /// Sets scroll offset "shifting" the displayed picture
    ///
    /// # Arguments
    ///
    /// * `offset` - scroll offset in pixels
    pub fn set_scroll_offset(&mut self, offset: u16) -> (r: Result<(), Error<RST::Error>>)
        ensures
            ran(old(self).trace(), final(self).trace(), scroll_signals(offset), r is Ok),
            r matches Err(e) ==> e is DisplayError,
            final(self).same_setup(old(self)),
    {
        let bytes = [(offset >> 8) as u8, offset as u8];
        assert(bytes@ =~= be_bytes(offset));
        self.write_command_with_data(Instruction::VSCAD, &bytes)
    }

    /// Configures the tearing effect output.
    pub fn set_tearing_effect(&mut self, tearing_effect: TearingEffect) -> (r: Result<
        (),
        Error<RST::Error>,
    >)
        ensures
            ran(old(self).trace(), final(self).trace(), tearing_signals(tearing_effect), r is Ok),
            r matches Err(e) ==> e is DisplayError,
            final(self).same_setup(old(self)),
    {
        match tearing_effect {
            TearingEffect::Off => self.write_command(Instruction::TEOFF),
            TearingEffect::Vertical => {
                let bytes = [0u8];
                assert(bytes@ =~= seq![0u8]);
                self.write_command_with_data(Instruction::TEON, &bytes)
            },
            TearingEffect::HorizontalAndVertical => {
                let bytes = [1u8];
                assert(bytes@ =~= seq![1u8]);
                self.write_command_with_data(Instruction::TEON, &bytes)
            },
        }
    }

    // Sets the address window for the display.
    fn set_address_window(&mut self, sx: u16, sy: u16, ex: u16, ey: u16) -> (r: Result<
        (),
        Error<RST::Error>,
    >)
        ensures
            ran(old(self).trace(), final(self).trace(), window_signals(sx, sy, ex, ey), r is Ok),
            r matches Err(e) ==> e is DisplayError,
            final(self).same_setup(old(self)),
    {
        let ghost start = self.link.trace();
        let ghost columns = command_signals(Instruction::CASET.spec_opcode()) + data_signals(
            be_bytes(sx) + be_bytes(ex),
        );
        let ghost rows = command_signals(Instruction::RASET.spec_opcode()) + data_signals(
            be_bytes(sy) + be_bytes(ey),
        );
        assert(window_signals(sx, sy, ex, ey) =~= columns + rows);
        let xs = [(sx >> 8) as u8, sx as u8, (ex >> 8) as u8, ex as u8];
        assert(xs@ =~= be_bytes(sx) + be_bytes(ex));
        let res = self.write_command_with_data(Instruction::CASET, &xs);
        if res.is_err() {
            proof {
                lemma_ran_refused_prefix(start, self.link.trace(), columns, rows);
            }
            return res;
        }
        let ghost mid = self.link.trace();
        let ys = [(sy >> 8) as u8, sy as u8, (ey >> 8) as u8, ey as u8];
        assert(ys@ =~= be_bytes(sy) + be_bytes(ey));
        let res = self.write_command_with_data(Instruction::RASET, &ys);
        proof {
            lemma_ran_then(start, mid, self.link.trace(), columns, rows, res is Ok);
        }
        res
    }

    /// Sets a pixel color at the given coords.
    ///
    /// # Arguments
    ///
    /// * `x` - x coordinate
    /// * `y` - y coordinate
    /// * `color` - the Rgb565 color value
    pub fn set_pixel(&mut self, x: u16, y: u16, color: u16) -> (r: Result<(), Error<RST::Error>>)
        ensures
            ran(old(self).trace(), final(self).trace(), pixel_signals(x, y, color), r is Ok),
            r matches Err(e) ==> e is DisplayError,
            final(self).same_setup(old(self)),
    {
        let ghost start = self.link.trace();
        let ghost window = window_signals(x, y, x, y);
        let ghost write = command_signals(Instruction::RAMWR.spec_opcode());
        let ghost colors = data_signals(be_bytes(color));
        let res = self.set_address_window(x, y, x, y);
        if res.is_err() {
            proof {
                lemma_ran_refused_prefix(start, self.link.trace(), window, write + colors);
                assert(window + (write + colors) =~= pixel_signals(x, y, color));
            }
            return res;
        }
        let ghost mid = self.link.trace();
        let res = self.write_command(Instruction::RAMWR);
        proof {
            lemma_ran_then(start, mid, self.link.trace(), window, write, res is Ok);
        }
        if res.is_err() {
            proof {
                lemma_ran_refused_prefix(start, self.link.trace(), window + write, colors);
            }
            return res;
        }
        let ghost mid = self.link.trace();
        let res = self.write_word(color);
        proof {
            lemma_ran_then(start, mid, self.link.trace(), window + write, colors, res is Ok);
        }
        res
    }

    /// Sends `colors` as data, each most significant byte first, a few at a
    /// time so that no buffer grows with their number.
    fn write_colors(&mut self, colors: &[u16]) -> (r: Result<(), Error<RST::Error>>)
        ensures
            ran(old(self).trace(), final(self).trace(), data_signals(words_be(colors@)), r is Ok),
            r matches Err(e) ==> e is DisplayError,
            final(self).same_setup(old(self)),
    {
        let ghost start = self.link.trace();
        let ghost full = data_signals(words_be(colors@));
        let mut i: usize = 0;
        while i < colors.len()
            invariant
                i <= colors@.len(),
                self.link.trace() == start + data_signals(words_be(colors@.take(i as int))),
                full == data_signals(words_be(colors@)),
                start == old(self).trace(),
                self.same_setup(old(self)),
            decreases colors@.len() - i,
        {
            let end: usize = if colors.len() - i > CHUNK {
                i + CHUNK
            } else {
                colors.len()
            };
            let mut buf: Vec<u8> = Vec::new();
            let mut j: usize = i;
            while j < end
                invariant
                    i <= j <= end <= colors@.len(),
                    buf@ == words_be(colors@.subrange(i as int, j as int)),
                decreases end - j,
            {
                let c = colors[j];
                buf.push((c >> 8) as u8);
                buf.push(c as u8);
                proof {
                    assert(colors@.subrange(i as int, j + 1).drop_last() =~= colors@.subrange(
                        i as int,
                        j as int,
                    ));
                }
                j = j + 1;
            }
            proof {
                lemma_words_concat(colors@.take(i as int), colors@.subrange(i as int, end as int));
                assert(colors@.take(i as int) + colors@.subrange(i as int, end as int)
                    =~= colors@.take(end as int));
                lemma_words_concat(colors@.take(end as int), colors@.subrange(end as int, colors@.len() as int));
                assert(colors@.take(end as int) + colors@.subrange(end as int, colors@.len() as int)
                    =~= colors@);
                lemma_data_concat(words_be(colors@.take(i as int)), buf@);
                lemma_data_concat(words_be(colors@.take(end as int)), words_be(colors@.subrange(end as int, colors@.len() as int)));
                lemma_words_len(colors@.subrange(i as int, end as int));
            }
            let ghost mid = self.link.trace();
            let res = self.write_data(buf.as_slice());
            proof {
                lemma_ran_then(
                    start,
                    mid,
                    self.link.trace(),
                    data_signals(words_be(colors@.take(i as int))),
                    data_signals(buf@),
                    res is Ok,
                );
            }
            if res.is_err() {
                proof {
                    lemma_ran_refused_prefix(
                        start,
                        self.link.trace(),
                        data_signals(words_be(colors@.take(end as int))),
                        data_signals(words_be(colors@.subrange(end as int, colors@.len() as int))),
                    );
                }
                return res;
            }
            i = end;
        }
        proof {
            assert(colors@.take(i as int) =~= colors@);
        }
        Ok(())
    }

    /// Sets pixel colors in given rectangle bounds.
    ///
    /// # Arguments
    ///
    /// * `sx` - x coordinate start
    /// * `sy` - y coordinate start
    /// * `ex` - x coordinate end
    /// * `ey` - y coordinate end
    /// * `colors` - pixel data, row by row, as the controller fills the window
    pub fn set_pixels(&mut self, sx: u16, sy: u16, ex: u16, ey: u16, colors: &[u16]) -> (r: Result<
        (),
        Error<RST::Error>,
    >)
        ensures
            ran(old(self).trace(), final(self).trace(), pixels_signals(sx, sy, ex, ey, colors@), r is Ok),
            r matches Err(e) ==> e is DisplayError,
            final(self).same_setup(old(self)),
    {
        let ghost start = self.link.trace();
        let ghost window = window_signals(sx, sy, ex, ey);
        let ghost write = command_signals(Instruction::RAMWR.spec_opcode());
        let ghost pixels = data_signals(words_be(colors@));
        let res = self.set_address_window(sx, sy, ex, ey);
        if res.is_err() {
            proof {
                lemma_ran_refused_prefix(start, self.link.trace(), window, write + pixels);
                assert(window + (write + pixels) =~= pixels_signals(sx, sy, ex, ey, colors@));
            }
            return res;
        }
        let ghost mid = self.link.trace();
        let res = self.write_command(Instruction::RAMWR);
        proof {
            lemma_ran_then(start, mid, self.link.trace(), window, write, res is Ok);
        }
        if res.is_err() {
            proof {
                lemma_ran_refused_prefix(start, self.link.trace(), window + write, pixels);
            }
            return res;
        }
        let ghost mid = self.link.trace();
        let res = self.write_colors(colors);
        proof {
            lemma_ran_then(start, mid, self.link.trace(), window + write, pixels, res is Ok);
        }
        res
    }

    /// Performs a hard reset using the RST pin sequence
    ///
    /// # Arguments
    ///
    /// * `delay_source` - mutable reference to a delay provider
    pub fn hard_reset<D: DelayUs>(&mut self, delay_source: &mut D) -> (r: Result<
        (),
        Error<RST::Error>,
    >)
        ensures
            ran(
                old(self).trace(),
                final(self).trace(),
                reset_signals(old(self).has_reset_pin()),
                r is Ok,
            ),
            r matches Err(e) ==> e is Pin,
            r matches Err(Error::Pin(e)) ==> final(self).pin_error() == Some(e),
            r is Ok ==> final(self).pin_error() == old(self).pin_error(),
            final(self).same_setup(old(self)),
    {
        let ghost start = self.link.trace();
        let ghost plan = reset_signals(self.link.reset_pin() is Some);
        if !self.link.has_reset_pin() {
            assert(start + plan =~= start);
            return Ok(());
        }
        match self.link.drive_reset(true) {
            Ok(()) => {},
            Err(e) => {
                assert(self.link.trace() =~= start + plan.take(1).push(Signal::Refused));
                return Err(Error::Pin(e));
            },
        }
        // ensure the pin change will get registered
        self.pause(delay_source, 10);
        match self.link.drive_reset(false) {
            Ok(()) => {},
            Err(e) => {
                assert(self.link.trace() =~= start + plan.take(3).push(Signal::Refused));
                return Err(Error::Pin(e));
            },
        }
        self.pause(delay_source, 10);
        match self.link.drive_reset(true) {
            Ok(()) => {},
            Err(e) => {
                assert(self.link.trace() =~= start + plan.take(5).push(Signal::Refused));
                return Err(Error::Pin(e));
            },
        }
        self.pause(delay_source, 10);
        assert(self.link.trace() =~= start + plan);
        Ok(())
    }

    /// Runs commands to initialize the display
    ///
    /// # Arguments
    ///
    /// * `delay_source` - mutable reference to a delay provider
    pub fn init<D: DelayUs>(&mut self, delay_source: &mut D) -> (r: Result<(), Error<RST::Error>>)
        ensures
            ran(old(self).trace(), final(self).trace(), init_signals(old(self).has_reset_pin()), r is Ok),
            r matches Err(Error::Pin(e)) ==> final(self).pin_error() == Some(e),
            r matches Err(e) ==> (e is Pin <==> final(self).trace().len() <= old(self).trace().len()
                + reset_signals(old(self).has_reset_pin()).len() + 1),
            final(self).same_setup(old(self)),
    {
        let ghost start = self.link.trace();
        let ghost pin = self.link.reset_pin() is Some;
        let ghost full = init_signals(pin);
        let ghost reset = reset_signals(pin);
        let ghost swreset = command_signals(Instruction::SWRESET.spec_opcode());
        let ghost settle = seq![Signal::Delay(150_000)];
        let ghost head = reset + swreset + settle;
        let ghost power_up = power_up_signals(POWER_UP_STEPS as nat);
        let ghost tail = command_signals(Instruction::SLPOUT.spec_opcode()) + command_signals(
            Instruction::DISPON.spec_opcode(),
        ) + seq![Signal::Delay(10_000)];
        assert(full =~= head + power_up + tail);

        let res = self.hard_reset(delay_source);
        if res.is_err() {
            proof {
                lemma_ran_refused_prefix(start, self.link.trace(), reset, swreset + settle + power_up + tail);
                lemma_refused_run_stops(start, self.link.trace(), reset);
                assert(reset + (swreset + settle + power_up + tail) =~= full);
            }
            return res;
        }
        let ghost mid = self.link.trace();
        // reset display
        let res = self.write_command(Instruction::SWRESET);
        proof {
            lemma_ran_then(start, mid, self.link.trace(), reset, swreset, res is Ok);
        }
        if res.is_err() {
            proof {
                lemma_ran_refused_prefix(start, self.link.trace(), reset + swreset, settle + power_up + tail);
                assert(reset + swreset + (settle + power_up + tail) =~= full);
            }
            return res;
        }
        self.pause(delay_source, 150_000);
        assert(self.link.trace() =~= start + (head + power_up_signals(0)));

        let mut i: usize = 0;
        while i < POWER_UP_STEPS
            invariant
                i <= POWER_UP_STEPS,
                self.link.trace() == start + (head + power_up_signals(i as nat)),
                start == old(self).trace(),
                full == init_signals(old(self).has_reset_pin()),
                full =~= head + power_up + tail,
                power_up == power_up_signals(POWER_UP_STEPS as nat),
                self.same_setup(old(self)),
            decreases POWER_UP_STEPS - i,
        {
            let (command, params) = power_up_step(i);
            let ghost step = command_signals(command.opcode()) + data_signals(params@);
            let ghost mid = self.link.trace();
            let res = self.write_command_with_data(command, params.as_slice());
            proof {
                lemma_ran_then(start, mid, self.link.trace(), head + power_up_signals(i as nat), step, res is Ok);
                assert(head + power_up_signals(i as nat) + step =~= head + power_up_signals((i + 1) as nat));
            }
            if res.is_err() {
                proof {
                    lemma_power_up_prefix((i + 1) as nat, POWER_UP_STEPS as nat);
                    let rest = power_up.subrange(power_up_signals((i + 1) as nat).len() as int, power_up.len() as int) + tail;
                    lemma_ran_refused_prefix(start, self.link.trace(), head + power_up_signals((i + 1) as nat), rest);
                    assert(head + power_up_signals((i + 1) as nat) + rest =~= full);
                }
                return res;
            }
            i = i + 1;
        }

        let ghost done = head + power_up;
        let ghost mid = self.link.trace();
        // turn off sleep
        let res = self.write_command(Instruction::SLPOUT);
        proof {
            lemma_ran_then(start, mid, self.link.trace(), done, command_signals(0x11), res is Ok);
        }
        if res.is_err() {
            proof {
                lemma_ran_refused_prefix(start, self.link.trace(), done + command_signals(0x11), command_signals(0x29) + seq![Signal::Delay(10_000)]);
                assert(done + command_signals(0x11) + (command_signals(0x29) + seq![Signal::Delay(10_000)]) =~= full);
            }
            return res;
        }
        let ghost done = done + command_signals(0x11);
        let ghost mid = self.link.trace();
        // turn on display
        let res = self.write_command(Instruction::DISPON);
        proof {
            lemma_ran_then(start, mid, self.link.trace(), done, command_signals(0x29), res is Ok);
        }
        if res.is_err() {
            proof {
                lemma_ran_refused_prefix(start, self.link.trace(), done + command_signals(0x29), seq![Signal::Delay(10_000)]);
                assert(done + command_signals(0x29) + seq![Signal::Delay(10_000)] =~= full);
            }
            return res;
        }
        self.pause(delay_source, 10_000);
        assert(self.link.trace() =~= start + full);
        Ok(())
    }
}

} // verus!
