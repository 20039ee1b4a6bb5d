use vstd::prelude::*;

verus! {

/// ST7789 instructions.
#[allow(non_camel_case_types)]
#[derive(Clone, Copy, Debug, PartialEq, Eq, Structural)]
pub enum Instruction {
    SWRESET,
    SLPOUT,
    INVON,
    DISPON,
    CASET,
    RASET,
    RAMWR,
    MADCTL,
    COLMOD,
    FRMCTR2,
    GCTRL,
    VCOMS,
    LCMCTRL,
    VDVVRHEN,
    VRHS,
    VDVS,
    FRCTRL2,
    PWCTRL1,
    GMCTRP1,
    GMCTRN1,
    TEOFF,
    TEON,
    VSCAD,
}

impl Instruction {
    /// The one-byte opcode that the controller recognises for the instruction.
    pub open spec fn spec_opcode(self) -> u8 {
        match self {
            Instruction::SWRESET => 0x01,
            Instruction::SLPOUT => 0x11,
            Instruction::INVON => 0x21,
            Instruction::DISPON => 0x29,
            Instruction::CASET => 0x2A,
            Instruction::RASET => 0x2B,
            Instruction::RAMWR => 0x2C,
            Instruction::MADCTL => 0x36,
            Instruction::COLMOD => 0x3A,
            Instruction::FRMCTR2 => 0xB2,
            Instruction::GCTRL => 0xB7,
            Instruction::VCOMS => 0xBB,
            Instruction::LCMCTRL => 0xC0,
            Instruction::VDVVRHEN => 0xC2,
            Instruction::VRHS => 0xC3,
            Instruction::VDVS => 0xC4,
            Instruction::FRCTRL2 => 0xC6,
            Instruction::PWCTRL1 => 0xD0,
            Instruction::GMCTRP1 => 0xE0,
            Instruction::GMCTRN1 => 0xE1,
            Instruction::TEOFF => 0x34,
            Instruction::TEON => 0x35,
            Instruction::VSCAD => 0x37,
        }
    }

    /// Returns the opcode byte of the instruction.
    #[verifier::when_used_as_spec(spec_opcode)]
    pub fn opcode(self) -> (r: u8)
        ensures
            r == self.spec_opcode(),
    {
        match self {
            Instruction::SWRESET => 0x01,
            Instruction::SLPOUT => 0x11,
            Instruction::INVON => 0x21,
            Instruction::DISPON => 0x29,
            Instruction::CASET => 0x2A,
            Instruction::RASET => 0x2B,
            Instruction::RAMWR => 0x2C,
            Instruction::MADCTL => 0x36,
            Instruction::COLMOD => 0x3A,
            Instruction::FRMCTR2 => 0xB2,
            Instruction::GCTRL => 0xB7,
            Instruction::VCOMS => 0xBB,
            Instruction::LCMCTRL => 0xC0,
            Instruction::VDVVRHEN => 0xC2,
            Instruction::VRHS => 0xC3,
            Instruction::VDVS => 0xC4,
            Instruction::FRCTRL2 => 0xC6,
            Instruction::PWCTRL1 => 0xD0,
            Instruction::GMCTRP1 => 0xE0,
            Instruction::GMCTRN1 => 0xE1,
            Instruction::TEOFF => 0x34,
            Instruction::TEON => 0x35,
            Instruction::VSCAD => 0x37,
        }
    }
}

} // verus!
