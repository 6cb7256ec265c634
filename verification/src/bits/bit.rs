use vstd::prelude::*;

verus! {

/// A two-valued logical unit: no third value is representable.
#[derive(PartialEq, Eq, Structural, Clone, Copy, Debug)]
pub enum Bit {
    Zero,
    One,
}

/// The bit an integer stands for: zero maps to `Zero`, any other value to `One`.
pub open spec fn spec_bit_of_u8(value: u8) -> Bit {
    if value == 0 {
        Bit::Zero
    } else {
        Bit::One
    }
}

/// The bit a boolean stands for: `false` maps to `Zero`, `true` to `One`.
pub open spec fn spec_bit_of_bool(b: bool) -> Bit {
    if b {
        Bit::One
    } else {
        Bit::Zero
    }
}

impl Bit {
    /// The raw 0/1 integer for this bit.
    pub open spec fn spec_to_u8(self) -> u8 {
        match self {
            Bit::Zero => 0,
            Bit::One => 1,
        }
    }

    /// The boolean for this bit.
    pub open spec fn spec_to_bool(self) -> bool {
        self == Bit::One
    }
}

impl core::ops::BitAnd<Bit> for Bit {
    type Output = Bit;

    /// Logical AND with another bit.
    fn bitand(self, rhs: Bit) -> (r: Bit) {
        if self == Bit::Zero {
            Bit::Zero
        } else if rhs == Bit::Zero {
            Bit::Zero
        } else {
            Bit::One
        }
    }
}

impl vstd::std_specs::ops::BitAndSpecImpl<Bit> for Bit {
    open spec fn obeys_bitand_spec() -> bool {
        true
    }

    open spec fn bitand_req(self, rhs: Bit) -> bool {
        true
    }

    open spec fn bitand_spec(self, rhs: Bit) -> Bit {
        spec_bit_of_bool(self.spec_to_bool() && rhs.spec_to_bool())
    }
}

impl core::ops::BitAnd<u8> for Bit {
    type Output = Bit;

    /// Logical AND with a raw integer, read as truthy: any nonzero value
    /// counts as `One`, not only the literal 1.
    fn bitand(self, rhs: u8) -> (r: Bit) {
        if self == Bit::Zero {
            Bit::Zero
        } else if rhs == 0 {
            Bit::Zero
        } else {
            Bit::One
        }
    }
}

impl vstd::std_specs::ops::BitAndSpecImpl<u8> for Bit {
    open spec fn obeys_bitand_spec() -> bool {
        true
    }

    open spec fn bitand_req(self, rhs: u8) -> bool {
        true
    }

    open spec fn bitand_spec(self, rhs: u8) -> Bit {
        spec_bit_of_bool(self.spec_to_bool() && rhs != 0)
    }
}

impl core::ops::BitOr<Bit> for Bit {
    type Output = Bit;

    /// Logical OR with another bit.
    fn bitor(self, rhs: Bit) -> (r: Bit) {
        if self == Bit::One {
            Bit::One
        } else if rhs == Bit::One {
            Bit::One
        } else {
            Bit::Zero
        }
    }
}

impl vstd::std_specs::ops::BitOrSpecImpl<Bit> for Bit {
    open spec fn obeys_bitor_spec() -> bool {
        true
    }

    open spec fn bitor_req(self, rhs: Bit) -> bool {
        true
    }

    open spec fn bitor_spec(self, rhs: Bit) -> Bit {
        spec_bit_of_bool(self.spec_to_bool() || rhs.spec_to_bool())
    }
}

impl core::ops::BitOr<u8> for Bit {
    type Output = Bit;

    /// Logical OR with a raw integer, read as truthy: any nonzero value
    /// counts as `One`, not only the literal 1.
    fn bitor(self, rhs: u8) -> (r: Bit) {
        if self == Bit::One {
            Bit::One
        } else if rhs != 0 {
            Bit::One
        } else {
            Bit::Zero
        }
    }
}

impl vstd::std_specs::ops::BitOrSpecImpl<u8> for Bit {
    open spec fn obeys_bitor_spec() -> bool {
        true
    }

    open spec fn bitor_req(self, rhs: u8) -> bool {
        true
    }

    open spec fn bitor_spec(self, rhs: u8) -> Bit {
        spec_bit_of_bool(self.spec_to_bool() || rhs != 0)
    }
}

impl From<u8> for Bit {
    /// Zero maps to `Zero`; any nonzero value maps to `One`.
    fn from(value: u8) -> (r: Bit) {
        if value == 0 {
            Bit::Zero
        } else {
            Bit::One
        }
    }
}

impl vstd::std_specs::convert::FromSpecImpl<u8> for Bit {
    open spec fn obeys_from_spec() -> bool {
        true
    }

    open spec fn from_spec(value: u8) -> Bit {
        spec_bit_of_u8(value)
    }
}

impl From<bool> for Bit {
    /// `false` maps to `Zero`; `true` maps to `One`.
    fn from(b: bool) -> (r: Bit) {
        if b {
            Bit::One
        } else {
            Bit::Zero
        }
    }
}

impl vstd::std_specs::convert::FromSpecImpl<bool> for Bit {
    open spec fn obeys_from_spec() -> bool {
        true
    }

    open spec fn from_spec(b: bool) -> Bit {
        spec_bit_of_bool(b)
    }
}

impl From<Bit> for u8 {
    /// `Zero` maps to 0; `One` maps to 1.
    fn from(bit: Bit) -> (r: u8) {
        match bit {
            Bit::Zero => 0,
            Bit::One => 1,
        }
    }
}

impl vstd::std_specs::convert::FromSpecImpl<Bit> for u8 {
    open spec fn obeys_from_spec() -> bool {
        true
    }

    open spec fn from_spec(bit: Bit) -> u8 {
        bit.spec_to_u8()
    }
}

impl From<Bit> for bool {
    /// `Zero` maps to `false`; `One` maps to `true`.
    fn from(bit: Bit) -> (r: bool) {
        match bit {
            Bit::Zero => false,
            Bit::One => true,
        }
    }
}

impl vstd::std_specs::convert::FromSpecImpl<Bit> for bool {
    open spec fn obeys_from_spec() -> bool {
        true
    }

    open spec fn from_spec(bit: Bit) -> bool {
        bit.spec_to_bool()
    }
}

} // verus!
