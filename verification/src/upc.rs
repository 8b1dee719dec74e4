use vstd::prelude::*;

verus! {

/// Number of bytes in a UPC (the per-cell format blitted to the GPU).
pub const UPC_BYTE_LEN: usize = 4;
/// Log2 of `UPC_BYTE_LEN`.
pub const LOG_UPC_BYTE_LEN: usize = 2;

/// A cell in its 4-byte "universal packed cell" format. The all-zero UPC is the empty cell.
#[derive(Clone, Copy, Debug)]
pub struct UPC(pub [u8; 4]);

impl UPC {
    /// The empty cell.
    pub open spec fn spec_default() -> UPC {
        UPC([0u8, 0u8, 0u8, 0u8])
    }

    /// True for the empty cell.
    pub open spec fn spec_is_default(self) -> bool {
        self.0[0] == 0 && self.0[1] == 0 && self.0[2] == 0 && self.0[3] == 0
    }

    /// The UPC made of the four bytes `bytes[i..i + 4]`.
    pub open spec fn spec_from_bytes(bytes: Seq<u8>, i: int) -> UPC {
        UPC([bytes[i], bytes[i + 1], bytes[i + 2], bytes[i + 3]])
    }
}

impl PartialEq for UPC {
    fn eq(&self, other: &UPC) -> (r: bool) {
        let r = self.0[0] == other.0[0] && self.0[1] == other.0[1] && self.0[2] == other.0[2] && self.0[3] == other.0[3];
        proof {
            if r {
                assert(self.0 =~= other.0);
            }
        }
        r
    }
}

impl vstd::std_specs::cmp::PartialEqSpecImpl for UPC {
    open spec fn obeys_eq_spec() -> bool {
        true
    }

    open spec fn eq_spec(&self, other: &UPC) -> bool {
        *self == *other
    }
}

impl Eq for UPC {
}

impl Default for UPC {
    fn default() -> (r: UPC)
        ensures
            r == UPC::spec_default(),
    {
        UPC([0u8, 0u8, 0u8, 0u8])
    }
}

} // verus!
