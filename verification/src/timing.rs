use vstd::prelude::*;

verus! {

/// One concrete CAN bit-timing configuration: the segment lengths in time
/// quanta and the clock prescaler that together realize one bus bitrate.
#[derive(Clone, Copy, Debug, PartialEq, Eq, Structural, PartialOrd)]
pub struct CanBitTiming {
    /// Time quanta ahead of the sample point (propagation segment plus
    /// phase segment 1). A bxCAN-style register holds 1 through 16.
    pub bs1: u8,

    /// Time quanta after the sample point (phase segment 2). A bxCAN-style
    /// register holds 1 through 8.
    pub bs2: u8,

    /// Synchronization jump width in time quanta: how far a segment may be
    /// stretched or shrunk during resynchronization.
    pub sjw: u8,

    /// Clock divider applied ahead of time-quantum counting. A bxCAN-style
    /// register holds 1 through 1024.
    pub prescaler: u16,
}

/// Field ranges that the packed bxCAN register layout can represent: three
/// bits for `sjw - 1`, four for `bs1 - 1`, three for `bs2 - 1` and ten for
/// `prescaler - 1`.
pub open spec fn encodable(m: CanBitTiming) -> bool {
    &&& 1 <= m.bs1 <= 16
    &&& 1 <= m.bs2 <= 8
    &&& 1 <= m.sjw <= 8
    &&& 1 <= m.prescaler <= 1024
}

/// The packed register value: bits 24..=26 hold `sjw - 1`, bits 16..=19 hold
/// `bs1 - 1`, bits 20..=22 hold `bs2 - 1` and bits 0..=9 hold
/// `prescaler - 1`. Each field is stored zero-based because the hardware
/// reads a stored 0 as the value 1.
pub open spec fn encode_bxcan(m: CanBitTiming) -> u32
    recommends
        encodable(m),
{
    (((m.sjw - 1) as u32) << 24) | (((m.bs1 - 1) as u32) << 16) | (((m.bs2 - 1) as u32) << 20)
        | ((m.prescaler - 1) as u32)
}

/// The four timing fields read back out of a packed register, adding the 1
/// that the zero-based encoding subtracted.
pub open spec fn decode_bxcan(r: u32) -> CanBitTiming {
    CanBitTiming {
        bs1: (((r >> 16) & 0xf) + 1) as u8,
        bs2: (((r >> 20) & 0x7) + 1) as u8,
        sjw: (((r >> 24) & 0x7) + 1) as u8,
        prescaler: ((r & 0x3ff) + 1) as u16,
    }
}

impl CanBitTiming {
    /// Packs the timing into the 32-bit bit-timing register layout used by
    /// bxCAN-style controllers. The caller guarantees that every field is in
    /// range; encoding an already-validated timing cannot fail.
    pub fn bxcan(&self) -> (r: u32)
        requires
            encodable(*self),
        ensures
            r == encode_bxcan(*self),
    {
        (self.sjw as u32 - 1) << 24 | (self.bs1 as u32 - 1) << 16 | (self.bs2 as u32 - 1) << 20
            | (self.prescaler as u32 - 1)
    }

    /// Reads a timing back out of a packed register: the inverse of `bxcan`
    /// on every encodable timing.
    pub fn decode(r: u32) -> (m: CanBitTiming)
        ensures
            m == decode_bxcan(r),
    {
        proof {
            assert(((r >> 16) & 0xf) < 16 && ((r >> 20) & 0x7) < 8 && ((r >> 24) & 0x7) < 8 && (r
                & 0x3ff) < 1024) by (bit_vector);
        }
        CanBitTiming {
            bs1: (((r >> 16) & 0xf) + 1) as u8,
            bs2: (((r >> 20) & 0x7) + 1) as u8,
            sjw: (((r >> 24) & 0x7) + 1) as u8,
            prescaler: ((r & 0x3ff) + 1) as u16,
        }
    }

    /// Total number of time quanta the configuration spends per bit,
    /// counting one quantum of synchronization segment as `sjw`.
    pub fn total_time_quanta(&self) -> (t: u16)
        ensures
            t == self.bs1 + self.bs2 + self.sjw,
    {
        self.bs1 as u16 + self.bs2 as u16 + self.sjw as u16
    }
}

/// Law: packing an encodable timing and reading the fields back yields the
/// same timing, so the register layout loses no information on the ranges it
/// was designed for.
pub proof fn lemma_bxcan_round_trip(m: CanBitTiming)
    requires
        encodable(m),
    ensures
        decode_bxcan(encode_bxcan(m)) == m,
{
    let s: u32 = (m.sjw - 1) as u32;
    let b1: u32 = (m.bs1 - 1) as u32;
    let b2: u32 = (m.bs2 - 1) as u32;
    let p: u32 = (m.prescaler - 1) as u32;
    let r: u32 = (s << 24) | (b1 << 16) | (b2 << 20) | p;
    assert(((r >> 16) & 0xf) == b1 && ((r >> 20) & 0x7) == b2 && ((r >> 24) & 0x7) == s && (r
        & 0x3ff) == p) by (bit_vector)
        requires
            s < 8,
            b1 < 16,
            b2 < 8,
            p < 1024,
            r == (s << 24) | (b1 << 16) | (b2 << 20) | p,
    ;
}

} // verus!
