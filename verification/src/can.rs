//! The CAN frame value that every driver produces and consumes.

use vstd::prelude::*;

verus! {

/// Largest identifier of a standard (11-bit) frame.
pub const CAN_SFF_MASK: u32 = 0x0000_07FF;

/// Largest identifier of an extended (29-bit) frame.
pub const CAN_EFF_MASK: u32 = 0x1FFF_FFFF;

/// Payload length in bytes that a length code stands for; codes above 15
/// stand for nothing.
pub open spec fn spec_dlc_to_len(dlc: u8) -> nat {
    if dlc <= 8 {
        dlc as nat
    } else if dlc == 9 {
        12
    } else if dlc == 10 {
        16
    } else if dlc == 11 {
        20
    } else if dlc == 12 {
        24
    } else if dlc == 13 {
        32
    } else if dlc == 14 {
        48
    } else if dlc == 15 {
        64
    } else {
        0
    }
}

/// A payload length that some length code stands for.
pub open spec fn spec_valid_len(n: nat) -> bool {
    n <= 8 || n == 12 || n == 16 || n == 20 || n == 24 || n == 32 || n == 48 || n == 64
}

/// The length code of a valid payload length.
pub open spec fn spec_len_to_dlc(n: nat) -> u8 {
    if n <= 8 {
        n as u8
    } else if n == 12 {
        9
    } else if n == 16 {
        10
    } else if n == 20 {
        11
    } else if n == 24 {
        12
    } else if n == 32 {
        13
    } else if n == 48 {
        14
    } else {
        15
    }
}

/// What a frame holds, as mathematical values.
pub struct FrameView {
    pub id: u32,
    pub extended: bool,
    pub rtr: bool,
    pub error: bool,
    pub dlc: u8,
    pub data: Seq<u8>,
    pub timestamp: Option<u64>,
}

/// The rules every frame obeys: the identifier fits its format, the length
/// code is one of the sixteen, the payload is as long as the code says, and a
/// remote request asks for at most eight bytes.
pub open spec fn spec_frame_valid(f: FrameView) -> bool {
    &&& f.id <= CAN_EFF_MASK
    &&& (!f.extended && !f.error ==> f.id <= CAN_SFF_MASK)
    &&& f.dlc <= 15
    &&& f.data.len() == spec_dlc_to_len(f.dlc)
    &&& (f.rtr ==> f.dlc <= 8 && f.data == Seq::new(f.dlc as nat, |i: int| 0u8))
    &&& (f.error ==> !f.extended && !f.rtr && f.dlc == 0)
}

/// The view of a standard data frame.
pub open spec fn spec_standard(id: u32, data: Seq<u8>) -> FrameView {
    FrameView {
        id,
        extended: false,
        rtr: false,
        error: false,
        dlc: spec_len_to_dlc(data.len()),
        data,
        timestamp: None,
    }
}

/// The view of an extended data frame.
pub open spec fn spec_extended(id: u32, data: Seq<u8>) -> FrameView {
    FrameView { extended: true, ..spec_standard(id, data) }
}

/// The view of a remote request for `len` bytes.
pub open spec fn spec_remote(id: u32, len: nat, extended: bool) -> FrameView {
    FrameView {
        id,
        extended,
        rtr: true,
        error: false,
        dlc: len as u8,
        data: Seq::new(len, |i: int| 0u8),
        timestamp: None,
    }
}

/// The view of an error frame.
pub open spec fn spec_error(id: u32) -> FrameView {
    FrameView {
        id,
        extended: false,
        rtr: false,
        error: true,
        dlc: 0,
        data: Seq::empty(),
        timestamp: None,
    }
}

/// Why a frame could not be built.
#[derive(Debug, Clone, Copy, PartialEq, Eq, Structural)]
pub enum FrameError {
    /// The identifier does not fit the frame format.
    InvalidId,
    /// No length code stands for the payload length.
    InvalidLength,
}

/// One CAN message.
#[derive(Debug, PartialEq, Eq)]
pub struct CanFrame {
    id: u32,
    extended: bool,
    rtr: bool,
    error: bool,
    dlc: u8,
    data: Vec<u8>,
    timestamp: Option<u64>,
}

impl View for CanFrame {
    type V = FrameView;

    closed spec fn view(&self) -> FrameView {
        FrameView {
            id: self.id,
            extended: self.extended,
            rtr: self.rtr,
            error: self.error,
            dlc: self.dlc,
            data: self.data@,
            timestamp: self.timestamp,
        }
    }
}

/// The length code of a payload of `n` bytes, if there is one.
pub fn len_to_dlc(n: usize) -> (r: Option<u8>)
    ensures
        r is Some <==> spec_valid_len(n as nat),
        r is Some ==> r->0 == spec_len_to_dlc(n as nat),
{
    if n <= 8 {
        Some(n as u8)
    } else if n == 12 {
        Some(9)
    } else if n == 16 {
        Some(10)
    } else if n == 20 {
        Some(11)
    } else if n == 24 {
        Some(12)
    } else if n == 32 {
        Some(13)
    } else if n == 48 {
        Some(14)
    } else if n == 64 {
        Some(15)
    } else {
        None
    }
}

impl Clone for CanFrame {
    fn clone(&self) -> (copy: Self)
        ensures
            copy@ == self@,
    {
        let data = crate::bytes::copy_range(self.data.as_slice(), 0, self.data.len());
        assert(data@ =~= self.data@);
        CanFrame {
            id: self.id,
            extended: self.extended,
            rtr: self.rtr,
            error: self.error,
            dlc: self.dlc,
            data,
            timestamp: self.timestamp,
        }
    }
}

impl CanFrame {
    /// Whether the frame obeys the rules of [`spec_frame_valid`].
    pub open spec fn wf(&self) -> bool {
        spec_frame_valid(self@)
    }

    fn build(id: u32, extended: bool, data: &[u8]) -> (r: Result<CanFrame, FrameError>)
        ensures
            match r {
                Ok(f) => {
                    &&& id <= (if extended { CAN_EFF_MASK } else { CAN_SFF_MASK })
                    &&& spec_valid_len(data@.len())
                    &&& f@ == (FrameView { extended, ..spec_standard(id, data@) })
                    &&& f.wf()
                },
                Err(e) => if id > (if extended { CAN_EFF_MASK } else { CAN_SFF_MASK }) {
                    e == FrameError::InvalidId
                } else {
                    e == FrameError::InvalidLength && !spec_valid_len(data@.len())
                },
            },
    {
        let limit: u32 = if extended { CAN_EFF_MASK } else { CAN_SFF_MASK };
        if id > limit {
            return Err(FrameError::InvalidId);
        }
        match len_to_dlc(data.len()) {
            None => Err(FrameError::InvalidLength),
            Some(dlc) => {
                let payload = crate::bytes::copy_range(data, 0, data.len());
                assert(payload@ =~= data@);
                Ok(CanFrame { id, extended, rtr: false, error: false, dlc, data: payload, timestamp: None })
            },
        }
    }

    /// A standard data frame. The identifier must fit in 11 bits and the
    /// payload length must be one a length code stands for.
    pub fn new(id: u32, data: &[u8]) -> (r: Result<CanFrame, FrameError>)
        ensures
            match r {
                Ok(f) => {
                    &&& id <= CAN_SFF_MASK
                    &&& spec_valid_len(data@.len())
                    &&& f@ == spec_standard(id, data@)
                    &&& f.wf()
                },
                Err(e) => if id > CAN_SFF_MASK {
                    e == FrameError::InvalidId
                } else {
                    e == FrameError::InvalidLength && !spec_valid_len(data@.len())
                },
            },
    {
        CanFrame::build(id, false, data)
    }

    /// An extended data frame. The identifier must fit in 29 bits and the
    /// payload length must be one a length code stands for.
    pub fn new_eff(id: u32, data: &[u8]) -> (r: Result<CanFrame, FrameError>)
        ensures
            match r {
                Ok(f) => {
                    &&& id <= CAN_EFF_MASK
                    &&& spec_valid_len(data@.len())
                    &&& f@ == spec_extended(id, data@)
                    &&& f.wf()
                },
                Err(e) => if id > CAN_EFF_MASK {
                    e == FrameError::InvalidId
                } else {
                    e == FrameError::InvalidLength && !spec_valid_len(data@.len())
                },
            },
    {
        CanFrame::build(id, true, data)
    }

    /// A remote request for `len` bytes, at most eight.
    pub fn new_remote(id: u32, len: usize, extended: bool) -> (r: Result<CanFrame, FrameError>)
        ensures
            match r {
                Ok(f) => {
                    &&& id <= (if extended { CAN_EFF_MASK } else { CAN_SFF_MASK })
                    &&& len <= 8
                    &&& f@ == spec_remote(id, len as nat, extended)
                    &&& f.wf()
                },
                Err(e) => if id > (if extended { CAN_EFF_MASK } else { CAN_SFF_MASK }) {
                    e == FrameError::InvalidId
                } else {
                    e == FrameError::InvalidLength && len > 8
                },
            },
    {
        let limit: u32 = if extended { CAN_EFF_MASK } else { CAN_SFF_MASK };
        if id > limit {
            return Err(FrameError::InvalidId);
        }
        if len > 8 {
            return Err(FrameError::InvalidLength);
        }
        let mut data: Vec<u8> = Vec::new();
        crate::bytes::push_zeros(&mut data, len);
        assert(data@ =~= Seq::new(len as nat, |i: int| 0u8));
        Ok(CanFrame { id, extended, rtr: true, error: false, dlc: len as u8, data, timestamp: None })
    }

    /// An error frame carrying the error class bits in `id`.
    pub fn new_error(id: u32) -> (r: Result<CanFrame, FrameError>)
        ensures
            match r {
                Ok(f) => id <= CAN_EFF_MASK && f@ == spec_error(id) && f.wf(),
                Err(e) => id > CAN_EFF_MASK && e == FrameError::InvalidId,
            },
    {
        if id > CAN_EFF_MASK {
            return Err(FrameError::InvalidId);
        }
        Ok(CanFrame { id, extended: false, rtr: false, error: true, dlc: 0, data: Vec::new(), timestamp: None })
    }

    /// The identifier.
    pub fn id(&self) -> (r: u32)
        ensures
            r == self@.id,
    {
        self.id
    }

    /// Whether the identifier has 29 bits.
    pub fn is_extended(&self) -> (r: bool)
        ensures
            r == self@.extended,
    {
        self.extended
    }

    /// Whether this is a remote request.
    pub fn is_rtr(&self) -> (r: bool)
        ensures
            r == self@.rtr,
    {
        self.rtr
    }

    /// Whether this is an error frame.
    pub fn is_error(&self) -> (r: bool)
        ensures
            r == self@.error,
    {
        self.error
    }

    /// The length code.
    pub fn dlc(&self) -> (r: u8)
        ensures
            r == self@.dlc,
    {
        self.dlc
    }

    /// The payload.
    pub fn data(&self) -> (r: &[u8])
        ensures
            r@ == self@.data,
    {
        self.data.as_slice()
    }

    /// Microseconds since the adapter booted, where the adapter reported them.
    pub fn timestamp(&self) -> (r: Option<u64>)
        ensures
            r == self@.timestamp,
    {
        self.timestamp
    }

    /// Replaces the timestamp and nothing else.
    pub fn set_timestamp(&mut self, timestamp: Option<u64>)
        ensures
            final(self)@ == (FrameView { timestamp, ..old(self)@ }),
    {
        self.timestamp = timestamp;
    }
}

/// The views of the frames in a vector, in order.
pub open spec fn spec_views(frames: Seq<CanFrame>) -> Seq<FrameView> {
    Seq::new(frames.len(), |i: int| frames[i]@)
}

/// Whether every frame in a vector obeys the frame rules.
pub open spec fn spec_all_wf(frames: Seq<CanFrame>) -> bool {
    forall|i: int| 0 <= i < frames.len() ==> (#[trigger] frames[i]).wf()
}

} // verus!
