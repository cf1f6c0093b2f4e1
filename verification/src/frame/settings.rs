//! SETTINGS frames.

use crate::frame::control::ACK;
use crate::frame::head::{spec_u32_be, unpack_u32, Head};
use crate::frame::Error;
use vstd::prelude::*;

verus! {

/// Size of the header compression table that a decoder starts with.
pub const DEFAULT_SETTINGS_HEADER_TABLE_SIZE: usize = 4096;

/// Smallest value of the largest frame size that a peer may announce.
pub const DEFAULT_MAX_FRAME_SIZE: u32 = 16384;

/// Largest frame size that a peer may announce.
pub const MAX_MAX_FRAME_SIZE: u32 = 16777215;

/// Largest initial window size that a peer may announce.
pub const MAX_INITIAL_WINDOW_SIZE: u32 = 0x7fff_ffff;

/// The settings that one SETTINGS frame carries. A setting that the frame
/// does not mention is `None`.
#[derive(Debug, Clone, Copy, PartialEq, Eq, Structural)]
pub struct Settings {
    pub ack: bool,
    pub header_table_size: Option<u32>,
    pub enable_push: Option<u32>,
    pub max_concurrent_streams: Option<u32>,
    pub initial_window_size: Option<u32>,
    pub max_frame_size: Option<u32>,
    pub max_header_list_size: Option<u32>,
}

/// The identifier of the `i`-th entry of a SETTINGS payload.
pub open spec fn spec_entry_id(payload: Seq<u8>, i: int) -> u16 {
    (payload[6 * i] * 0x100 + payload[6 * i + 1]) as u16
}

/// The value of the `i`-th entry of a SETTINGS payload.
pub open spec fn spec_entry_value(payload: Seq<u8>, i: int) -> u32 {
    spec_u32_be(payload[6 * i + 2], payload[6 * i + 3], payload[6 * i + 4], payload[6 * i + 5])
}

impl Settings {
    /// A frame that mentions no setting.
    pub open spec fn spec_empty() -> Settings {
        Settings {
            ack: false,
            header_table_size: None,
            enable_push: None,
            max_concurrent_streams: None,
            initial_window_size: None,
            max_frame_size: None,
            max_header_list_size: None,
        }
    }

    /// These settings with one more entry taken in. An entry with an
    /// unknown identifier is passed over; a value outside the range of its
    /// setting is refused.
    pub open spec fn spec_with_entry(self, id: u16, val: u32) -> Result<Settings, Error> {
        if id == 1 {
            Ok(Settings { header_table_size: Some(val), ..self })
        } else if id == 2 {
            if val == 0 || val == 1 {
                Ok(Settings { enable_push: Some(val), ..self })
            } else {
                Err(Error::InvalidSettingValue)
            }
        } else if id == 3 {
            Ok(Settings { max_concurrent_streams: Some(val), ..self })
        } else if id == 4 {
            if val <= MAX_INITIAL_WINDOW_SIZE {
                Ok(Settings { initial_window_size: Some(val), ..self })
            } else {
                Err(Error::InvalidSettingValue)
            }
        } else if id == 5 {
            if DEFAULT_MAX_FRAME_SIZE <= val <= MAX_MAX_FRAME_SIZE {
                Ok(Settings { max_frame_size: Some(val), ..self })
            } else {
                Err(Error::InvalidSettingValue)
            }
        } else if id == 6 {
            Ok(Settings { max_header_list_size: Some(val), ..self })
        } else {
            Ok(self)
        }
    }

    /// What the first `n` entries of a payload amount to, taken in order.
    pub open spec fn spec_entries(payload: Seq<u8>, n: nat) -> Result<Settings, Error>
        decreases n,
    {
        if n == 0 {
            Ok(Settings::spec_empty())
        } else {
            match Settings::spec_entries(payload, (n - 1) as nat) {
                Ok(settings) => settings.spec_with_entry(
                    spec_entry_id(payload, n - 1),
                    spec_entry_value(payload, n - 1),
                ),
                Err(e) => Err(e),
            }
        }
    }

    /// What a SETTINGS frame with this head and payload decodes to.
    pub open spec fn spec_load(head: Head, payload: Seq<u8>) -> Result<Settings, Error> {
        if head.stream_id.0 != 0 {
            Err(Error::InvalidStreamId)
        } else if head.flag & ACK == ACK {
            if payload.len() == 0 {
                Ok(Settings { ack: true, ..Settings::spec_empty() })
            } else {
                Err(Error::InvalidPayloadLength)
            }
        } else if payload.len() % 6 != 0 {
            Err(Error::InvalidPayloadAckSettings)
        } else {
            Settings::spec_entries(payload, payload.len() / 6)
        }
    }

    /// A frame that mentions no setting.
    pub fn new() -> (settings: Settings)
        ensures
            settings == Settings::spec_empty(),
    {
        Settings {
            ack: false,
            header_table_size: None,
            enable_push: None,
            max_concurrent_streams: None,
            initial_window_size: None,
            max_frame_size: None,
            max_header_list_size: None,
        }
    }

    /// The acknowledgement of a SETTINGS frame.
    pub fn ack() -> (settings: Settings)
        ensures
            settings == (Settings { ack: true, ..Settings::spec_empty() }),
    {
        Settings {
            ack: true,
            header_table_size: None,
            enable_push: None,
            max_concurrent_streams: None,
            initial_window_size: None,
            max_frame_size: None,
            max_header_list_size: None,
        }
    }

    /// Takes one entry in.
    fn with_entry(self, id: u16, val: u32) -> (res: Result<Settings, Error>)
        ensures
            res == self.spec_with_entry(id, val),
    {
        let mut settings = self;
        if id == 1 {
            settings.header_table_size = Some(val);
        } else if id == 2 {
            if val == 0 || val == 1 {
                settings.enable_push = Some(val);
            } else {
                return Err(Error::InvalidSettingValue);
            }
        } else if id == 3 {
            settings.max_concurrent_streams = Some(val);
        } else if id == 4 {
            if val <= MAX_INITIAL_WINDOW_SIZE {
                settings.initial_window_size = Some(val);
            } else {
                return Err(Error::InvalidSettingValue);
            }
        } else if id == 5 {
            if DEFAULT_MAX_FRAME_SIZE <= val && val <= MAX_MAX_FRAME_SIZE {
                settings.max_frame_size = Some(val);
            } else {
                return Err(Error::InvalidSettingValue);
            }
        } else if id == 6 {
            settings.max_header_list_size = Some(val);
        }
        Ok(settings)
    }

    /// Decodes a SETTINGS frame from its head and payload.
    pub fn load(head: Head, payload: &[u8]) -> (res: Result<Settings, Error>)
        ensures
            res == Settings::spec_load(head, payload@),
    {
        if head.stream_id.0 != 0 {
            return Err(Error::InvalidStreamId);
        }
        let len = payload.len();
        if head.flag & ACK == ACK {
            if len == 0 {
                return Ok(Settings::ack());
            } else {
                return Err(Error::InvalidPayloadLength);
            }
        }
        if len % 6 != 0 {
            return Err(Error::InvalidPayloadAckSettings);
        }
        let count = len / 6;
        let mut settings = Settings::new();
        let mut i: usize = 0;
        while i < count
            invariant
                head.stream_id.0 == 0,
                head.flag & ACK != ACK,
                i <= count,
                count == len / 6,
                len == payload@.len(),
                len % 6 == 0,
                Settings::spec_entries(payload@, i as nat) == Ok::<Settings, Error>(settings),
            decreases count - i,
        {
            let hi = payload[6 * i];
            let lo = payload[6 * i + 1];
            assert(((hi as u16) << 8) | (lo as u16) == (hi as u16) * 0x100 + (lo as u16))
                by (bit_vector);
            let id = ((hi as u16) << 8) | (lo as u16);
            let val = unpack_u32(payload, 6 * i + 2);
            match settings.with_entry(id, val) {
                Ok(next) => {
                    settings = next;
                },
                Err(e) => {
                    proof {
                        Settings::lemma_entries_fail(payload@, (i + 1) as nat, count as nat);
                    }
                    return Err(e);
                },
            }
            i = i + 1;
        }
        Ok(settings)
    }

    /// Once an entry is refused, the whole payload is.
    proof fn lemma_entries_fail(payload: Seq<u8>, n: nat, m: nat)
        requires
            n <= m,
            Settings::spec_entries(payload, n) is Err,
        ensures
            Settings::spec_entries(payload, m) == Settings::spec_entries(payload, n),
        decreases m,
    {
        if n < m {
            Settings::lemma_entries_fail(payload, n, (m - 1) as nat);
        }
    }

    pub fn is_ack(&self) -> (r: bool)
        ensures
            r == self.ack,
    {
        self.ack
    }

    pub fn max_concurrent_streams(&self) -> (v: Option<u32>)
        ensures
            v == self.max_concurrent_streams,
    {
        self.max_concurrent_streams
    }

    pub fn initial_window_size(&self) -> (v: Option<u32>)
        ensures
            v == self.initial_window_size,
    {
        self.initial_window_size
    }

    pub fn max_frame_size(&self) -> (v: Option<u32>)
        ensures
            v == self.max_frame_size,
    {
        self.max_frame_size
    }

    pub fn set_max_concurrent_streams(&mut self, max: Option<u32>)
        ensures
            *final(self) == (Settings { max_concurrent_streams: max, ..*old(self) }),
    {
        self.max_concurrent_streams = max;
    }

    pub fn set_initial_window_size(&mut self, size: Option<u32>)
        ensures
            *final(self) == (Settings { initial_window_size: size, ..*old(self) }),
    {
        self.initial_window_size = size;
    }
}

} // verus!
