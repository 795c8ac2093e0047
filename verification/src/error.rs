use vstd::prelude::*;

verus! {

/// The category of an error, in the sense of `std::io::ErrorKind`.
#[derive(Debug, Clone, Copy, PartialEq, Eq, Structural)]
pub enum ErrorKind {
    UnexpectedEof,
    InvalidData,
    InvalidInput,
    Other,
}

/// Why reading the system clock failed.
#[derive(Debug, Clone, Copy, PartialEq, Eq, Structural)]
pub enum ClockError {
    /// The system clock is set before the Unix epoch.
    BeforeEpoch,
    /// The number of milliseconds since the epoch does not fit in a `u64`.
    Overflow,
}

/// The errors of the broker's parsers, each with the reason it was raised.
#[derive(Debug, Clone, PartialEq, Eq)]
pub enum IoError {
    /// A cursor was asked for more bytes than remain.
    NotEnoughBytes,
    /// An AVL frame is shorter than its fixed header and trailer.
    FrameTooShort,
    /// An AVL frame is shorter than its declared data length plus CRC.
    FrameShorterThanDataLen,
    /// An AVL frame names a codec other than Codec 8 Extended.
    UnexpectedCodec(u8),
    /// The two record counts of an AVL frame differ.
    RecordCountMismatch,
    /// Bytes are left over after the declared records.
    ExtraBytes(usize),
    /// The IO element's total differs from the sum of its group counts.
    NTotalMismatch { got: u16, computed: u16 },
    /// The system clock could not be read.
    Clock(ClockError),
    /// A Codec 12 frame is shorter than its smallest form.
    Codec12TooShort,
    /// A Codec 12 frame does not start with four zero bytes.
    Codec12MissingPreamble,
    /// A Codec 12 frame's length differs from its declared data length.
    Codec12LengthMismatch,
    /// A Codec 12 frame's CRC does not match its data.
    Codec12CrcMismatch { expected: u32, actual: u32 },
    /// A Codec 12 frame names another codec.
    Codec12UnexpectedCodecId(u8),
    /// A Codec 12 frame is not a response.
    Codec12UnexpectedMessageType(u8),
    /// The two quantities of a Codec 12 frame differ.
    Codec12QuantityMismatch,
    /// A Codec 12 response is not UTF-8.
    Codec12NotUtf8,
    /// A frame is too short to read its codec id.
    FrameTooShortToClassify,
    /// A command subject has neither accepted shape.
    UnexpectedCommandSubject(String),
    /// The IMEI segment of a command subject is not all digits.
    InvalidImeiInSubject(String),
    /// A setting is not an integer of its type.
    NotAnInteger(String),
    /// A setting is zero or negative.
    NotPositive(String),
    /// The maximum age in hours overflows when turned into seconds.
    MaxAgeTooLarge,
    /// A command-response subject template does not end in a `*` segment.
    InvalidResponseSubjectTemplate(String),
    /// An IMEI length prefix is zero or larger than 32.
    InvalidImeiLength(usize),
    /// The IMEI bytes are not UTF-8.
    ImeiNotUtf8,
    /// The IMEI is not made of ASCII digits.
    InvalidImeiFormat(String),
}

impl IoError {
    pub open spec fn spec_kind(&self) -> ErrorKind {
        match self {
            IoError::NotEnoughBytes => ErrorKind::UnexpectedEof,
            IoError::FrameTooShort => ErrorKind::UnexpectedEof,
            IoError::FrameShorterThanDataLen => ErrorKind::UnexpectedEof,
            IoError::UnexpectedCodec(_) => ErrorKind::UnexpectedEof,
            IoError::RecordCountMismatch => ErrorKind::InvalidData,
            IoError::ExtraBytes(_) => ErrorKind::InvalidData,
            IoError::NTotalMismatch { .. } => ErrorKind::InvalidData,
            IoError::Clock(_) => ErrorKind::Other,
            IoError::Codec12TooShort => ErrorKind::UnexpectedEof,
            IoError::FrameTooShortToClassify => ErrorKind::UnexpectedEof,
            IoError::UnexpectedCommandSubject(_) => ErrorKind::InvalidInput,
            IoError::InvalidImeiInSubject(_) => ErrorKind::InvalidInput,
            IoError::NotAnInteger(_) => ErrorKind::InvalidInput,
            IoError::NotPositive(_) => ErrorKind::InvalidInput,
            IoError::MaxAgeTooLarge => ErrorKind::InvalidInput,
            IoError::InvalidResponseSubjectTemplate(_) => ErrorKind::InvalidInput,
            _ => ErrorKind::InvalidData,
        }
    }

    /// The category of this error.
    #[verifier::when_used_as_spec(spec_kind)]
    pub fn kind(&self) -> (k: ErrorKind)
        ensures
            k == self.spec_kind(),
    {
        match self {
            IoError::NotEnoughBytes => ErrorKind::UnexpectedEof,
            IoError::FrameTooShort => ErrorKind::UnexpectedEof,
            IoError::FrameShorterThanDataLen => ErrorKind::UnexpectedEof,
            IoError::UnexpectedCodec(_) => ErrorKind::UnexpectedEof,
            IoError::RecordCountMismatch => ErrorKind::InvalidData,
            IoError::ExtraBytes(_) => ErrorKind::InvalidData,
            IoError::NTotalMismatch { .. } => ErrorKind::InvalidData,
            IoError::Clock(_) => ErrorKind::Other,
            IoError::Codec12TooShort => ErrorKind::UnexpectedEof,
            IoError::FrameTooShortToClassify => ErrorKind::UnexpectedEof,
            IoError::UnexpectedCommandSubject(_) => ErrorKind::InvalidInput,
            IoError::InvalidImeiInSubject(_) => ErrorKind::InvalidInput,
            IoError::NotAnInteger(_) => ErrorKind::InvalidInput,
            IoError::NotPositive(_) => ErrorKind::InvalidInput,
            IoError::MaxAgeTooLarge => ErrorKind::InvalidInput,
            IoError::InvalidResponseSubjectTemplate(_) => ErrorKind::InvalidInput,
            _ => ErrorKind::InvalidData,
        }
    }
}

} // verus!
