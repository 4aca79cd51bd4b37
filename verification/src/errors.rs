use vstd::prelude::*;
use vstd::std_specs::convert::FromSpecImpl;
use crate::adpcm::ima::ImaAdpcmError;

verus! {

/// The kinds of I/O errors, as the standard library's `std::io::ErrorKind` names them.
#[derive(Clone, Copy, Debug, PartialEq, Eq)]
pub enum ErrorKind {
    NotFound,
    PermissionDenied,
    ConnectionRefused,
    ConnectionReset,
    ConnectionAborted,
    NotConnected,
    AddrInUse,
    AddrNotAvailable,
    BrokenPipe,
    AlreadyExists,
    WouldBlock,
    InvalidInput,
    InvalidData,
    TimedOut,
    WriteZero,
    Interrupted,
    Unsupported,
    UnexpectedEof,
    OutOfMemory,
    Other,
}

/// * The error info from `std::io::Error` but this must contains the message
#[derive(Clone, Debug)]
pub struct IOErrorInfo {
    pub kind: ErrorKind,
    pub message: String,
}

impl IOErrorInfo {
    pub fn new(kind: ErrorKind, message: String) -> (r: Self)
        ensures
            r.kind == kind,
            r.message == message,
    {
        Self { kind, message }
    }
}

/// The error info for reading an audio file
#[derive(Clone, Debug)]
pub enum AudioReadError {
    IncompleteFile(u64),
    IncompleteData(String),
    BufferTooSmall(String),
    InvalidArguments(String),
    IOError(IOErrorInfo),
    MissingData(String),
    FormatError(String),
    InvalidData(String),
    Unimplemented(String),
    Unsupported(String),
    UnexpectedFlag(String, String),
    StringDecodeError(Vec<u8>),
    OtherReason(String),
}

impl AudioReadError {
    /// An I/O error of the kind "unexpected end of file", with `message`.
    #[allow(non_snake_case)]
    pub fn UnexpectedEof(message: String) -> (r: Self)
        ensures
            r matches AudioReadError::IOError(info) && info.kind == ErrorKind::UnexpectedEof && info.message == message,
    {
        Self::IOError(IOErrorInfo::new(ErrorKind::UnexpectedEof, message))
    }
}

impl From<ImaAdpcmError> for AudioReadError {
    fn from(imaerr: ImaAdpcmError) -> (r: Self) {
        match imaerr {
            ImaAdpcmError::InvalidArgument(info) => Self::InvalidArguments(info),
        }
    }
}

impl FromSpecImpl<ImaAdpcmError> for AudioReadError {
    open spec fn obeys_from_spec() -> bool {
        true
    }

    /// An invalid argument to the ADPCM-IMA coder is an invalid argument to the reader, with the
    /// same text.
    open spec fn from_spec(imaerr: ImaAdpcmError) -> AudioReadError {
        match imaerr {
            ImaAdpcmError::InvalidArgument(info) => AudioReadError::InvalidArguments(info),
        }
    }
}

/// The error info for writing an audio file
#[derive(Clone, Debug)]
pub enum AudioWriteError {
    InvalidArguments(String),
    InvalidInput(String),
    InvalidData(String),
    IOError(IOErrorInfo),
    Unsupported(String),
    Unimplemented(String),
    AlreadyFinished(String),
    NotPreparedFor4GBFile,
    ChunkSizeTooBig(String),
    StringDecodeError(Vec<u8>),
    BufferIsFull(String),
    ChannelsNotInSameSize,
    FrameChannelsNotSame,
    WrongChannels(String),
    TruncatedSamples,
    MissingData(String),
    OtherReason(String),
}

/// The error info for processing an audio file
#[derive(Clone, Debug)]
pub enum AudioError {
    GuessChannelMaskFailed(u16),
    ChannelNotMatchMask,
    ChannekMaskNotMatch(String),
    Unparseable(String),
    InvalidData(String),
    NoSuchData(String),
    Unimplemented(String),
    InvalidArguments(String),
    WrongExtensionData(String),
}

} // verus!
