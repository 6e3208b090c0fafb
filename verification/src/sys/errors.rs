use vstd::prelude::*;

verus! {

/// Error numbers returned to user space (negated POSIX codes).
#[derive(Debug, Clone, Copy, PartialEq, Eq, Structural)]
pub enum Errno {
    OperationNotPermitted,
    NotFound,
    IoError,
    NotExecutable,
    BadFileDescriptor,
    NoChild,
    PermissionDenied,
    InvalidArgument,
    NotADirectory,
    IsADirectory,
    OutOfMemory,
    BadAdress,
    AlreadyExists,
    ValueOverflow,
    NoSuchProcess,
}

pub open spec fn spec_errno_value(e: Errno) -> int {
    match e {
        Errno::OperationNotPermitted => -1,
        Errno::NotFound => -2,
        Errno::IoError => -5,
        Errno::NotExecutable => -8,
        Errno::BadFileDescriptor => -9,
        Errno::NoChild => -10,
        Errno::PermissionDenied => -13,
        Errno::InvalidArgument => -22,
        Errno::NotADirectory => -20,
        Errno::IsADirectory => -21,
        Errno::OutOfMemory => -12,
        Errno::BadAdress => -14,
        Errno::AlreadyExists => -17,
        Errno::ValueOverflow => -75,
        Errno::NoSuchProcess => -999,
    }
}

impl Errno {
    /// The numeric value user space sees.
    pub fn as_i64(self) -> (r: i64)
        ensures
            r == spec_errno_value(self),
    {
        match self {
            Errno::OperationNotPermitted => -1,
            Errno::NotFound => -2,
            Errno::IoError => -5,
            Errno::NotExecutable => -8,
            Errno::BadFileDescriptor => -9,
            Errno::NoChild => -10,
            Errno::PermissionDenied => -13,
            Errno::InvalidArgument => -22,
            Errno::NotADirectory => -20,
            Errno::IsADirectory => -21,
            Errno::OutOfMemory => -12,
            Errno::BadAdress => -14,
            Errno::AlreadyExists => -17,
            Errno::ValueOverflow => -75,
            Errno::NoSuchProcess => -999,
        }
    }

    /// The error with this number, if there is one.
    pub fn try_from_i64(v: i64) -> (r: Option<Errno>)
        ensures
            match r {
                Some(e) => spec_errno_value(e) == v,
                None => forall|e: Errno| spec_errno_value(e) != v,
            },
    {
        let r = match v {
            -1 => Some(Errno::OperationNotPermitted),
            -2 => Some(Errno::NotFound),
            -5 => Some(Errno::IoError),
            -8 => Some(Errno::NotExecutable),
            -9 => Some(Errno::BadFileDescriptor),
            -10 => Some(Errno::NoChild),
            -13 => Some(Errno::PermissionDenied),
            -22 => Some(Errno::InvalidArgument),
            -20 => Some(Errno::NotADirectory),
            -21 => Some(Errno::IsADirectory),
            -12 => Some(Errno::OutOfMemory),
            -14 => Some(Errno::BadAdress),
            -17 => Some(Errno::AlreadyExists),
            -75 => Some(Errno::ValueOverflow),
            -999 => Some(Errno::NoSuchProcess),
            _ => None,
        };
        proof {
            if r is None {
                assert forall|e: Errno| spec_errno_value(e) != v by {
                    match e {
                        _ => {},
                    }
                }
            }
        }
        r
    }
}

#[derive(Debug, Clone, Copy, PartialEq, Eq, Structural)]
pub enum FsError {
    NotADirectory,
    IsADirectory,
    AlreadyExistsFile,
    AlreadyExistsDir,
    InvalidPath,
    NotFound,
    PermissionDenied,
}

#[derive(Debug, Clone, Copy, PartialEq, Eq, Structural)]
pub enum ElfLoadError {
    FileSizeLargerThanMemSize,
    AlignNotPowerTwo,
    SegmentFileRangeOutOfBounds,
    SegmentVirtOutOfBounds,
    VirtAddrOverflow,
    NoEntryInAnySegment,
    ParserError,
    PhdrError,
    PhdrNotMappedByLoad,
}

#[derive(Debug, Clone, Copy, PartialEq, Eq, Structural)]
pub enum MapElfError {
    Overflow,
    OverlappingPage { va: u64 },
    OutOfFrames,
    MapFailed,
    FlagUpdateFailed,
    CopyTooLarge,
}

#[derive(Debug, Clone, Copy, PartialEq, Eq, Structural)]
pub enum ProcessError {
    Fs(FsError),
    Elf(ElfLoadError),
    MapElf(MapElfError),
    InvalidImage,
    OutOfMemory,
}

impl From<FsError> for ProcessError {
    fn from(value: FsError) -> (r: Self) {
        ProcessError::Fs(value)
    }
}

impl vstd::std_specs::convert::FromSpecImpl<FsError> for ProcessError {
    open spec fn obeys_from_spec() -> bool {
        true
    }

    open spec fn from_spec(v: FsError) -> Self {
        ProcessError::Fs(v)
    }
}

impl From<ElfLoadError> for ProcessError {
    fn from(value: ElfLoadError) -> (r: Self) {
        ProcessError::Elf(value)
    }
}

impl vstd::std_specs::convert::FromSpecImpl<ElfLoadError> for ProcessError {
    open spec fn obeys_from_spec() -> bool {
        true
    }

    open spec fn from_spec(v: ElfLoadError) -> Self {
        ProcessError::Elf(v)
    }
}

impl From<MapElfError> for ProcessError {
    fn from(value: MapElfError) -> (r: Self) {
        ProcessError::MapElf(value)
    }
}

impl vstd::std_specs::convert::FromSpecImpl<MapElfError> for ProcessError {
    open spec fn obeys_from_spec() -> bool {
        true
    }

    open spec fn from_spec(v: MapElfError) -> Self {
        ProcessError::MapElf(v)
    }
}

/// The error number a file-system error is reported as.
pub open spec fn spec_fs_errno(e: FsError) -> Errno {
    match e {
        FsError::NotFound => Errno::NotFound,
        FsError::InvalidPath => Errno::InvalidArgument,
        FsError::NotADirectory => Errno::NotADirectory,
        FsError::IsADirectory => Errno::IsADirectory,
        FsError::AlreadyExistsFile | FsError::AlreadyExistsDir => Errno::AlreadyExists,
        FsError::PermissionDenied => Errno::PermissionDenied,
    }
}

/// The error number a process-creation error is reported as.
pub open spec fn spec_process_errno(e: ProcessError) -> Errno {
    match e {
        ProcessError::OutOfMemory => Errno::OutOfMemory,
        ProcessError::InvalidImage => Errno::NotExecutable,
        ProcessError::Fs(fs) => spec_fs_errno(fs),
        ProcessError::Elf(_) => Errno::NotExecutable,
        ProcessError::MapElf(MapElfError::OutOfFrames) => Errno::OutOfMemory,
        ProcessError::MapElf(_) => Errno::IoError,
    }
}

fn fs_errno(e: FsError) -> (r: Errno)
    ensures
        r == spec_fs_errno(e),
{
    match e {
        FsError::NotFound => Errno::NotFound,
        FsError::InvalidPath => Errno::InvalidArgument,
        FsError::NotADirectory => Errno::NotADirectory,
        FsError::IsADirectory => Errno::IsADirectory,
        FsError::AlreadyExistsFile | FsError::AlreadyExistsDir => Errno::AlreadyExists,
        FsError::PermissionDenied => Errno::PermissionDenied,
    }
}

impl From<ProcessError> for Errno {
    fn from(e: ProcessError) -> (r: Self) {
        match e {
            ProcessError::OutOfMemory => Errno::OutOfMemory,
            ProcessError::InvalidImage => Errno::NotExecutable,
            ProcessError::Fs(fs) => fs_errno(fs),
            ProcessError::Elf(_elf) => Errno::NotExecutable,
            ProcessError::MapElf(map) => match map {
                MapElfError::OutOfFrames => Errno::OutOfMemory,
                MapElfError::Overflow
                | MapElfError::OverlappingPage { .. }
                | MapElfError::MapFailed
                | MapElfError::FlagUpdateFailed
                | MapElfError::CopyTooLarge => Errno::IoError,
            },
        }
    }
}

impl vstd::std_specs::convert::FromSpecImpl<ProcessError> for Errno {
    open spec fn obeys_from_spec() -> bool {
        true
    }

    open spec fn from_spec(v: ProcessError) -> Self {
        spec_process_errno(v)
    }
}

impl From<FsError> for Errno {
    fn from(e: FsError) -> (r: Self) {
        fs_errno(e)
    }
}

impl vstd::std_specs::convert::FromSpecImpl<FsError> for Errno {
    open spec fn obeys_from_spec() -> bool {
        true
    }

    open spec fn from_spec(v: FsError) -> Self {
        spec_fs_errno(v)
    }
}

} // verus!
