//! Error kinds shared by every kernel subsystem in this crate.

use vstd::prelude::*;

verus! {

/// Memory-subsystem failures.
#[derive(Debug, Clone, Copy, PartialEq, Eq)]
pub enum MemoryError {
    HeapInitFailed,
    AllocationFailed,
    PageMappingFailed,
    InvalidFrameAllocation,
}

/// Device-driver failures.
#[derive(Debug, Clone, Copy, PartialEq, Eq)]
pub enum DeviceError {
    InitFailed,
    NotResponding,
    Timeout,
    InvalidOperation,
    DriverNotFound,
}

/// Filesystem-layer failures.
#[derive(Debug, Clone, Copy, PartialEq, Eq)]
pub enum FilesystemError {
    MountFailed,
    FileNotFound,
    PermissionDenied,
    ReadError,
    WriteError,
    FormatError,
    DirectoryNotEmpty,
    NotADirectory,
    NotAFile,
}

/// Task-scheduler failures.
#[derive(Debug, Clone, Copy, PartialEq, Eq)]
pub enum TaskError {
    SchedulerInitFailed,
    InvalidTaskState,
    TaskCreationFailed,
    DeadlockDetected,
}

/// The error type returned by every fallible kernel operation.
#[derive(Debug, Clone, Copy, PartialEq, Eq)]
pub enum KernelError {
    MemoryError(MemoryError),
    DeviceError(DeviceError),
    FilesystemError(FilesystemError),
    TaskError(TaskError),
    ValidationError(&'static str),
    GenericError(&'static str),
    NotImplemented,
    NotInitialized,
    InvalidParameter,
    InvalidHandle,
    NotFound,
    AlreadyExists,
    NotADirectory,
    NotAFile,
    DirectoryNotEmpty,
    IoError,
    ReadError,
    WriteError,
    BufferTooSmall,
    InvalidData,
    UnsupportedFeature,
    DeviceNotFound,
    DeviceNotInitialized,
    DeviceTimeout,
    IsADirectory,
    DirectoryFull,
    InvalidOperation,
    InitializationFailed,
    OutOfMemory,
}

impl KernelError {
    /// A short human-readable description of the error kind.
    pub fn to_str(&self) -> (r: &'static str)
        ensures
            r@ =~= self.str_spec(),
    {
        match self {
            KernelError::MemoryError(_) => "Memory error",
            KernelError::DeviceError(_) => "Device error",
            KernelError::FilesystemError(_) => "Filesystem error",
            KernelError::TaskError(_) => "Task error",
            KernelError::ValidationError(_) => "Validation error",
            KernelError::GenericError(_) => "Generic error",
            KernelError::NotImplemented => "Not implemented",
            KernelError::NotInitialized => "Not initialized",
            KernelError::InvalidParameter => "Invalid parameter",
            KernelError::InvalidHandle => "Invalid handle",
            KernelError::NotFound => "Not found",
            KernelError::AlreadyExists => "Already exists",
            KernelError::NotADirectory => "Not a directory",
            KernelError::NotAFile => "Not a file",
            KernelError::DirectoryNotEmpty => "Directory not empty",
            KernelError::IoError => "I/O error",
            KernelError::ReadError => "Read error",
            KernelError::WriteError => "Write error",
            KernelError::BufferTooSmall => "Buffer too small",
            KernelError::InvalidData => "Invalid data",
            KernelError::UnsupportedFeature => "Unsupported feature",
            KernelError::DeviceNotFound => "Device not found",
            KernelError::DeviceNotInitialized => "Device not initialized",
            KernelError::DeviceTimeout => "Device timeout",
            KernelError::IsADirectory => "Is a directory",
            KernelError::DirectoryFull => "Directory full",
            KernelError::InvalidOperation => "Invalid operation",
            KernelError::InitializationFailed => "Initialization failed",
            KernelError::OutOfMemory => "Out of memory",
        }
    }

    /// The description `to_str` returns, as a sequence of characters.
    pub open spec fn str_spec(&self) -> Seq<char> {
        match self {
            KernelError::MemoryError(_) => "Memory error"@,
            KernelError::DeviceError(_) => "Device error"@,
            KernelError::FilesystemError(_) => "Filesystem error"@,
            KernelError::TaskError(_) => "Task error"@,
            KernelError::ValidationError(_) => "Validation error"@,
            KernelError::GenericError(_) => "Generic error"@,
            KernelError::NotImplemented => "Not implemented"@,
            KernelError::NotInitialized => "Not initialized"@,
            KernelError::InvalidParameter => "Invalid parameter"@,
            KernelError::InvalidHandle => "Invalid handle"@,
            KernelError::NotFound => "Not found"@,
            KernelError::AlreadyExists => "Already exists"@,
            KernelError::NotADirectory => "Not a directory"@,
            KernelError::NotAFile => "Not a file"@,
            KernelError::DirectoryNotEmpty => "Directory not empty"@,
            KernelError::IoError => "I/O error"@,
            KernelError::ReadError => "Read error"@,
            KernelError::WriteError => "Write error"@,
            KernelError::BufferTooSmall => "Buffer too small"@,
            KernelError::InvalidData => "Invalid data"@,
            KernelError::UnsupportedFeature => "Unsupported feature"@,
            KernelError::DeviceNotFound => "Device not found"@,
            KernelError::DeviceNotInitialized => "Device not initialized"@,
            KernelError::DeviceTimeout => "Device timeout"@,
            KernelError::IsADirectory => "Is a directory"@,
            KernelError::DirectoryFull => "Directory full"@,
            KernelError::InvalidOperation => "Invalid operation"@,
            KernelError::InitializationFailed => "Initialization failed"@,
            KernelError::OutOfMemory => "Out of memory"@,
        }
    }
}

/// Checks that the memory subsystem reached a usable state.  The heap flag is
/// handed in by the boot code that owns the allocator.
pub fn validate_memory_subsystem(heap_initialized: bool) -> (r: Result<(), KernelError>)
    ensures
        r is Ok <==> heap_initialized,
        !heap_initialized ==> r == Result::<(), KernelError>::Err(
            KernelError::MemoryError(MemoryError::HeapInitFailed),
        ),
{
    if !heap_initialized {
        return Err(KernelError::MemoryError(MemoryError::HeapInitFailed));
    }
    Ok(())
}

/// Checks the interrupt subsystem; the storage stack has nothing to verify
/// here, so the check always passes.
pub fn validate_interrupt_system() -> (r: Result<(), KernelError>)
    ensures
        r is Ok,
{
    Ok(())
}

/// Runs every subsystem validation in order and reports the first failure.
pub fn perform_system_checks(heap_initialized: bool) -> (r: Result<(), KernelError>)
    ensures
        r is Ok <==> heap_initialized,
        !heap_initialized ==> r == Result::<(), KernelError>::Err(
            KernelError::MemoryError(MemoryError::HeapInitFailed),
        ),
{
    validate_memory_subsystem(heap_initialized)?;
    validate_interrupt_system()?;
    Ok(())
}

} // verus!
