use vstd::prelude::*;

verus! {

/// A decode failure. Every malformed input is reported through one of these
/// kinds instead of a panic; each carries enough context (offsets, expected
/// versus actual codes) to diagnose the failing file.
#[derive(Debug, Clone, Copy, PartialEq, Eq, Structural)]
pub enum PsfError {
    /// A read of `want` bytes starting at offset `at` would pass the end of
    /// the buffer (or, for the trailing directory, the buffer is shorter than
    /// the payload size its footer declares).
    OutOfBounds { at: usize, want: usize },
    /// The string whose bytes start at offset `at` is not valid UTF-8.
    Utf8Error { at: usize },
    /// The tag word at offset `at` held `got` where `expected` was required.
    UnexpectedTag { expected: u32, got: u32, at: usize },
    /// A directory entry carried a section-kind code outside 0..=4.
    UnknownSectionKind { got: u32 },
    /// A type record carried a data-type code outside the fixed code table.
    UnknownDataType { got: u32 },
    /// The table of contents has no entry for a section a decode stage needs.
    MissingSection { got: u32 },
    /// The file is not a windowed layout this decoder supports: a control
    /// header entry is absent, not an integer, or out of range, or the sweep
    /// list does not hold exactly the required number of variables.
    UnsupportedLayout,
    /// A signal's resolved data type is neither `Real` nor `Complex`, so its
    /// value blocks cannot be decoded.
    UnsupportedDataType { got: u32 },
    /// A window declared more samples than fit in one `window_size`-byte slab.
    WindowOverflow { at: usize },
    /// A signal's `type_id` does not resolve in the type section.
    UnresolvedType { type_id: u32 },
    /// Two leaf signals in the trace section share one trace identifier.
    DuplicateTraceId { id: u32 },
    /// The sweep variable's name collides with a data signal's name.
    SweepSignalNameCollision,
    /// A value record names a signal that the trace section does not declare.
    UndeclaredSignal,
    /// The windows did not close exactly on the header's sweep-point count,
    /// a value record of the human-readable dialect did not carry exactly
    /// one sample, or an operating-point signal carried a sample count other
    /// than one.
    InconsistentSampleCount,
}

/// Maps a parsing step's result onto its mathematical model: the decoded
/// value's view paired with the cursor position after the step.
pub open spec fn step_view<T: View>(r: Result<(T, usize), PsfError>) -> Result<
    (T::V, int),
    PsfError,
> {
    match r {
        Ok((v, p)) => Ok((v@, p as int)),
        Err(e) => Err(e),
    }
}

} // verus!
