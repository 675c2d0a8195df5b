//! Severity for the two paths on which engine diagnostics reach the log: the
//! SAPI log callback and the last-error slot drained at worker teardown. The
//! tables live together because they have to agree on deprecations.

use vstd::prelude::*;

verus! {

/// A log level, from the most to the least severe.
#[derive(Clone, Copy, Debug, PartialEq, Eq, PartialOrd, Ord, Structural)]
pub enum Level {
    Error,
    Warn,
    Info,
    Debug,
    Trace,
}

/// What a diagnostic is called.
#[derive(Clone, Copy, Debug, PartialEq, Eq, Structural)]
pub enum Label {
    Fatal,
    Warning,
    Notice,
    Deprecated,
    Unknown,
}

pub const E_ERROR: u32 = 1;

pub const E_WARNING: u32 = 2;

pub const E_PARSE: u32 = 4;

pub const E_NOTICE: u32 = 8;

pub const E_CORE_ERROR: u32 = 16;

pub const E_CORE_WARNING: u32 = 32;

pub const E_COMPILE_ERROR: u32 = 64;

pub const E_COMPILE_WARNING: u32 = 128;

pub const E_USER_ERROR: u32 = 256;

pub const E_USER_WARNING: u32 = 512;

pub const E_USER_NOTICE: u32 = 1024;

pub const E_RECOVERABLE_ERROR: u32 = 4096;

pub const E_DEPRECATED: u32 = 8192;

pub const E_USER_DEPRECATED: u32 = 16384;

/// `E_CORE_ERROR | E_CORE_WARNING`.
pub const E_CORE: u32 = 48;

/// `E_ERROR | E_PARSE | E_CORE_ERROR | E_COMPILE_ERROR | E_USER_ERROR | E_RECOVERABLE_ERROR`.
pub const E_FATAL_ERRORS: u32 = 4437;

/// `E_WARNING | E_CORE_WARNING | E_COMPILE_WARNING | E_USER_WARNING`.
pub const WARNINGS: u32 = 674;

/// `E_NOTICE | E_USER_NOTICE`.
pub const NOTICES: u32 = 1032;

/// `E_DEPRECATED | E_USER_DEPRECATED`.
pub const DEPRECATIONS: u32 = 24576;

/// Whether two sets of bits share one.
pub open spec fn shares(a: u32, b: u32) -> bool {
    a & b != 0
}

/// The groups are what their comments say.
pub proof fn the_groups_hold_their_members()
    ensures
        E_CORE == E_CORE_ERROR | E_CORE_WARNING,
        E_FATAL_ERRORS == E_ERROR | E_PARSE | E_CORE_ERROR | E_COMPILE_ERROR | E_USER_ERROR
            | E_RECOVERABLE_ERROR,
        WARNINGS == E_WARNING | E_CORE_WARNING | E_COMPILE_WARNING | E_USER_WARNING,
        NOTICES == E_NOTICE | E_USER_NOTICE,
        DEPRECATIONS == E_DEPRECATED | E_USER_DEPRECATED,
{
    assert(16u32 | 32u32 == 48u32) by (bit_vector);
    assert(1u32 | 4u32 | 16u32 | 64u32 | 256u32 | 4096u32 == 4437u32) by (bit_vector);
    assert(2u32 | 32u32 | 128u32 | 512u32 == 674u32) by (bit_vector);
    assert(8u32 | 1024u32 == 1032u32) by (bit_vector);
    assert(8192u32 | 16384u32 == 24576u32) by (bit_vector);
}

/// An engine integer as bits.
pub open spec fn bits(x: i32) -> u32 {
    if x < 0 {
        (x + 0x1_0000_0000) as u32
    } else {
        x as u32
    }
}

pub(crate) fn to_bits(x: i32) -> (r: u32)
    ensures
        r == bits(x),
{
    if x < 0 {
        (x as i64 + 0x1_0000_0000) as u32
    } else {
        x as u32
    }
}

/// The level and label of an error type, its mask aside. Fatal bits win when
/// more than one is set; a type that no group knows stays visible.
pub open spec fn plain_level(t: u32) -> (Level, Label) {
    if shares(t, E_FATAL_ERRORS) {
        (Level::Error, Label::Fatal)
    } else if shares(t, WARNINGS) {
        (Level::Warn, Label::Warning)
    } else if shares(t, NOTICES) {
        (Level::Info, Label::Notice)
    } else if shares(t, DEPRECATIONS) {
        (Level::Debug, Label::Deprecated)
    } else {
        (Level::Warn, Label::Unknown)
    }
}

/// Whether the reporting mask silences a type. Fatals and core diagnostics are
/// exempt, and so is the type that has no bit at all.
pub open spec fn masked(t: u32, mask: u32) -> bool {
    t != 0 && !shares(t, E_FATAL_ERRORS) && !shares(t, mask | E_CORE)
}

/// The level and label of an error type under a reporting mask: a masked one
/// drops to `Trace` and keeps its label.
pub open spec fn error_level(t: u32, mask: u32) -> (Level, Label) {
    if masked(t, mask) {
        (Level::Trace, plain_level(t).1)
    } else {
        plain_level(t)
    }
}

/// The wording of a label.
pub open spec fn label_text(l: Label) -> Seq<char> {
    match l {
        Label::Fatal => "Fatal error"@,
        Label::Warning => "Warning"@,
        Label::Notice => "Notice"@,
        Label::Deprecated => "Deprecated"@,
        Label::Unknown => "Unknown error"@,
    }
}

impl Label {
    /// The wording of the label.
    pub fn text(self) -> (r: &'static str)
        ensures
            r@ == label_text(self),
    {
        match self {
            Label::Fatal => "Fatal error",
            Label::Warning => "Warning",
            Label::Notice => "Notice",
            Label::Deprecated => "Deprecated",
            Label::Unknown => "Unknown error",
        }
    }
}

/// Level and label for the engine's last error type under its reporting mask.
pub fn error_type_to_level(err_type: i32, mask: i32) -> (r: (Level, &'static str))
    ensures
        r.0 == error_level(bits(err_type), bits(mask)).0,
        r.1@ == label_text(error_level(bits(err_type), bits(mask)).1),
{
    let t: u32 = to_bits(err_type);
    let m: u32 = to_bits(mask);
    let (level, label): (Level, Label) = if t & E_FATAL_ERRORS != 0 {
        (Level::Error, Label::Fatal)
    } else if t & WARNINGS != 0 {
        (Level::Warn, Label::Warning)
    } else if t & NOTICES != 0 {
        (Level::Info, Label::Notice)
    } else if t & DEPRECATIONS != 0 {
        (Level::Debug, Label::Deprecated)
    } else {
        (Level::Warn, Label::Unknown)
    };
    if t != 0 && t & E_FATAL_ERRORS == 0 && t & (m | E_CORE) == 0 {
        return (Level::Trace, label.text());
    }
    (level, label.text())
}

/// The level of a syslog priority. The engine reports deprecations as LOG_INFO;
/// a priority off the scale reports at `Info`.
pub open spec fn syslog_level(priority: i32) -> Level {
    if 0 <= priority <= 3 {
        Level::Error
    } else if priority == 4 {
        Level::Warn
    } else if priority == 6 || priority == 7 {
        Level::Debug
    } else {
        Level::Info
    }
}

/// The level of a syslog priority.
pub fn syslog_to_level(priority: i32) -> (r: Level)
    ensures
        r == syslog_level(priority),
{
    match priority {
        0 => Level::Error,
        1 => Level::Error,
        2 => Level::Error,
        3 => Level::Error,
        4 => Level::Warn,
        5 => Level::Info,
        6 => Level::Debug,
        7 => Level::Debug,
        _ => Level::Info,
    }
}

/// No mask silences a fatal: it is the only account of why a worker recycled.
pub proof fn fatals_are_never_masked(t: u32, mask: u32)
    requires
        shares(t, E_FATAL_ERRORS),
    ensures
        error_level(t, mask) == (Level::Error, Label::Fatal),
{
}

/// Both paths sort deprecations below `Info`.
pub proof fn both_paths_agree_on_deprecations(mask: u32)
    ensures
        error_level(E_DEPRECATED, mask).0 == Level::Debug || error_level(E_DEPRECATED, mask).0
            == Level::Trace,
        error_level(E_USER_DEPRECATED, mask).0 == Level::Debug || error_level(
            E_USER_DEPRECATED,
            mask,
        ).0 == Level::Trace,
        syslog_level(6) == Level::Debug,
{
    assert(8192u32 & 4437u32 == 0) by (bit_vector);
    assert(8192u32 & 674u32 == 0) by (bit_vector);
    assert(8192u32 & 1032u32 == 0) by (bit_vector);
    assert(8192u32 & 24576u32 != 0) by (bit_vector);
    assert(16384u32 & 4437u32 == 0) by (bit_vector);
    assert(16384u32 & 674u32 == 0) by (bit_vector);
    assert(16384u32 & 1032u32 == 0) by (bit_vector);
    assert(16384u32 & 24576u32 != 0) by (bit_vector);
}

} // verus!
