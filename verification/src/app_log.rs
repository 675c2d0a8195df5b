//! The script-facing log call: its level, and its context with throwables
//! flattened. Engine values are known by their handles.

use vstd::prelude::*;
use vstd::utf8::encode_utf8;
use crate::diagnostics::Level;
use crate::fields::{copy_bytes, same_bytes};
use crate::text::{lossy, lossy_text};

verus! {

/// How deep a chain of previous throwables is followed.
pub const CHAIN_DEPTH: u32 = 4;

/// A throwable: its class name, the handles of its properties, and the
/// throwable before it.
pub struct Throwable {
    pub class: Vec<u8>,
    pub message: u64,
    pub code: u64,
    pub file: u64,
    pub line: u64,
    pub previous: Option<Box<Throwable>>,
}

/// A throwable as an array: the same keys, the chain cut at a depth.
pub struct Flat {
    pub class: Vec<u8>,
    pub message: u64,
    pub code: u64,
    pub file: u64,
    pub line: u64,
    pub previous: Option<Box<Flat>>,
}

/// A flattened throwable shows a throwable, followed down to `depth`.
pub open spec fn shows(f: Flat, t: Throwable, depth: nat) -> bool
    decreases depth,
{
    &&& f.class@ == t.class@
    &&& f.message == t.message
    &&& f.code == t.code
    &&& f.file == t.file
    &&& f.line == t.line
    &&& if depth == 0 {
        f.previous is None
    } else {
        match (f.previous, t.previous) {
            (Some(g), Some(u)) => shows(*g, *u, (depth - 1) as nat),
            (None, None) => true,
            _ => false,
        }
    }
}

/// How many throwables a flattened chain holds.
pub open spec fn links(f: Flat) -> nat
    decreases f,
{
    match f.previous {
        Some(g) => 1 + links(*g),
        None => 1,
    }
}

/// A flattened chain is never longer than the depth allows.
pub proof fn a_flat_chain_is_bounded(f: Flat, t: Throwable, depth: nat)
    requires
        shows(f, t, depth),
    ensures
        links(f) <= depth + 1,
    decreases depth,
{
    if depth > 0 {
        if let Some(g) = f.previous {
            a_flat_chain_is_bounded(*g, *t.previous->0, (depth - 1) as nat);
        }
    }
}

/// Flattens a throwable and the chain before it, down to `depth`.
pub fn flatten_throwable(t: &Throwable, depth: u32) -> (f: Flat)
    ensures
        shows(f, *t, depth as nat),
    decreases depth,
{
    let previous: Option<Box<Flat>> = if depth == 0 {
        None
    } else {
        match &t.previous {
            Some(p) => Some(Box::new(flatten_throwable(p, depth - 1))),
            None => None,
        }
    };
    Flat {
        class: copy_bytes(t.class.as_slice()),
        message: t.message,
        code: t.code,
        file: t.file,
        line: t.line,
        previous,
    }
}

/// A key of a log context.
#[derive(Clone, Copy, Debug, PartialEq, Eq, Structural)]
pub enum ContextKey {
    /// A string key, by its handle.
    Text(u64),
    Index(u64),
}

/// A value of a log context; a reference is seen through.
pub enum ContextValue {
    Plain(u64),
    Thrown(Throwable),
}

/// A value of the context that is encoded.
pub enum RebuiltValue {
    Plain(u64),
    Flat(Flat),
}

/// A rebuilt value shows the value it stands for.
pub open spec fn shows_value(r: RebuiltValue, v: ContextValue) -> bool {
    match (r, v) {
        (RebuiltValue::Plain(a), ContextValue::Plain(b)) => a == b,
        (RebuiltValue::Flat(f), ContextValue::Thrown(t)) => shows(f, t, CHAIN_DEPTH as nat),
        _ => false,
    }
}

/// The context with every throwable flattened, whatever its key; everything
/// else is kept as it is, in order.
pub fn rebuild_context(context: &Vec<(ContextKey, ContextValue)>) -> (r: Vec<
    (ContextKey, RebuiltValue),
>)
    ensures
        r@.len() == context@.len(),
        forall|i: int|
            0 <= i < r@.len() ==> (#[trigger] r@[i]).0 == context@[i].0 && shows_value(
                r@[i].1,
                context@[i].1,
            ),
{
    let mut r: Vec<(ContextKey, RebuiltValue)> = Vec::new();
    for i in 0..context.len()
        invariant
            r@.len() == i,
            forall|k: int|
                0 <= k < r@.len() ==> (#[trigger] r@[k]).0 == context@[k].0 && shows_value(
                    r@[k].1,
                    context@[k].1,
                ),
    {
        let value: RebuiltValue = match &context[i].1 {
            ContextValue::Plain(v) => RebuiltValue::Plain(*v),
            ContextValue::Thrown(t) => RebuiltValue::Flat(flatten_throwable(t, CHAIN_DEPTH)),
        };
        r.push((context[i].0, value));
    }
    r
}

/// The level that a case of the script's level enum stands for; a call without
/// a level logs at `Info`. A case that is not known must not vanish below the
/// configured level, so it is an error.
pub open spec fn case_level(case: Option<Seq<u8>>) -> Level {
    match case {
        None => Level::Info,
        Some(c) => if c == encode_utf8("Warning"@) {
            Level::Warn
        } else if c == encode_utf8("Info"@) {
            Level::Info
        } else if c == encode_utf8("Debug"@) {
            Level::Debug
        } else if c == encode_utf8("Trace"@) {
            Level::Trace
        } else {
            Level::Error
        },
    }
}

/// The level that a case of the script's level enum stands for.
pub fn level_from_case(case: Option<&[u8]>) -> (r: Level)
    ensures
        r == case_level(
            match case {
                Some(c) => Some(c@),
                None => None,
            },
        ),
{
    match case {
        None => Level::Info,
        Some(c) => {
            if same_bytes(c, "Warning".as_bytes()) {
                Level::Warn
            } else if same_bytes(c, "Info".as_bytes()) {
                Level::Info
            } else if same_bytes(c, "Debug".as_bytes()) {
                Level::Debug
            } else if same_bytes(c, "Trace".as_bytes()) {
                Level::Trace
            } else {
                Level::Error
            }
        },
    }
}

/// One line for the log. An empty context is left out.
pub struct LogRecord {
    pub level: Level,
    pub message: String,
    pub context: Option<String>,
}

/// The record of a log call; `json` is the encoded context, empty where the
/// call had none.
pub fn log_record(case: Option<&[u8]>, message: &[u8], json: &[u8]) -> (r: LogRecord)
    ensures
        r.level == case_level(
            match case {
                Some(c) => Some(c@),
                None => None,
            },
        ),
        r.message@ == lossy(message@),
        r.context is Some <==> lossy(json@).len() > 0,
        r.context matches Some(c) ==> c@ == lossy(json@),
{
    let level = level_from_case(case);
    let message = lossy_text(message);
    let context = lossy_text(json);
    let length: usize = crate::text::chars_of(context.as_str()).len();
    LogRecord {
        level,
        message,
        context: if length == 0 {
            None
        } else {
            Some(context)
        },
    }
}

} // verus!
