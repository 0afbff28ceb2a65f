//! In-process tracing in the Spall binary format.
//!
//! The crate records time-stamped scope events (Begin/End pairs, optionally
//! carrying a formatted argument string) into a per-thread byte buffer whose
//! contents are appended to a single trace file. Everything that decides what
//! bytes are produced lives here and is verified: the packed little-endian
//! record layouts, the conversion of a tick count to the IEEE-754 double that
//! the format stores, the per-thread buffer with its reserve/flush protocol,
//! the truncation rules for names and arguments, the path-template
//! substitution, and the once-only publication of the global context.
//! Opening, writing and closing the trace file itself is left to the
//! embedding program, which receives the exact bytes to append.

pub mod clock;
pub mod codec;
pub mod context;
pub mod dbits;
pub mod parse;
pub mod recorder;

pub use codec::{BeginEvent, BeginEventMax, EndEvent, EventType, PadSkipEvent, SpallHeader};
pub use clock::{now, Timer};
pub use context::{ContextState, GlobalState};
pub use parse::{Event, EventM};
pub use recorder::{ThreadState, TraceScope};
