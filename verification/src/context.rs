//! The process-wide trace context and the path-template rules of `init`.
//!
//! The context is published at most once: the first `init` creates it, every
//! later one finds it present and does nothing. A `$` in the path template
//! stands for the wall-clock time in microseconds since the Unix epoch,
//! rendered in decimal; a template containing one also demands that the file
//! not pre-exist, while a template without one has the file created or
//! truncated. Paths are handled as UTF-8 bytes; substituting decimal digits
//! for the ASCII `$` keeps them valid UTF-8.

use vstd::prelude::*;
use crate::recorder::DEFAULT_BUFFER_SIZE;

verus! {

/// The ASCII byte of the `$` sentinel.
pub const DOLLAR: u8 = 36;

/// Process-wide configuration published by the first successful `init`:
/// the canonical trace path (UTF-8 bytes), the buffer size handed to each
/// new thread recorder, and whether diagnostics are suppressed.
pub struct GlobalState {
    pub trace_path: Vec<u8>,
    pub buffer_size: usize,
    pub silent: bool,
}

impl GlobalState {
    /// The context `init` publishes: the given path, the default 64 KiB
    /// buffer, diagnostics on.
    pub fn with_defaults(trace_path: Vec<u8>) -> (g: GlobalState)
        ensures
            g.trace_path@ == trace_path@,
            g.buffer_size == DEFAULT_BUFFER_SIZE,
            !g.silent,
    {
        GlobalState { trace_path, buffer_size: DEFAULT_BUFFER_SIZE, silent: false }
    }
}

/// Lifecycle of the global context: uninitialized until the first `init`,
/// then ready forever; there is no return edge.
pub enum ContextState {
    Uninit,
    Ready(GlobalState),
}

impl ContextState {
    /// Whether a context has been published.
    pub fn is_ready(&self) -> (r: bool)
        ensures
            r == (self is Ready),
    {
        match self {
            ContextState::Uninit => false,
            ContextState::Ready(_) => true,
        }
    }

    /// Publishes `ctx` if nothing was published yet. Returns whether this
    /// call was the one that initialized the context; a later call changes
    /// nothing and reports `false`.
    pub fn publish(&mut self, ctx: GlobalState) -> (fresh: bool)
        ensures
            fresh == (*old(self) is Uninit),
            fresh ==> *final(self) == ContextState::Ready(ctx),
            !fresh ==> *final(self) == *old(self),
    {
        let fresh = match self {
            ContextState::Uninit => true,
            ContextState::Ready(_) => false,
        };
        if fresh {
            *self = ContextState::Ready(ctx);
        }
        fresh
    }
}

/// The decimal digits of `n`, most significant first, as ASCII bytes.
pub open spec fn spec_dec_digits(n: nat) -> Seq<u8>
    decreases n,
{
    if n < 10 {
        seq![(48 + n) as u8]
    } else {
        spec_dec_digits(n / 10).push((48 + n % 10) as u8)
    }
}

/// `template` with every `$` replaced by the decimal digits of `micros`.
pub open spec fn spec_substitute(template: Seq<u8>, micros: u64) -> Seq<u8>
    decreases template.len(),
{
    if template.len() == 0 {
        Seq::<u8>::empty()
    } else {
        let rest = spec_substitute(template.subrange(1, template.len() as int), micros);
        if template[0] == DOLLAR {
            spec_dec_digits(micros as nat) + rest
        } else {
            seq![template[0]] + rest
        }
    }
}

/// Whether the template contains the `$` sentinel.
pub open spec fn spec_has_dollar(template: Seq<u8>) -> bool {
    exists|i: int| 0 <= i < template.len() && template[i] == DOLLAR
}

/// Substitution is the identity on templates without a sentinel.
pub proof fn lemma_substitute_no_dollar(template: Seq<u8>, micros: u64)
    requires
        !spec_has_dollar(template),
    ensures
        spec_substitute(template, micros) == template,
    decreases template.len(),
{
    if template.len() > 0 {
        let tail = template.subrange(1, template.len() as int);
        assert(template[0] != DOLLAR);
        assert(!spec_has_dollar(tail)) by {
            assert(forall|i: int|
                0 <= i < tail.len() ==> tail[i] == template[i + 1] && template[i + 1] != DOLLAR);
        }
        lemma_substitute_no_dollar(tail, micros);
        assert(spec_substitute(template, micros) =~= template);
    } else {
        assert(spec_substitute(template, micros) =~= template);
    }
}

/// Renders `n` in decimal, most significant digit first.
pub fn dec_digits(n: u64) -> (out: Vec<u8>)
    ensures
        out@ == spec_dec_digits(n as nat),
{
    let mut out: Vec<u8> = Vec::new();
    let mut x: u64 = n;
    out.insert(0, 48 + (x % 10) as u8);
    x = x / 10;
    proof {
        assert(spec_dec_digits(n as nat) =~= (if x > 0 {
            spec_dec_digits(x as nat)
        } else {
            Seq::<u8>::empty()
        }) + out@);
    }
    while x > 0
        invariant
            spec_dec_digits(n as nat) =~= (if x > 0 {
                spec_dec_digits(x as nat)
            } else {
                Seq::<u8>::empty()
            }) + out@,
        decreases x,
    {
        let ghost x0 = x;
        let ghost out0 = out@;
        out.insert(0, 48 + (x % 10) as u8);
        x = x / 10;
        proof {
            if x > 0 {
                assert(spec_dec_digits(x0 as nat) == spec_dec_digits(x as nat).push(
                    (48 + x0 % 10) as u8,
                ));
                assert(spec_dec_digits(x as nat) + out@ =~= spec_dec_digits(x0 as nat) + out0);
            } else {
                assert(spec_dec_digits(x0 as nat) =~= seq![(48 + x0 % 10) as u8]);
                assert(Seq::<u8>::empty() + out@ =~= spec_dec_digits(x0 as nat) + out0);
            }
        }
    }
    out
}

/// Resolves a path template: every `$` becomes the decimal digits of
/// `micros`, and the caller learns whether a sentinel was present — in
/// which case the file must be created anew and must not pre-exist, while
/// without one the file is created if missing and truncated.
pub fn substitute_path(template: &[u8], micros: u64) -> (r: (Vec<u8>, bool))
    ensures
        r.0@ == spec_substitute(template@, micros),
        r.1 == spec_has_dollar(template@),
        !spec_has_dollar(template@) ==> r.0@ == template@,
{
    let mut out: Vec<u8> = Vec::new();
    let mut found = false;
    let mut i: usize = 0;
    proof {
        assert(template@.subrange(0, template@.len() as int) =~= template@);
        assert(Seq::<u8>::empty() + spec_substitute(template@, micros) =~= spec_substitute(
            template@,
            micros,
        ));
    }
    while i < template.len()
        invariant
            i <= template@.len(),
            spec_substitute(template@, micros) == out@ + spec_substitute(
                template@.subrange(i as int, template@.len() as int),
                micros,
            ),
            found == (exists|j: int| 0 <= j < i && template@[j] == DOLLAR),
        decreases template@.len() - i,
    {
        let ghost pre = out@;
        let b = template[i];
        if b == DOLLAR {
            let mut digits = dec_digits(micros);
            out.append(&mut digits);
            found = true;
        } else {
            out.push(b);
        }
        proof {
            let whole = template@;
            let rest0 = whole.subrange(i as int, whole.len() as int);
            let rest1 = whole.subrange(i + 1, whole.len() as int);
            assert(rest0.subrange(1, rest0.len() as int) =~= rest1);
            assert(rest0[0] == whole[i as int]);
            if whole[i as int] == DOLLAR {
                assert(spec_substitute(rest0, micros) == spec_dec_digits(micros as nat)
                    + spec_substitute(rest1, micros));
                assert(out@ + spec_substitute(rest1, micros) =~= pre + spec_substitute(
                    rest0,
                    micros,
                ));
            } else {
                assert(spec_substitute(rest0, micros) == seq![whole[i as int]] + spec_substitute(
                    rest1,
                    micros,
                ));
                assert(out@ + spec_substitute(rest1, micros) =~= pre + spec_substitute(
                    rest0,
                    micros,
                ));
            }
        }
        i = i + 1;
    }
    proof {
        assert(template@.subrange(0, template@.len() as int) =~= template@);
        assert(template@.subrange(
            template@.len() as int,
            template@.len() as int,
        ) =~= Seq::<u8>::empty());
        assert(out@ + Seq::<u8>::empty() =~= out@);
        if !spec_has_dollar(template@) {
            lemma_substitute_no_dollar(template@, micros);
        }
    }
    (out, found)
}

} // verus!
