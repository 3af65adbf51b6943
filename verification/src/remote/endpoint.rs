//! Connection path policy and the relay's size-only view of traffic.
use vstd::prelude::*;
use crate::text::{append_str, chars_of, spec_usize_decimal, string_of, usize_decimal};

verus! {

/// Which path an attach used.
#[derive(Debug, Clone, Copy, PartialEq, Eq, Structural)]
pub enum ConnectPath {
    Direct,
    Relay,
}

/// Why a connection could not be formed.
#[derive(Debug, Clone, Copy, PartialEq, Eq, Structural)]
pub enum ConnectError {
    NoPath,
}

/// Choose the connection path: direct preferred, relay fallback, else fail.
pub fn select_path(direct_available: bool, relay_available: bool) -> (r: Result<ConnectPath, ConnectError>)
    ensures
        r == (if direct_available {
            Ok::<ConnectPath, ConnectError>(ConnectPath::Direct)
        } else if relay_available {
            Ok(ConnectPath::Relay)
        } else {
            Err(ConnectError::NoPath)
        }),
{
    if direct_available {
        Ok(ConnectPath::Direct)
    } else if relay_available {
        Ok(ConnectPath::Relay)
    } else {
        Err(ConnectError::NoPath)
    }
}

/// The relay's view of one forwarded frame: only its size, never content.
#[derive(Debug, Clone, Copy, PartialEq, Eq)]
pub struct RelayFrame {
    size: usize,
}

impl RelayFrame {
    pub closed spec fn size_spec(&self) -> usize {
        self.size
    }

    /// Build a relay frame from a ciphertext blob; only its length is kept.
    pub fn from_ciphertext(ciphertext: &[u8]) -> (r: Self)
        ensures
            r.size_spec() == ciphertext@.len(),
    {
        RelayFrame { size: ciphertext.len() }
    }

    pub fn size(&self) -> (r: usize)
        ensures
            r == self.size_spec(),
    {
        self.size
    }

    /// The log line the relay records — size only, never payload.
    pub fn log_entry(&self) -> (r: String)
        ensures
            r@ == "relay_frame size="@ + spec_usize_decimal(self.size_spec()),
    {
        let mut v = chars_of("relay_frame size=");
        let n = usize_decimal(self.size);
        append_str(&mut v, n.as_str());
        string_of(&v)
    }
}

/// An in-memory event stream standing in for a live transport; pushed frames
/// are delivered in order.
#[derive(Debug, Default)]
pub struct LoopbackStream {
    frames: Vec<String>,
}

impl LoopbackStream {
    pub closed spec fn pending(&self) -> Seq<Seq<char>> {
        self.frames@.map_values(|s: String| s@)
    }

    pub fn new() -> (r: Self)
        ensures
            r.pending().len() == 0,
    {
        LoopbackStream { frames: Vec::new() }
    }

    /// Enqueue one host→client event frame.
    pub fn push(&mut self, frame: &str)
        ensures
            final(self).pending() == old(self).pending().push(frame@),
    {
        self.frames.push(frame.to_owned());
        assert(self.pending() =~= old(self).pending().push(frame@));
    }

    /// Take all delivered frames in order.
    pub fn drain(&mut self) -> (r: Vec<String>)
        ensures
            r@.map_values(|s: String| s@) == old(self).pending(),
            final(self).pending().len() == 0,
    {
        let mut out: Vec<String> = Vec::new();
        std::mem::swap(&mut out, &mut self.frames);
        out
    }
}

} // verus!
