//! Where a file goes: the text before the first `:` of a location selects
//! the kind of sink.

use vstd::prelude::*;
use vstd::string::*;

use crate::error::{ConfigurationError, WriteError};

verus! {

/// The kind of sink that a location names.
#[derive(Clone, Copy, Debug, PartialEq, Eq)]
pub enum SinkKind {
    /// A path on the local file system: the location holds no `:`.
    LocalFile,
    /// A buffer in memory: the location starts with `mem:`.
    Memory,
}

/// The prefix that selects the buffer in memory.
pub open spec fn memory_prefix() -> Seq<char> {
    seq!['m', 'e', 'm']
}

/// Whether the first `:` of `s` stands at `p`, or `s` holds none and `p` is
/// its length.
pub open spec fn is_prefix_len(s: Seq<char>, p: int) -> bool {
    &&& 0 <= p <= s.len()
    &&& forall|k: int| 0 <= k < p ==> s[k] != ':'
    &&& p < s.len() ==> s[p] == ':'
}

/// A location has one prefix only.
pub proof fn lemma_prefix_len_is_unique(s: Seq<char>, p: int, q: int)
    requires
        is_prefix_len(s, p),
        is_prefix_len(s, q),
    ensures
        p == q,
{
    if p < q {
        assert(s[p] != ':');
    } else if q < p {
        assert(s[q] != ':');
    }
}

/// The kind of sink for a location.
///
/// A location without `:` is a local path. One whose text before the first
/// `:` is `mem` is a buffer in memory. Any other is refused, with the text
/// before its first `:`.
pub fn resolve_sink(location: &str) -> (r: Result<SinkKind, WriteError>)
    ensures
        match r {
            Ok(SinkKind::LocalFile) => is_prefix_len(location@, location@.len() as int),
            Ok(SinkKind::Memory) => {
                &&& is_prefix_len(location@, 3)
                &&& 3 < location@.len()
                &&& location@.subrange(0, 3) == memory_prefix()
            },
            Err(e) => {
                &&& e matches WriteError::Configuration(ConfigurationError::UnknownSinkPrefix(prefix))
                &&& is_prefix_len(location@, prefix@.len() as int)
                &&& prefix@.len() < location@.len()
                &&& prefix@ == location@.subrange(0, prefix@.len() as int)
                &&& prefix@ != memory_prefix()
            },
        },
{
    let n: usize = location.unicode_len();
    let mut p: usize = 0;
    while p < n && location.get_char(p) != ':'
        invariant
            n == location@.len(),
            p <= n,
            forall|k: int| 0 <= k < p ==> location@[k] != ':',
        decreases n - p,
    {
        p += 1;
    }
    if p == n {
        return Ok(SinkKind::LocalFile);
    }
    if p == 3 && location.get_char(0) == 'm' && location.get_char(1) == 'e' && location.get_char(2)
        == 'm' {
        assert(location@.subrange(0, 3) =~= memory_prefix());
        return Ok(SinkKind::Memory);
    }
    let prefix = location.substring_char(0, p).to_owned();
    assert(prefix@ != memory_prefix()) by {
        if prefix@ == memory_prefix() {
            assert(prefix@.len() == 3);
            assert(prefix@[0] == 'm' && prefix@[1] == 'e' && prefix@[2] == 'm');
        }
    }
    Err(WriteError::Configuration(ConfigurationError::UnknownSinkPrefix(prefix)))
}

} // verus!
