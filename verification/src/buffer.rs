//! The bounded FIFO log buffer: timestamped text entries, append with
//! head eviction once the capacity is exceeded, and bulk clear.

use vstd::prelude::*;

verus! {

/// Maximum number of entries the buffer retains.
pub const MAX_LOGS: usize = 500;

/// One log record: a timestamp in epoch seconds and a text line.
pub struct LogEntry {
    pub ts: u64,
    pub text: String,
}

/// The mathematical value of a [`LogEntry`].
pub ghost struct EntryView {
    pub ts: u64,
    pub text: Seq<char>,
}

impl View for LogEntry {
    type V = EntryView;

    open spec fn view(&self) -> EntryView {
        EntryView { ts: self.ts, text: self.text@ }
    }
}

/// What an append leaves in the buffer: the new entry is pushed at the
/// tail, then the oldest entries are evicted from the head until at
/// most [`MAX_LOGS`] remain.
pub open spec fn spec_append(s: Seq<EntryView>, e: EntryView) -> Seq<EntryView> {
    let t = s.push(e);
    if t.len() > MAX_LOGS {
        t.skip(t.len() - MAX_LOGS)
    } else {
        t
    }
}

/// An ordered sequence of log entries, oldest first, never holding more
/// than [`MAX_LOGS`] of them.
pub struct LogBuffer {
    entries: Vec<LogEntry>,
}

impl View for LogBuffer {
    type V = Seq<EntryView>;

    closed spec fn view(&self) -> Seq<EntryView> {
        self.entries@.map_values(|e: LogEntry| e@)
    }
}

impl LogBuffer {
    /// The size invariant: the buffer never exceeds its capacity.
    pub open spec fn wf(&self) -> bool {
        self@.len() <= MAX_LOGS
    }

    /// Creates an empty buffer.
    pub fn new() -> (r: LogBuffer)
        ensures
            r.wf(),
            r@ == Seq::<EntryView>::empty(),
    {
        let r = LogBuffer { entries: Vec::new() };
        proof {
            assert(r@ =~= Seq::<EntryView>::empty());
        }
        r
    }

    /// Number of entries currently held.
    pub fn len(&self) -> (r: usize)
        ensures
            r == self@.len(),
    {
        self.entries.len()
    }

    /// Appends a new entry at the tail; if the buffer would exceed its
    /// capacity, evicts the oldest entry from the head.  Always succeeds.
    pub fn append(&mut self, text: String, ts: u64)
        requires
            old(self).wf(),
        ensures
            final(self).wf(),
            final(self)@ == spec_append(old(self)@, EntryView { ts, text: text@ }),
    {
        let ghost prev = self@;
        let ghost e = EntryView { ts, text: text@ };
        self.entries.push(LogEntry { ts, text });
        proof {
            assert(self@ =~= prev.push(e));
        }
        if self.entries.len() > MAX_LOGS {
            self.entries.remove(0);
            proof {
                assert(self@ =~= prev.push(e).skip(1));
                assert(self@ =~= spec_append(prev, e));
            }
        } else {
            proof {
                assert(self@ =~= spec_append(prev, e));
            }
        }
    }

    /// Empties the buffer.  Always succeeds.
    pub fn clear(&mut self)
        ensures
            final(self).wf(),
            final(self)@ == Seq::<EntryView>::empty(),
    {
        self.entries.clear();
        proof {
            assert(self@ =~= Seq::<EntryView>::empty());
        }
    }

    /// Read access to the entry at a given position.
    pub fn entry(&self, i: usize) -> (r: &LogEntry)
        requires
            i < self@.len(),
        ensures
            r@ == self@[i as int],
    {
        &self.entries[i]
    }
}

/// Bounded size: however the buffer grew, an append leaves at most
/// [`MAX_LOGS`] entries, and once the buffer is full each further
/// append evicts exactly the single oldest entry.
pub proof fn lemma_append_bounded(s: Seq<EntryView>, e: EntryView)
    requires
        s.len() <= MAX_LOGS,
    ensures
        spec_append(s, e).len() <= MAX_LOGS,
        s.len() < MAX_LOGS ==> spec_append(s, e) == s.push(e),
        s.len() == MAX_LOGS ==> spec_append(s, e) == s.skip(1).push(e),
{
    if s.len() < MAX_LOGS {
        assert(spec_append(s, e) =~= s.push(e));
    } else {
        assert(spec_append(s, e) =~= s.skip(1).push(e));
    }
}

/// Order preservation: the entries that survive an append are a
/// contiguous suffix of the old contents followed by the new entry, so
/// any two retained entries keep their relative order.
pub proof fn lemma_append_preserves_order(s: Seq<EntryView>, e: EntryView)
    ensures
        spec_append(s, e) == s.push(e).skip(
            if s.len() + 1 > MAX_LOGS {
                s.len() + 1 - MAX_LOGS
            } else {
                0
            },
        ),
{
    if s.len() + 1 > MAX_LOGS {
        assert(spec_append(s, e) =~= s.push(e).skip(s.len() + 1 - MAX_LOGS));
    } else {
        assert(spec_append(s, e) =~= s.push(e).skip(0));
    }
}

} // verus!
