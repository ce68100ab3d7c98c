//! Rendering the buffer as a human-readable listing: one line per
//! entry, `"<index>: <local-date-time> : <text>"`, oldest first.

use vstd::prelude::*;

use crate::buffer::{EntryView, LogBuffer, MAX_LOGS};
use crate::strutil::{chars_to_string, dec_str, push_chars, string_to_chars, u64_to_dec};

verus! {

/// Largest epoch-seconds value that chrono's calendar can represent
/// (23:59:59 on the last day of year 262142).  Rendering a timestamp
/// is only defined up to this bound.
pub const MAX_RENDERABLE_TS: u64 = 8_210_266_876_799;

/// Holds no newline character.
pub open spec fn no_newline(s: Seq<char>) -> bool {
    forall|j: int| 0 <= j < s.len() ==> s[j] != '\n'
}

/// A date-time string as it may stand inside a listing line: nonempty
/// and on a single line.
pub open spec fn single_line(s: Seq<char>) -> bool {
    s.len() > 0 && no_newline(s)
}

/// Relies on chrono's `DateTime::from_timestamp` and `Local`: every
/// number of seconds up to [`MAX_RENDERABLE_TS`] lies inside chrono's
/// representable calendar, so the conversion returns a date-time, and
/// formatting it with `"%Y-%m-%d %H:%M:%S %:z"` yields the local
/// date-time with a numeric UTC-offset suffix.  That fixed format
/// writes only digits, `-`, `:`, spaces and an offset sign, so the
/// result is nonempty and holds no newline; beyond that its characters
/// depend on the process's time zone, and nothing more is claimed.
#[verifier::external_body]
pub(crate) fn format_local_timestamp(ts: u64) -> (r: String)
    requires
        ts <= MAX_RENDERABLE_TS,
    ensures
        single_line(r@),
{
    let dt = chrono::DateTime::from_timestamp(ts as i64, 0).unwrap();
    let local = dt.with_timezone(&chrono::Local);
    local.format("%Y-%m-%d %H:%M:%S %:z").to_string()
}

/// The texts of a sequence of entries, in order.
pub open spec fn texts_of(s: Seq<EntryView>) -> Seq<Seq<char>> {
    s.map_values(|e: EntryView| e.text)
}

/// One line of the listing: the one-based index, the formatted
/// date-time, and the entry's text.
pub open spec fn spec_line(idx: int, time: Seq<char>, text: Seq<char>) -> Seq<char> {
    dec_str(idx) + seq![':', ' '] + time + seq![' ', ':', ' '] + text + seq!['\n']
}

/// The first `n` lines of the listing, concatenated.
pub open spec fn spec_render_upto(texts: Seq<Seq<char>>, times: Seq<Seq<char>>, n: int) -> Seq<
    char,
>
    decreases n,
{
    if n <= 0 {
        Seq::empty()
    } else {
        spec_render_upto(texts, times, n - 1) + spec_line(n, times[n - 1], texts[n - 1])
    }
}

/// The whole listing: entry `i` (zero-based) yields line `i + 1`, and
/// the lines stand in entry order.
pub open spec fn spec_render(texts: Seq<Seq<char>>, times: Seq<Seq<char>>) -> Seq<char> {
    spec_render_upto(texts, times, texts.len() as int)
}

/// Builds the listing for the given texts and date-time strings, entry
/// `i` paired with `times[i]`.
pub fn render_with_times(texts: &Vec<String>, times: &Vec<String>) -> (r: String)
    requires
        texts@.len() == times@.len(),
        texts@.len() + 1 <= u64::MAX,
    ensures
        r@ == spec_render(
            texts@.map_values(|s: String| s@),
            times@.map_values(|s: String| s@),
        ),
{
    let ghost gtexts = texts@.map_values(|s: String| s@);
    let ghost gtimes = times@.map_values(|s: String| s@);
    let mut acc: Vec<char> = Vec::new();
    let mut i: usize = 0;
    while i < texts.len()
        invariant
            texts@.len() == times@.len(),
            texts@.len() + 1 <= u64::MAX,
            gtexts == texts@.map_values(|s: String| s@),
            gtimes == times@.map_values(|s: String| s@),
            i <= texts@.len(),
            acc@ == spec_render_upto(gtexts, gtimes, i as int),
        decreases texts@.len() - i,
    {
        let idx = u64_to_dec((i as u64) + 1);
        push_chars(&mut acc, &idx);
        acc.push(':');
        acc.push(' ');
        let time = string_to_chars(times[i].as_str());
        push_chars(&mut acc, &time);
        acc.push(' ');
        acc.push(':');
        acc.push(' ');
        let text = string_to_chars(texts[i].as_str());
        push_chars(&mut acc, &text);
        acc.push('\n');
        i = i + 1;
        proof {
            assert(acc@ =~= spec_render_upto(gtexts, gtimes, i - 1) + spec_line(
                i as int,
                gtimes[i - 1],
                gtexts[i - 1],
            ));
        }
    }
    chars_to_string(&acc)
}

impl LogBuffer {
    /// Produces the human-readable listing of the buffer: for each
    /// entry in order, one line with its one-based index, its
    /// timestamp converted to some local date-time string, and its
    /// text.  A pure read; never mutates the buffer.
    pub fn render(&self) -> (r: String)
        requires
            self.wf(),
            forall|k: int| 0 <= k < self@.len() ==> self@[k].ts <= MAX_RENDERABLE_TS,
        ensures
            exists|times: Seq<Seq<char>>|
                times.len() == self@.len() && (forall|k: int|
                    0 <= k < times.len() ==> single_line(#[trigger] times[k])) && r@
                    == spec_render(texts_of(self@), times),
    {
        let n = self.len();
        let mut texts: Vec<String> = Vec::new();
        let mut times: Vec<String> = Vec::new();
        let mut i: usize = 0;
        while i < n
            invariant
                n == self@.len(),
                n <= MAX_LOGS,
                forall|k: int| 0 <= k < self@.len() ==> self@[k].ts <= MAX_RENDERABLE_TS,
                i <= n,
                times@.len() == i,
                texts@.len() == i,
                forall|k: int| 0 <= k < times@.len() ==> single_line(#[trigger] times@[k]@),
                texts@.map_values(|s: String| s@) == texts_of(self@).take(i as int),
            decreases n - i,
        {
            let e = self.entry(i);
            let t = e.text.clone();
            let ghost pretexts = texts@;
            proof {
                assert(t@ == self@[i as int].text);
            }
            texts.push(t);
            times.push(format_local_timestamp(e.ts));
            i = i + 1;
            proof {
                assert(texts@ == pretexts.push(t));
                assert forall|k: int| 0 <= k < i implies texts@.map_values(|s: String| s@)[k]
                    == texts_of(self@).take(i as int)[k] by {
                    if k < i - 1 {
                        assert(texts@[k] == pretexts[k]);
                        assert(pretexts.map_values(|s: String| s@)[k] == pretexts[k]@);
                        assert(pretexts[k]@ == texts_of(self@)[k]);
                    } else {
                        assert(texts@[k] == t);
                    }
                }
                assert(texts@.map_values(|s: String| s@) =~= texts_of(self@).take(i as int));
            }
        }
        let r = render_with_times(&texts, &times);
        proof {
            assert(texts@.map_values(|s: String| s@) =~= texts_of(self@));
            let w = times@.map_values(|s: String| s@);
            assert(w.len() == self@.len());
            assert(forall|k: int| 0 <= k < w.len() ==> single_line(#[trigger] w[k]));
            assert(r@ == spec_render(texts_of(self@), w));
        }
        r
    }
}

/// Clear is total: a buffer without entries renders as the empty
/// string, whatever date-time strings stand beside it.
pub proof fn lemma_render_empty(times: Seq<Seq<char>>)
    ensures
        spec_render(texts_of(Seq::<EntryView>::empty()), times) == Seq::<char>::empty(),
{
    assert(texts_of(Seq::<EntryView>::empty()).len() == 0);
    assert(spec_render(texts_of(Seq::<EntryView>::empty()), times) =~= Seq::<char>::empty());
}

/// Number of newline characters in a sequence.
pub open spec fn newline_count(s: Seq<char>) -> int
    decreases s.len(),
{
    if s.len() == 0 {
        0
    } else {
        (if s[0] == '\n' {
            1int
        } else {
            0int
        }) + newline_count(s.skip(1))
    }
}

/// Newline counting distributes over concatenation.
pub proof fn lemma_newline_count_concat(a: Seq<char>, b: Seq<char>)
    ensures
        newline_count(a + b) == newline_count(a) + newline_count(b),
    decreases a.len(),
{
    if a.len() == 0 {
        assert(a + b =~= b);
    } else {
        assert((a + b).skip(1) =~= a.skip(1) + b);
        lemma_newline_count_concat(a.skip(1), b);
    }
}

/// A sequence without newlines counts zero of them.
pub proof fn lemma_newline_count_free(s: Seq<char>)
    requires
        no_newline(s),
    ensures
        newline_count(s) == 0,
    decreases s.len(),
{
    if s.len() > 0 {
        assert(no_newline(s.skip(1)));
        lemma_newline_count_free(s.skip(1));
    }
}

/// A one-character sequence counts its own character.
proof fn lemma_newline_count_single(c: char)
    ensures
        newline_count(seq![c]) == (if c == '\n' {
            1int
        } else {
            0int
        }),
{
    assert(seq![c].skip(1) =~= Seq::<char>::empty());
    assert(newline_count(Seq::<char>::empty()) == 0);
    assert(seq![c][0] == c);
}

/// Decimal representations hold no newline.
pub proof fn lemma_dec_str_no_newline(n: int)
    ensures
        newline_count(dec_str(n)) == 0,
    decreases n,
{
    if n < 10 {
        assert(dec_str(n) =~= seq![crate::strutil::dec_digit(n)]);
        lemma_newline_count_single(crate::strutil::dec_digit(n));
        assert(crate::strutil::dec_digit(n) != '\n');
    } else {
        lemma_dec_str_no_newline(n / 10);
        assert(dec_str(n) =~= dec_str(n / 10) + seq![crate::strutil::dec_digit(n % 10)]);
        lemma_newline_count_concat(dec_str(n / 10), seq![crate::strutil::dec_digit(n % 10)]);
        lemma_newline_count_single(crate::strutil::dec_digit(n % 10));
        assert(crate::strutil::dec_digit(n % 10) != '\n');
    }
}

/// One listing line ends in exactly one newline when the date-time
/// string is on a single line and the text holds none.
pub proof fn lemma_line_newline_count(idx: int, time: Seq<char>, text: Seq<char>)
    requires
        single_line(time),
        no_newline(text),
    ensures
        newline_count(spec_line(idx, time, text)) == 1,
{
    let sep1 = seq![':', ' '];
    let sep2 = seq![' ', ':', ' '];
    let nl = seq!['\n'];
    lemma_dec_str_no_newline(idx);
    lemma_newline_count_free(sep1);
    lemma_newline_count_free(sep2);
    lemma_newline_count_free(time);
    lemma_newline_count_free(text);
    lemma_newline_count_single('\n');
    assert(newline_count(nl) == 1);
    lemma_newline_count_concat(dec_str(idx), sep1);
    lemma_newline_count_concat(dec_str(idx) + sep1, time);
    lemma_newline_count_concat(dec_str(idx) + sep1 + time, sep2);
    lemma_newline_count_concat(dec_str(idx) + sep1 + time + sep2, text);
    lemma_newline_count_concat(dec_str(idx) + sep1 + time + sep2 + text, nl);
}

/// The first `n` lines of a listing hold exactly `n` newlines.
proof fn lemma_render_upto_line_count(texts: Seq<Seq<char>>, times: Seq<Seq<char>>, n: int)
    requires
        texts.len() == times.len(),
        0 <= n <= texts.len(),
        forall|k: int| 0 <= k < times.len() ==> single_line(#[trigger] times[k]),
        forall|k: int| 0 <= k < texts.len() ==> no_newline(#[trigger] texts[k]),
    ensures
        newline_count(spec_render_upto(texts, times, n)) == n,
    decreases n,
{
    if n <= 0 {
    } else {
        lemma_render_upto_line_count(texts, times, n - 1);
        lemma_line_newline_count(n, times[n - 1], texts[n - 1]);
        lemma_newline_count_concat(
            spec_render_upto(texts, times, n - 1),
            spec_line(n, times[n - 1], texts[n - 1]),
        );
    }
}

/// One line per entry: when every text is newline-free and every
/// date-time string single-line, the listing holds exactly one newline
/// per entry — nothing is dropped and nothing extra appears.
pub proof fn lemma_render_line_count(texts: Seq<Seq<char>>, times: Seq<Seq<char>>)
    requires
        texts.len() == times.len(),
        forall|k: int| 0 <= k < times.len() ==> single_line(#[trigger] times[k]),
        forall|k: int| 0 <= k < texts.len() ==> no_newline(#[trigger] texts[k]),
    ensures
        newline_count(spec_render(texts, times)) == texts.len(),
{
    lemma_render_upto_line_count(texts, times, texts.len() as int);
}

/// Idempotent read: the listing is a function of the entries' texts
/// and the date-time strings alone, so two readings of the same
/// buffer that see the same date-time strings are identical.
pub proof fn lemma_render_idempotent(
    entries: Seq<EntryView>,
    times: Seq<Seq<char>>,
    r1: Seq<char>,
    r2: Seq<char>,
)
    requires
        r1 == spec_render(texts_of(entries), times),
        r2 == spec_render(texts_of(entries), times),
    ensures
        r1 == r2,
{
}

/// Order preservation in the listing: for any two positions `i < j`,
/// the listing splits into the lines before `i`, the line of entry
/// `i`, the lines between, the line of entry `j`, and the lines after,
/// in that order.
pub proof fn lemma_render_order(
    texts: Seq<Seq<char>>,
    times: Seq<Seq<char>>,
    i: int,
    j: int,
)
    requires
        texts.len() == times.len(),
        0 <= i < j < texts.len(),
    ensures
        spec_render(texts, times) == spec_render_upto(texts, times, i) + spec_line(
            i + 1,
            times[i],
            texts[i],
        ) + spec_render_between(texts, times, i + 1, j) + spec_line(j + 1, times[j], texts[j])
            + spec_render_between(texts, times, j + 1, texts.len() as int),
{
    lemma_render_split(texts, times, j + 1, texts.len() as int);
    lemma_render_split(texts, times, i + 1, j);
    assert(spec_render_upto(texts, times, j + 1) == spec_render_upto(texts, times, j)
        + spec_line(j + 1, times[j], texts[j]));
    assert(spec_render_upto(texts, times, i + 1) == spec_render_upto(texts, times, i)
        + spec_line(i + 1, times[i], texts[i]));
}

/// The lines for entries `a ..= b - 1`, concatenated.
pub open spec fn spec_render_between(
    texts: Seq<Seq<char>>,
    times: Seq<Seq<char>>,
    a: int,
    b: int,
) -> Seq<char>
    decreases b - a,
{
    if a >= b {
        Seq::empty()
    } else {
        spec_render_between(texts, times, a, b - 1) + spec_line(b, times[b - 1], texts[b - 1])
    }
}

/// The listing up to `b` is the listing up to `a` followed by the
/// lines for the entries between.
pub proof fn lemma_render_split(texts: Seq<Seq<char>>, times: Seq<Seq<char>>, a: int, b: int)
    requires
        0 <= a <= b,
    ensures
        spec_render_upto(texts, times, b) == spec_render_upto(texts, times, a)
            + spec_render_between(texts, times, a, b),
    decreases b - a,
{
    if a >= b {
        assert(spec_render_upto(texts, times, b) =~= spec_render_upto(texts, times, a)
            + spec_render_between(texts, times, a, b));
    } else {
        lemma_render_split(texts, times, a, b - 1);
        assert(spec_render_upto(texts, times, b) =~= spec_render_upto(texts, times, a)
            + spec_render_between(texts, times, a, b));
    }
}

} // verus!
