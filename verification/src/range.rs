//! The serial numbers of a run, in the order in which they are rendered.

use crate::decimal::{parse_u32, parsed_u32};
use vstd::prelude::*;
use vstd::slice::slice_subrange;

verus! {

/// ASCII line feed.
pub const LINE_FEED: u8 = 0x0a;

/// ASCII carriage return.
pub const CARRIAGE_RETURN: u8 = 0x0d;

/// `count` serial numbers counting up from `first`.
pub open spec fn run_serials(first: u32, count: u32) -> Seq<u32> {
    Seq::new(count as nat, |i: int| (first + i) as u32)
}

/// Where the first line of `text` ends: at its first line feed, or at the
/// end of `text` where it holds none.
pub open spec fn line_end(text: Seq<u8>) -> int
    decreases text.len(),
{
    if text.len() == 0 || text[0] == LINE_FEED {
        0
    } else {
        1 + line_end(text.drop_first())
    }
}

/// `line` without the carriage return at its end, if it has one.
pub open spec fn without_return(line: Seq<u8>) -> Seq<u8> {
    if line.len() > 0 && line.last() == CARRIAGE_RETURN {
        line.drop_last()
    } else {
        line
    }
}

/// The first line of `text`, without the line ending that closes it. A last
/// line that no line feed closes is taken as it stands.
pub open spec fn first_line(text: Seq<u8>) -> Seq<u8> {
    let end = line_end(text);
    if end < text.len() {
        without_return(text.subrange(0, end))
    } else {
        text
    }
}

/// What follows the first line of `text` and its line feed.
pub open spec fn after_first_line(text: Seq<u8>) -> Seq<u8> {
    let end = line_end(text);
    if end < text.len() {
        text.subrange(end + 1, text.len() as int)
    } else {
        Seq::empty()
    }
}

/// The numbers listed in `text`, one to a line, in the order of the lines.
/// A line that is no unsigned 32-bit decimal number is passed over.
pub open spec fn listed_serials(text: Seq<u8>) -> Seq<u32>
    decreases text.len(),
{
    if text.len() == 0 {
        Seq::empty()
    } else {
        let here = match parsed_u32(first_line(text)) {
            Some(serial) => seq![serial],
            None => Seq::empty(),
        };
        proof {
            lemma_line_end_bounds(text);
        }
        here + listed_serials(after_first_line(text))
    }
}

/// The first line ends within the text, at a line feed where it ends before
/// the end, and holds no line feed.
pub proof fn lemma_line_end_bounds(text: Seq<u8>)
    ensures
        0 <= line_end(text) <= text.len(),
        line_end(text) < text.len() ==> text[line_end(text)] == LINE_FEED,
        forall|j: int| 0 <= j < line_end(text) ==> #[trigger] text[j] != LINE_FEED,
    decreases text.len(),
{
    if !(text.len() == 0 || text[0] == LINE_FEED) {
        let rest = text.drop_first();
        lemma_line_end_bounds(rest);
        assert forall|j: int| 0 <= j < line_end(text) implies #[trigger] text[j] != LINE_FEED by {
            if j > 0 {
                assert(rest[j - 1] != LINE_FEED);
            }
        }
    }
}

/// The first line ends at `k` where `k` is the least place that holds a
/// line feed, or the length of a text that holds none.
proof fn lemma_line_end_is(text: Seq<u8>, k: int)
    requires
        0 <= k <= text.len(),
        forall|j: int| 0 <= j < k ==> #[trigger] text[j] != LINE_FEED,
        k < text.len() ==> text[k] == LINE_FEED,
    ensures
        line_end(text) == k,
{
    lemma_line_end_bounds(text);
    let e = line_end(text);
    if e < k {
        assert(text[e] != LINE_FEED);
    } else if k < e {
        assert(text[k] != LINE_FEED);
    }
}

enum Serials {
    Run { first: u32, count: u32 },
    Listed(Vec<u32>),
}

/// The serial numbers of one run. The place of a number in the sequence is
/// the index of its document.
pub struct RangeSource {
    serials: Serials,
}

impl View for RangeSource {
    type V = Seq<u32>;

    closed spec fn view(&self) -> Seq<u32> {
        match self.serials {
            Serials::Run { first, count } => run_serials(first, count),
            Serials::Listed(list) => list@,
        }
    }
}

impl RangeSource {
    #[verifier::type_invariant]
    spec fn fits(&self) -> bool {
        match self.serials {
            Serials::Run { first, count } => first + count <= u32::MAX + 1,
            Serials::Listed(_) => true,
        }
    }

    /// The run `[first, first + count)`, where it lies within the serial
    /// numbers that 32 bits can hold.
    pub fn counted(first: u32, count: u32) -> (source: Option<Self>)
        ensures
            source is Some <==> first + count <= u32::MAX + 1,
            source matches Some(s) ==> s@ == run_serials(first, count),
    {
        if first as u64 + count as u64 <= u32::MAX as u64 + 1 {
            Some(RangeSource { serials: Serials::Run { first, count } })
        } else {
            None
        }
    }

    /// The two numbers `first` and `last`, in that order.
    pub fn endpoints(first: u32, last: u32) -> (source: Self)
        ensures
            source@ == seq![first, last],
    {
        let mut list = Vec::new();
        list.push(first);
        list.push(last);
        RangeSource { serials: Serials::Listed(list) }
    }

    /// The numbers listed in `text`, one to a line.
    pub fn reprint(text: &[u8]) -> (source: Self)
        ensures
            source@ == listed_serials(text@),
    {
        RangeSource { serials: Serials::Listed(read_serials(text)) }
    }

    /// How many documents the run has.
    pub fn len(&self) -> (n: usize)
        ensures
            n == self@.len(),
    {
        match &self.serials {
            Serials::Run { first, count } => *count as usize,
            Serials::Listed(list) => list.len(),
        }
    }

    /// The serial number of the document at `index`, if the run has one there.
    pub fn get(&self, index: usize) -> (serial: Option<u32>)
        ensures
            serial == if index < self@.len() {
                Some(self@[index as int])
            } else {
                None
            },
    {
        proof {
            use_type_invariant(self);
        }
        match &self.serials {
            Serials::Run { first, count } => {
                if index < *count as usize {
                    Some(*first + index as u32)
                } else {
                    None
                }
            },
            Serials::Listed(list) => {
                if index < list.len() {
                    Some(list[index])
                } else {
                    None
                }
            },
        }
    }
}

/// Reads the numbers listed in `text`, one to a line.
pub fn read_serials(text: &[u8]) -> (serials: Vec<u32>)
    ensures
        serials@ == listed_serials(text@),
{
    let n = text.len();
    let mut serials: Vec<u32> = Vec::new();
    let mut start: usize = 0;
    let mut i: usize = 0;
    assert(text@.subrange(0, n as int) =~= text@);
    while i < n
        invariant
            start <= i <= n,
            n == text@.len(),
            forall|j: int| start <= j < i ==> #[trigger] text@[j] != LINE_FEED,
            serials@ + listed_serials(text@.subrange(start as int, n as int)) == listed_serials(
                text@,
            ),
        decreases n - i,
    {
        if text[i] == LINE_FEED {
            let mut end = i;
            if end > start && text[end - 1] == CARRIAGE_RETURN {
                end = end - 1;
            }
            let line = slice_subrange(text, start, end);
            proof {
                let rest = text@.subrange(start as int, n as int);
                lemma_line_end_is(rest, i - start);
                assert(line@ =~= first_line(rest));
                assert(after_first_line(rest) =~= text@.subrange(i + 1, n as int));
            }
            if let Some(serial) = parse_u32(line) {
                serials.push(serial);
            }
            start = i + 1;
        }
        i += 1;
    }
    if start < n {
        let line = slice_subrange(text, start, n);
        proof {
            lemma_line_end_is(line@, n - start);
            assert(listed_serials(Seq::<u8>::empty()) =~= Seq::<u32>::empty());
        }
        if let Some(serial) = parse_u32(line) {
            serials.push(serial);
        }
    }
    serials
}

} // verus!
