//! What goes to disk for a batch: the name of its file and the text in it.
//! Writing the file is left to the caller.

use crate::batch::{contiguous, Batch};
use crate::decimal::{byte_text, decimal_digits, push_bytes, push_decimal};
use crate::tag::TagData;
use vstd::prelude::*;
use vstd::string::StringExecFns;

verus! {

/// What every file name starts with.
pub const NAME_START: &'static str = "Output file ";

/// Stands between the two bounds in a file name.
pub const NAME_DASH: &'static str = "-";

/// What every file name ends with.
pub const NAME_END: &'static str = ".zpl";

/// Stands between two documents of a file: the end of a line and one blank line.
pub const BLANK_LINE: &'static str = "\n\n";

/// One file to be written: its name inside the output directory, and its text.
pub struct OutputFile {
    pub name: String,
    pub content: String,
}

/// The name of the file for the documents from `min_index` to `max_index`.
/// The name gives both bounds counted from one.
pub open spec fn file_name(min_index: nat, max_index: nat) -> Seq<char> {
    NAME_START@ + byte_text(decimal_digits(min_index + 1)) + NAME_DASH@ + byte_text(
        decimal_digits(max_index + 1),
    ) + NAME_END@
}

/// The texts of the documents, in their order.
pub open spec fn texts_of(docs: Seq<TagData>) -> Seq<Seq<char>> {
    Seq::new(docs.len(), |i: int| docs[i].spec_data())
}

/// `texts` in a row with one blank line between each two, and nothing
/// after the last.
pub open spec fn joined(texts: Seq<Seq<char>>) -> Seq<char>
    decreases texts.len(),
{
    if texts.len() == 0 {
        Seq::empty()
    } else if texts.len() == 1 {
        texts[0]
    } else {
        joined(texts.drop_last()) + BLANK_LINE@ + texts.last()
    }
}

/// In a stretch of documents that follow one another, the first has the
/// least index and the last the greatest.
pub proof fn lemma_bounds_of_batch(docs: Seq<TagData>, i: int)
    requires
        contiguous(docs),
        0 <= i < docs.len(),
    ensures
        docs.first().spec_index() <= docs[i].spec_index() <= docs.last().spec_index(),
{
}

/// The name of the file for the documents from `min_index` to `max_index`.
pub fn output_file_name(min_index: usize, max_index: usize) -> (name: String)
    ensures
        name@ == file_name(min_index as nat, max_index as nat),
{
    let mut low: Vec<u8> = Vec::new();
    push_decimal(&mut low, min_index as u128 + 1);
    let mut high: Vec<u8> = Vec::new();
    push_decimal(&mut high, max_index as u128 + 1);
    let mut name = String::from_str(NAME_START);
    push_bytes(&mut name, low.as_slice());
    name.append(NAME_DASH);
    push_bytes(&mut name, high.as_slice());
    name.append(NAME_END);
    name
}

/// The texts of `docs` in a row, one blank line between each two.
pub fn join_documents(docs: &[TagData]) -> (content: String)
    ensures
        content@ == joined(texts_of(docs@)),
{
    let mut content = String::new();
    let mut i: usize = 0;
    while i < docs.len()
        invariant
            i <= docs@.len(),
            content@ == joined(texts_of(docs@.subrange(0, i as int))),
        decreases docs@.len() - i,
    {
        if i > 0 {
            content.append(BLANK_LINE);
        }
        content.append(docs[i].data());
        assert(texts_of(docs@.subrange(0, i + 1)).drop_last() =~= texts_of(
            docs@.subrange(0, i as int),
        ));
        i += 1;
    }
    assert(docs@.subrange(0, i as int) =~= docs@);
    content
}

/// The file for `batch`: named by its least and greatest index, holding its
/// documents in ascending order of index. An empty batch has no file.
pub fn plan_file(batch: &Batch) -> (file: Option<OutputFile>)
    ensures
        file is None <==> batch@.len() == 0,
        file matches Some(f) ==> {
            &&& f.name@ == file_name(
                batch@.first().spec_index() as nat,
                batch@.last().spec_index() as nat,
            )
            &&& f.content@ == joined(texts_of(batch@))
        },
{
    let docs = batch.documents();
    let n = docs.len();
    if n == 0 {
        return None;
    }
    let name = output_file_name(docs[0].index(), docs[n - 1].index());
    let content = join_documents(docs);
    Some(OutputFile { name, content })
}

/// Where the first failure stands in `outcomes`, or their number where none
/// has failed.
pub open spec fn first_failure_at<E>(outcomes: Seq<Result<(), E>>) -> int
    decreases outcomes.len(),
{
    if outcomes.len() == 0 || outcomes[0] is Err {
        0
    } else {
        1 + first_failure_at(outcomes.drop_first())
    }
}

/// The first failure stands among the outcomes or right after them, is a
/// failure where it stands among them, and has only successes before it.
pub proof fn lemma_first_failure_at<E>(outcomes: Seq<Result<(), E>>)
    ensures
        0 <= first_failure_at(outcomes) <= outcomes.len(),
        first_failure_at(outcomes) < outcomes.len() ==> outcomes[first_failure_at(outcomes)] is Err,
        forall|j: int| 0 <= j < first_failure_at(outcomes) ==> (#[trigger] outcomes[j]) is Ok,
    decreases outcomes.len(),
{
    if !(outcomes.len() == 0 || outcomes[0] is Err) {
        let rest = outcomes.drop_first();
        lemma_first_failure_at(rest);
        assert forall|j: int| 0 <= j < first_failure_at(outcomes) implies (
        #[trigger] outcomes[j]) is Ok by {
            if j > 0 {
                assert(rest[j - 1] is Ok);
            }
        }
    }
}

/// The outcome of a whole run from the outcomes of its writes, given in the
/// order in which the writes ended: success where every write succeeded,
/// else the failure that came first.
pub fn first_failure<E>(outcomes: Vec<Result<(), E>>) -> (result: Result<(), E>)
    ensures
        result is Ok <==> first_failure_at(outcomes@) == outcomes@.len(),
        result is Err ==> outcomes@[first_failure_at(outcomes@)] == result,
{
    let ghost given = outcomes@;
    let mut pending = outcomes;
    proof {
        lemma_first_failure_at(given);
    }
    let mut i: usize = 0;
    while i < pending.len()
        invariant
            i <= pending@.len(),
            pending@ == given,
            given == outcomes@,
            forall|j: int| 0 <= j < i ==> (#[trigger] given[j]) is Ok,
            0 <= first_failure_at(given) <= given.len(),
            first_failure_at(given) < given.len() ==> given[first_failure_at(given)] is Err,
            forall|j: int| 0 <= j < first_failure_at(given) ==> (#[trigger] given[j]) is Ok,
        decreases pending@.len() - i,
    {
        if pending[i].is_err() {
            return pending.swap_remove(i);
        }
        i += 1;
    }
    Ok(())
}

} // verus!
