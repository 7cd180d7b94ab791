//! The Elasticsearch bulk body: newline-separated lines, alternately an
//! action line naming index and type and a document line.
use crate::strings::utf8_to_str;
use vstd::prelude::*;
use vstd::utf8::valid_utf8;

verus! {

/// The lines of `rest`, the first of them continuing `cur`, split at each
/// line feed (byte 10), which belongs to no line. A text of `n` line feeds
/// has `n + 1` lines, the last one possibly empty.
pub open spec fn lines_from(rest: Seq<u8>, cur: Seq<u8>) -> Seq<Seq<u8>>
    decreases rest.len(),
{
    if rest.len() == 0 {
        seq![cur]
    } else if rest[0] == 10 {
        seq![cur] + lines_from(rest.drop_first(), seq![])
    } else {
        lines_from(rest.drop_first(), cur.push(rest[0]))
    }
}

/// The lines of a text, as `str::split('\n')` gives them.
pub open spec fn lines_of(text: Seq<u8>) -> Seq<Seq<u8>> {
    lines_from(text, seq![])
}

/// A line of a bulk body and its part.
pub enum BulkLine {
    /// The 1st, 3rd, 5th, ... line: names the index and type of the next
    /// document.
    Action(Vec<u8>),
    /// The 2nd, 4th, ... line: a document.
    Document(Vec<u8>),
}

/// The part and bytes of a bulk line, as plain values.
pub open spec fn bulk_line_view(l: BulkLine) -> (bool, Seq<u8>) {
    match l {
        BulkLine::Action(b) => (true, b@),
        BulkLine::Document(b) => (false, b@),
    }
}

/// The lines of a UTF-8 bulk body with their parts; `None` for a body that
/// is not UTF-8, which is then ignored.
pub fn bulk_lines(body: &[u8]) -> (r: Option<Vec<BulkLine>>)
    ensures
        r is Some <==> valid_utf8(body@),
        r matches Some(v) ==> {
            &&& v@.len() == lines_of(body@).len()
            &&& forall|i: int|
                0 <= i < v@.len() ==> #[trigger] bulk_line_view(v@[i]) == (i % 2 == 0,
                lines_of(body@)[i])
        },
{
    if utf8_to_str(body).is_none() {
        return None;
    }
    let mut lines: Vec<BulkLine> = Vec::new();
    let mut cur: Vec<u8> = Vec::new();
    let mut i: usize = 0;
    let ghost all = lines_of(body@);
    assert(body@.skip(0) =~= body@);
    while i < body.len()
        invariant
            i <= body@.len(),
            all == lines_of(body@),
            all == Seq::new(lines@.len() as nat, |k: int| bulk_line_view(lines@[k]).1) + lines_from(
                body@.skip(i as int),
                cur@,
            ),
            forall|k: int|
                0 <= k < lines@.len() ==> #[trigger] bulk_line_view(lines@[k]).0 == (k % 2 == 0),
        decreases body@.len() - i,
    {
        let ghost before = Seq::new(lines@.len() as nat, |k: int| bulk_line_view(lines@[k]).1);
        assert(body@.skip(i as int)[0] == body@[i as int]);
        assert(body@.skip(i as int).drop_first() =~= body@.skip(i + 1));
        if body[i] == 10 {
            let line = cur;
            cur = Vec::new();
            if lines.len() % 2 == 0 {
                lines.push(BulkLine::Action(line));
            } else {
                lines.push(BulkLine::Document(line));
            }
            assert(Seq::new(lines@.len() as nat, |k: int| bulk_line_view(lines@[k]).1) =~= before.push(
                line@,
            ));
            assert(Seq::new(lines@.len() as nat, |k: int| bulk_line_view(lines@[k]).1) + lines_from(
                body@.skip(i + 1),
                cur@,
            ) =~= before + lines_from(body@.skip(i as int), line@));
        } else {
            cur.push(body[i]);
        }
        i += 1;
    }
    let ghost before = Seq::new(lines@.len() as nat, |k: int| bulk_line_view(lines@[k]).1);
    assert(lines_from(body@.skip(i as int), cur@) == seq![cur@]);
    let last = cur;
    if lines.len() % 2 == 0 {
        lines.push(BulkLine::Action(last));
    } else {
        lines.push(BulkLine::Document(last));
    }
    assert(Seq::new(lines@.len() as nat, |k: int| bulk_line_view(lines@[k]).1) =~= before.push(last@));
    Some(lines)
}

/// Lines joined again with line feeds between them.
pub open spec fn join_lines(lines: Seq<Seq<u8>>) -> Seq<u8>
    decreases lines.len(),
{
    if lines.len() == 0 {
        seq![]
    } else if lines.len() == 1 {
        lines[0]
    } else {
        lines[0] + seq![10u8] + join_lines(lines.drop_first())
    }
}

proof fn lemma_lines_from_join(rest: Seq<u8>, cur: Seq<u8>)
    ensures
        lines_from(rest, cur).len() >= 1,
        join_lines(lines_from(rest, cur)) == cur + rest,
    decreases rest.len(),
{
    if rest.len() == 0 {
        assert(cur + rest =~= cur);
    } else if rest[0] == 10 {
        lemma_lines_from_join(rest.drop_first(), seq![]);
        let tail = lines_from(rest.drop_first(), seq![]);
        let all = seq![cur] + tail;
        assert(all.drop_first() =~= tail);
        assert(all[0] == cur);
        assert(cur + seq![10u8] + (Seq::<u8>::empty() + rest.drop_first()) =~= cur + rest);
    } else {
        lemma_lines_from_join(rest.drop_first(), cur.push(rest[0]));
        assert(cur.push(rest[0]) + rest.drop_first() =~= cur + rest);
    }
}

/// Splitting a text into lines loses nothing: joining the lines with line
/// feeds gives the text back. There is always at least one line.
pub proof fn law_lines_join_back(text: Seq<u8>)
    ensures
        join_lines(lines_of(text)) == text,
        lines_of(text).len() >= 1,
{
    lemma_lines_from_join(text, seq![]);
    assert(Seq::<u8>::empty() + text =~= text);
}

} // verus!
