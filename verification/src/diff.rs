//! Line diffs between an existing file and its new text, from `similar`.

use vstd::prelude::*;
use crate::text;

verus! {

/// What a diff line does.
#[derive(Debug, Clone, Copy, PartialEq, Eq, Structural)]
pub enum DiffTag {
    Equal,
    Delete,
    Insert,
}

/// The changes `similar::TextDiff::from_lines` finds between two texts: each line
/// (with its line ending) tagged as kept, deleted or inserted, in order.
pub uninterp spec fn line_changes(old: Seq<char>, new: Seq<char>) -> Seq<(DiffTag, Seq<char>)>;

/// The text of the changes on the old side: kept and deleted lines, in order.
pub open spec fn old_side(cs: Seq<(DiffTag, Seq<char>)>) -> Seq<char>
    decreases cs.len(),
{
    if cs.len() == 0 {
        seq![]
    } else {
        old_side(cs.drop_last()) + if cs.last().0 == DiffTag::Insert {
            Seq::<char>::empty()
        } else {
            cs.last().1
        }
    }
}

/// The text of the changes on the new side: kept and inserted lines, in order.
pub open spec fn new_side(cs: Seq<(DiffTag, Seq<char>)>) -> Seq<char>
    decreases cs.len(),
{
    if cs.len() == 0 {
        seq![]
    } else {
        new_side(cs.drop_last()) + if cs.last().0 == DiffTag::Delete {
            Seq::<char>::empty()
        } else {
            cs.last().1
        }
    }
}

pub open spec fn changes_view(v: Seq<(DiffTag, String)>) -> Seq<(DiffTag, Seq<char>)> {
    v.map_values(|c: (DiffTag, String)| (c.0, c.1@))
}

/// `similar::TextDiff::from_lines(old, new).iter_all_changes()`, each change as its
/// tag and text.  Claimed: the result is `line_changes(old@, new@)`; the diff has no
/// deadline, so it depends on the two texts alone.  The lines are the texts cut
/// after each line ending, and every line of each text appears once, in order:
/// kept and deleted lines make up `old`, kept and inserted lines make up `new`.
/// Which diff Myers' algorithm picks is not stated.
#[verifier::external_body]
pub(crate) fn diff_lines(old: &str, new: &str) -> (r: Vec<(DiffTag, String)>)
    ensures
        changes_view(r@) == line_changes(old@, new@),
        old_side(changes_view(r@)) == old@,
        new_side(changes_view(r@)) == new@,
{
    similar::TextDiff::from_lines(old, new).iter_all_changes().map(
        |c| match c.tag() {
            similar::ChangeTag::Equal => (DiffTag::Equal, c.value().to_string()),
            similar::ChangeTag::Delete => (DiffTag::Delete, c.value().to_string()),
            similar::ChangeTag::Insert => (DiffTag::Insert, c.value().to_string()),
        },
    ).collect()
}

/// The mark a diff line is shown with: `-` deleted, `+` inserted, ` ` kept.
pub open spec fn diff_mark(t: DiffTag) -> char {
    match t {
        DiffTag::Equal => ' ',
        DiffTag::Delete => '-',
        DiffTag::Insert => '+',
    }
}

/// A diff line as shown: its tag, and its text after the mark.
#[derive(Debug)]
pub struct DiffLine {
    pub tag: DiffTag,
    pub text: String,
}

pub open spec fn shown_line(c: (DiffTag, Seq<char>)) -> (DiffTag, Seq<char>) {
    (c.0, seq![diff_mark(c.0)] + c.1)
}

/// Shown lines with their marks taken off.
pub open spec fn unmarked(ls: Seq<DiffLine>) -> Seq<(DiffTag, Seq<char>)> {
    ls.map_values(|l: DiffLine| (l.tag, l.text@.drop_first()))
}

proof fn lemma_unmark_shown(cs: Seq<(DiffTag, Seq<char>)>)
    ensures
        cs.map_values(|c: (DiffTag, Seq<char>)| shown_line(c)).map_values(
            |l: (DiffTag, Seq<char>)| (l.0, l.1.drop_first()),
        ) =~= cs,
{
    assert forall|i: int| 0 <= i < cs.len() implies (seq![diff_mark(cs[i].0)] + cs[i].1).drop_first()
        == cs[i].1 by {
        assert((seq![diff_mark(cs[i].0)] + cs[i].1).drop_first() =~= cs[i].1);
    }
}

/// The lines of the diff from `old` to `new` as they are shown, each marked.
pub fn diff_display_lines(old: &str, new: &str) -> (r: Vec<DiffLine>)
    ensures
        r@.map_values(|l: DiffLine| (l.tag, l.text@)) == line_changes(old@, new@).map_values(
            |c: (DiffTag, Seq<char>)| shown_line(c),
        ),
        old_side(unmarked(r@)) == old@,
        new_side(unmarked(r@)) == new@,
{
    let changes = diff_lines(old, new);
    let ghost cv = changes@.map_values(|c: (DiffTag, String)| (c.0, c.1@));
    let mut out: Vec<DiffLine> = Vec::new();
    let mut i: usize = 0;
    while i < changes.len()
        invariant
            i <= changes.len(),
            cv == changes@.map_values(|c: (DiffTag, String)| (c.0, c.1@)),
            out@.map_values(|l: DiffLine| (l.tag, l.text@)) == cv.take(i as int).map_values(
                |c: (DiffTag, Seq<char>)| shown_line(c),
            ),
        decreases changes.len() - i,
    {
        let tag = changes[i].0;
        let mark = match tag {
            DiffTag::Equal => ' ',
            DiffTag::Delete => '-',
            DiffTag::Insert => '+',
        };
        let mut line: Vec<char> = Vec::new();
        line.push(mark);
        let body = text::chars_of(changes[i].1.as_str());
        let full = text::concat_chars(&line, &body);
        let ghost before = out@.map_values(|l: DiffLine| (l.tag, l.text@));
        out.push(DiffLine { tag, text: text::string_from_chars(&full) });
        proof {
            assert(line@ =~= seq![diff_mark(tag)]);
            assert(out@.map_values(|l: DiffLine| (l.tag, l.text@)) =~= before.push(
                shown_line(cv[i as int]),
            ));
            assert(cv.take(i + 1).map_values(|c: (DiffTag, Seq<char>)| shown_line(c)) =~= cv.take(
                i as int,
            ).map_values(|c: (DiffTag, Seq<char>)| shown_line(c)).push(shown_line(cv[i as int])));
        }
        i += 1;
    }
    assert(cv.take(changes.len() as int) =~= cv);
    proof {
        lemma_unmark_shown(cv);
        assert(unmarked(out@) =~= out@.map_values(|l: DiffLine| (l.tag, l.text@)).map_values(
            |l: (DiffTag, Seq<char>)| (l.0, l.1.drop_first()),
        ));
        assert(unmarked(out@) =~= cv);
    }
    out
}

} // verus!
