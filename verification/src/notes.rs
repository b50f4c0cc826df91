//! Text of a task's notes: lines, and the footer that links a mirror task to
//! the Asana task it stands for.

use crate::text::{first_index_of, lemma_first_index_is, lemma_first_index_of};
use vstd::prelude::*;

verus! {

/// A line without the carriage return that stood before its line feed.
pub open spec fn without_final_cr(line: Seq<char>) -> Seq<char> {
    if line.len() > 0 && line.last() == '\r' {
        line.drop_last()
    } else {
        line
    }
}

/// The lines of a text. A line ends at a line feed; a carriage return just
/// before that line feed is not part of the line; what follows the last
/// line feed is a line if it is not empty, and keeps a carriage return at
/// its end.
pub open spec fn lines_of(s: Seq<char>) -> Seq<Seq<char>>
    decreases s.len(),
{
    let k = first_index_of(s, '\n');
    if s.len() == 0 {
        Seq::empty()
    } else if 0 <= k < s.len() {
        seq![without_final_cr(s.take(k))] + lines_of(s.skip(k + 1))
    } else {
        seq![s]
    }
}

/// The lines of `s`.
pub fn split_lines(s: &str) -> (lines: Vec<String>)
    ensures
        lines.deep_view() == lines_of(s@),
{
    let mut lines: Vec<String> = Vec::new();
    let mut line = String::new();
    let mut pending_cr = false;
    let ghost mut start: int = 0;
    assert(s@.skip(0) == s@);
    for c in it: s.chars()
        invariant
            it.seq() == s@,
            0 <= start <= it.index() <= s@.len(),
            forall|j: int| start <= j < it.index() ==> s@[j] != '\n',
            s@.subrange(start, it.index() as int) == if pending_cr {
                line@.push('\r')
            } else {
                line@
            },
            !pending_cr ==> without_final_cr(line@) == line@,
            lines.deep_view() + lines_of(s@.skip(start)) == lines_of(s@),
    {
        let ghost i = it.index() as int;
        assert(s@.subrange(start, i + 1) == s@.subrange(start, i).push(c));
        if c == '\n' {
            proof {
                let rest = s@.skip(start);
                lemma_first_index_is(rest, '\n', i - start);
                assert(rest.take(i - start) == s@.subrange(start, i));
                assert(rest.skip(i - start + 1) == s@.skip(i + 1));
                assert(without_final_cr(rest.take(i - start)) == line@);
                assert(lines.deep_view().push(line@) + lines_of(s@.skip(i + 1))
                    == lines.deep_view() + lines_of(rest));
                start = i + 1;
            }
            let ghost before = lines.deep_view();
            lines.push(line);
            assert(lines.deep_view() == before.push(line@));
            line = String::new();
            pending_cr = false;
            assert(s@.subrange(start, start) == Seq::<char>::empty());
        } else if c == '\r' {
            if pending_cr {
                line.push('\r');
            }
            pending_cr = true;
        } else {
            if pending_cr {
                line.push('\r');
                pending_cr = false;
            }
            line.push(c);
        }
    }
    if pending_cr {
        line.push('\r');
    }
    proof {
        let rest = s@.skip(start);
        assert(rest == s@.subrange(start, s@.len() as int));
        lemma_first_index_is(rest, '\n', rest.len() as int);
    }
    if !line.as_str().is_empty() {
        let ghost before = lines.deep_view();
        lines.push(line);
        assert(lines.deep_view() == before.push(line@));
        assert(before.push(line@) == before + seq![line@]);
    }
    lines
}

/// The line that stands between a task's own notes and the id of the Asana
/// task it mirrors.
pub open spec fn separator() -> Seq<char> {
    seq!['-', '-', '-']
}

/// `body` followed by a line break, the separator line and `gid`.
pub open spec fn notes_with_link(body: Seq<char>, gid: Seq<char>) -> Seq<char> {
    body + seq!['\n', '-', '-', '-', '\n'] + gid
}

/// The line after the first separator line of `note`, if there is one.
pub open spec fn linked_gid(note: Seq<char>) -> Option<Seq<char>> {
    let lines = lines_of(note);
    let k = first_index_of(lines, separator());
    if k + 1 < lines.len() {
        Some(lines[k + 1])
    } else {
        None
    }
}

/// The lines of `note` before its first separator line; all of them where it
/// has none.
pub open spec fn body_lines(note: Seq<char>) -> Seq<Seq<char>> {
    let lines = lines_of(note);
    lines.take(first_index_of(lines, separator()))
}

/// After a text that is empty or ends in a line feed, the lines of what
/// follows begin afresh.
pub proof fn lemma_lines_after_break(a: Seq<char>, b: Seq<char>)
    requires
        a.len() > 0 ==> a.last() == '\n',
    ensures
        lines_of(a + b) == lines_of(a) + lines_of(b),
    decreases a.len(),
{
    if a.len() == 0 {
        assert(a + b == b);
        assert(lines_of(a) + lines_of(b) == lines_of(b));
    } else {
        lemma_first_index_of(a, '\n');
        let k = first_index_of(a, '\n');
        let rest = a.skip(k + 1);
        assert forall|j: int| 0 <= j < k implies (a + b)[j] != '\n' by {
            assert((a + b)[j] == a[j]);
        }
        assert((a + b)[k] == a[k]);
        lemma_first_index_is(a + b, '\n', k);
        assert((a + b).take(k) == a.take(k));
        assert((a + b).skip(k + 1) == rest + b);
        if rest.len() > 0 {
            assert(rest.last() == a.last());
        }
        lemma_lines_after_break(rest, b);
        assert(seq![without_final_cr(a.take(k))] + (lines_of(rest) + lines_of(b)) == (seq![
            without_final_cr(a.take(k)),
        ] + lines_of(rest)) + lines_of(b));
    }
}

/// A line feed after a text leaves its lines as they are and at most adds
/// one, unless the text ends in a carriage return.
pub proof fn lemma_lines_before_break(s: Seq<char>)
    requires
        s.len() > 0 ==> s.last() != '\r',
    ensures
        lines_of(s).is_prefix_of(lines_of(s.push('\n'))),
    decreases s.len(),
{
    let ended = s.push('\n');
    lemma_first_index_of(s, '\n');
    let k = first_index_of(s, '\n');
    assert forall|j: int| 0 <= j < k implies ended[j] != '\n' by {
        assert(ended[j] == s[j]);
    }
    if k < s.len() {
        let rest = s.skip(k + 1);
        assert(ended[k] == s[k]);
        lemma_first_index_is(ended, '\n', k);
        assert(ended.take(k) == s.take(k));
        assert(ended.skip(k + 1) == rest.push('\n'));
        if rest.len() > 0 {
            assert(rest.last() == s.last());
        }
        lemma_lines_before_break(rest);
        let first = seq![without_final_cr(s.take(k))];
        assert(lines_of(s) == first + lines_of(rest));
        assert(lines_of(ended) == first + lines_of(rest.push('\n')));
        assert forall|j: int| 0 <= j < lines_of(s).len() implies lines_of(s)[j] == lines_of(
            ended,
        )[j] by {
            if j > 0 {
                assert(lines_of(s)[j] == lines_of(rest)[j - 1]);
                assert(lines_of(ended)[j] == lines_of(rest.push('\n'))[j - 1]);
            }
        }
    } else if s.len() > 0 {
        assert(ended[k] == '\n');
        lemma_first_index_is(ended, '\n', k);
        assert(ended.take(k) == s);
        assert(ended.skip(k + 1) == Seq::<char>::empty());
        assert(lines_of(ended) == seq![without_final_cr(s)] + lines_of(Seq::<char>::empty()));
        assert(lines_of(ended)[0] == s);
    }
}

/// The lines of a note before its footer are among the first lines of the
/// text that the footer was appended to, once a line feed ends it.
pub proof fn lemma_body_lines_of_link(body: Seq<char>, gid: Seq<char>)
    ensures
        body_lines(notes_with_link(body, gid)).is_prefix_of(lines_of(body.push('\n'))),
{
    let head = body.push('\n');
    let tail = seq!['-', '-', '-', '\n'] + gid;
    let own = lines_of(head);
    assert(notes_with_link(body, gid) == head + tail);
    lemma_lines_after_break(head, tail);
    lemma_lines_after_break(seq!['-', '-', '-', '\n'], gid);
    let mark = seq!['-', '-', '-', '\n'];
    assert(lines_of(mark) == seq![separator()]) by {
        lemma_first_index_is(mark, '\n', 3);
        assert(mark.take(3) == separator());
        assert(mark.skip(4) == Seq::<char>::empty());
        assert(lines_of(mark) == seq![without_final_cr(mark.take(3))] + lines_of(mark.skip(4)));
    }
    let lines = lines_of(notes_with_link(body, gid));
    assert(lines == own + (seq![separator()] + lines_of(gid)));
    lemma_first_index_of(lines, separator());
    let k = first_index_of(lines, separator());
    assert(lines[own.len() as int] == separator());
    assert(k <= own.len());
    assert forall|j: int| 0 <= j < k implies lines.take(k)[j] == own[j] by {
        assert(lines[j] == own[j]);
    }
}

/// What `encode` appends, `get_asana_task_gid_from_note` finds: where no
/// line of `body`, once a line feed ends it, is the separator line, and
/// `gid` is one line that is not empty, the id read back from `body` with
/// the footer for `gid` is `gid`.
pub proof fn lemma_link_round_trip(body: Seq<char>, gid: Seq<char>)
    requires
        !lines_of(body.push('\n')).contains(separator()),
        gid.len() > 0,
        !gid.contains('\n'),
    ensures
        linked_gid(notes_with_link(body, gid)) == Some(gid),
{
    let head = body.push('\n');
    let mark = seq!['-', '-', '-', '\n'];
    let own = lines_of(head);
    assert(notes_with_link(body, gid) == head + (mark + gid));
    lemma_lines_after_break(head, mark + gid);
    lemma_lines_after_break(mark, gid);
    assert(lines_of(mark) == seq![separator()]) by {
        lemma_first_index_is(mark, '\n', 3);
        assert(mark.take(3) == separator());
        assert(mark.skip(4) == Seq::<char>::empty());
        assert(lines_of(mark) == seq![without_final_cr(mark.take(3))] + lines_of(mark.skip(4)));
    }
    assert(lines_of(gid) == seq![gid]) by {
        lemma_first_index_is(gid, '\n', gid.len() as int);
    }
    let lines = lines_of(notes_with_link(body, gid));
    assert(lines == own + (seq![separator()] + seq![gid]));
    assert forall|j: int| 0 <= j < own.len() implies lines[j] != separator() by {
        assert(lines[j] == own[j]);
    }
    assert(lines[own.len() as int] == separator());
    lemma_first_index_is(lines, separator(), own.len() as int);
    assert(lines[own.len() as int + 1] == gid);
}

/// Position of the first separator line among `lines`, or their number.
fn separator_position(lines: &Vec<String>) -> (k: usize)
    ensures
        k <= lines.len(),
        k == first_index_of(lines.deep_view(), separator()),
{
    let mark = "---".to_owned();
    proof {
        reveal_strlit("---");
        assert(mark@ == separator());
    }
    let mut k: usize = 0;
    while k < lines.len()
        invariant
            k <= lines.len(),
            mark@ == separator(),
            forall|j: int| 0 <= j < k ==> lines.deep_view()[j] != separator(),
        decreases lines.len() - k,
    {
        if lines[k] == mark {
            proof {
                lemma_first_index_is(lines.deep_view(), separator(), k as int);
            }
            return k;
        }
        k += 1;
    }
    proof {
        lemma_first_index_is(lines.deep_view(), separator(), k as int);
    }
    k
}

/// Appends to `body` the footer that names the Asana task `gid`.
pub fn encode(body: &str, gid: &str) -> (note: String)
    ensures
        note@ == notes_with_link(body@, gid@),
{
    let mut note = body.to_owned();
    note.append("\n---\n");
    note.append(gid);
    proof {
        reveal_strlit("\n---\n");
        assert("\n---\n"@ == seq!['\n', '-', '-', '-', '\n']);
    }
    note
}

/// The id of the Asana task that `note` names in its footer: the line after
/// the first separator line. `None` where `note` has no separator line, or
/// nothing after it.
pub fn get_asana_task_gid_from_note(note: &str) -> (gid: Option<String>)
    ensures
        gid.deep_view() == linked_gid(note@),
{
    let lines = split_lines(note);
    let k = separator_position(&lines);
    if k < lines.len() && k + 1 < lines.len() {
        Some(lines[k + 1].clone())
    } else {
        None
    }
}

/// The lines of `note` that its author wrote: those before the footer.
pub fn body_prefix(note: &str) -> (lines: Vec<String>)
    ensures
        lines.deep_view() == body_lines(note@),
{
    let mut lines = split_lines(note);
    let k = separator_position(&lines);
    let ghost all = lines.deep_view();
    lines.truncate(k);
    assert(lines.deep_view() == all.take(k as int));
    lines
}

} // verus!
