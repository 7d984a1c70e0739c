//! The log store: one record per line, appended and never changed.
//!
//! The store is a text. `append` adds one line to its end; reading takes the
//! text apart into lines, passes over the blank ones, and keeps what the
//! remaining lines decode to. How a record is written on a line is the
//! caller's business: the laws below hold for every way of decoding.

use crate::text::{all_whitespace, chars_of, is_blank, push_char, string_of};
use vstd::prelude::*;

verus! {

/// Position of the first line feed in `s`, or the length of `s` when it has none.
pub open spec fn line_end(s: Seq<char>) -> nat
    decreases s.len(),
{
    if s.len() == 0 || s[0] == '\n' {
        0
    } else {
        1 + line_end(s.skip(1))
    }
}

/// A line without the carriage return that may close it.
pub open spec fn without_cr(line: Seq<char>) -> Seq<char> {
    if line.len() > 0 && line.last() == '\r' {
        line.drop_last()
    } else {
        line
    }
}

/// The lines of a text. A line ends at a line feed or at the end of the
/// text. The line feed, and a carriage return right before it, are not part
/// of the line; a last line that no line feed closes is taken as it stands.
/// Nothing follows the last line feed of a text that ends in one.
pub open spec fn lines(s: Seq<char>) -> Seq<Seq<char>>
    decreases s.len(),
{
    if s.len() == 0 {
        Seq::empty()
    } else {
        let end = line_end(s);
        if end < s.len() {
            seq![without_cr(s.take(end as int))] + lines(s.skip(end as int + 1))
        } else {
            seq![s]
        }
    }
}

/// The lines that are not blank, in their order.
pub open spec fn nonblank(ls: Seq<Seq<char>>) -> Seq<Seq<char>>
    decreases ls.len(),
{
    if ls.len() == 0 {
        Seq::empty()
    } else {
        let earlier = nonblank(ls.drop_last());
        if is_blank(ls.last()) {
            earlier
        } else {
            earlier.push(ls.last())
        }
    }
}

/// The lines of a log that may hold a record.
pub open spec fn record_lines_of(content: Seq<char>) -> Seq<Seq<char>> {
    nonblank(lines(content))
}

/// The items that are there, in their order.
pub open spec fn present<T>(items: Seq<Option<T>>) -> Seq<T>
    decreases items.len(),
{
    if items.len() == 0 {
        Seq::empty()
    } else {
        let earlier = present(items.drop_last());
        match items.last() {
            Some(x) => earlier.push(x),
            None => earlier,
        }
    }
}

/// The records read from a log: what its record lines decode to, in the
/// order of the log. A line that does not decode is passed over.
pub open spec fn read_all<T>(content: Seq<char>, decode: spec_fn(Seq<char>) -> Option<T>) -> Seq<
    T,
> {
    present(record_lines_of(content).map_values(decode))
}

/// A text without a line feed.
pub open spec fn single_line(line: Seq<char>) -> bool {
    forall|i: int| 0 <= i < line.len() ==> line[i] != '\n'
}

/// A text that can be stored as one line and be found again on reading: it
/// has no line feed, is not blank, and does not end in a carriage return.
pub open spec fn is_record_line(line: Seq<char>) -> bool {
    &&& single_line(line)
    &&& !is_blank(line)
    &&& without_cr(line) == line
}

/// A line as it is written: closed by a line feed.
pub open spec fn framed(line: Seq<char>) -> Seq<char> {
    line.push('\n')
}

/// The log after `line` was appended.
pub open spec fn appended(content: Seq<char>, line: Seq<char>) -> Seq<char> {
    content + framed(line)
}

/// The log that results from appending `ls`, one after the other, to an empty log.
pub open spec fn written(ls: Seq<Seq<char>>) -> Seq<char>
    decreases ls.len(),
{
    if ls.len() == 0 {
        Seq::empty()
    } else {
        appended(written(ls.drop_last()), ls.last())
    }
}

/// A log that no append has left unfinished: it is empty or ends in a line feed.
pub open spec fn is_complete(content: Seq<char>) -> bool {
    content.len() == 0 || content.last() == '\n'
}

/// Frames a serialised record for appending.
///
/// The result is the line closed by a line feed, to be written in one piece.
/// A text that could not be read back as one record line is refused.
pub fn frame(record: &str) -> (out: Option<String>)
    ensures
        match out {
            Some(line) => is_record_line(record@) && line@ == framed(record@),
            None => !is_record_line(record@),
        },
{
    let chars = chars_of(record);
    let len = chars.len();
    let mut i: usize = 0;
    while i < len
        invariant
            i <= len,
            len == chars.len(),
            chars@ == record@,
            forall|j: int| 0 <= j < i ==> chars@[j] != '\n',
        decreases len - i,
    {
        if chars[i] == '\n' {
            assert(record@[i as int] == '\n');
            return None;
        }
        i += 1;
    }
    assert(chars@.subrange(0, len as int) == chars@);
    if all_whitespace(&chars, 0, len) {
        return None;
    }
    if chars[len - 1] == '\r' {
        return None;
    }
    let mut line = record.to_owned();
    push_char(&mut line, '\n');
    Some(line)
}

/// The lines of `content` that may hold a record, in the order of the log.
pub fn record_lines(content: &str) -> (out: Vec<String>)
    ensures
        out.deep_view() == record_lines_of(content@),
{
    let chars = chars_of(content);
    let len = chars.len();
    let mut out: Vec<String> = Vec::new();
    let mut pos: usize = 0;
    let ghost mut done: Seq<Seq<char>> = Seq::empty();
    assert(chars@.skip(0) == chars@);
    assert(out.deep_view() =~= Seq::empty());
    while pos < len
        invariant
            pos <= len,
            len == chars.len(),
            lines(chars@) == done + lines(chars@.skip(pos as int)),
            out.deep_view() == nonblank(done),
        decreases len - pos,
    {
        let mut end: usize = pos;
        while end < len && chars[end] != '\n'
            invariant
                pos <= end <= len,
                len == chars.len(),
                forall|j: int| pos <= j < end ==> chars@[j] != '\n',
            decreases len - end,
        {
            end += 1;
        }
        let stop: usize = if end < len && end > pos && chars[end - 1] == '\r' {
            end - 1
        } else {
            end
        };
        let ghost rest = chars@.skip(pos as int);
        let ghost line = chars@.subrange(pos as int, stop as int);
        proof {
            lemma_line_end_at(rest, end - pos);
            assert(rest.take(end - pos) == chars@.subrange(pos as int, end as int));
            if end < len {
                assert(without_cr(chars@.subrange(pos as int, end as int)) == line);
                assert(rest.skip(end - pos + 1) == chars@.skip(end + 1));
            } else {
                assert(rest == line);
                assert(chars@.skip(len as int) =~= Seq::empty());
            }
            assert(done + (seq![line] + lines(chars@.skip(end + 1))) == done.push(line) + lines(
                chars@.skip(end + 1),
            ));
            assert(done + seq![line] == done.push(line));
            assert(done.push(line).drop_last() == done);
        }
        if !all_whitespace(&chars, pos, stop) {
            let ghost before = out.deep_view();
            out.push(string_of(&chars, pos, stop));
            assert(out.deep_view() =~= before.push(line));
        }
        proof {
            done = done.push(line);
        }
        pos = if end < len {
            end + 1
        } else {
            end
        };
    }
    assert(chars@.skip(len as int) =~= Seq::empty());
    assert(done + Seq::<Seq<char>>::empty() == done);
    out
}

/// Keeps the items that are there, in their order.
pub fn collect_present<T>(items: Vec<Option<T>>) -> (out: Vec<T>)
    ensures
        out@ == present(items@),
{
    let mut out: Vec<T> = Vec::new();
    let ghost all = items@;
    assert(all.take(0) =~= Seq::empty());
    for item in it: items
        invariant
            it.seq() == all,
            out@ == present(all.take(it.index() as int)),
    {
        proof {
            let i = it.index() as int;
            assert(all.take(i + 1).drop_last() == all.take(i));
            assert(all.take(i + 1).last() == item);
        }
        match item {
            Some(x) => {
                out.push(x);
            },
            None => {},
        }
    }
    assert(all.take(all.len() as int) == all);
    out
}

/// `line_end` lies within the text, at its first line feed if it has one.
pub proof fn lemma_line_end(s: Seq<char>)
    ensures
        line_end(s) <= s.len(),
        forall|i: int| 0 <= i < line_end(s) ==> s[i] != '\n',
        line_end(s) < s.len() ==> s[line_end(s) as int] == '\n',
    decreases s.len(),
{
    if s.len() == 0 || s[0] == '\n' {
    } else {
        let t = s.skip(1);
        lemma_line_end(t);
        assert forall|i: int| 0 <= i < line_end(s) implies s[i] != '\n' by {
            if i > 0 {
                assert(t[i - 1] == s[i]);
            }
        }
        if line_end(s) < s.len() {
            assert(t[line_end(t) as int] == s[line_end(s) as int]);
        }
    }
}

/// The first line feed, or the end of a text without one, is its `line_end`.
pub proof fn lemma_line_end_at(s: Seq<char>, k: int)
    requires
        0 <= k <= s.len(),
        forall|i: int| 0 <= i < k ==> s[i] != '\n',
        k < s.len() ==> s[k] == '\n',
    ensures
        line_end(s) == k,
    decreases s.len(),
{
    if k > 0 {
        let t = s.skip(1);
        assert forall|i: int| 0 <= i < k - 1 implies t[i] != '\n' by {
            assert(t[i] == s[i + 1]);
        }
        if k - 1 < t.len() {
            assert(t[k - 1] == s[k]);
        }
        lemma_line_end_at(t, k - 1);
    }
}

/// The lines of a complete log followed by more text are the lines of the
/// log followed by the lines of that text.
pub proof fn lemma_lines_concat(a: Seq<char>, b: Seq<char>)
    requires
        is_complete(a),
    ensures
        lines(a + b) == lines(a) + lines(b),
    decreases a.len(),
{
    if a.len() == 0 {
        assert(a + b == b);
    } else {
        lemma_line_end(a);
        let k = line_end(a) as int;
        assert(k < a.len()) by {
            if k == a.len() {
                assert(a[a.len() - 1] != '\n');
            }
        }
        assert forall|i: int| 0 <= i < k implies (a + b)[i] != '\n' by {
            assert((a + b)[i] == a[i]);
        }
        assert((a + b)[k] == a[k]);
        lemma_line_end_at(a + b, k);
        let rest = a.skip(k + 1);
        assert((a + b).take(k) == a.take(k));
        assert((a + b).skip(k + 1) == rest + b);
        assert(is_complete(rest)) by {
            if rest.len() > 0 {
                assert(rest.last() == a.last());
            }
        }
        lemma_lines_concat(rest, b);
        let first = seq![without_cr(a.take(k))];
        assert(first + (lines(rest) + lines(b)) == (first + lines(rest)) + lines(b));
    }
}

/// A framed line is a log of that one line.
pub proof fn lemma_lines_of_framed(line: Seq<char>)
    requires
        single_line(line),
    ensures
        lines(framed(line)) == seq![without_cr(line)],
{
    let f = framed(line);
    assert forall|i: int| 0 <= i < line.len() implies f[i] != '\n' by {
        assert(f[i] == line[i]);
    }
    lemma_line_end_at(f, line.len() as int);
    assert(f.take(line.len() as int) == line);
    assert(f.skip(line.len() as int + 1) =~= Seq::empty());
    assert(lines(f.skip(line.len() as int + 1)) == Seq::<Seq<char>>::empty());
    assert(seq![without_cr(line)] + Seq::<Seq<char>>::empty() == seq![without_cr(line)]);
}

proof fn lemma_nonblank_concat(a: Seq<Seq<char>>, b: Seq<Seq<char>>)
    ensures
        nonblank(a + b) == nonblank(a) + nonblank(b),
    decreases b.len(),
{
    if b.len() == 0 {
        assert(a + b == a);
    } else {
        assert((a + b).drop_last() == a + b.drop_last());
        assert((a + b).last() == b.last());
        lemma_nonblank_concat(a, b.drop_last());
    }
}

proof fn lemma_present_concat<T>(a: Seq<Option<T>>, b: Seq<Option<T>>)
    ensures
        present(a + b) == present(a) + present(b),
    decreases b.len(),
{
    if b.len() == 0 {
        assert(a + b == a);
    } else {
        assert((a + b).drop_last() == a + b.drop_last());
        assert((a + b).last() == b.last());
        lemma_present_concat(a, b.drop_last());
    }
}

/// Reading a complete log followed by more text yields the records of the
/// log, then the records of that text.
pub proof fn lemma_read_concat<T>(
    a: Seq<char>,
    b: Seq<char>,
    decode: spec_fn(Seq<char>) -> Option<T>,
)
    requires
        is_complete(a),
    ensures
        read_all(a + b, decode) == read_all(a, decode) + read_all(b, decode),
{
    lemma_lines_concat(a, b);
    lemma_nonblank_concat(lines(a), lines(b));
    let ra = record_lines_of(a);
    let rb = record_lines_of(b);
    assert((ra + rb).map_values(decode) == ra.map_values(decode) + rb.map_values(decode));
    lemma_present_concat(ra.map_values(decode), rb.map_values(decode));
}

/// Reading one framed line yields what the line decodes to, if it is not
/// blank and decodes at all.
pub proof fn lemma_read_framed<T>(line: Seq<char>, decode: spec_fn(Seq<char>) -> Option<T>)
    requires
        single_line(line),
    ensures
        read_all(framed(line), decode) == if is_blank(without_cr(line)) {
            Seq::<T>::empty()
        } else {
            match decode(without_cr(line)) {
                Some(record) => seq![record],
                None => Seq::<T>::empty(),
            }
        },
{
    lemma_lines_of_framed(line);
    let l = without_cr(line);
    let one = seq![l];
    assert(one.drop_last() == Seq::<Seq<char>>::empty());
    assert(one.last() == l);
    assert(nonblank(one.drop_last()) == Seq::<Seq<char>>::empty());
    if is_blank(l) {
        assert(nonblank(one) == Seq::<Seq<char>>::empty());
        assert(nonblank(one).map_values(decode) == Seq::<Option<T>>::empty());
    } else {
        assert(nonblank(one) == one);
        let d = one.map_values(decode);
        assert(d.drop_last() == Seq::<Option<T>>::empty());
        assert(d.last() == decode(l));
        assert(present(d.drop_last()) == Seq::<T>::empty());
    }
}

/// A log that holds nothing, as one that was never written, reads as no records.
pub proof fn lemma_empty_log_reads_empty<T>(decode: spec_fn(Seq<char>) -> Option<T>)
    ensures
        read_all(Seq::<char>::empty(), decode) == Seq::<T>::empty(),
{
    assert(lines(Seq::<char>::empty()) == Seq::<Seq<char>>::empty());
    assert(record_lines_of(Seq::<char>::empty()).map_values(decode) == Seq::<Option<T>>::empty());
}

/// Round trip: after a record line was appended to a complete log, reading
/// yields the records that were there before, followed by the record that
/// the line decodes to. The last record read is the one appended.
pub proof fn lemma_append_then_read<T>(
    content: Seq<char>,
    line: Seq<char>,
    decode: spec_fn(Seq<char>) -> Option<T>,
    record: T,
)
    requires
        is_complete(content),
        is_record_line(line),
        decode(line) == Some(record),
    ensures
        read_all(appended(content, line), decode) == read_all(content, decode).push(record),
        read_all(appended(content, line), decode).last() == record,
        is_complete(appended(content, line)),
{
    lemma_read_concat(content, framed(line), decode);
    lemma_read_framed(line, decode);
    assert(read_all(content, decode) + seq![record] == read_all(content, decode).push(record));
}

/// Order preservation: reading a log that was written by appending record
/// lines one after the other yields their records, as many as were appended
/// and in the order of the appends.
pub proof fn lemma_appends_read_in_order<T>(
    ls: Seq<Seq<char>>,
    decode: spec_fn(Seq<char>) -> Option<T>,
    records: Seq<T>,
)
    requires
        ls.len() == records.len(),
        forall|i: int| 0 <= i < ls.len() ==> is_record_line(#[trigger] ls[i]),
        forall|i: int| 0 <= i < ls.len() ==> decode(#[trigger] ls[i]) == Some(records[i]),
    ensures
        read_all(written(ls), decode) == records,
        is_complete(written(ls)),
    decreases ls.len(),
{
    if ls.len() == 0 {
        assert(lines(written(ls)) == Seq::<Seq<char>>::empty());
        assert(read_all(written(ls), decode) == Seq::<T>::empty());
        assert(records == Seq::<T>::empty());
    } else {
        lemma_appends_read_in_order(ls.drop_last(), decode, records.drop_last());
        lemma_append_then_read(written(ls.drop_last()), ls.last(), decode, records.last());
        assert(records.drop_last().push(records.last()) == records);
    }
}

/// A line that is blank or does not decode leaves no trace in what is read,
/// whatever stands before and after it.
pub proof fn lemma_undecodable_line_is_dropped<T>(
    before: Seq<char>,
    line: Seq<char>,
    after: Seq<char>,
    decode: spec_fn(Seq<char>) -> Option<T>,
)
    requires
        is_complete(before),
        single_line(line),
        is_blank(without_cr(line)) || decode(without_cr(line)) is None,
    ensures
        read_all(before + framed(line) + after, decode) == read_all(before + after, decode),
{
    assert(before + framed(line) + after == before + (framed(line) + after));
    lemma_read_concat(before, framed(line) + after, decode);
    lemma_read_concat(framed(line), after, decode);
    lemma_read_framed(line, decode);
    lemma_read_concat(before, after, decode);
    assert(Seq::<T>::empty() + read_all(after, decode) == read_all(after, decode));
}

/// Corruption tolerance: a log of a record line, a line that does not
/// decode, and another record line reads as exactly the two records.
pub proof fn lemma_corrupt_line_between_records<T>(
    first: Seq<char>,
    corrupt: Seq<char>,
    second: Seq<char>,
    decode: spec_fn(Seq<char>) -> Option<T>,
    a: T,
    b: T,
)
    requires
        is_record_line(first),
        decode(first) == Some(a),
        single_line(corrupt),
        decode(without_cr(corrupt)) is None,
        is_record_line(second),
        decode(second) == Some(b),
    ensures
        read_all(framed(first) + framed(corrupt) + framed(second), decode) == seq![a, b],
{
    lemma_undecodable_line_is_dropped(framed(first), corrupt, framed(second), decode);
    lemma_read_concat(framed(first), framed(second), decode);
    lemma_read_framed(first, decode);
    lemma_read_framed(second, decode);
    assert(seq![a] + seq![b] == seq![a, b]);
}

} // verus!
