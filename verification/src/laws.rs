//! What holds of bodies that are written and read again: the laws that
//! connect `append_entry`, `indent_join`, `entries_body` and `rows`.

use vstd::prelude::*;
use vstd::string::*;
use crate::rows::{clean, entries_of, keeps, lines_of, rows_from, split_lines};
use crate::store::{
    appended_body, arrays_from, indented, quoted, written, written_line, ArrayModel,
};
use crate::text::{is_space, skip_back, skip_front, stripped, Strip};

verus! {

/// Whether `s` holds no line feed.
pub open spec fn no_line_feed(s: Seq<char>) -> bool {
    forall|i: int| 0 <= i < s.len() ==> s[i] != '\n'
}

/// Whether `v` can be an entry: it is not empty, holds no line feed, has no
/// double quote at either end and does not start with the comment marker.
pub open spec fn plain(v: Seq<char>) -> bool {
    &&& v.len() > 0
    &&& no_line_feed(v)
    &&& v.first() != '"'
    &&& v.last() != '"'
    &&& v.first() != '#'
}

/// An entry as it stands on its line in a body.
pub open spec fn entry_line(v: Seq<char>) -> Seq<char> {
    "    "@ + quoted(v)
}

/// A text without line feed is one line.
proof fn lemma_split_one(t: Seq<char>)
    requires
        no_line_feed(t),
    ensures
        split_lines(t) == seq![t],
    decreases t.len(),
{
    if t.len() == 0 {
        assert(t =~= Seq::<char>::empty());
    } else {
        lemma_split_one(t.drop_last());
        let rest = split_lines(t.drop_last());
        assert(rest.last().push(t.last()) =~= t);
        assert(rest.drop_last().push(t) =~= seq![t]);
    }
}

/// A line feed and a text without line feed add one line.
proof fn lemma_split_append(s: Seq<char>, t: Seq<char>)
    requires
        no_line_feed(t),
    ensures
        split_lines(s + seq!['\n'] + t) == split_lines(s).push(t),
    decreases t.len(),
{
    let x = s + seq!['\n'] + t;
    if t.len() == 0 {
        assert(x.drop_last() =~= s);
        assert(t =~= Seq::<char>::empty());
    } else {
        let t0 = t.drop_last();
        lemma_split_append(s, t0);
        assert(x.drop_last() =~= s + seq!['\n'] + t0);
        let rest = split_lines(x.drop_last());
        assert(rest.drop_last() =~= split_lines(s));
        assert(rest.last().push(t.last()) =~= t);
    }
}

/// The line of a plain entry, with or without the comma after it, holds no
/// line feed and is read as the entry.
proof fn lemma_entry_line(v: Seq<char>, comma: bool)
    requires
        plain(v),
    ensures
        ({
            let row = if comma {
                quoted(v) + ","@
            } else {
                quoted(v)
            };
            &&& no_line_feed(row)
            &&& no_line_feed("    "@ + row)
            &&& clean("    "@ + row, true) == v
            &&& keeps(v, true)
        }),
{
    reveal_strlit("    ");
    reveal_strlit("\"");
    reveal_strlit(",");
    let q = quoted(v);
    let row = if comma {
        q + ","@
    } else {
        q
    };
    let t = "    "@ + row;
    let t1 = t.drop_first();
    let t2 = t1.drop_first();
    let t3 = t2.drop_first();
    assert(t3.drop_first() =~= row);
    reveal_with_fuel(skip_front, 6);
    assert(skip_front(t, Strip::Space) == row);
    reveal_with_fuel(skip_back, 3);
    if comma {
        assert(row.drop_last() =~= q);
    }
    assert(skip_back(row, Strip::Separator) == q);
    let inner = v + "\""@;
    assert(q.drop_first() =~= inner);
    assert(skip_front(q, Strip::Quote) == inner);
    assert(inner.drop_last() =~= v);
    assert(skip_back(inner, Strip::Quote) == v);
}

/// Rows after one more line.
proof fn lemma_rows_push(lines: Seq<Seq<char>>, line: Seq<char>, entries: bool)
    ensures
        rows_from(lines.push(line), entries) == if keeps(clean(line, entries), entries) {
            rows_from(lines, entries).push(clean(line, entries))
        } else {
            rows_from(lines, entries)
        },
{
    assert(lines.push(line).drop_last() =~= lines);
}

/// The lines of rows that are written as a body are the rows, indented.
proof fn lemma_split_indented(rows: Seq<Seq<char>>)
    requires
        rows.len() > 0,
        forall|i: int| 0 <= i < rows.len() ==> no_line_feed(#[trigger] rows[i]),
    ensures
        split_lines(indented(rows)) == Seq::new(rows.len(), |i: int| "    "@ + rows[i]),
    decreases rows.len(),
{
    reveal_strlit("    ");
    reveal_strlit("\n");
    let lines = Seq::new(rows.len(), |i: int| "    "@ + rows[i]);
    let t = "    "@ + rows.last();
    assert(no_line_feed(rows.last()));
    assert(no_line_feed(t));
    if rows.len() == 1 {
        lemma_split_one(t);
        assert(seq![t] =~= lines);
    } else {
        let init = rows.drop_last();
        assert forall|i: int| 0 <= i < init.len() implies no_line_feed(#[trigger] init[i]) by {
            assert(init[i] == rows[i]);
        }
        lemma_split_indented(init);
        assert(indented(rows) =~= indented(init) + seq!['\n'] + t);
        lemma_split_append(indented(init), t);
        assert(split_lines(indented(init)).push(t) =~= lines);
    }
}

/// Lines that all count are read one for one.
proof fn lemma_rows_all_kept(lines: Seq<Seq<char>>, target: Seq<Seq<char>>, entries: bool)
    requires
        lines.len() == target.len(),
        forall|i: int|
            0 <= i < lines.len() ==> clean(#[trigger] lines[i], entries) == target[i] && keeps(
                target[i],
                entries,
            ),
    ensures
        rows_from(lines, entries) == target,
    decreases lines.len(),
{
    if lines.len() > 0 {
        let l0 = lines.drop_last();
        let t0 = target.drop_last();
        assert forall|i: int| 0 <= i < l0.len() implies clean(#[trigger] l0[i], entries) == t0[i]
            && keeps(t0[i], entries) by {
            assert(l0[i] == lines[i]);
            assert(t0[i] == target[i]);
        }
        lemma_rows_all_kept(l0, t0, entries);
        assert(clean(lines[lines.len() - 1], entries) == target.last());
        assert(t0.push(target.last()) =~= target);
    } else {
        assert(target =~= Seq::<Seq<char>>::empty());
    }
}

/// Trimming the front of a line that got one more character.
proof fn lemma_skip_front_push(l: Seq<char>, x: char)
    ensures
        skip_front(l.push(x), Strip::Space) == if skip_front(l, Strip::Space).len() > 0 {
            skip_front(l, Strip::Space).push(x)
        } else if is_space(x) {
            Seq::<char>::empty()
        } else {
            seq![x]
        },
    decreases l.len(),
{
    if l.len() == 0 {
        assert(l.push(x) =~= seq![x]);
        assert(seq![x].drop_first() =~= Seq::<char>::empty());
        reveal_with_fuel(skip_front, 3);
    } else if is_space(l.first()) {
        lemma_skip_front_push(l.drop_first(), x);
        assert(l.push(x).drop_first() =~= l.drop_first().push(x));
    }
}

/// White space or a comma at the end of a line does not change its entry.
proof fn lemma_clean_push_tail(l: Seq<char>, x: char)
    requires
        Strip::Separator.holds(x),
    ensures
        clean(l.push(x), true) == clean(l, true),
{
    lemma_skip_front_push(l, x);
    let r = skip_front(l, Strip::Space);
    reveal_with_fuel(skip_back, 3);
    if r.len() > 0 {
        assert(r.push(x).drop_last() =~= r);
    } else {
        assert(seq![x].drop_last() =~= Seq::<char>::empty());
        assert(r =~= Seq::<char>::empty());
    }
}

/// White space or a comma at the end of a body does not change its
/// entries.
proof fn lemma_entries_drop_tail(s: Seq<char>)
    requires
        s.len() > 0,
        Strip::Separator.holds(s.last()),
    ensures
        entries_of(s) == entries_of(s.drop_last()),
{
    let x = s.last();
    let rest = split_lines(s.drop_last());
    lemma_lines_have_no_feed(s.drop_last());
    let init = rest.drop_last();
    let l = rest.last();
    assert(init.push(l) =~= rest);
    lemma_rows_push(init, l, true);
    if x == '\n' {
        lemma_rows_push(rest, Seq::<char>::empty(), true);
    } else {
        lemma_clean_push_tail(l, x);
        lemma_rows_push(init, l.push(x), true);
    }
}

/// Trimming the end of a body does not change its entries.
proof fn lemma_entries_trim_end(s: Seq<char>)
    ensures
        entries_of(skip_back(s, Strip::Space)) == entries_of(s),
    decreases s.len(),
{
    if s.len() > 0 && is_space(s.last()) {
        lemma_entries_trim_end(s.drop_last());
        lemma_entries_drop_tail(s);
    }
}

proof fn lemma_skip_back_of_started(r: Seq<char>)
    requires
        r.len() > 0,
        !is_space(r.first()),
    ensures
        skip_back(r, Strip::Space).len() > 0,
    decreases r.len(),
{
    if is_space(r.last()) {
        assert(r.len() > 1);
        lemma_skip_back_of_started(r.drop_last());
    }
}

proof fn lemma_all_space(s: Seq<char>)
    requires
        skip_front(s, Strip::Space).len() == 0,
    ensures
        forall|i: int| 0 <= i < s.len() ==> is_space(#[trigger] s[i]),
    decreases s.len(),
{
    if s.len() > 0 {
        lemma_all_space(s.drop_first());
        assert forall|i: int| 0 <= i < s.len() implies is_space(#[trigger] s[i]) by {
            if i > 0 {
                assert(s[i] == s.drop_first()[i - 1]);
            }
        }
    }
}

proof fn lemma_skip_back_all_space(s: Seq<char>)
    requires
        forall|i: int| 0 <= i < s.len() ==> is_space(#[trigger] s[i]),
    ensures
        skip_back(s, Strip::Space).len() == 0,
    decreases s.len(),
{
    if s.len() > 0 {
        assert(is_space(s[s.len() - 1]));
        assert forall|i: int| 0 <= i < s.drop_last().len() implies is_space(
            #[trigger] s.drop_last()[i],
        ) by {
            assert(s.drop_last()[i] == s[i]);
        }
        lemma_skip_back_all_space(s.drop_last());
    }
}

/// A body that is blank when trimmed has no entries.
proof fn lemma_blank_has_no_entries(s: Seq<char>)
    requires
        stripped(s, Strip::Space).len() == 0,
    ensures
        entries_of(s) == Seq::<Seq<char>>::empty(),
{
    let r = skip_front(s, Strip::Space);
    lemma_skip_front_keeps(s, Strip::Space);
    if r.len() > 0 {
        lemma_skip_back_of_started(r);
    }
    lemma_all_space(s);
    lemma_skip_back_all_space(s);
    lemma_entries_trim_end(s);
    let e = skip_back(s, Strip::Space);
    let none = Seq::<Seq<char>>::empty();
    assert(e =~= Seq::<char>::empty());
    assert(split_lines(e) =~= none.push(e));
    lemma_rows_push(none, e, true);
    assert(rows_from(none, true) =~= none);
}

/// Appending puts the new entry last and leaves the others as they were:
/// the new body is read as the entries of the old one, in their order, and
/// then the new entry.
pub proof fn lemma_append_adds_last(existing: Seq<char>, value: Seq<char>)
    requires
        plain(value),
    ensures
        entries_of(appended_body(existing, value)) == entries_of(existing).push(value),
{
    let t = entry_line(value);
    let none = Seq::<Seq<char>>::empty();
    lemma_entry_line(value, false);
    if stripped(existing, Strip::Space).len() == 0 {
        lemma_blank_has_no_entries(existing);
        lemma_split_one(t);
        assert(none.push(t) =~= seq![t]);
        assert(rows_from(none, true) =~= none);
        lemma_rows_push(none, t, true);
    } else {
        reveal_strlit(",\n    ");
        reveal_strlit("    ");
        let kept = skip_back(existing, Strip::Space);
        let s = kept.push(',');
        assert(appended_body(existing, value) =~= s + seq!['\n'] + t);
        lemma_split_append(s, t);
        lemma_rows_push(split_lines(s), t, true);
        assert(s.drop_last() =~= kept);
        lemma_entries_drop_tail(s);
        lemma_entries_trim_end(existing);
    }
}

/// Appending leaves every earlier line as it was: the lines of the new body
/// are the lines of the old one up to its last character that is not white
/// space, with a comma after the last of them, and then the line of the new
/// entry.
pub proof fn lemma_append_keeps_lines(existing: Seq<char>, value: Seq<char>)
    requires
        no_line_feed(value),
        stripped(existing, Strip::Space).len() != 0,
    ensures
        ({
            let old_lines = split_lines(skip_back(existing, Strip::Space));
            split_lines(appended_body(existing, value)) == old_lines.drop_last().push(
                old_lines.last().push(','),
            ).push(entry_line(value))
        }),
{
    reveal_strlit(",\n    ");
    reveal_strlit("    ");
    reveal_strlit("\"");
    let kept = skip_back(existing, Strip::Space);
    let s = kept.push(',');
    let t = entry_line(value);
    assert(no_line_feed(t));
    assert(appended_body(existing, value) =~= s + seq!['\n'] + t);
    lemma_split_append(s, t);
    assert(s.drop_last() =~= kept);
}

/// Plain entries that are written as a body, with a comma and a line feed
/// between two of them, are read as they were.
pub proof fn lemma_written_is_read(entries: Seq<Seq<char>>)
    requires
        forall|i: int| 0 <= i < entries.len() ==> plain(#[trigger] entries[i]),
    ensures
        entries_of(written(entries)) == entries,
{
    let rows = Seq::new(entries.len(), |i: int| written_line(entries, i));
    let none = Seq::<Seq<char>>::empty();
    if entries.len() == 0 {
        let e = Seq::<char>::empty();
        assert(written(entries) =~= e);
        assert(split_lines(e) =~= none.push(e));
        lemma_rows_push(none, e, true);
        assert(rows_from(none, true) =~= none);
        assert(entries =~= none);
    } else {
        assert forall|i: int| 0 <= i < rows.len() implies no_line_feed(#[trigger] rows[i]) by {
            lemma_entry_line(entries[i], i + 1 < entries.len());
        }
        lemma_split_indented(rows);
        let lines = Seq::new(rows.len(), |i: int| "    "@ + rows[i]);
        assert forall|i: int| 0 <= i < lines.len() implies clean(#[trigger] lines[i], true)
            == entries[i] && keeps(entries[i], true) by {
            lemma_entry_line(entries[i], i + 1 < entries.len());
        }
        lemma_rows_all_kept(lines, entries, true);
    }
}

/// A line feed before a text adds an empty first line.
proof fn lemma_split_after_feed(w: Seq<char>)
    ensures
        split_lines(seq!['\n'] + w) == seq![Seq::<char>::empty()] + split_lines(w),
    decreases w.len(),
{
    let e = Seq::<char>::empty();
    let x = seq!['\n'] + w;
    if w.len() == 0 {
        assert(x.drop_last() =~= e);
        assert(split_lines(e) =~= seq![e]);
        assert(split_lines(x) =~= seq![e] + split_lines(w));
    } else {
        lemma_split_after_feed(w.drop_last());
        lemma_lines_have_no_feed(w.drop_last());
        assert(x.drop_last() =~= seq!['\n'] + w.drop_last());
        assert(split_lines(x) =~= seq![e] + split_lines(w));
    }
}

/// An empty first line adds no row.
proof fn lemma_rows_after_empty(lines: Seq<Seq<char>>)
    ensures
        rows_from(seq![Seq::<char>::empty()] + lines, true) == rows_from(lines, true),
    decreases lines.len(),
{
    let e = Seq::<char>::empty();
    let none = Seq::<Seq<char>>::empty();
    if lines.len() == 0 {
        assert(seq![e] + lines =~= none.push(e));
        assert(lines =~= none);
        lemma_rows_push(none, e, true);
    } else {
        lemma_rows_after_empty(lines.drop_last());
        assert((seq![e] + lines).drop_last() =~= seq![e] + lines.drop_last());
    }
}

/// The line feeds that a declaration puts around its body do not change
/// the entries: a body between two line feeds is read as the body alone.
pub proof fn lemma_framed_body(body: Seq<char>)
    ensures
        entries_of(seq!['\n'] + body + seq!['\n']) == entries_of(body),
{
    let framed = seq!['\n'] + body + seq!['\n'];
    assert(framed.drop_last() =~= seq!['\n'] + body);
    lemma_entries_drop_tail(framed);
    lemma_split_after_feed(body);
    lemma_rows_after_empty(split_lines(body));
}

/// A declaration in the written format is read as its entries: the body
/// between the parentheses, which is a line feed, the written entries and a
/// line feed, gives the entries back, under the name of the declaration.
pub proof fn lemma_block_is_read(name: Seq<char>, entries: Seq<Seq<char>>)
    requires
        forall|i: int| 0 <= i < entries.len() ==> plain(#[trigger] entries[i]),
    ensures
        entries_of(seq!['\n'] + written(entries) + seq!['\n']) == entries,
        arrays_from(seq![(Some(name), Some(seq!['\n'] + written(entries) + seq!['\n']))]) == seq![
            ArrayModel { name: name, packages: entries },
        ],
{
    let w = written(entries);
    let body = seq!['\n'] + w + seq!['\n'];
    lemma_framed_body(w);
    lemma_written_is_read(entries);
    let caps = seq![(Some(name), Some(body))];
    assert(caps.drop_last() =~= Seq::<(Option<Seq<char>>, Option<Seq<char>>)>::empty());
    assert(arrays_from(caps.drop_last()) =~= Seq::<ArrayModel>::empty());
    assert(arrays_from(caps) =~= seq![ArrayModel { name: name, packages: entries }]);
}

/// No line of a text holds a line feed.
proof fn lemma_lines_have_no_feed(s: Seq<char>)
    ensures
        split_lines(s).len() > 0,
        forall|i: int| 0 <= i < split_lines(s).len() ==> no_line_feed(#[trigger] split_lines(s)[i]),
    decreases s.len(),
{
    if s.len() > 0 {
        lemma_lines_have_no_feed(s.drop_last());
    }
}

/// What `skip_front` keeps is the end of the text, and does not start with
/// a character of the class.
proof fn lemma_skip_front_keeps(s: Seq<char>, what: Strip)
    ensures
        skip_front(s, what).len() <= s.len(),
        skip_front(s, what) == s.subrange(s.len() - skip_front(s, what).len(), s.len() as int),
        skip_front(s, what).len() > 0 ==> !what.holds(skip_front(s, what).first()),
    decreases s.len(),
{
    if s.len() > 0 && what.holds(s.first()) {
        lemma_skip_front_keeps(s.drop_first(), what);
        let r = skip_front(s, what);
        assert(r =~= s.subrange(s.len() - r.len(), s.len() as int));
    } else {
        assert(s =~= s.subrange(0, s.len() as int));
    }
}

/// What `skip_back` keeps is the start of the text, and does not end with
/// a character of the class.
proof fn lemma_skip_back_keeps(s: Seq<char>, what: Strip)
    ensures
        skip_back(s, what).len() <= s.len(),
        skip_back(s, what) == s.subrange(0, skip_back(s, what).len() as int),
        skip_back(s, what).len() > 0 ==> !what.holds(skip_back(s, what).last()),
    decreases s.len(),
{
    if s.len() > 0 && what.holds(s.last()) {
        lemma_skip_back_keeps(s.drop_last(), what);
        let r = skip_back(s, what);
        assert(r =~= s.subrange(0, r.len() as int));
    } else {
        assert(s =~= s.subrange(0, s.len() as int));
    }
}

/// What is kept of a line without line feed as an entry is plain.
proof fn lemma_clean_is_plain(line: Seq<char>)
    requires
        no_line_feed(line),
        keeps(clean(line, true), true),
    ensures
        plain(clean(line, true)),
{
    let a0 = skip_front(line, Strip::Space);
    let a = skip_back(a0, Strip::Separator);
    let b = skip_front(a, Strip::Quote);
    let c = skip_back(b, Strip::Quote);
    lemma_skip_front_keeps(line, Strip::Space);
    lemma_skip_back_keeps(a0, Strip::Separator);
    lemma_skip_front_keeps(a, Strip::Quote);
    lemma_skip_back_keeps(b, Strip::Quote);
    assert(no_line_feed(a0));
    assert(no_line_feed(a));
    assert(no_line_feed(b));
    assert(no_line_feed(c));
    assert(c.first() == b.first());
}

/// Every entry that is read from lines without line feed is plain.
proof fn lemma_rows_are_plain(lines: Seq<Seq<char>>)
    requires
        forall|i: int| 0 <= i < lines.len() ==> no_line_feed(#[trigger] lines[i]),
    ensures
        forall|j: int|
            0 <= j < rows_from(lines, true).len() ==> plain(#[trigger] rows_from(lines, true)[j]),
    decreases lines.len(),
{
    if lines.len() > 0 {
        let init = lines.drop_last();
        let rest = rows_from(init, true);
        let row = clean(lines.last(), true);
        assert forall|i: int| 0 <= i < init.len() implies no_line_feed(#[trigger] init[i]) by {
            assert(init[i] == lines[i]);
        }
        lemma_rows_are_plain(init);
        if keeps(row, true) {
            lemma_clean_is_plain(lines.last());
        }
        assert forall|j: int| 0 <= j < rows_from(lines, true).len() implies plain(
            #[trigger] rows_from(lines, true)[j],
        ) by {
            if j < rest.len() {
                assert(rows_from(lines, true)[j] == rest[j]);
            } else {
                assert(rows_from(lines, true)[j] == row);
            }
        }
    }
}

/// Every entry that is read from a body is plain.
pub proof fn lemma_entries_are_plain(body: Seq<char>)
    ensures
        forall|j: int| 0 <= j < entries_of(body).len() ==> plain(#[trigger] entries_of(body)[j]),
{
    lemma_lines_have_no_feed(body);
    lemma_rows_are_plain(split_lines(body));
}

/// Reading is stable under writing: the entries of any body, written as a
/// body with commas between them and read again, are the same entries in
/// the same order.
pub proof fn lemma_round_trip(body: Seq<char>)
    ensures
        entries_of(written(entries_of(body))) == entries_of(body),
{
    lemma_entries_are_plain(body);
    lemma_written_is_read(entries_of(body));
}

/// Whether `r` can be a line of a body: it is not empty, holds no line
/// feed and has no white space at either end.
pub open spec fn tidy(r: Seq<char>) -> bool {
    &&& r.len() > 0
    &&& no_line_feed(r)
    &&& !is_space(r.first())
    &&& !is_space(r.last())
}

/// A tidy line that is indented holds no line feed and is read as it was.
proof fn lemma_indented_line(r: Seq<char>)
    requires
        tidy(r),
    ensures
        no_line_feed("    "@ + r),
        skip_front("    "@ + r, Strip::Space) == r,
        clean("    "@ + r, false) == r,
        keeps(r, false),
{
    reveal_strlit("    ");
    let t = "    "@ + r;
    let t1 = t.drop_first();
    let t2 = t1.drop_first();
    let t3 = t2.drop_first();
    assert(t3.drop_first() =~= r);
    reveal_with_fuel(skip_front, 6);
    assert(skip_front(t, Strip::Space) == r);
}

/// Tidy lines that are written as a body are read as they were.
pub proof fn lemma_indented_is_read(rows: Seq<Seq<char>>)
    requires
        forall|i: int| 0 <= i < rows.len() ==> tidy(#[trigger] rows[i]),
    ensures
        lines_of(indented(rows)) == rows,
    decreases rows.len(),
{
    let none = Seq::<Seq<char>>::empty();
    assert(rows_from(none, false) =~= none);
    if rows.len() == 0 {
        let e = Seq::<char>::empty();
        assert(split_lines(e) =~= none.push(e));
        lemma_rows_push(none, e, false);
        assert(rows =~= none);
    } else if rows.len() == 1 {
        let t = "    "@ + rows[0];
        lemma_indented_line(rows[0]);
        lemma_split_one(t);
        assert(none.push(t) =~= seq![t]);
        lemma_rows_push(none, t, false);
        assert(rows =~= none.push(rows[0]));
    } else {
        let init = rows.drop_last();
        let t = "    "@ + rows.last();
        lemma_indented_is_read(init);
        reveal_strlit("\n");
        assert(indented(rows) =~= indented(init) + seq!['\n'] + t);
        lemma_indented_line(rows.last());
        lemma_split_append(indented(init), t);
        lemma_rows_push(split_lines(indented(init)), t, false);
        assert(init.push(rows.last()) =~= rows);
    }
}

/// Every trimmed non-blank line that is read from lines without line feed
/// is tidy.
proof fn lemma_rows_are_tidy(lines: Seq<Seq<char>>)
    requires
        forall|i: int| 0 <= i < lines.len() ==> no_line_feed(#[trigger] lines[i]),
    ensures
        forall|j: int|
            0 <= j < rows_from(lines, false).len() ==> tidy(#[trigger] rows_from(lines, false)[j]),
    decreases lines.len(),
{
    if lines.len() > 0 {
        let init = lines.drop_last();
        let rest = rows_from(init, false);
        let row = clean(lines.last(), false);
        assert forall|i: int| 0 <= i < init.len() implies no_line_feed(#[trigger] init[i]) by {
            assert(init[i] == lines[i]);
        }
        lemma_rows_are_tidy(init);
        if keeps(row, false) {
            let a0 = skip_front(lines.last(), Strip::Space);
            lemma_skip_front_keeps(lines.last(), Strip::Space);
            lemma_skip_back_keeps(a0, Strip::Space);
            assert(no_line_feed(a0));
            assert(no_line_feed(row));
            assert(row.first() == a0.first());
        }
        assert forall|j: int| 0 <= j < rows_from(lines, false).len() implies tidy(
            #[trigger] rows_from(lines, false)[j],
        ) by {
            if j < rest.len() {
                assert(rows_from(lines, false)[j] == rest[j]);
            } else {
                assert(rows_from(lines, false)[j] == row);
            }
        }
    }
}

/// Removing a line keeps the others in their order: the body that is
/// written without line `index` is read as the lines that were there
/// before, without that one.
pub proof fn lemma_removal_keeps_the_rest(body: Seq<char>, index: int)
    requires
        0 <= index < lines_of(body).len(),
    ensures
        lines_of(indented(lines_of(body).remove(index))) == lines_of(body).remove(index),
{
    lemma_lines_have_no_feed(body);
    lemma_rows_are_tidy(split_lines(body));
    lemma_indented_is_read(lines_of(body).remove(index));
}

/// Trimming for white space and then for the separator is trimming for the
/// separator.
proof fn lemma_skip_back_twice(r: Seq<char>)
    ensures
        skip_back(skip_back(r, Strip::Space), Strip::Separator) == skip_back(r, Strip::Separator),
    decreases r.len(),
{
    if r.len() > 0 && is_space(r.last()) {
        lemma_skip_back_twice(r.drop_last());
    }
}

/// A line and its trimmed form give the same entry, and a blank line gives
/// none.
proof fn lemma_clean_of_trimmed(l: Seq<char>)
    ensures
        clean(clean(l, false), true) == clean(l, true),
        clean(l, false).len() == 0 ==> clean(l, true).len() == 0,
{
    let r = skip_front(l, Strip::Space);
    let t = skip_back(r, Strip::Space);
    lemma_skip_front_keeps(l, Strip::Space);
    lemma_skip_back_keeps(r, Strip::Space);
    lemma_skip_back_twice(r);
    if r.len() > 0 {
        lemma_skip_back_of_started(r);
        assert(t.first() == r.first());
    } else {
        assert(t =~= r);
    }
}

/// Lines that give the same rows one for one are read the same.
proof fn lemma_rows_same_clean(x: Seq<Seq<char>>, y: Seq<Seq<char>>, entries: bool)
    requires
        x.len() == y.len(),
        forall|i: int| 0 <= i < x.len() ==> clean(#[trigger] x[i], entries) == clean(y[i], entries),
    ensures
        rows_from(x, entries) == rows_from(y, entries),
    decreases x.len(),
{
    if x.len() > 0 {
        let x0 = x.drop_last();
        let y0 = y.drop_last();
        assert forall|i: int| 0 <= i < x0.len() implies clean(#[trigger] x0[i], entries) == clean(
            y0[i],
            entries,
        ) by {
            assert(x0[i] == x[i]);
            assert(y0[i] == y[i]);
        }
        lemma_rows_same_clean(x0, y0, entries);
        assert(clean(x[x.len() - 1], entries) == clean(y[y.len() - 1], entries));
    }
}

/// The entries of lines are the entries of their trimmed non-blank forms.
proof fn lemma_entries_of_trimmed_lines(lines: Seq<Seq<char>>)
    ensures
        rows_from(rows_from(lines, false), true) == rows_from(lines, true),
    decreases lines.len(),
{
    if lines.len() > 0 {
        let init = lines.drop_last();
        lemma_entries_of_trimmed_lines(init);
        lemma_clean_of_trimmed(lines.last());
        let t = clean(lines.last(), false);
        if keeps(t, false) {
            lemma_rows_push(rows_from(init, false), t, true);
        }
    }
}

/// A body is read through its lines: its entries are the entries of its
/// trimmed non-blank lines.
pub proof fn lemma_entries_through_lines(body: Seq<char>)
    ensures
        entries_of(body) == rows_from(lines_of(body), true),
{
    lemma_entries_of_trimmed_lines(split_lines(body));
}

/// Tidy lines that are written as a body are read as the entries of those
/// lines.
pub proof fn lemma_indented_entries(rows: Seq<Seq<char>>)
    requires
        forall|i: int| 0 <= i < rows.len() ==> tidy(#[trigger] rows[i]),
    ensures
        entries_of(indented(rows)) == rows_from(rows, true),
{
    let none = Seq::<Seq<char>>::empty();
    if rows.len() == 0 {
        let e = Seq::<char>::empty();
        assert(split_lines(e) =~= none.push(e));
        lemma_rows_push(none, e, true);
        assert(rows_from(none, true) =~= none);
        assert(rows =~= none);
    } else {
        lemma_split_indented(rows);
        let lines = Seq::new(rows.len(), |i: int| "    "@ + rows[i]);
        assert forall|i: int| 0 <= i < lines.len() implies clean(#[trigger] lines[i], true)
            == clean(rows[i], true) by {
            lemma_indented_line(rows[i]);
            assert(skip_front(rows[i], Strip::Space) == rows[i]);
        }
        lemma_rows_same_clean(lines, rows, true);
    }
}

/// After a removal the body is read as the entries of the lines that are
/// left.
pub proof fn lemma_removal_entries(body: Seq<char>, index: int)
    requires
        0 <= index < lines_of(body).len(),
    ensures
        entries_of(indented(lines_of(body).remove(index))) == rows_from(
            lines_of(body).remove(index),
            true,
        ),
{
    lemma_lines_have_no_feed(body);
    lemma_rows_are_tidy(split_lines(body));
    lemma_indented_entries(lines_of(body).remove(index));
}

/// Where every line of a body holds an entry, removing line `index`
/// removes entry `index` and leaves the others as they were, in their
/// order.
pub proof fn lemma_removal_removes_entry(body: Seq<char>, index: int)
    requires
        0 <= index < lines_of(body).len(),
        forall|j: int|
            0 <= j < lines_of(body).len() ==> keeps(clean(#[trigger] lines_of(body)[j], true), true),
    ensures
        entries_of(body).len() == lines_of(body).len(),
        entries_of(indented(lines_of(body).remove(index))) == entries_of(body).remove(index),
{
    let lines = lines_of(body);
    let all = Seq::new(lines.len(), |j: int| clean(lines[j], true));
    lemma_entries_through_lines(body);
    lemma_rows_all_kept(lines, all, true);
    lemma_removal_entries(body, index);
    let left = lines.remove(index);
    assert forall|j: int| 0 <= j < left.len() implies clean(#[trigger] left[j], true)
        == all.remove(index)[j] && keeps(all.remove(index)[j], true) by {
        if j < index {
            assert(left[j] == lines[j]);
        } else {
            assert(left[j] == lines[j + 1]);
        }
    }
    lemma_rows_all_kept(left, all.remove(index), true);
}

} // verus!
