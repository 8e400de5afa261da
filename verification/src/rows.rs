//! The lines of an array body: splitting, cleaning, filtering and joining.

use vstd::prelude::*;
use vstd::string::*;
use crate::text::{
    back_index, chars_of, front_index, skip_back, skip_front, strip_range, stripped, Strip,
};

verus! {

/// The views of a list of strings.
pub open spec fn strs(v: Seq<String>) -> Seq<Seq<char>> {
    Seq::new(v.len(), |i: int| v[i]@)
}

/// `s` cut at every line feed. There is always at least one line, and the
/// line feeds themselves belong to no line.
pub open spec fn split_lines(s: Seq<char>) -> Seq<Seq<char>>
    decreases s.len(),
{
    if s.len() == 0 {
        seq![Seq::<char>::empty()]
    } else {
        let rest = split_lines(s.drop_last());
        if s.last() == '\n' {
            rest.push(Seq::<char>::empty())
        } else {
            rest.drop_last().push(rest.last().push(s.last()))
        }
    }
}

/// What is kept of one line. With `entries` the line loses the white space
/// before it, the separator after it (commas and white space), and then the
/// double quotes around what is left. Without it the line is only trimmed.
pub open spec fn clean(line: Seq<char>, entries: bool) -> Seq<char> {
    if entries {
        stripped(
            skip_back(skip_front(line, Strip::Space), Strip::Separator),
            Strip::Quote,
        )
    } else {
        stripped(line, Strip::Space)
    }
}

/// Whether a cleaned line counts: it is not empty and, with `entries`, it
/// does not start with the comment marker.
pub open spec fn keeps(row: Seq<char>, entries: bool) -> bool {
    row.len() > 0 && !(entries && row[0] == '#')
}

/// The cleaned lines that count, in order.
pub open spec fn rows_from(lines: Seq<Seq<char>>, entries: bool) -> Seq<Seq<char>>
    decreases lines.len(),
{
    if lines.len() == 0 {
        Seq::<Seq<char>>::empty()
    } else {
        let rest = rows_from(lines.drop_last(), entries);
        let row = clean(lines.last(), entries);
        if keeps(row, entries) {
            rest.push(row)
        } else {
            rest
        }
    }
}

/// The rows of a body: its lines, cleaned and filtered.
pub open spec fn rows_of(body: Seq<char>, entries: bool) -> Seq<Seq<char>> {
    rows_from(split_lines(body), entries)
}

/// The entries that a body declares.
pub open spec fn entries_of(body: Seq<char>) -> Seq<Seq<char>> {
    rows_of(body, true)
}

/// The trimmed non-blank lines of a body.
pub open spec fn lines_of(body: Seq<char>) -> Seq<Seq<char>> {
    rows_of(body, false)
}

/// Appends to `out` what the line `chars[lo..hi]` contributes.
fn push_row(
    out: &mut Vec<String>,
    body: &str,
    chars: &Vec<char>,
    lo: usize,
    hi: usize,
    entries: bool,
)
    requires
        chars@ == body@,
        lo <= hi <= chars.len(),
    ensures
        ({
            let row = clean(chars@.subrange(lo as int, hi as int), entries);
            strs(final(out)@) == if keeps(row, entries) {
                strs(old(out)@).push(row)
            } else {
                strs(old(out)@)
            }
        }),
{
    let a0 = front_index(chars, lo, hi, Strip::Space);
    let tail = if entries {
        Strip::Separator
    } else {
        Strip::Space
    };
    let b0 = back_index(chars, a0, hi, tail);
    let (a, b) = if entries {
        strip_range(chars, a0, b0, Strip::Quote)
    } else {
        (a0, b0)
    };
    if a < b && !(entries && chars[a] == '#') {
        let piece = String::from_str(body.substring_char(a, b));
        out.push(piece);
        assert(strs(out@) =~= strs(old(out)@).push(piece@));
    }
}

/// The rows of `body`: with `entries` its entries, without it its trimmed
/// non-blank lines.
pub fn rows(body: &str, entries: bool) -> (r: Vec<String>)
    ensures
        strs(r@) == rows_of(body@, entries),
{
    let chars = chars_of(body);
    let n: usize = chars.len();
    let mut out: Vec<String> = Vec::new();
    let mut start: usize = 0;
    let mut i: usize = 0;
    let ghost mut done: Seq<Seq<char>> = Seq::empty();
    assert(strs(out@) =~= rows_from(done, entries));
    assert(body@.subrange(0, 0) =~= Seq::<char>::empty());
    assert(body@.take(0).len() == 0);
    assert(split_lines(body@.take(0)) =~= done.push(body@.subrange(0, 0)));
    while i < n
        invariant
            chars@ == body@,
            n == chars.len(),
            start <= i <= n,
            split_lines(body@.take(i as int)) == done.push(
                body@.subrange(start as int, i as int),
            ),
            strs(out@) == rows_from(done, entries),
        decreases n - i,
    {
        let ghost before = body@.take(i as int);
        let ghost after = body@.take(i as int + 1);
        let ghost line = body@.subrange(start as int, i as int);
        assert(after.drop_last() =~= before);
        assert(after.last() == chars@[i as int]);
        if chars[i] == '\n' {
            push_row(&mut out, body, &chars, start, i, entries);
            proof {
                assert(done.push(line).drop_last() =~= done);
                done = done.push(line);
                assert(body@.subrange(i as int + 1, i as int + 1) =~= Seq::<char>::empty());
            }
            start = i + 1;
        } else {
            proof {
                assert(done.push(line).drop_last() =~= done);
                assert(line.push(chars@[i as int]) =~= body@.subrange(
                    start as int,
                    i as int + 1,
                ));
            }
        }
        i += 1;
    }
    assert(body@.take(n as int) =~= body@);
    proof {
        let line = body@.subrange(start as int, n as int);
        assert(done.push(line).drop_last() =~= done);
    }
    push_row(&mut out, body, &chars, start, n, entries);
    out
}

} // verus!
