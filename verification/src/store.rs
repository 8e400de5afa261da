//! The textual array store: reading the array declarations of a script and
//! rewriting one declaration while every other byte of the script stays.

use vstd::prelude::*;
use vstd::string::*;
use crate::pattern::{all_captures, first_capture, regex_captures, regex_first, groups_view, Found, Groups};
use crate::rows::{entries_of, lines_of, rows, strs};
use crate::text::{back_index, chars_of, skip_back, strip_range, stripped, Strip};

verus! {

/// The pattern of an indexed array declaration: group 1 is the name, group 2
/// the body up to the first closing parenthesis.
pub const INDEXED: &'static str = "declare\\s+-a\\s+(\\w+)=\\(([^)]+)\\)";

/// The pattern of an associative array declaration, with the same groups.
pub const ASSOCIATIVE: &'static str = "declare\\s+-A\\s+(\\w+)=\\(([^)]+)\\)";

/// What stands before the name in the pattern of one named declaration.
pub const BLOCK_HEAD: &'static str = "declare\\s+-a\\s+";

/// What stands after the name in the pattern of one named declaration:
/// group 1 is the body.
pub const BLOCK_TAIL: &'static str = "=\\(([^)]+)\\)";

/// One array declaration: its name and the entries of its body, in file
/// order.
#[derive(Debug)]
pub struct PackageArray {
    pub name: String,
    pub packages: Vec<String>,
}

/// The mathematical value of a `PackageArray`.
pub ghost struct ArrayModel {
    pub name: Seq<char>,
    pub packages: Seq<Seq<char>>,
}

impl View for PackageArray {
    type V = ArrayModel;

    open spec fn view(&self) -> ArrayModel {
        ArrayModel { name: self.name@, packages: strs(self.packages@) }
    }
}

/// Why a mutation of the store did not happen.
#[derive(Debug, Clone, Copy, PartialEq, Eq)]
pub enum StoreError {
    /// The script holds no declaration of the named array.
    NotFound,
}

/// The models of a list of arrays.
pub open spec fn models(v: Seq<PackageArray>) -> Seq<ArrayModel> {
    Seq::new(v.len(), |i: int| v[i]@)
}

/// The arrays that a list of matches declares: one for each match in which
/// both groups took part, named by group 1, with the entries of group 2.
pub open spec fn arrays_from(caps: Seq<(Option<Seq<char>>, Option<Seq<char>>)>) -> Seq<ArrayModel>
    decreases caps.len(),
{
    if caps.len() == 0 {
        Seq::<ArrayModel>::empty()
    } else {
        let rest = arrays_from(caps.drop_last());
        match caps.last() {
            (Some(name), Some(body)) => rest.push(
                ArrayModel { name: name, packages: entries_of(body) },
            ),
            _ => rest,
        }
    }
}

/// The arrays that `text` declares in the shape of `pattern`.
pub open spec fn declared(pattern: Seq<char>, text: Seq<char>) -> Seq<ArrayModel> {
    match regex_captures(pattern, text) {
        Some(caps) => arrays_from(caps),
        None => Seq::<ArrayModel>::empty(),
    }
}

/// The arrays of a script: the indexed ones in file order, then the
/// associative ones in file order.
pub open spec fn parsed(text: Seq<char>) -> Seq<ArrayModel> {
    declared(INDEXED@, text) + declared(ASSOCIATIVE@, text)
}

/// Appends to `out` the arrays that the matches `caps` declare.
pub fn arrays_of_captures(out: &mut Vec<PackageArray>, caps: &Vec<Groups>)
    ensures
        models(final(out)@) == models(old(out)@) + arrays_from(groups_view(caps@)),
{
    let ghost all = groups_view(caps@);
    let ghost before = models(out@);
    let n: usize = caps.len();
    assert(all.take(0).len() == 0);
    assert(models(out@) =~= before + arrays_from(all.take(0)));
    let mut i: usize = 0;
    while i < n
        invariant
            i <= n,
            n == caps.len(),
            all == groups_view(caps@),
            models(out@) == before + arrays_from(all.take(i as int)),
        decreases n - i,
    {
        proof {
            assert(all.take(i as int + 1).drop_last() =~= all.take(i as int));
            assert(all.take(i as int + 1).last() == all[i as int]);
        }
        let ghost prev = models(out@);
        let cell = &caps[i];
        match (&cell.0, &cell.1) {
            (Some(name), Some(body)) => {
                let packages = rows(body.as_str(), true);
                let name = name.clone();
                out.push(PackageArray { name, packages });
                assert(models(out@) =~= prev.push(
                    ArrayModel { name: name@, packages: entries_of(body@) },
                ));
            },
            _ => {},
        }
        assert(models(out@) =~= before + arrays_from(all.take(i as int + 1)));
        i += 1;
    }
    assert(all.take(n as int) =~= all);
}

/// The arrays that `text` declares, indexed before associative, each group
/// in file order. What counts as a declaration is decided by the patterns
/// `INDEXED` and `ASSOCIATIVE`; text that matches neither is passed over.
pub fn parse_setup_sh(text: &str) -> (r: Vec<PackageArray>)
    ensures
        models(r@) == parsed(text@),
{
    let mut out: Vec<PackageArray> = Vec::new();
    assert(models(out@) =~= Seq::<ArrayModel>::empty());
    match all_captures(INDEXED, text) {
        Some(caps) => {
            arrays_of_captures(&mut out, &caps);
        },
        None => {},
    }
    assert(models(out@) =~= declared(INDEXED@, text@));
    match all_captures(ASSOCIATIVE, text) {
        Some(caps) => {
            arrays_of_captures(&mut out, &caps);
        },
        None => {},
    }
    assert(models(out@) =~= parsed(text@));
    out
}

/// The pattern of the indexed declaration of the array `name`. The name
/// is placed in the pattern as it is.
pub open spec fn block_pattern(name: Seq<char>) -> Seq<char> {
    BLOCK_HEAD@ + name + BLOCK_TAIL@
}

/// An entry as it is written in a body: between double quotes.
pub open spec fn quoted(value: Seq<char>) -> Seq<char> {
    "\""@ + value + "\""@
}

/// A body with one more entry: alone on an indented line where the body was
/// blank, else after the body's last line, a comma and a line feed.
pub open spec fn appended_body(existing: Seq<char>, value: Seq<char>) -> Seq<char> {
    if stripped(existing, Strip::Space).len() == 0 {
        "    "@ + quoted(value)
    } else {
        skip_back(existing, Strip::Space) + ",\n    "@ + quoted(value)
    }
}

/// Rows written one per line, each indented by four spaces, with a line
/// feed between two rows and none at either end.
pub open spec fn indented(rows: Seq<Seq<char>>) -> Seq<char>
    decreases rows.len(),
{
    if rows.len() == 0 {
        Seq::<char>::empty()
    } else if rows.len() == 1 {
        "    "@ + rows[0]
    } else {
        indented(rows.drop_last()) + "\n"@ + "    "@ + rows.last()
    }
}

/// An indexed declaration of `name` with the given body.
pub open spec fn block(name: Seq<char>, body: Seq<char>) -> Seq<char> {
    "declare -a "@ + name + "=(\n"@ + body + "\n)"@
}

/// The pattern of the indexed declaration of the array `name`.
pub fn pattern_for(name: &str) -> (r: String)
    ensures
        r@ == block_pattern(name@),
{
    let mut out = String::from_str(BLOCK_HEAD);
    out.append(name);
    out.append(BLOCK_TAIL);
    out
}

/// The body `existing` with the entry `value` appended.
pub fn append_entry(existing: &str, value: &str) -> (r: String)
    ensures
        r@ == appended_body(existing@, value@),
{
    let chars = chars_of(existing);
    let n: usize = chars.len();
    assert(chars@.subrange(0, n as int) =~= existing@);
    let (a, b) = strip_range(&chars, 0, n, Strip::Space);
    let mut out = String::new();
    if a == b {
        out.append("    ");
    } else {
        let end = back_index(&chars, 0, n, Strip::Space);
        out.append(existing.substring_char(0, end));
        out.append(",\n    ");
    }
    out.append("\"");
    out.append(value);
    out.append("\"");
    assert(out@ =~= appended_body(existing@, value@));
    out
}

/// The rows joined as the body of a declaration.
pub fn indent_join(rows: &Vec<String>) -> (r: String)
    ensures
        r@ == indented(strs(rows@)),
{
    let ghost all = strs(rows@);
    let mut out = String::new();
    let n: usize = rows.len();
    let mut k: usize = 0;
    assert(all.take(0).len() == 0);
    while k < n
        invariant
            k <= n,
            n == rows.len(),
            all == strs(rows@),
            out@ == indented(all.take(k as int)),
        decreases n - k,
    {
        proof {
            assert(all.take(k as int + 1).drop_last() =~= all.take(k as int));
            assert(all.take(k as int + 1).last() == rows@[k as int]@);
        }
        if k > 0 {
            out.append("\n");
        }
        out.append("    ");
        out.append(rows[k].as_str());
        assert(out@ =~= indented(all.take(k as int + 1)));
        k += 1;
    }
    assert(all.take(n as int) =~= all);
    out
}

/// The line of entry `i` in a written body: the entry between double
/// quotes, and a comma after it unless it is the last.
pub open spec fn written_line(entries: Seq<Seq<char>>, i: int) -> Seq<char> {
    if i + 1 < entries.len() {
        quoted(entries[i]) + ","@
    } else {
        quoted(entries[i])
    }
}

/// The body that declares the entries: each between double quotes on an
/// indented line of its own, with a comma and a line feed between two of
/// them.
pub open spec fn written(entries: Seq<Seq<char>>) -> Seq<char> {
    indented(Seq::new(entries.len(), |i: int| written_line(entries, i)))
}

/// The body that declares the given entries, one on each line, separated
/// by commas.
pub fn entries_body(entries: &Vec<String>) -> (r: String)
    ensures
        r@ == written(strs(entries@)),
{
    let mut lines: Vec<String> = Vec::new();
    let n: usize = entries.len();
    let mut k: usize = 0;
    while k < n
        invariant
            k <= n,
            n == entries.len(),
            lines.len() == k,
            forall|i: int|
                0 <= i < k ==> (#[trigger] lines@[i])@ == written_line(strs(entries@), i),
        decreases n - k,
    {
        let mut line = String::from_str("\"");
        line.append(entries[k].as_str());
        line.append("\"");
        if k + 1 < n {
            line.append(",");
        }
        lines.push(line);
        k += 1;
    }
    assert(strs(lines@) =~= Seq::new(
        strs(entries@).len(),
        |i: int| written_line(strs(entries@), i),
    ));
    indent_join(&lines)
}

/// An indexed declaration of `name` with the given body.
pub fn declaration(name: &str, body: &str) -> (r: String)
    ensures
        r@ == block(name@, body@),
{
    let mut out = String::from_str("declare -a ");
    out.append(name);
    out.append("=(\n");
    out.append(body);
    out.append("\n)");
    out
}

/// The view of a match with its surroundings, as the matcher names it.
pub type FoundModel = (Seq<char>, Seq<char>, Option<Seq<char>>, Seq<char>);

/// The script after an entry was added to the declaration that was found:
/// the text before and after the match as they were, and between them the
/// declaration with the longer body. `None` where the match has no body.
pub open spec fn added_in(found: FoundModel, name: Seq<char>, value: Seq<char>) -> Option<
    Seq<char>,
> {
    match found.2 {
        Some(existing) => Some(found.0 + block(name, appended_body(existing, value)) + found.3),
        None => None,
    }
}

/// The script after the line `index` was removed from the declaration that
/// was found in `text`: `text` itself where the body has no such line, else
/// the text before and after the match as they were, and between them the
/// declaration with the remaining lines. `None` where the match has no body.
pub open spec fn removed_in(found: FoundModel, text: Seq<char>, name: Seq<char>, index: int) -> Option<
    Seq<char>,
> {
    match found.2 {
        Some(existing) => {
            let lines = lines_of(existing);
            if 0 <= index < lines.len() {
                Some(found.0 + block(name, indented(lines.remove(index))) + found.3)
            } else {
                Some(text)
            }
        },
        None => None,
    }
}

/// What `add_package_to_array` returns for a script: `None` where no
/// declaration of `name` with a body is found.
pub open spec fn added(text: Seq<char>, name: Seq<char>, value: Seq<char>) -> Option<Seq<char>> {
    match regex_first(block_pattern(name), text) {
        Some(found) => added_in(found, name, value),
        None => None,
    }
}

/// What `remove_package_from_array` returns for a script: `None` where no
/// declaration of `name` with a body is found.
pub open spec fn removed(text: Seq<char>, name: Seq<char>, index: int) -> Option<Seq<char>> {
    match regex_first(block_pattern(name), text) {
        Some(found) => removed_in(found, text, name, index),
        None => None,
    }
}

/// Whether what was found is a cut of `text`: the text before the match, the
/// match and the text after it make up `text`.
pub open spec fn cut_of(text: Seq<char>, found: Option<FoundModel>) -> bool {
    match found {
        Some(f) => f.0 + f.1 + f.3 == text,
        None => false,
    }
}

/// Removing a line that the body does not have changes nothing: where the
/// declaration of `name` is found and `index` is not below the number of
/// its lines, the script comes back as it is.
pub proof fn lemma_remove_out_of_range(text: Seq<char>, name: Seq<char>, index: int)
    ensures
        match regex_first(block_pattern(name), text) {
            Some(found) => match found.2 {
                Some(body) => index >= lines_of(body).len() ==> removed(text, name, index)
                    == Some(text),
                None => true,
            },
            None => true,
        },
{
}

/// Whether `r` is the outcome that `expected` describes: the rewritten
/// script, or `NotFound` where there is none.
pub open spec fn is_outcome(r: Result<String, StoreError>, expected: Option<Seq<char>>) -> bool {
    match r {
        Ok(s) => expected == Some(s@),
        Err(e) => e == StoreError::NotFound && expected is None,
    }
}

/// Puts a rewritten declaration between the text before and after a match.
fn splice(before: &str, name: &str, body: &str, after: &str) -> (r: String)
    ensures
        r@ == before@ + block(name@, body@) + after@,
{
    let mut out = String::from_str(before);
    let decl = declaration(name, body);
    out.append(decl.as_str());
    out.append(after);
    out
}

/// Adds the entry `value` to the declaration that `found` holds.
pub fn add_to_match(found: &Found, name: &str, value: &str) -> (r: Result<String, StoreError>)
    ensures
        is_outcome(r, added_in(crate::pattern::found_view(*found), name@, value@)),
{
    match &found.2 {
        Some(existing) => {
            let body = append_entry(existing.as_str(), value);
            Ok(splice(found.0.as_str(), name, body.as_str(), found.3.as_str()))
        },
        None => Err(StoreError::NotFound),
    }
}

/// Removes the line `index` from the declaration that `found` holds in
/// `text`, or returns `text` as it is where the body has no such line.
pub fn remove_from_match(found: &Found, text: &str, name: &str, index: usize) -> (r: Result<
    String,
    StoreError,
>)
    ensures
        is_outcome(r, removed_in(crate::pattern::found_view(*found), text@, name@, index as int)),
{
    match &found.2 {
        Some(existing) => {
            let mut lines = rows(existing.as_str(), false);
            if index >= lines.len() {
                return Ok(String::from_str(text));
            }
            let ghost all = strs(lines@);
            lines.remove(index);
            assert(strs(lines@) =~= all.remove(index as int));
            let body = indent_join(&lines);
            Ok(splice(found.0.as_str(), name, body.as_str(), found.3.as_str()))
        },
        None => Err(StoreError::NotFound),
    }
}

/// Appends the entry `package_name` to the indexed declaration of
/// `array_name` in the script `text` and returns the whole rewritten
/// script. Fails with `NotFound` where the script holds no such declaration.
pub fn add_package_to_array(text: &str, array_name: &str, package_name: &str) -> (r: Result<
    String,
    StoreError,
>)
    ensures
        is_outcome(r, added(text@, array_name@, package_name@)),
        r is Ok ==> cut_of(text@, regex_first(block_pattern(array_name@), text@)),
{
    let pattern = pattern_for(array_name);
    match first_capture(pattern.as_str(), text) {
        Some(found) => add_to_match(&found, array_name, package_name),
        None => Err(StoreError::NotFound),
    }
}

/// Removes the line `package_index` of the indexed declaration of
/// `array_name` in the script `text` and returns the whole rewritten script.
/// An index past the last line changes nothing: the script comes back as it
/// is. Fails with `NotFound` where the script holds no such declaration.
pub fn remove_package_from_array(text: &str, array_name: &str, package_index: usize) -> (r: Result<
    String,
    StoreError,
>)
    ensures
        is_outcome(r, removed(text@, array_name@, package_index as int)),
        r is Ok ==> cut_of(text@, regex_first(block_pattern(array_name@), text@)),
{
    let pattern = pattern_for(array_name);
    match first_capture(pattern.as_str(), text) {
        Some(found) => remove_from_match(&found, text, array_name, package_index),
        None => Err(StoreError::NotFound),
    }
}

} // verus!
