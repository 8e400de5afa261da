//! Character-level helpers: white space, trimming, line splitting and
//! substring search over `Seq<char>` models.

use vstd::prelude::*;
use vstd::string::*;

verus! {

/// Whether `c` is Unicode white space.
pub open spec fn is_space(c: char) -> bool {
    let n = c as u32;
    (0x09 <= n && n <= 0x0D) || n == 0x20 || n == 0x85 || n == 0xA0 || n == 0x1680
        || (0x2000 <= n && n <= 0x200A) || n == 0x2028 || n == 0x2029 || n == 0x202F
        || n == 0x205F || n == 0x3000
}

/// Executable test for white space.
pub fn char_is_space(c: char) -> (r: bool)
    ensures
        r == is_space(c),
{
    let n: u32 = c as u32;
    (0x09 <= n && n <= 0x0D) || n == 0x20 || n == 0x85 || n == 0xA0 || n == 0x1680
        || (0x2000 <= n && n <= 0x200A) || n == 0x2028 || n == 0x2029 || n == 0x202F
        || n == 0x205F || n == 0x3000
}

/// The characters of `s`, in order.
pub fn chars_of(s: &str) -> (r: Vec<char>)
    ensures
        r@ == s@,
{
    let mut out: Vec<char> = Vec::new();
    for c in iter: s.chars()
        invariant
            iter.seq() == s@,
            out@ == s@.take(iter.index() as int),
    {
        out.push(c);
    }
    out
}

/// A class of characters that can be stripped from the ends of a line.
#[derive(Clone, Copy, Debug)]
pub enum Strip {
    /// Unicode white space.
    Space,
    /// The double quote character.
    Quote,
    /// What may follow an entry on its line: white space and the comma that
    /// separates entries.
    Separator,
}

impl Strip {
    /// Whether `c` belongs to the class.
    pub open spec fn holds(self, c: char) -> bool {
        match self {
            Strip::Space => is_space(c),
            Strip::Quote => c == '"',
            Strip::Separator => is_space(c) || c == ',',
        }
    }

    /// Executable membership test.
    pub fn test(self, c: char) -> (r: bool)
        ensures
            r == self.holds(c),
    {
        match self {
            Strip::Space => char_is_space(c),
            Strip::Quote => c == '"',
            Strip::Separator => char_is_space(c) || c == ',',
        }
    }
}

/// `s` without its longest prefix made of characters of `what`.
pub open spec fn skip_front(s: Seq<char>, what: Strip) -> Seq<char>
    decreases s.len(),
{
    if s.len() > 0 && what.holds(s.first()) {
        skip_front(s.drop_first(), what)
    } else {
        s
    }
}

/// `s` without its longest suffix made of characters of `what`.
pub open spec fn skip_back(s: Seq<char>, what: Strip) -> Seq<char>
    decreases s.len(),
{
    if s.len() > 0 && what.holds(s.last()) {
        skip_back(s.drop_last(), what)
    } else {
        s
    }
}

/// `s` with the characters of `what` removed from both ends.
pub open spec fn stripped(s: Seq<char>, what: Strip) -> Seq<char> {
    skip_back(skip_front(s, what), what)
}

/// The start of what `skip_front` keeps of `v[lo..hi]`.
pub fn front_index(v: &Vec<char>, lo: usize, hi: usize, what: Strip) -> (a: usize)
    requires
        lo <= hi <= v.len(),
    ensures
        lo <= a <= hi,
        v@.subrange(a as int, hi as int) == skip_front(v@.subrange(lo as int, hi as int), what),
{
    let mut a: usize = lo;
    while a < hi && what.test(v[a])
        invariant
            lo <= a <= hi <= v.len(),
            skip_front(v@.subrange(a as int, hi as int), what) == skip_front(
                v@.subrange(lo as int, hi as int),
                what,
            ),
        decreases hi - a,
    {
        assert(v@.subrange(a as int, hi as int).drop_first() =~= v@.subrange(
            a as int + 1,
            hi as int,
        ));
        a += 1;
    }
    a
}

/// The end of what `skip_back` keeps of `v[lo..hi]`.
pub fn back_index(v: &Vec<char>, lo: usize, hi: usize, what: Strip) -> (b: usize)
    requires
        lo <= hi <= v.len(),
    ensures
        lo <= b <= hi,
        v@.subrange(lo as int, b as int) == skip_back(v@.subrange(lo as int, hi as int), what),
{
    let mut b: usize = hi;
    while lo < b && what.test(v[b - 1])
        invariant
            lo <= b <= hi <= v.len(),
            skip_back(v@.subrange(lo as int, b as int), what) == skip_back(
                v@.subrange(lo as int, hi as int),
                what,
            ),
        decreases b - lo,
    {
        assert(v@.subrange(lo as int, b as int).drop_last() =~= v@.subrange(
            lo as int,
            b as int - 1,
        ));
        b -= 1;
    }
    b
}

/// The bounds of `stripped(v[lo..hi], what)` inside `v`.
pub fn strip_range(v: &Vec<char>, lo: usize, hi: usize, what: Strip) -> (r: (usize, usize))
    requires
        lo <= hi <= v.len(),
    ensures
        lo <= r.0 <= r.1 <= hi,
        v@.subrange(r.0 as int, r.1 as int) == stripped(v@.subrange(lo as int, hi as int), what),
{
    let a = front_index(v, lo, hi, what);
    let b = back_index(v, a, hi, what);
    (a, b)
}

/// Whether `pat` occurs in `s` at position `i`.
pub open spec fn occurs_at(s: Seq<char>, pat: Seq<char>, i: int) -> bool {
    0 <= i && i + pat.len() <= s.len() && s.subrange(i, i + pat.len()) == pat
}

/// Whether `pat` occurs somewhere in `s`. The empty pattern occurs in every
/// sequence.
pub open spec fn has(s: Seq<char>, pat: Seq<char>) -> bool {
    exists|i: int| occurs_at(s, pat, i)
}

/// Executable form of `occurs_at`.
pub fn matches_at(hay: &Vec<char>, pat: &Vec<char>, i: usize) -> (r: bool)
    requires
        i + pat.len() <= hay.len(),
    ensures
        r == occurs_at(hay@, pat@, i as int),
{
    let mut k: usize = 0;
    while k < pat.len()
        invariant
            k <= pat.len(),
            i + pat.len() <= hay.len(),
            forall|j: int| 0 <= j < k ==> hay@[i + j] == pat@[j],
        decreases pat.len() - k,
    {
        if hay[i + k] != pat[k] {
            proof {
                let sub = hay@.subrange(i as int, i + pat.len());
                assert(sub[k as int] != pat@[k as int]);
            }
            return false;
        }
        k += 1;
    }
    assert(hay@.subrange(i as int, i + pat.len()) =~= pat@);
    true
}

/// Whether `pat` occurs in `hay`.
pub fn contains(hay: &Vec<char>, pat: &Vec<char>) -> (r: bool)
    ensures
        r == has(hay@, pat@),
{
    if pat.len() > hay.len() {
        return false;
    }
    if pat.len() == 0 {
        assert(hay@.subrange(0, 0) =~= pat@);
        assert(occurs_at(hay@, pat@, 0));
        return true;
    }
    let last: usize = hay.len() - pat.len();
    let mut i: usize = 0;
    while i <= last
        invariant
            last == hay.len() - pat.len(),
            last < hay.len(),
            i <= last + 1,
            forall|j: int| 0 <= j < i ==> !occurs_at(hay@, pat@, j),
        decreases last + 1 - i,
    {
        if matches_at(hay, pat, i) {
            return true;
        }
        i += 1;
    }
    false
}

} // verus!
