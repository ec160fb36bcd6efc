//! Character-level text utilities.
//!
//! The harness reads the oracle's tabular output and the subject's reports
//! as plain text.  The library does all of that work on vectors of
//! characters: splitting on separators, trimming, prefix tests, substring
//! search and ASCII case folding, each against an exact specification.

use vstd::prelude::*;

verus! {

/// The characters of `s`, in order.
pub fn chars_of(s: &str) -> (r: Vec<char>)
    ensures
        r@ == s@,
{
    let n = s.unicode_len();
    let mut v: Vec<char> = Vec::new();
    let mut i: usize = 0;
    while i < n
        invariant
            0 <= i <= n,
            n == s@.len(),
            v@ == s@.take(i as int),
        decreases n - i,
    {
        let c = s.get_char(i);
        proof {
            assert(s@.take(i + 1) =~= s@.take(i as int).push(s@[i as int]));
        }
        v.push(c);
        i = i + 1;
    }
    proof {
        assert(s@.take(n as int) =~= s@);
    }
    v
}

/// Relies on `String`'s `FromIterator<char>`: collecting characters yields
/// the string holding exactly those characters in order.
#[verifier::external_body]
pub fn string_of(cs: &Vec<char>) -> (r: String)
    ensures
        r@ == cs@,
{
    cs.iter().collect()
}

/// Relies on `String::push`: appends one character at the end.
#[verifier::external_body]
pub fn push_char(s: &mut String, c: char)
    ensures
        final(s)@ == old(s)@.push(c),
{
    s.push(c);
}

/// Relies on `String::pop`: removes and returns the last character, if any.
#[verifier::external_body]
pub fn pop_char(s: &mut String) -> (r: Option<char>)
    ensures
        old(s)@.len() == 0 ==> final(s)@ == old(s)@ && r is None,
        old(s)@.len() > 0 ==> final(s)@ == old(s)@.drop_last() && r == Some(old(s)@.last()),
{
    s.pop()
}

/// Whether `c` is one of the blank characters the harness trims.
pub open spec fn is_blank(c: char) -> bool {
    c == ' ' || c == '\t' || c == '\r' || c == '\n'
}

/// Executable form of `is_blank`.
pub fn is_blank_char(c: char) -> (r: bool)
    ensures
        r == is_blank(c),
{
    c == ' ' || c == '\t' || c == '\r' || c == '\n'
}

/// The character class trimmed in each pass: quotes first, blanks second.
pub open spec fn trim_sel(quotes: bool, c: char) -> bool {
    if quotes {
        c == '"'
    } else {
        is_blank(c)
    }
}

/// `s` without its leading characters of the selected class.
pub open spec fn trim_leading(s: Seq<char>, quotes: bool) -> Seq<char>
    decreases s.len(),
{
    if s.len() > 0 && trim_sel(quotes, s[0]) {
        trim_leading(s.skip(1), quotes)
    } else {
        s
    }
}

/// `s` without its trailing characters of the selected class.
pub open spec fn trim_trailing(s: Seq<char>, quotes: bool) -> Seq<char>
    decreases s.len(),
{
    if s.len() > 0 && trim_sel(quotes, s.last()) {
        trim_trailing(s.drop_last(), quotes)
    } else {
        s
    }
}

/// `s` without leading and trailing characters of the selected class.
pub open spec fn trim_edges(s: Seq<char>, quotes: bool) -> Seq<char> {
    trim_trailing(trim_leading(s, quotes), quotes)
}

pub proof fn lemma_trim_leading_at(s: Seq<char>, quotes: bool, i: int)
    requires
        0 <= i <= s.len(),
        forall|j: int| 0 <= j < i ==> trim_sel(quotes, s[j]),
        i < s.len() ==> !trim_sel(quotes, s[i]),
    ensures
        trim_leading(s, quotes) == s.skip(i),
    decreases s.len(),
{
    if s.len() > 0 && trim_sel(quotes, s[0]) {
        assert(i > 0);
        let t = s.skip(1);
        assert(forall|j: int| 0 <= j < i - 1 ==> t[j] == s[j + 1] && trim_sel(quotes, s[j + 1]));
        assert(i - 1 < t.len() ==> t[i - 1] == s[i]);
        lemma_trim_leading_at(t, quotes, i - 1);
        assert(t.skip(i - 1) =~= s.skip(i));
    } else {
        assert(i == 0);
        assert(s.skip(0) =~= s);
    }
}

pub proof fn lemma_trim_trailing_at(s: Seq<char>, quotes: bool, i: int)
    requires
        0 <= i <= s.len(),
        forall|j: int| i <= j < s.len() ==> trim_sel(quotes, s[j]),
        i > 0 ==> !trim_sel(quotes, s[i - 1]),
    ensures
        trim_trailing(s, quotes) == s.take(i),
    decreases s.len(),
{
    if s.len() > 0 && trim_sel(quotes, s.last()) {
        assert(i < s.len());
        let t = s.drop_last();
        assert(forall|j: int| i <= j < t.len() ==> t[j] == s[j] && trim_sel(quotes, s[j]));
        assert(i > 0 ==> t[i - 1] == s[i - 1]);
        lemma_trim_trailing_at(t, quotes, i);
        assert(t.take(i) =~= s.take(i));
    } else {
        assert(i == s.len());
        assert(s.take(i) =~= s);
    }
}

/// `s` trimmed of quotes first, then of blanks, as the cell scan reads a
/// raw cell.
pub open spec fn clean_cell(s: Seq<char>) -> Seq<char> {
    trim_edges(trim_edges(s, true), false)
}

/// Whether `c` is trimmed in the selected pass.
fn trim_hits(c: char, quotes: bool) -> (r: bool)
    ensures
        r == trim_sel(quotes, c),
{
    if quotes {
        c == '"'
    } else {
        is_blank_char(c)
    }
}

/// Trims every leading and trailing character of the selected class.
fn trim_pred(cs: &Vec<char>, quotes: bool) -> (r: Vec<char>)
    ensures
        r@ == trim_edges(cs@, quotes),
{
    let n = cs.len();
    let mut lo: usize = 0;
    while lo < n && trim_hits(cs[lo], quotes)
        invariant
            0 <= lo <= n,
            n == cs@.len(),
            forall|j: int| 0 <= j < lo ==> trim_sel(quotes, cs@[j]),
        decreases n - lo,
    {
        lo = lo + 1;
    }
    proof {
        lemma_trim_leading_at(cs@, quotes, lo as int);
    }
    let ghost mid = cs@.skip(lo as int);
    let mut hi: usize = n;
    while hi > lo && trim_hits(cs[hi - 1], quotes)
        invariant
            lo <= hi <= n,
            n == cs@.len(),
            forall|j: int| hi <= j < n ==> trim_sel(quotes, cs@[j]),
        decreases hi,
    {
        hi = hi - 1;
    }
    proof {
        assert(forall|j: int|
            hi - lo <= j < mid.len() ==> mid[j] == cs@[j + lo] && trim_sel(quotes, cs@[j + lo]));
        assert(hi > lo ==> mid[hi - lo - 1] == cs@[hi - 1]);
        lemma_trim_trailing_at(mid, quotes, hi - lo);
    }
    let mut out: Vec<char> = Vec::new();
    let mut i: usize = lo;
    while i < hi
        invariant
            lo <= i <= hi <= n,
            n == cs@.len(),
            out@ == cs@.subrange(lo as int, i as int),
        decreases hi - i,
    {
        proof {
            assert(cs@.subrange(lo as int, i + 1) =~= cs@.subrange(lo as int, i as int).push(
                cs@[i as int],
            ));
        }
        out.push(cs[i]);
        i = i + 1;
    }
    proof {
        assert(mid.take(hi - lo) =~= cs@.subrange(lo as int, hi as int));
    }
    out
}

/// A raw cell trimmed of quotes, then of blanks.
pub fn clean_cell_chars(cs: &Vec<char>) -> (r: Vec<char>)
    ensures
        r@ == clean_cell(cs@),
{
    let unquoted = trim_pred(cs, true);
    trim_pred(&unquoted, false)
}

/// `cs` trimmed of leading and trailing blanks.
pub fn trim_blanks_chars(cs: &Vec<char>) -> (r: Vec<char>)
    ensures
        r@ == trim_edges(cs@, false),
{
    trim_pred(cs, false)
}

/// `s` split on `sep`: always one piece more than separators, empty pieces
/// kept.
pub open spec fn split_on(s: Seq<char>, sep: char) -> Seq<Seq<char>>
    decreases s.len(),
{
    if s.len() == 0 {
        seq![Seq::<char>::empty()]
    } else if s.last() == sep {
        split_on(s.drop_last(), sep) + seq![Seq::<char>::empty()]
    } else {
        let r = split_on(s.drop_last(), sep);
        r.update(r.len() - 1, r.last().push(s.last()))
    }
}

pub proof fn lemma_split_on_nonempty(s: Seq<char>, sep: char)
    ensures
        split_on(s, sep).len() >= 1,
    decreases s.len(),
{
    if s.len() > 0 {
        lemma_split_on_nonempty(s.drop_last(), sep);
    }
}

/// The views of a vector of character vectors.
pub open spec fn views_of(s: Seq<Vec<char>>) -> Seq<Seq<char>> {
    s.map_values(|v: Vec<char>| v@)
}

/// Splits `cs` on `sep`, exactly per `split_on`.
pub fn split_char(cs: &Vec<char>, sep: char) -> (r: Vec<Vec<char>>)
    ensures
        views_of(r@) == split_on(cs@, sep),
        r@.len() >= 1,
{
    let n = cs.len();
    let mut done: Vec<Vec<char>> = Vec::new();
    let mut cur: Vec<char> = Vec::new();
    let mut i: usize = 0;
    proof {
        assert(cs@.take(0) =~= Seq::<char>::empty());
        assert(views_of(done@.push(cur)) =~= split_on(cs@.take(0), sep));
    }
    while i < n
        invariant
            0 <= i <= n,
            n == cs@.len(),
            views_of(done@.push(cur)) == split_on(cs@.take(i as int), sep),
        decreases n - i,
    {
        let c = cs[i];
        proof {
            assert(cs@.take(i + 1).drop_last() =~= cs@.take(i as int));
            assert(cs@.take(i + 1).last() == cs@[i as int]);
        }
        if c == sep {
            let finished = cur;
            cur = Vec::new();
            done.push(finished);
            proof {
                assert(views_of(done@.push(cur)) =~= split_on(cs@.take(i as int), sep) + seq![
                    Seq::<char>::empty(),
                ]);
            }
        } else {
            let ghost before = views_of(done@.push(cur));
            cur.push(c);
            proof {
                lemma_split_on_nonempty(cs@.take(i as int), sep);
                assert(views_of(done@.push(cur)) =~= before.update(
                    before.len() - 1,
                    before.last().push(c),
                ));
            }
        }
        i = i + 1;
    }
    proof {
        assert(cs@.take(n as int) =~= cs@);
    }
    done.push(cur);
    done
}

/// Whether `s` starts with `p`.
pub open spec fn spec_starts_with(s: Seq<char>, p: Seq<char>) -> bool {
    s.len() >= p.len() && s.subrange(0, p.len() as int) == p
}

/// Whether `cs` starts with `prefix`.
pub fn starts_with_chars(cs: &Vec<char>, prefix: &Vec<char>) -> (r: bool)
    ensures
        r == spec_starts_with(cs@, prefix@),
{
    let np = prefix.len();
    if cs.len() < np {
        return false;
    }
    let mut i: usize = 0;
    while i < np
        invariant
            0 <= i <= np,
            np == prefix@.len(),
            np <= cs@.len(),
            forall|j: int| 0 <= j < i ==> cs@[j] == prefix@[j],
        decreases np - i,
    {
        if cs[i] != prefix[i] {
            proof {
                assert(cs@.subrange(0, np as int)[i as int] == cs@[i as int]);
            }
            return false;
        }
        i = i + 1;
    }
    proof {
        assert(cs@.subrange(0, np as int) =~= prefix@);
    }
    true
}

/// The part of `cs` after its first `n` characters.
pub fn skip_chars(cs: &Vec<char>, n: usize) -> (r: Vec<char>)
    requires
        n <= cs@.len(),
    ensures
        r@ == cs@.skip(n as int),
{
    let len = cs.len();
    let mut out: Vec<char> = Vec::new();
    let mut i: usize = n;
    proof {
        assert(cs@.subrange(n as int, n as int) =~= Seq::<char>::empty());
    }
    while i < len
        invariant
            n <= i <= len,
            len == cs@.len(),
            out@ == cs@.subrange(n as int, i as int),
        decreases len - i,
    {
        proof {
            assert(cs@.subrange(n as int, i + 1) =~= cs@.subrange(n as int, i as int).push(
                cs@[i as int],
            ));
        }
        out.push(cs[i]);
        i = i + 1;
    }
    proof {
        assert(cs@.subrange(n as int, len as int) =~= cs@.skip(n as int));
    }
    out
}

/// Whether two character vectors hold the same characters.
pub fn eq_chars(a: &Vec<char>, b: &Vec<char>) -> (r: bool)
    ensures
        r == (a@ == b@),
{
    if a.len() != b.len() {
        return false;
    }
    let n = a.len();
    let mut i: usize = 0;
    while i < n
        invariant
            0 <= i <= n,
            n == a@.len() == b@.len(),
            forall|j: int| 0 <= j < i ==> a@[j] == b@[j],
        decreases n - i,
    {
        if a[i] != b[i] {
            return false;
        }
        i = i + 1;
    }
    proof {
        assert(a@ =~= b@);
    }
    true
}

/// `s` with every occurrence of `c` removed.
pub open spec fn remove_char(s: Seq<char>, c: char) -> Seq<char>
    decreases s.len(),
{
    if s.len() == 0 {
        Seq::<char>::empty()
    } else if s.last() == c {
        remove_char(s.drop_last(), c)
    } else {
        remove_char(s.drop_last(), c).push(s.last())
    }
}

/// Removes every occurrence of `c` from `cs`.
pub fn strip_char(cs: &Vec<char>, c: char) -> (r: Vec<char>)
    ensures
        r@ == remove_char(cs@, c),
{
    let n = cs.len();
    let mut out: Vec<char> = Vec::new();
    let mut i: usize = 0;
    proof {
        assert(cs@.take(0) =~= Seq::<char>::empty());
    }
    while i < n
        invariant
            0 <= i <= n,
            n == cs@.len(),
            out@ == remove_char(cs@.take(i as int), c),
        decreases n - i,
    {
        let x = cs[i];
        proof {
            assert(cs@.take(i + 1).drop_last() =~= cs@.take(i as int));
            assert(cs@.take(i + 1).last() == cs@[i as int]);
        }
        if x != c {
            out.push(x);
        }
        i = i + 1;
    }
    proof {
        assert(cs@.take(n as int) =~= cs@);
    }
    out
}

/// Whether `n` occurs in `h` as a contiguous substring.
pub open spec fn spec_contains(h: Seq<char>, n: Seq<char>) -> bool {
    exists|i: int| 0 <= i <= h.len() - n.len() && #[trigger] h.subrange(i, i + n.len()) == n
}

/// Whether `needle` occurs in `hay` as a contiguous substring.
pub fn contains_chars(hay: &Vec<char>, needle: &Vec<char>) -> (r: bool)
    ensures
        r == spec_contains(hay@, needle@),
{
    let nh = hay.len();
    let nn = needle.len();
    if nn > nh {
        proof {
            assert(!spec_contains(hay@, needle@));
        }
        return false;
    }
    if nn == 0 {
        proof {
            assert(hay@.subrange(0, 0 + needle@.len() as int) =~= needle@);
        }
        return true;
    }
    let mut start: usize = 0;
    while start <= nh - nn
        invariant
            0 <= start,
            1 <= nn <= nh,
            start <= nh - nn + 1,
            nh == hay@.len(),
            nn == needle@.len(),
            forall|i: int| 0 <= i < start ==> #[trigger] hay@.subrange(i, i + nn) != needle@,
        decreases nh - start,
    {
        let mut k: usize = 0;
        let mut hit = true;
        while k < nn && hit
            invariant
                0 <= k <= nn,
                start + nn <= nh,
                nh == hay@.len(),
                nn == needle@.len(),
                hit ==> forall|j: int| 0 <= j < k ==> hay@[start + j] == needle@[j],
                !hit ==> hay@.subrange(start as int, start + nn) != needle@,
            decreases nn - k + (if hit { 1int } else { 0int }),
        {
            if hay[start + k] != needle[k] {
                proof {
                    assert(hay@.subrange(start as int, start + nn)[k as int] == hay@[start + k]);
                }
                hit = false;
            } else {
                k = k + 1;
            }
        }
        if hit {
            proof {
                assert(hay@.subrange(start as int, start + nn) =~= needle@);
            }
            return true;
        }
        proof {
            assert(hay@.subrange(start as int, start + nn) != needle@);
        }
        start = start + 1;
    }
    proof {
        assert forall|i: int| 0 <= i <= hay@.len() - needle@.len() implies #[trigger] hay@.subrange(
            i,
            i + needle@.len(),
        ) != needle@ by {
            assert(i < start);
        }
    }
    false
}

/// The ASCII lowercase form of `c`: letters `A` to `Z` fold, all else stays.
pub open spec fn lower_char(c: char) -> char {
    if c == 'A' {
        'a'
    } else if c == 'B' {
        'b'
    } else if c == 'C' {
        'c'
    } else if c == 'D' {
        'd'
    } else if c == 'E' {
        'e'
    } else if c == 'F' {
        'f'
    } else if c == 'G' {
        'g'
    } else if c == 'H' {
        'h'
    } else if c == 'I' {
        'i'
    } else if c == 'J' {
        'j'
    } else if c == 'K' {
        'k'
    } else if c == 'L' {
        'l'
    } else if c == 'M' {
        'm'
    } else if c == 'N' {
        'n'
    } else if c == 'O' {
        'o'
    } else if c == 'P' {
        'p'
    } else if c == 'Q' {
        'q'
    } else if c == 'R' {
        'r'
    } else if c == 'S' {
        's'
    } else if c == 'T' {
        't'
    } else if c == 'U' {
        'u'
    } else if c == 'V' {
        'v'
    } else if c == 'W' {
        'w'
    } else if c == 'X' {
        'x'
    } else if c == 'Y' {
        'y'
    } else if c == 'Z' {
        'z'
    } else {
        c
    }
}

/// `s` folded to ASCII lowercase.
pub open spec fn lower_seq(s: Seq<char>) -> Seq<char> {
    s.map_values(|c: char| lower_char(c))
}

/// Executable form of `lower_char`.
fn lower_char_of(c: char) -> (r: char)
    ensures
        r == lower_char(c),
{
    if c == 'A' {
        'a'
    } else if c == 'B' {
        'b'
    } else if c == 'C' {
        'c'
    } else if c == 'D' {
        'd'
    } else if c == 'E' {
        'e'
    } else if c == 'F' {
        'f'
    } else if c == 'G' {
        'g'
    } else if c == 'H' {
        'h'
    } else if c == 'I' {
        'i'
    } else if c == 'J' {
        'j'
    } else if c == 'K' {
        'k'
    } else if c == 'L' {
        'l'
    } else if c == 'M' {
        'm'
    } else if c == 'N' {
        'n'
    } else if c == 'O' {
        'o'
    } else if c == 'P' {
        'p'
    } else if c == 'Q' {
        'q'
    } else if c == 'R' {
        'r'
    } else if c == 'S' {
        's'
    } else if c == 'T' {
        't'
    } else if c == 'U' {
        'u'
    } else if c == 'V' {
        'v'
    } else if c == 'W' {
        'w'
    } else if c == 'X' {
        'x'
    } else if c == 'Y' {
        'y'
    } else if c == 'Z' {
        'z'
    } else {
        c
    }
}

/// Folds `cs` to ASCII lowercase, exactly per `lower_seq`.
pub fn lower_chars(cs: &Vec<char>) -> (r: Vec<char>)
    ensures
        r@ == lower_seq(cs@),
{
    let n = cs.len();
    let mut out: Vec<char> = Vec::new();
    let mut i: usize = 0;
    proof {
        assert(out@ =~= lower_seq(cs@.take(0)));
    }
    while i < n
        invariant
            0 <= i <= n,
            n == cs@.len(),
            out@ == lower_seq(cs@.take(i as int)),
        decreases n - i,
    {
        let c = lower_char_of(cs[i]);
        out.push(c);
        proof {
            assert(out@ =~= lower_seq(cs@.take(i + 1)));
        }
        i = i + 1;
    }
    proof {
        assert(cs@.take(n as int) =~= cs@);
    }
    out
}

} // verus!
