//! Text as a sequence of characters: searching, splitting, trimming and decimal numbers.
//!
//! Everything the library does with text is stated over `Seq<char>`, the view of `str` and of
//! `String`, and is computed over slices of characters.
use vstd::prelude::*;
use vstd::slice::slice_subrange;

verus! {

/// `String::push` appends one character and leaves what was there before it.
pub assume_specification[ String::push ](s: &mut String, c: char)
    ensures
        final(s)@ == old(s)@.push(c),
;

/// Whether `p` stands in `s` at position `i`.
pub open spec fn occurs_at<T>(s: Seq<T>, p: Seq<T>, i: int) -> bool {
    0 <= i && i + p.len() <= s.len() && s.subrange(i, i + p.len()) == p
}

/// The first position at or after `from` at which `p` stands in `s`.
pub open spec fn find_from<T>(s: Seq<T>, p: Seq<T>, from: int) -> Option<int>
    decreases s.len() - from + 1,
{
    if from + p.len() > s.len() {
        None
    } else if occurs_at(s, p, from) {
        Some(from)
    } else {
        find_from(s, p, from + 1)
    }
}

/// Whether `p` stands anywhere in `s`.
pub open spec fn has_text(s: Seq<char>, p: Seq<char>) -> bool {
    exists|i: int| occurs_at(s, p, i)
}

/// What follows the prefix `p` of `s`, if `s` begins with it.
pub open spec fn without_prefix(s: Seq<char>, p: Seq<char>) -> Option<Seq<char>> {
    if occurs_at(s, p, 0) {
        Some(s.skip(p.len() as int))
    } else {
        None
    }
}

/// The parts of `s` between the occurrences of the separator `p`, found from left to right.
pub open spec fn split_on<T>(s: Seq<T>, p: Seq<T>) -> Seq<Seq<T>>
    decreases s.len(),
{
    match find_from(s, p, 0) {
        Some(i) if 0 <= i && p.len() > 0 && i + p.len() <= s.len() => {
            seq![s.take(i)] + split_on(s.skip(i + p.len()), p)
        },
        _ => seq![s],
    }
}

/// A line without the carriage return that stood before its line feed.
pub open spec fn without_cr(line: Seq<char>) -> Seq<char> {
    if line.len() > 0 && line.last() == '\r' {
        line.drop_last()
    } else {
        line
    }
}

/// The lines of `s`. A line ends at a line feed, which with a carriage return before it is left
/// out; an empty rest after the last line feed is no line.
pub open spec fn lines_of(s: Seq<char>) -> Seq<Seq<char>>
    decreases s.len(),
{
    if s.len() == 0 {
        seq![]
    } else {
        match find_from(s, seq!['\n'], 0) {
            Some(i) if 0 <= i < s.len() => {
                seq![without_cr(s.take(i))] + lines_of(s.skip(i + 1))
            },
            _ => seq![s],
        }
    }
}

/// The characters with the Unicode property White_Space.
pub open spec fn is_white_space(c: char) -> bool {
    ||| '\u{9}' <= c <= '\u{d}'
    ||| c == '\u{20}'
    ||| c == '\u{85}'
    ||| c == '\u{a0}'
    ||| c == '\u{1680}'
    ||| '\u{2000}' <= c <= '\u{200a}'
    ||| c == '\u{2028}'
    ||| c == '\u{2029}'
    ||| c == '\u{202f}'
    ||| c == '\u{205f}'
    ||| c == '\u{3000}'
}

/// `s` without its leading white space.
pub open spec fn trimmed_start(s: Seq<char>) -> Seq<char>
    decreases s.len(),
{
    if s.len() > 0 && is_white_space(s.first()) {
        trimmed_start(s.drop_first())
    } else {
        s
    }
}

/// `s` without its trailing white space.
pub open spec fn trimmed_end(s: Seq<char>) -> Seq<char>
    decreases s.len(),
{
    if s.len() > 0 && is_white_space(s.last()) {
        trimmed_end(s.drop_last())
    } else {
        s
    }
}

/// `s` without leading and trailing white space.
pub open spec fn trimmed(s: Seq<char>) -> Seq<char> {
    trimmed_end(trimmed_start(s))
}

/// `s` without its trailing line feeds.
pub open spec fn without_final_newlines(s: Seq<char>) -> Seq<char>
    decreases s.len(),
{
    if s.len() > 0 && s.last() == '\n' {
        without_final_newlines(s.drop_last())
    } else {
        s
    }
}

/// The decimal digits of `n`.
pub open spec fn digits(n: nat) -> Seq<char>
    decreases n,
{
    if n < 10 {
        seq![('0' as nat + n) as char]
    } else {
        digits(n / 10).push(('0' as nat + n % 10) as char)
    }
}

/// `n` in decimal, with a minus sign where it is negative.
pub open spec fn decimal(n: int) -> Seq<char> {
    if n < 0 {
        seq!['-'] + digits((-n) as nat)
    } else {
        digits(n as nat)
    }
}

/// The character sequences that a list of character vectors holds.
pub open spec fn texts(v: Seq<Vec<char>>) -> Seq<Seq<char>> {
    v.map_values(|t: Vec<char>| t@)
}

/// `find_from` gives the least position at or after `from`, and `None` only where there is none.
pub proof fn lemma_find_from<T>(s: Seq<T>, p: Seq<T>, from: int)
    requires
        0 <= from,
    ensures
        find_from(s, p, from) matches Some(i) ==> {
            &&& from <= i
            &&& occurs_at(s, p, i)
            &&& forall|j: int| from <= j < i ==> !occurs_at(s, p, j)
        },
        find_from(s, p, from) is None ==> forall|j: int| from <= j ==> !occurs_at(s, p, j),
    decreases s.len() - from + 1,
{
    if from + p.len() <= s.len() && !occurs_at(s, p, from) {
        lemma_find_from(s, p, from + 1);
    }
}

/// The least position at or after `from` is what `find_from` gives.
pub proof fn lemma_find_from_is<T>(s: Seq<T>, p: Seq<T>, from: int, i: int)
    requires
        0 <= from <= i,
        occurs_at(s, p, i),
        forall|j: int| from <= j < i ==> !occurs_at(s, p, j),
    ensures
        find_from(s, p, from) == Some(i),
{
    lemma_find_from(s, p, from);
    match find_from(s, p, from) {
        Some(k) => {
            if k < i {
                assert(!occurs_at(s, p, k));
            }
            if i < k {
                assert(!occurs_at(s, p, i));
            }
        },
        None => {
            assert(!occurs_at(s, p, i));
        },
    }
}

/// The characters of a string.
pub fn chars_of(s: &str) -> (r: Vec<char>)
    ensures
        r@ == s@,
{
    let mut r: Vec<char> = Vec::new();
    for c in it: s.chars()
        invariant
            r@ == it.seq().take(it.index()),
            it.seq() == s@,
    {
        r.push(c);
    }
    proof {
        assert(s@.take(s@.len() as int) =~= s@);
    }
    r
}

/// The string made of the given characters.
pub fn string_of(s: &[char]) -> (r: String)
    ensures
        r@ == s@,
{
    let mut r = String::new();
    for i in 0..s.len()
        invariant
            r@ == s@.take(i as int),
    {
        r.push(s[i]);
        assert(s@.take(i as int).push(s@[i as int]) =~= s@.take(i + 1));
    }
    proof {
        assert(s@.take(s@.len() as int) =~= s@);
    }
    r
}

/// A vector with the given characters.
pub fn vec_of(s: &[char]) -> (r: Vec<char>)
    ensures
        r@ == s@,
{
    vstd::slice::slice_to_vec(s)
}

/// Whether two character slices hold the same text.
pub fn same_text(a: &[char], b: &[char]) -> (r: bool)
    ensures
        r == (a@ == b@),
{
    if a.len() != b.len() {
        return false;
    }
    for i in 0..a.len()
        invariant
            a.len() == b.len(),
            forall|j: int| 0 <= j < i ==> a@[j] == b@[j],
    {
        if a[i] != b[i] {
            assert(a@[i as int] != b@[i as int]);
            return false;
        }
    }
    assert(a@ =~= b@);
    true
}

/// Whether `p` stands in `s` at position `i`.
pub fn stands_at(s: &[char], p: &[char], i: usize) -> (r: bool)
    ensures
        r == occurs_at(s@, p@, i as int),
{
    if i > s.len() || p.len() > s.len() - i {
        return false;
    }
    same_text(slice_subrange(s, i, i + p.len()), p)
}

/// The first position at or after `from` at which `p` stands in `s`.
pub fn find(s: &[char], p: &[char], from: usize) -> (r: Option<usize>)
    requires
        from <= s@.len(),
    ensures
        r matches Some(i) ==> find_from(s@, p@, from as int) == Some(i as int) && i + p@.len()
            <= s@.len() && from <= i,
        r is None ==> find_from(s@, p@, from as int) is None,
{
    let mut i: usize = from;
    while i <= s.len() && p.len() <= s.len() - i
        invariant
            from <= i <= s@.len() + 1,
            find_from(s@, p@, from as int) == find_from(s@, p@, i as int),
        decreases s@.len() + 1 - i,
    {
        if stands_at(s, p, i) {
            return Some(i);
        }
        if i == s.len() {
            assert(s@.subrange(i as int, i as int) =~= p@);
        }
        i = i + 1;
    }
    None
}

/// Whether `p` stands anywhere in `s`.
pub fn contains_text(s: &[char], p: &[char]) -> (r: bool)
    ensures
        r == has_text(s@, p@),
{
    proof {
        lemma_find_from(s@, p@, 0);
    }
    find(s, p, 0).is_some()
}

/// The lines of `s`.
pub fn lines(s: &[char]) -> (r: Vec<Vec<char>>)
    ensures
        texts(r@) == lines_of(s@),
{
    let newline: Vec<char> = vec!['\n'];
    proof {
        assert(newline@ =~= seq!['\n']);
    }
    let mut r: Vec<Vec<char>> = Vec::new();
    let mut rest: &[char] = s;
    proof {
        assert(texts(r@) + lines_of(s@) =~= lines_of(s@));
    }
    while rest.len() > 0
        invariant
            newline@ == seq!['\n'],
            lines_of(s@) == texts(r@) + lines_of(rest@),
        decreases rest@.len(),
    {
        let ghost before = texts(r@);
        let ghost whole = rest@;
        match find(rest, newline.as_slice(), 0) {
            Some(i) => {
                let end: usize = if i > 0 && rest[i - 1] == '\r' {
                    i - 1
                } else {
                    i
                };
                let line = vec_of(slice_subrange(rest, 0, end));
                rest = slice_subrange(rest, i + 1, rest.len());
                r.push(line);
                proof {
                    assert(texts(r@) =~= before.push(line@));
                    assert(line@ =~= without_cr(whole.take(i as int)));
                    assert(rest@ =~= whole.skip(i + 1));
                    assert(before + (seq![line@] + lines_of(rest@)) =~= before.push(line@)
                        + lines_of(rest@));
                }
            },
            None => {
                let line = vec_of(rest);
                r.push(line);
                rest = slice_subrange(rest, rest.len(), rest.len());
                proof {
                    assert(texts(r@) =~= before.push(line@));
                    assert(before.push(line@) + lines_of(rest@) =~= before + seq![whole]);
                }
            },
        }
    }
    proof {
        assert(texts(r@) + lines_of(rest@) =~= texts(r@));
    }
    r
}

/// Whether `c` has the Unicode property White_Space.
pub fn white_space(c: char) -> (r: bool)
    ensures
        r == is_white_space(c),
{
    ('\u{9}' <= c && c <= '\u{d}') || c == '\u{20}' || c == '\u{85}' || c == '\u{a0}' || c
        == '\u{1680}' || ('\u{2000}' <= c && c <= '\u{200a}') || c == '\u{2028}' || c == '\u{2029}'
        || c == '\u{202f}' || c == '\u{205f}' || c == '\u{3000}'
}

/// `s` without leading and trailing white space.
pub fn trim(s: &[char]) -> (r: &[char])
    ensures
        r@ == trimmed(s@),
{
    let mut r: &[char] = s;
    while r.len() > 0 && white_space(r[0])
        invariant
            trimmed_start(s@) == trimmed_start(r@),
        decreases r@.len(),
    {
        let ghost whole = r@;
        r = slice_subrange(r, 1, r.len());
        assert(r@ =~= whole.drop_first());
    }
    while r.len() > 0 && white_space(r[r.len() - 1])
        invariant
            trimmed(s@) == trimmed_end(r@),
        decreases r@.len(),
    {
        let ghost whole = r@;
        r = slice_subrange(r, 0, r.len() - 1);
        assert(r@ =~= whole.drop_last());
    }
    r
}

/// `s` without its trailing line feeds.
pub fn trim_final_newlines(s: &[char]) -> (r: &[char])
    ensures
        r@ == without_final_newlines(s@),
{
    let mut r: &[char] = s;
    while r.len() > 0 && r[r.len() - 1] == '\n'
        invariant
            without_final_newlines(s@) == without_final_newlines(r@),
        decreases r@.len(),
    {
        let ghost whole = r@;
        r = slice_subrange(r, 0, r.len() - 1);
        assert(r@ =~= whole.drop_last());
    }
    r
}

/// Appends the decimal digits of `n`.
fn push_digits(out: &mut String, n: u64)
    ensures
        final(out)@ == old(out)@ + digits(n as nat),
    decreases n,
{
    if n >= 10 {
        push_digits(out, n / 10);
    }
    let digit: u8 = (n % 10) as u8;
    out.push((48 + digit) as char);
    proof {
        if n >= 10 {
            assert(out@ =~= old(out)@ + digits(n as nat / 10).push(('0' as nat + n as nat % 10) as char));
        }
    }
}

/// Appends `n` in decimal.
pub fn push_decimal(out: &mut String, n: i64)
    ensures
        final(out)@ == old(out)@ + decimal(n as int),
{
    if n < 0 {
        out.push('-');
        let magnitude: u64 = (-(n as i128)) as u64;
        push_digits(out, magnitude);
        proof {
            assert(out@ =~= old(out)@ + (seq!['-'] + digits((-n) as nat)));
        }
    } else {
        push_digits(out, n as u64);
    }
}

/// Appends a count in decimal.
pub fn push_count(out: &mut String, n: usize)
    ensures
        final(out)@ == old(out)@ + decimal(n as int),
{
    push_digits(out, n as u64);
}

} // verus!
