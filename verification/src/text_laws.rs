//! What trimming, splitting and numbering give, told by the characters alone.
use crate::text::{
    decimal, digits, find_from, has_text, is_white_space, lemma_find_from, lemma_find_from_is, lines_of,
    occurs_at, split_on, trimmed, trimmed_end, trimmed_start, without_final_newlines,
    without_prefix,
};
use vstd::prelude::*;

verus! {

proof fn lemma_trimmed_start(s: Seq<char>) -> (a: int)
    ensures
        0 <= a <= s.len(),
        trimmed_start(s) == s.skip(a),
        forall|i: int| 0 <= i < a ==> is_white_space(#[trigger] s[i]),
        a < s.len() ==> !is_white_space(s[a]),
    decreases s.len(),
{
    if s.len() > 0 && is_white_space(s.first()) {
        let rest = s.drop_first();
        let a = lemma_trimmed_start(rest);
        assert(rest.skip(a) =~= s.skip(a + 1));
        assert forall|i: int| 0 <= i < a + 1 implies is_white_space(#[trigger] s[i]) by {
            if i > 0 {
                assert(s[i] == rest[i - 1]);
            }
        }
        a + 1
    } else {
        assert(s.skip(0) =~= s);
        0
    }
}

proof fn lemma_trimmed_end(s: Seq<char>) -> (b: int)
    ensures
        0 <= b <= s.len(),
        trimmed_end(s) == s.take(b),
        forall|i: int| b <= i < s.len() ==> is_white_space(#[trigger] s[i]),
        b > 0 ==> !is_white_space(s[b - 1]),
    decreases s.len(),
{
    if s.len() > 0 && is_white_space(s.last()) {
        let front = s.drop_last();
        let b = lemma_trimmed_end(front);
        assert(front.take(b) =~= s.take(b));
        assert forall|i: int| b <= i < s.len() implies is_white_space(#[trigger] s[i]) by {
            if i < front.len() {
                assert(s[i] == front[i]);
            }
        }
        b
    } else {
        assert(s.take(s.len() as int) =~= s);
        s.len() as int
    }
}

/// Trimming takes white space off both ends, all of it and nothing else.
pub proof fn law_trimming_takes_white_space_off(s: Seq<char>)
    ensures
        exists|a: int, b: int|
            {
                &&& 0 <= a <= b <= s.len()
                &&& trimmed(s) == #[trigger] s.subrange(a, b)
                &&& forall|i: int|
                    0 <= i < a || b <= i < s.len() ==> is_white_space(#[trigger] s[i])
            },
        trimmed(s).len() > 0 ==> !is_white_space(trimmed(s).first()) && !is_white_space(
            trimmed(s).last(),
        ),
{
    let a = lemma_trimmed_start(s);
    let t = s.skip(a);
    let b = lemma_trimmed_end(t);
    assert(t.take(b) =~= s.subrange(a, a + b));
    assert forall|i: int| 0 <= i < a || a + b <= i < s.len() implies is_white_space(
        #[trigger] s[i],
    ) by {
        if i >= a + b {
            assert(t[i - a] == s[i]);
        }
    }
    if b > 0 {
        assert(t[0] == s[a]);
    }
}

/// What is taken off the end of a text are line feeds, all of them and nothing else.
pub proof fn law_final_newlines_are_taken_off(s: Seq<char>)
    ensures
        ({
            let r = without_final_newlines(s);
            &&& r.len() <= s.len()
            &&& r == s.take(r.len() as int)
            &&& forall|i: int| r.len() <= i < s.len() ==> #[trigger] s[i] == '\n'
            &&& r.len() > 0 ==> r.last() != '\n'
        }),
    decreases s.len(),
{
    if s.len() > 0 && s.last() == '\n' {
        let front = s.drop_last();
        law_final_newlines_are_taken_off(front);
        let r = without_final_newlines(s);
        assert(front.take(r.len() as int) =~= s.take(r.len() as int));
        assert forall|i: int| r.len() <= i < s.len() implies #[trigger] s[i] == '\n' by {
            if i < front.len() {
                assert(s[i] == front[i]);
            }
        }
    } else {
        assert(s.take(s.len() as int) =~= s);
    }
}

/// The number that decimal digits stand for.
pub open spec fn number_of(d: Seq<char>) -> int
    decreases d.len(),
{
    if d.len() == 0 {
        0
    } else {
        10 * number_of(d.drop_last()) + (d.last() as int - '0' as int)
    }
}

proof fn lemma_digits(n: nat)
    ensures
        number_of(digits(n)) == n,
        digits(n).len() > 0,
        forall|i: int| 0 <= i < digits(n).len() ==> '0' <= #[trigger] digits(n)[i] <= '9',
        digits(n)[0] == '0' ==> n == 0,
        n == 0 ==> digits(n).len() == 1,
    decreases n,
{
    let d = digits(n);
    if n < 10 {
        assert(d.drop_last() =~= seq![]);
        assert(number_of(d.drop_last()) == 0);
    } else {
        let front = digits(n / 10);
        lemma_digits(n / 10);
        assert(d.drop_last() =~= front);
        assert forall|i: int| 0 <= i < d.len() implies '0' <= #[trigger] d[i] <= '9' by {
            if i < front.len() {
                assert(d[i] == front[i]);
            }
        }
        assert(d[0] == front[0]);
    }
}

/// A number is written in decimal: behind a minus sign where it is negative stand digits that stand
/// for it, without leading zeros.
pub proof fn law_decimals_stand_for_the_number(n: int)
    ensures
        ({
            let d = if n < 0 {
                decimal(n).skip(1)
            } else {
                decimal(n)
            };
            &&& n < 0 ==> decimal(n).len() > 0 && decimal(n)[0] == '-'
            &&& number_of(d) == if n < 0 {
                -n
            } else {
                n
            }
            &&& d.len() > 0
            &&& forall|i: int| 0 <= i < d.len() ==> '0' <= #[trigger] d[i] <= '9'
            &&& d[0] == '0' ==> n == 0 && d.len() == 1
        }),
{
    if n < 0 {
        lemma_digits((-n) as nat);
        assert(decimal(n).skip(1) =~= digits((-n) as nat));
    } else {
        lemma_digits(n as nat);
    }
}

/// A text cut at a separator: the first part ends where the separator first stands, and what
/// follows it is cut in the same way. A text without the separator is one part.
pub proof fn law_split_at_the_first_separator<T>(a: Seq<T>, p: Seq<T>, rest: Seq<T>)
    requires
        p.len() > 0,
        forall|j: int| 0 <= j < a.len() ==> !#[trigger] occurs_at(a + p, p, j),
    ensures
        split_on(a + p + rest, p) == seq![a] + split_on(rest, p),
        split_on(a, p) == seq![a],
{
    let s = a + p + rest;
    let n = a.len() as int;
    assert(s.subrange(n, n + p.len()) =~= p);
    assert forall|j: int| 0 <= j < n implies !occurs_at(s, p, j) by {
        if occurs_at(s, p, j) {
            assert((a + p).subrange(j, j + p.len()) =~= s.subrange(j, j + p.len()));
            assert(occurs_at(a + p, p, j));
        }
    }
    lemma_find_from_is(s, p, 0, n);
    assert(s.take(n) =~= a);
    assert(s.skip(n + p.len()) =~= rest);
    lemma_find_from(a, p, 0);
    if let Some(j) = find_from(a, p, 0) {
        assert((a + p).subrange(j, j + p.len()) =~= a.subrange(j, j + p.len()));
        assert(occurs_at(a + p, p, j));
    }
}

/// The lines of a text: what stands before the first line feed, without a carriage return at its
/// end, then the lines of what follows. A text without a line feed is one line unless it is empty.
pub proof fn law_lines_end_at_line_feeds(line: Seq<char>, rest: Seq<char>)
    requires
        !line.contains('\n'),
    ensures
        lines_of(line + seq!['\n'] + rest) == seq![
            if line.len() > 0 && line.last() == '\r' {
                line.drop_last()
            } else {
                line
            },
        ] + lines_of(rest),
        lines_of(line) == if line.len() == 0 {
            seq![]
        } else {
            seq![line]
        },
{
    let p = seq!['\n'];
    let s = line + p + rest;
    let n = line.len() as int;
    assert(s.subrange(n, n + 1) =~= p);
    assert forall|j: int| 0 <= j < n implies !occurs_at(s, p, j) by {
        if occurs_at(s, p, j) {
            assert(s.subrange(j, j + 1)[0] == line[j]);
        }
    }
    lemma_find_from_is(s, p, 0, n);
    assert(s.take(n) =~= line);
    assert(s.skip(n + 1) =~= rest);
    lemma_find_from(line, p, 0);
    if let Some(j) = find_from(line, p, 0) {
        assert(line.subrange(j, j + 1)[0] == line[j]);
    }
}

/// A text stands in another at a position exactly where that is so many characters, the text, and
/// something behind it.
pub proof fn law_text_stands_between_others(a: Seq<char>, p: Seq<char>, b: Seq<char>)
    ensures
        occurs_at(a + p + b, p, a.len() as int),
        has_text(a + p + b, p),
{
    assert((a + p + b).subrange(a.len() as int, (a.len() + p.len()) as int) =~= p);
    assert(occurs_at(a + p + b, p, a.len() as int));
}

/// Where a text stands in another, that other is made of what is before it, the text, and what is
/// behind it.
pub proof fn law_found_text_is_there(s: Seq<char>, p: Seq<char>, i: int)
    ensures
        occurs_at(s, p, i) ==> 0 <= i <= s.len() && s == s.take(i) + p + s.skip(i + p.len()),
        has_text(s, p) ==> exists|j: int|
            0 <= j <= s.len() && s == #[trigger] s.take(j) + p + s.skip(j + p.len()),
{
    assert forall|j: int| #[trigger] occurs_at(s, p, j) implies 0 <= j <= s.len() && s == s.take(j)
        + p + s.skip(j + p.len()) by {
        assert(s =~= s.take(j) + s.subrange(j, j + p.len()) + s.skip(j + p.len()));
    }
}

/// What a prefix leaves of a text: the text is the prefix with what is left behind it.
pub proof fn law_prefix_is_taken_off(s: Seq<char>, p: Seq<char>, rest: Seq<char>)
    ensures
        without_prefix(s, p) == Some(rest) <==> s == p + rest,
{
    if s == p + rest {
        assert(s.subrange(0, p.len() as int) =~= p);
        assert(s.skip(p.len() as int) =~= rest);
    }
    if occurs_at(s, p, 0) {
        assert(s =~= s.subrange(0, p.len() as int) + s.skip(p.len() as int));
    }
}

} // verus!
