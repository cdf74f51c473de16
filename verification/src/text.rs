//! Character-level building blocks: decoding a string into its characters,
//! substring containment, whitespace trimming and line splitting, each with
//! its mathematical model over `Seq<char>`.

use crate::cut::split_chars;
use vstd::prelude::*;

verus! {

/// The character sequences of a list of string slices, one for one.
pub open spec fn texts(slices: Seq<&str>) -> Seq<Seq<char>> {
    slices.map_values(|t: &str| t@)
}

/// `needle` stands in `hay` at position `at`.
pub open spec fn occurs_at(needle: Seq<char>, hay: Seq<char>, at: int) -> bool {
    &&& 0 <= at
    &&& at + needle.len() <= hay.len()
    &&& hay.subrange(at, at + needle.len()) == needle
}

/// `needle` is a contiguous part of `hay`.
pub open spec fn occurs_in(needle: Seq<char>, hay: Seq<char>) -> bool {
    exists|at: int| occurs_at(needle, hay, at)
}

/// The code points with the Unicode property `White_Space`.
pub open spec fn is_space(c: char) -> bool {
    let u = c as u32;
    ||| 0x09 <= u <= 0x0D
    ||| u == 0x20
    ||| u == 0x85
    ||| u == 0xA0
    ||| u == 0x1680
    ||| 0x2000 <= u <= 0x200A
    ||| u == 0x2028
    ||| u == 0x2029
    ||| u == 0x202F
    ||| u == 0x205F
    ||| u == 0x3000
}

/// How many whitespace characters `s` starts with.
pub open spec fn leading_spaces(s: Seq<char>) -> nat
    decreases s.len(),
{
    if s.len() > 0 && is_space(s[0]) {
        1 + leading_spaces(s.drop_first())
    } else {
        0
    }
}

/// How many whitespace characters `s` ends with.
pub open spec fn trailing_spaces(s: Seq<char>) -> nat
    decreases s.len(),
{
    if s.len() > 0 && is_space(s.last()) {
        1 + trailing_spaces(s.drop_last())
    } else {
        0
    }
}

/// `s` without its leading and trailing whitespace.
pub open spec fn trimmed(s: Seq<char>) -> Seq<char> {
    let rest = s.skip(leading_spaces(s) as int);
    rest.take(rest.len() - trailing_spaces(rest))
}

/// The position of the first line feed in `s`, or `s.len()` if it has none.
pub open spec fn first_line_feed(s: Seq<char>) -> int
    decreases s.len(),
{
    if s.len() == 0 || s[0] == '\n' {
        0
    } else {
        1 + first_line_feed(s.drop_first())
    }
}

/// The text of a line that a line feed ended: a carriage return just before
/// the feed belongs to the terminator.
pub open spec fn without_carriage_return(s: Seq<char>) -> Seq<char> {
    if s.len() > 0 && s.last() == '\r' {
        s.drop_last()
    } else {
        s
    }
}

/// The lines of `s`. A line ends at a line feed, or at a carriage return
/// followed by a line feed; the terminator is no part of the line. The last
/// line needs no terminator, and nothing follows a final terminator. A
/// carriage return elsewhere is an ordinary character.
pub open spec fn lines_of(s: Seq<char>) -> Seq<Seq<char>>
    decreases s.len(),
{
    let k = first_line_feed(s);
    if s.len() == 0 {
        Seq::empty()
    } else if 0 <= k < s.len() {
        seq![without_carriage_return(s.take(k))] + lines_of(s.skip(k + 1))
    } else {
        seq![s]
    }
}

/// The two line terminators: a line feed, alone or after a carriage return.
pub open spec fn line_end(with_return: bool) -> Seq<char> {
    if with_return {
        seq!['\r', '\n']
    } else {
        seq!['\n']
    }
}

/// The characters of `s`, in order.
pub fn chars_of(s: &str) -> (cs: Vec<char>)
    ensures
        cs@ == s@,
{
    let mut cs: Vec<char> = Vec::new();
    let it = s.chars();
    for c in iter: it
        invariant
            cs@ == iter.seq().take(iter.index@),
            iter.seq() == s@,
    {
        cs.push(c);
    }
    cs
}

/// Whether `c` is whitespace.
pub fn is_whitespace(c: char) -> (r: bool)
    ensures
        r == is_space(c),
{
    let u: u32 = c as u32;
    (0x09 <= u && u <= 0x0D) || u == 0x20 || u == 0x85 || u == 0xA0 || u == 0x1680 || (0x2000 <= u
        && u <= 0x200A) || u == 0x2028 || u == 0x2029 || u == 0x202F || u == 0x205F || u == 0x3000
}

/// Whether `needle` is a contiguous part of `hay`.
pub fn contains_chars(hay: &[char], needle: &[char]) -> (r: bool)
    ensures
        r == occurs_in(needle@, hay@),
{
    let n = hay.len();
    let m = needle.len();
    if m > n {
        return false;
    }
    let mut i: usize = 0;
    while i <= n - m
        invariant
            n == hay@.len(),
            m == needle@.len(),
            m <= n,
            forall|k: int| 0 <= k < i ==> !occurs_at(needle@, hay@, k),
        decreases n - m + 1 - i,
    {
        let mut j: usize = 0;
        while j < m && hay[i + j] == needle[j]
            invariant
                n == hay@.len(),
                m == needle@.len(),
                i + m <= n,
                j <= m,
                forall|t: int| 0 <= t < j ==> hay@[i + t] == needle@[t],
            decreases m - j,
        {
            j += 1;
        }
        if j == m {
            proof {
                assert(hay@.subrange(i as int, i + m) =~= needle@);
                assert(occurs_at(needle@, hay@, i as int));
            }
            return true;
        }
        proof {
            assert(hay@.subrange(i as int, i + m)[j as int] == hay@[i + j]);
        }
        i += 1;
    }
    false
}

/// Whether `query` is a contiguous part of `line`.
pub fn line_holds(line: &str, query: &[char]) -> (r: bool)
    ensures
        r == occurs_in(query@, line@),
{
    let cs = chars_of(line);
    contains_chars(cs.as_slice(), query)
}

/// `s` without its leading and trailing whitespace, as a slice of `s`.
pub fn trim<'a>(s: &'a str) -> (t: &'a str)
    ensures
        t@ == trimmed(s@),
{
    let cs = chars_of(s);
    let n = cs.len();
    let mut a: usize = 0;
    proof {
        assert(s@.skip(0) =~= s@);
    }
    while a < n && is_whitespace(cs[a])
        invariant
            cs@ == s@,
            n == cs@.len(),
            a <= n,
            leading_spaces(s@) == a + leading_spaces(s@.skip(a as int)),
        decreases n - a,
    {
        proof {
            assert(s@.skip(a as int).drop_first() =~= s@.skip(a + 1));
        }
        a += 1;
    }
    let ghost rest = s@.skip(a as int);
    let mut b: usize = n;
    while b > a && is_whitespace(cs[b - 1])
        invariant
            cs@ == s@,
            n == cs@.len(),
            a <= b <= n,
            rest == s@.skip(a as int),
            trailing_spaces(rest) == (n - b) + trailing_spaces(s@.subrange(a as int, b as int)),
        decreases b,
    {
        proof {
            assert(s@.subrange(a as int, b as int).drop_last() =~= s@.subrange(
                a as int,
                b - 1,
            ));
        }
        b -= 1;
    }
    proof {
        assert(s@.subrange(a as int, n as int) =~= rest);
        assert(rest.take(rest.len() - trailing_spaces(rest)) =~= s@.subrange(a as int, b as int));
    }
    s.substring_char(a, b)
}

/// The lines of `s`, each a slice of `s`, in order.
pub fn lines<'a>(s: &'a str) -> (out: Vec<&'a str>)
    ensures
        texts(out@) == lines_of(s@),
{
    let cs = chars_of(s);
    let n = cs.len();
    let mut out: Vec<&'a str> = Vec::new();
    let mut start: usize = 0;
    let mut rest: &'a str = s;
    proof {
        assert(s@.skip(0) =~= s@);
        assert(texts(out@) + lines_of(s@) =~= lines_of(s@));
    }
    while start < n
        invariant
            cs@ == s@,
            n == cs@.len(),
            start <= n,
            rest@ == s@.skip(start as int),
            lines_of(s@) == texts(out@) + lines_of(rest@),
        decreases n - start,
    {
        let mut end: usize = start;
        while end < n && cs[end] != '\n'
            invariant
                cs@ == s@,
                n == cs@.len(),
                start <= end <= n,
                forall|i: int| start <= i < end ==> s@[i] != '\n',
            decreases n - end,
        {
            end += 1;
        }
        let ghost before = texts(out@);
        let ghost whole = rest@;
        proof {
            lemma_first_line_feed(whole, end - start);
        }
        let (head, tail) = split_chars(rest, end - start);
        if end == n {
            out.push(head);
            proof {
                assert(head@ =~= whole);
                assert(tail@ =~= s@.skip(n as int));
                assert(lines_of(tail@) =~= Seq::<Seq<char>>::empty());
                assert(texts(out@) =~= before.push(head@));
                assert(before + lines_of(whole) =~= texts(out@) + lines_of(tail@));
            }
            start = n;
            rest = tail;
        } else {
            let line: &'a str = if end > start && cs[end - 1] == '\r' {
                split_chars(head, end - 1 - start).0
            } else {
                head
            };
            let (_, after) = split_chars(tail, 1);
            out.push(line);
            proof {
                assert(head@ =~= s@.subrange(start as int, end as int));
                assert(line@ =~= without_carriage_return(whole.take(end - start)));
                assert(after@ =~= whole.skip(end - start + 1));
                assert(after@ =~= s@.skip(end + 1));
                assert(texts(out@) =~= before.push(line@));
                assert(before + lines_of(whole) =~= texts(out@) + lines_of(after@));
            }
            start = end + 1;
            rest = after;
        }
    }
    proof {
        assert(lines_of(rest@) =~= Seq::<Seq<char>>::empty());
        assert(texts(out@) + Seq::<Seq<char>>::empty() =~= texts(out@));
    }
    out
}

/// Where no line feed stands before position `k` of `s`, and one stands at
/// `k` or `s` ends there, `k` is the position of the first line feed.
proof fn lemma_first_line_feed(s: Seq<char>, k: int)
    requires
        0 <= k <= s.len(),
        forall|i: int| 0 <= i < k ==> s[i] != '\n',
        k == s.len() || s[k] == '\n',
    ensures
        first_line_feed(s) == k,
    decreases k,
{
    if k > 0 {
        lemma_first_line_feed(s.drop_first(), k - 1);
    }
}

/// The leading spaces of a text are whitespace, and the character after
/// them, if there is one, is not.
proof fn lemma_leading_spaces(s: Seq<char>)
    ensures
        leading_spaces(s) <= s.len(),
        forall|i: int| 0 <= i < leading_spaces(s) ==> is_space(#[trigger] s[i]),
        leading_spaces(s) < s.len() ==> !is_space(s[leading_spaces(s) as int]),
    decreases s.len(),
{
    if s.len() > 0 && is_space(s[0]) {
        let rest = s.drop_first();
        lemma_leading_spaces(rest);
        assert forall|i: int| 0 <= i < leading_spaces(s) implies is_space(#[trigger] s[i]) by {
            if i > 0 {
                assert(s[i] == rest[i - 1]);
            }
        }
        assert(leading_spaces(s) < s.len() ==> s[leading_spaces(s) as int] == rest[leading_spaces(
            rest,
        ) as int]);
    }
}

/// The trailing spaces of a text are whitespace, and the character before
/// them, if there is one, is not.
proof fn lemma_trailing_spaces(s: Seq<char>)
    ensures
        trailing_spaces(s) <= s.len(),
        forall|i: int| s.len() - trailing_spaces(s) <= i < s.len() ==> is_space(#[trigger] s[i]),
        trailing_spaces(s) < s.len() ==> !is_space(s[s.len() - trailing_spaces(s) - 1]),
    decreases s.len(),
{
    if s.len() > 0 && is_space(s.last()) {
        let rest = s.drop_last();
        lemma_trailing_spaces(rest);
        assert forall|i: int| s.len() - trailing_spaces(s) <= i < s.len() implies is_space(
            #[trigger] s[i],
        ) by {
            if i < s.len() - 1 {
                assert(s[i] == rest[i]);
            }
        }
        assert(trailing_spaces(s) < s.len() ==> s[s.len() - trailing_spaces(s) - 1] == rest[rest.len()
            - trailing_spaces(rest) - 1]);
    }
}

/// Trimming cuts a text down to its middle: what is cut off before and
/// after is whitespace only, and what is left neither starts nor ends with
/// whitespace.
pub proof fn law_trimmed_is_the_bare_middle(s: Seq<char>) -> (cut: (int, int))
    ensures
        0 <= cut.0 <= cut.1 <= s.len(),
        trimmed(s) == s.subrange(cut.0, cut.1),
        forall|i: int| 0 <= i < cut.0 ==> is_space(#[trigger] s[i]),
        forall|i: int| cut.1 <= i < s.len() ==> is_space(#[trigger] s[i]),
        trimmed(s).len() > 0 ==> !is_space(trimmed(s).first()) && !is_space(trimmed(s).last()),
{
    lemma_leading_spaces(s);
    let a = leading_spaces(s) as int;
    let rest = s.skip(a);
    lemma_trailing_spaces(rest);
    let b = s.len() - trailing_spaces(rest);
    assert(trimmed(s) =~= s.subrange(a, b));
    assert forall|i: int| b <= i < s.len() implies is_space(#[trigger] s[i]) by {
        assert(s[i] == rest[i - a]);
    }
    if a < b {
        assert(rest[0] == s[a]);
        assert(rest[rest.len() - trailing_spaces(rest) - 1] == s[b - 1]);
    }
    (a, b)
}

/// No line holds a line feed.
pub proof fn law_lines_hold_no_line_feed(s: Seq<char>)
    ensures
        forall|i: int, j: int|
            0 <= i < lines_of(s).len() && 0 <= j < lines_of(s)[i].len() ==> #[trigger] lines_of(
                s,
            )[i][j] != '\n',
    decreases s.len(),
{
    let k = first_line_feed(s);
    lemma_before_first_line_feed(s);
    if s.len() > 0 && 0 <= k < s.len() {
        let tail = s.skip(k + 1);
        law_lines_hold_no_line_feed(tail);
        let first = without_carriage_return(s.take(k));
        assert forall|i: int, j: int|
            0 <= i < lines_of(s).len() && 0 <= j < lines_of(s)[i].len() implies #[trigger] lines_of(
            s,
        )[i][j] != '\n' by {
            if i == 0 {
                assert(lines_of(s)[0] == first);
                assert(first[j] == s[j]);
            } else {
                assert(lines_of(s)[i] == lines_of(tail)[i - 1]);
            }
        }
    }
}

/// No line feed stands before the first one.
proof fn lemma_before_first_line_feed(s: Seq<char>)
    ensures
        0 <= first_line_feed(s) <= s.len(),
        forall|i: int| 0 <= i < first_line_feed(s) ==> #[trigger] s[i] != '\n',
        first_line_feed(s) < s.len() ==> s[first_line_feed(s)] == '\n',
    decreases s.len(),
{
    if !(s.len() == 0 || s[0] == '\n') {
        let rest = s.drop_first();
        lemma_before_first_line_feed(rest);
        assert forall|i: int| 0 <= i < first_line_feed(s) implies #[trigger] s[i] != '\n' by {
            if i > 0 {
                assert(s[i] == rest[i - 1]);
            }
        }
        assert(first_line_feed(s) < s.len() ==> s[first_line_feed(s)] == rest[first_line_feed(
            rest,
        )]);
    }
}

/// What is added to the end of a text that holds a line feed does not move
/// its first line feed.
proof fn lemma_first_line_feed_of_longer(s: Seq<char>, more: Seq<char>)
    requires
        first_line_feed(s) < s.len(),
    ensures
        first_line_feed(s + more) == first_line_feed(s),
{
    lemma_before_first_line_feed(s);
    lemma_first_line_feed(s + more, first_line_feed(s));
}

/// A line feed at the end of a text, alone or after a carriage return, ends
/// the last line and begins no other: a text that ends in the middle of a
/// line has the same lines with the terminator and without it. (A text that
/// ends with a carriage return has not ended its line: a line feed after it
/// would form one terminator with it.)
pub proof fn law_final_terminator_adds_no_line(s: Seq<char>, with_return: bool)
    requires
        s.len() > 0,
        s.last() != '\n',
        with_return || s.last() != '\r',
    ensures
        lines_of(s + line_end(with_return)) == lines_of(s),
    decreases s.len(),
{
    let end = line_end(with_return);
    let t = s + end;
    let k = first_line_feed(s);
    lemma_before_first_line_feed(s);
    if k < s.len() {
        lemma_first_line_feed_of_longer(s, end);
        let rest = s.skip(k + 1);
        assert(rest.len() > 0 && rest.last() == s.last());
        law_final_terminator_adds_no_line(rest, with_return);
        assert(t.take(k) =~= s.take(k));
        assert(t.skip(k + 1) =~= rest + end);
    } else {
        let feed = t.len() - 1;
        lemma_first_line_feed(t, feed);
        assert(without_carriage_return(t.take(feed)) =~= s);
        assert(lines_of(t.skip(feed + 1)) =~= Seq::<Seq<char>>::empty());
        assert(lines_of(t) =~= seq![s]);
    }
}

} // verus!
