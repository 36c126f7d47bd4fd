//! Lines and words of a text.

use vstd::prelude::*;

verus! {

/// How many characters at the start of `s` satisfy `p`.
pub open spec fn run(s: Seq<char>, p: spec_fn(char) -> bool) -> nat
    decreases s.len(),
{
    if s.len() > 0 && p(s[0]) {
        1 + run(s.skip(1), p)
    } else {
        0
    }
}

/// Unicode's `White_Space` property.
pub open spec fn whitespace(c: char) -> bool {
    ||| '\u{9}' <= c <= '\u{d}'
    ||| c == '\u{20}'
    ||| c == '\u{85}'
    ||| c == '\u{a0}'
    ||| c == '\u{1680}'
    ||| '\u{2000}' <= c <= '\u{200a}'
    ||| c == '\u{2028}'
    ||| c == '\u{2029}'
    ||| c == '\u{202f}'
    ||| c == '\u{205f}'
    ||| c == '\u{3000}'
}

/// The characters that words are separated by.
pub open spec fn in_gap() -> spec_fn(char) -> bool {
    |c: char| whitespace(c)
}

/// The characters that words are made of.
pub open spec fn in_word() -> spec_fn(char) -> bool {
    |c: char| !whitespace(c)
}

/// The characters that a line is made of.
pub open spec fn in_line() -> spec_fn(char) -> bool {
    |c: char| c != '\n'
}

/// `s` without the carriage return that ends it, if one does.
pub open spec fn without_return(s: Seq<char>) -> Seq<char> {
    if s.len() > 0 && s.last() == '\r' {
        s.drop_last()
    } else {
        s
    }
}

/// The lines of `s`: each ends at a line feed, with or without a carriage return before it; the
/// last one may go without.
pub open spec fn lines(s: Seq<char>) -> Seq<Seq<char>>
    decreases s.len(),
{
    let n = run(s, in_line());
    if s.len() == 0 {
        seq![]
    } else if n >= s.len() {
        seq![s]
    } else {
        seq![without_return(s.take(n as int))] + lines(s.skip(n as int + 1))
    }
}

/// The words of `s`: the longest stretches without white space.
pub open spec fn words(s: Seq<char>) -> Seq<Seq<char>>
    decreases s.len(),
{
    let t = s.skip(run(s, in_gap()) as int);
    let n = run(t, in_word());
    if s.len() == 0 || t.len() == 0 || n == 0 {
        seq![]
    } else {
        proof {
            lemma_run_at_most(s, in_gap());
            lemma_run_at_most(t, in_word());
        }
        seq![t.take(n as int)] + words(t.skip(n as int))
    }
}

/// A run is part of the text.
pub proof fn lemma_run_at_most(s: Seq<char>, p: spec_fn(char) -> bool)
    ensures
        run(s, p) <= s.len(),
    decreases s.len(),
{
    if s.len() > 0 && p(s[0]) {
        lemma_run_at_most(s.skip(1), p);
    }
}

/// A run ends at the first character that is not part of it.
pub proof fn lemma_run_ends(s: Seq<char>, p: spec_fn(char) -> bool, n: nat)
    requires
        n <= s.len(),
        forall|i: int| 0 <= i < n ==> p(#[trigger] s[i]),
        n < s.len() ==> !p(s[n as int]),
    ensures
        run(s, p) == n,
    decreases n,
{
    if n > 0 {
        assert(p(s[0]));
        let t = s.skip(1);
        assert forall|i: int| 0 <= i < n - 1 implies p(#[trigger] t[i]) by {
            assert(t[i] == s[i + 1]);
        }
        lemma_run_ends(t, p, (n - 1) as nat);
    }
}

/// The characters of a text.
pub fn chars_of(text: &str) -> (chars: Vec<char>)
    ensures
        chars@ == text@,
{
    let mut chars: Vec<char> = Vec::new();
    for c in it: text.chars()
        invariant
            chars@ == it.seq().take(it.index() as int),
            it.seq() == text@,
    {
        chars.push(c);
    }
    chars
}

/// Whether `c` is white space.
pub fn is_whitespace(c: char) -> (r: bool)
    ensures
        r == whitespace(c),
{
    ('\u{9}' <= c && c <= '\u{d}') || c == '\u{20}' || c == '\u{85}' || c == '\u{a0}' || c
        == '\u{1680}' || ('\u{2000}' <= c && c <= '\u{200a}') || c == '\u{2028}' || c == '\u{2029}'
        || c == '\u{202f}' || c == '\u{205f}' || c == '\u{3000}'
}

/// The characters from `from` up to `to`.
pub fn part(s: &Vec<char>, from: usize, to: usize) -> (r: Vec<char>)
    requires
        from <= to <= s@.len(),
    ensures
        r@ == s@.subrange(from as int, to as int),
{
    let mut r: Vec<char> = Vec::new();
    let mut i: usize = from;
    while i < to
        invariant
            from <= i <= to <= s@.len(),
            r@ == s@.subrange(from as int, i as int),
        decreases to - i,
    {
        r.push(s[i]);
        i = i + 1;
    }
    r
}

/// Whether `s` begins with `prefix`.
pub fn has_prefix(s: &Vec<char>, prefix: &Vec<char>) -> (r: bool)
    ensures
        r == prefix@.is_prefix_of(s@),
{
    if prefix.len() > s.len() {
        return false;
    }
    let mut i: usize = 0;
    while i < prefix.len()
        invariant
            prefix@.len() <= s@.len(),
            i <= prefix@.len(),
            forall|j: int| 0 <= j < i ==> prefix@[j] == s@[j],
        decreases prefix@.len() - i,
    {
        if prefix[i] != s[i] {
            assert(prefix@ != s@.subrange(0, prefix@.len() as int)) by {
                assert(s@.subrange(0, prefix@.len() as int)[i as int] == s@[i as int]);
            }
            return false;
        }
        i = i + 1;
    }
    assert(prefix@ =~= s@.subrange(0, prefix@.len() as int));
    true
}

/// Splits a text into its lines.
pub fn split_lines(s: &Vec<char>) -> (r: Vec<Vec<char>>)
    ensures
        r@.map_values(|line: Vec<char>| line@) == lines(s@),
{
    let mut r: Vec<Vec<char>> = Vec::new();
    let mut from: usize = 0;
    proof {
        assert(s@.skip(0) =~= s@);
    }
    while from < s.len()
        invariant
            from <= s@.len(),
            r@.map_values(|line: Vec<char>| line@) + lines(s@.skip(from as int)) == lines(s@),
        decreases s@.len() - from,
    {
        let ghost rest = s@.skip(from as int);
        let ghost done = r@.map_values(|line: Vec<char>| line@);
        let mut to: usize = from;
        while to < s.len() && s[to] != '\n'
            invariant
                from <= to <= s@.len(),
                forall|i: int| from <= i < to ==> s@[i] != '\n',
            decreases s@.len() - to,
        {
            to = to + 1;
        }
        proof {
            lemma_run_ends(rest, in_line(), (to - from) as nat);
        }
        if to < s.len() {
            let end: usize = if to > from && s[to - 1] == '\r' {
                to - 1
            } else {
                to
            };
            let line = part(s, from, end);
            proof {
                assert(line@ =~= without_return(rest.take(to - from)));
                assert(rest.skip(to - from + 1) =~= s@.skip(to + 1));
                assert(r@.push(line).map_values(|line: Vec<char>| line@) =~= done.push(line@));
            }
            r.push(line);
            from = to + 1;
        } else {
            let line = part(s, from, to);
            proof {
                assert(line@ =~= rest);
                assert(s@.skip(to as int) =~= Seq::<char>::empty());
                assert(r@.push(line).map_values(|line: Vec<char>| line@) =~= done.push(line@));
                assert(lines(Seq::<char>::empty()) =~= Seq::<Seq<char>>::empty());
            }
            r.push(line);
            from = to;
        }
    }
    proof {
        assert(s@.skip(from as int) =~= Seq::<char>::empty());
        assert(lines(Seq::<char>::empty()) =~= Seq::<Seq<char>>::empty());
    }
    r
}

/// Splits a line into its words.
pub fn split_words(s: &Vec<char>) -> (r: Vec<Vec<char>>)
    ensures
        r@.map_values(|word: Vec<char>| word@) == words(s@),
{
    let mut r: Vec<Vec<char>> = Vec::new();
    let mut from: usize = 0;
    proof {
        assert(s@.skip(0) =~= s@);
    }
    while from < s.len()
        invariant
            from <= s@.len(),
            r@.map_values(|word: Vec<char>| word@) + words(s@.skip(from as int)) == words(s@),
        decreases s@.len() - from,
    {
        let ghost rest = s@.skip(from as int);
        let ghost done = r@.map_values(|word: Vec<char>| word@);
        let mut start: usize = from;
        while start < s.len() && is_whitespace(s[start])
            invariant
                from <= start <= s@.len(),
                forall|i: int| from <= i < start ==> whitespace(#[trigger] s@[i]),
            decreases s@.len() - start,
        {
            start = start + 1;
        }
        let ghost after = s@.skip(start as int);
        proof {
            lemma_run_ends(rest, in_gap(), (start - from) as nat);
            assert(rest.skip(start - from) =~= after);
        }
        let mut to: usize = start;
        while to < s.len() && !is_whitespace(s[to])
            invariant
                start <= to <= s@.len(),
                forall|i: int| start <= i < to ==> !whitespace(#[trigger] s@[i]),
            decreases s@.len() - to,
        {
            to = to + 1;
        }
        proof {
            lemma_run_ends(after, in_word(), (to - start) as nat);
        }
        if to > start {
            let word = part(s, start, to);
            proof {
                assert(word@ =~= after.take(to - start));
                assert(after.skip(to - start) =~= s@.skip(to as int));
                assert(r@.push(word).map_values(|word: Vec<char>| word@) =~= done.push(word@));
            }
            r.push(word);
        } else {
            proof {
                assert(s@.skip(to as int) =~= Seq::<char>::empty());
                assert(words(Seq::<char>::empty()) =~= Seq::<Seq<char>>::empty());
            }
        }
        from = to;
    }
    proof {
        assert(s@.skip(from as int) =~= Seq::<char>::empty());
        assert(words(Seq::<char>::empty()) =~= Seq::<Seq<char>>::empty());
    }
    r
}

/// A word at the start of a text is its first word.
proof fn lemma_words_head(head: Seq<char>, tail: Seq<char>)
    requires
        head.len() > 0,
        forall|i: int| 0 <= i < head.len() ==> !whitespace(#[trigger] head[i]),
        tail.len() == 0 || whitespace(tail[0]),
    ensures
        words(head + tail) == seq![head] + words(tail),
{
    let s = head + tail;
    assert(s[0] == head[0]);
    lemma_run_ends(s, in_gap(), 0);
    assert(s.skip(0) =~= s);
    assert forall|i: int| 0 <= i < head.len() implies in_word()(#[trigger] s[i]) by {
        assert(s[i] == head[i]);
    }
    if tail.len() > 0 {
        assert(s[head.len() as int] == tail[0]);
    }
    lemma_run_ends(s, in_word(), head.len());
    assert(s.take(head.len() as int) =~= head);
    assert(s.skip(head.len() as int) =~= tail);
}

/// White space at the start of a text is part of no word.
proof fn lemma_words_gap(c: char, s: Seq<char>)
    requires
        whitespace(c),
    ensures
        words(seq![c] + s) == words(s),
{
    let whole = seq![c] + s;
    assert(whole.skip(1) =~= s);
    assert(whole[0] == c);
    let n = run(s, in_gap());
    lemma_run_at_most(s, in_gap());
    assert(run(whole, in_gap()) == 1 + n);
    assert(whole.skip(1 + n as int) =~= s.skip(n as int));
    if s.len() == 0 {
        assert(words(whole) =~= words(s));
    }
}

/// A text without white space is one word.
pub proof fn law_text_without_gaps_is_one_word(s: Seq<char>)
    requires
        s.len() > 0,
        forall|i: int| 0 <= i < s.len() ==> !whitespace(#[trigger] s[i]),
    ensures
        words(s) == seq![s],
{
    lemma_words_head(s, Seq::empty());
    assert(s + Seq::<char>::empty() =~= s);
    assert(words(Seq::<char>::empty()) =~= Seq::<Seq<char>>::empty());
}

/// White space parts a text into words: the words on both sides of it are the words of the whole.
pub proof fn law_white_space_parts_words(a: Seq<char>, c: char, b: Seq<char>)
    requires
        whitespace(c),
    ensures
        words(a + seq![c] + b) == words(a) + words(b),
    decreases a.len(),
{
    let whole = a + seq![c] + b;
    if a.len() == 0 {
        assert(whole =~= seq![c] + b);
        lemma_words_gap(c, b);
        assert(words(a) + words(b) =~= words(b));
    } else if whitespace(a[0]) {
        let rest = a.skip(1);
        assert(a =~= seq![a[0]] + rest);
        assert(whole =~= seq![a[0]] + (rest + seq![c] + b));
        lemma_words_gap(a[0], rest);
        lemma_words_gap(a[0], rest + seq![c] + b);
        law_white_space_parts_words(rest, c, b);
    } else {
        let n = run(a, in_word()) as int;
        lemma_run_at_most(a, in_word());
        lemma_run_all(a, in_word());
        let head = a.take(n);
        let rest = a.skip(n);
        assert(a =~= head + rest);
        assert(whole =~= head + (rest + seq![c] + b));
        lemma_words_head(head, rest);
        lemma_words_head(head, rest + seq![c] + b);
        law_white_space_parts_words(rest, c, b);
        assert(seq![head] + (words(rest) + words(b)) =~= (seq![head] + words(rest)) + words(b));
    }
}

/// A run holds all that it counts, and what follows is no part of it.
proof fn lemma_run_all(s: Seq<char>, p: spec_fn(char) -> bool)
    ensures
        forall|i: int| 0 <= i < run(s, p) ==> p(#[trigger] s[i]),
        run(s, p) < s.len() ==> !p(s[run(s, p) as int]),
    decreases s.len(),
{
    if s.len() > 0 && p(s[0]) {
        let t = s.skip(1);
        lemma_run_at_most(t, p);
        lemma_run_all(t, p);
        assert forall|i: int| 0 <= i < run(s, p) implies p(#[trigger] s[i]) by {
            if i > 0 {
                assert(s[i] == t[i - 1]);
            }
        }
    }
}

/// White space is the tab and the four controls behind it, the space, the next line, the no-break
/// space, and the wide blanks and separators of Unicode; nothing else is.
pub proof fn law_white_space(c: char, r: bool)
    requires
        call_ensures(is_whitespace, (c,), r),
    ensures
        ({
            let code = c as u32;
            r <==> code == 0x20 || 0x9 <= code <= 0xd || code == 0x85 || code == 0xa0 || code
                == 0x1680 || 0x2000 <= code <= 0x200a || code == 0x2028 || code == 0x2029 || code
                == 0x202f || code == 0x205f || code == 0x3000
        }),
        r == whitespace(c),
{
}

} // verus!
