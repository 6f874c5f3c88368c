//! Runs of characters at the ends of a text: trimming white space,
//! stripping a trailing character, and parting a text at its line feeds.

use vstd::prelude::*;

verus! {

/// `c` is white space: a character with the Unicode property `White_Space`.
pub open spec fn is_space(c: char) -> bool {
    let u = c as u32;
    ||| 0x09 <= u <= 0x0D
    ||| u == 0x20
    ||| u == 0x85
    ||| u == 0xA0
    ||| u == 0x1680
    ||| 0x2000 <= u <= 0x200A
    ||| u == 0x2028
    ||| u == 0x2029
    ||| u == 0x202F
    ||| u == 0x205F
    ||| u == 0x3000
}

/// The property of being white space.
pub open spec fn space() -> spec_fn(char) -> bool {
    |c: char| is_space(c)
}

/// The property of being the character `c`.
pub open spec fn exactly(c: char) -> spec_fn(char) -> bool {
    |x: char| x == c
}

/// The property of being any character but `c`.
pub open spec fn other_than(c: char) -> spec_fn(char) -> bool {
    |x: char| x != c
}

/// How many characters at the start of `s` have the property `p`, up to the
/// first that has not.
pub open spec fn leading_run(s: Seq<char>, p: spec_fn(char) -> bool) -> nat
    decreases s.len(),
{
    if s.len() > 0 && p(s[0]) {
        1 + leading_run(s.drop_first(), p)
    } else {
        0
    }
}

/// How many characters at the end of `s` have the property `p`, back to the
/// last that has not.
pub open spec fn trailing_run(s: Seq<char>, p: spec_fn(char) -> bool) -> nat
    decreases s.len(),
{
    if s.len() > 0 && p(s.last()) {
        1 + trailing_run(s.drop_last(), p)
    } else {
        0
    }
}

/// `s` without the white space at its two ends.
pub open spec fn trimmed(s: Seq<char>) -> Seq<char> {
    let rest = s.skip(leading_run(s, space()) as int);
    rest.take(rest.len() - trailing_run(rest, space()))
}

/// `s` without the run of the character `c` at its end.
pub open spec fn strip_trailing(s: Seq<char>, c: char) -> Seq<char> {
    s.take(s.len() - trailing_run(s, exactly(c)))
}

/// The pieces of `s` between its line feeds, in order. A text with `n` line
/// feeds has `n + 1` pieces, some of them perhaps empty.
pub open spec fn lines_of(s: Seq<char>) -> Seq<Seq<char>>
    decreases s.len(),
{
    let n = leading_run(s, other_than('\n')) as int;
    if n >= s.len() {
        seq![s]
    } else {
        seq![s.take(n)] + lines_of(s.skip(n + 1))
    }
}

/// A run at the start of `s` is known by its length: the characters before
/// index `n` have the property, and the one at `n`, if there is one, has not.
pub proof fn lemma_leading_run(s: Seq<char>, p: spec_fn(char) -> bool, n: int)
    requires
        0 <= n <= s.len(),
        forall|i: int| 0 <= i < n ==> p(#[trigger] s[i]),
        n < s.len() ==> !p(s[n]),
    ensures
        leading_run(s, p) == n,
    decreases n,
{
    if n > 0 {
        let rest = s.drop_first();
        lemma_leading_run(rest, p, n - 1);
    }
}

/// A run at the end of `s` is known by its length: the last `n` characters
/// have the property, and the one before them, if there is one, has not.
pub proof fn lemma_trailing_run(s: Seq<char>, p: spec_fn(char) -> bool, n: int)
    requires
        0 <= n <= s.len(),
        forall|i: int| s.len() - n <= i < s.len() ==> p(#[trigger] s[i]),
        n < s.len() ==> !p(s[s.len() - n - 1]),
    ensures
        trailing_run(s, p) == n,
    decreases n,
{
    if n > 0 {
        let rest = s.drop_last();
        lemma_trailing_run(rest, p, n - 1);
    }
}

/// Whether `c` is white space.
pub fn is_space_char(c: char) -> (b: bool)
    ensures
        b == is_space(c),
{
    let u: u32 = c as u32;
    (0x09 <= u && u <= 0x0D) || u == 0x20 || u == 0x85 || u == 0xA0 || u == 0x1680 || (0x2000 <= u
        && u <= 0x200A) || u == 0x2028 || u == 0x2029 || u == 0x202F || u == 0x205F || u == 0x3000
}

/// The bounds of what is left of `v` once the white space at its two ends is
/// taken away.
pub fn trim_bounds(v: &Vec<char>) -> (r: (usize, usize))
    ensures
        r.0 <= r.1 <= v.len(),
        v@.subrange(r.0 as int, r.1 as int) == trimmed(v@),
{
    let n: usize = v.len();
    let mut a: usize = 0;
    while a < n && is_space_char(v[a])
        invariant
            a <= n,
            n == v.len(),
            forall|i: int| 0 <= i < a ==> is_space(#[trigger] v@[i]),
        decreases n - a,
    {
        a += 1;
    }
    let mut b: usize = n;
    while b > a && is_space_char(v[b - 1])
        invariant
            a <= b <= n,
            n == v.len(),
            forall|i: int| b <= i < n ==> is_space(#[trigger] v@[i]),
        decreases b,
    {
        b -= 1;
    }
    proof {
        lemma_leading_run(v@, space(), a as int);
        let rest = v@.skip(a as int);
        lemma_trailing_run(rest, space(), n - b);
    }
    (a, b)
}

/// The end of what is left of `v[from..to]` once the run of `c` at its end is
/// taken away.
pub fn strip_trailing_end(v: &Vec<char>, from: usize, to: usize, c: char) -> (end: usize)
    requires
        from <= to <= v.len(),
    ensures
        from <= end <= to,
        v@.subrange(from as int, end as int) == strip_trailing(
            v@.subrange(from as int, to as int),
            c,
        ),
{
    let mut end: usize = to;
    while end > from && v[end - 1] == c
        invariant
            from <= end <= to <= v.len(),
            forall|i: int| end <= i < to ==> v@[i] == c,
        decreases end,
    {
        end -= 1;
    }
    proof {
        let part = v@.subrange(from as int, to as int);
        lemma_trailing_run(part, exactly(c), to - end);
    }
    end
}

/// The bounds in `v` of the pieces between its line feeds, in order.
pub fn line_bounds(v: &Vec<char>) -> (bounds: Vec<(usize, usize)>)
    ensures
        bounds@.len() == lines_of(v@).len(),
        forall|k: int|
            0 <= k < bounds@.len() ==> {
                &&& (#[trigger] bounds@[k]).0 <= bounds@[k].1 <= v.len()
                &&& v@.subrange(bounds@[k].0 as int, bounds@[k].1 as int) == lines_of(v@)[k]
            },
{
    let n: usize = v.len();
    let mut bounds: Vec<(usize, usize)> = Vec::new();
    let mut start: usize = 0;
    let ghost mut done: Seq<Seq<char>> = Seq::empty();
    assert(v@.skip(0) =~= v@);
    loop
        invariant
            start <= n,
            n == v.len(),
            bounds@.len() == done.len(),
            lines_of(v@) == done + lines_of(v@.skip(start as int)),
            forall|k: int|
                0 <= k < bounds@.len() ==> {
                    &&& (#[trigger] bounds@[k]).0 <= bounds@[k].1 <= v.len()
                    &&& v@.subrange(bounds@[k].0 as int, bounds@[k].1 as int) == done[k]
                },
        decreases n - start,
    {
        let mut end: usize = start;
        while end < n && v[end] != '\n'
            invariant
                start <= end <= n,
                n == v.len(),
                forall|i: int| start <= i < end ==> v@[i] != '\n',
            decreases n - end,
        {
            end += 1;
        }
        let ghost rest = v@.skip(start as int);
        proof {
            lemma_leading_run(rest, other_than('\n'), end - start);
        }
        bounds.push((start, end));
        if end == n {
            return bounds;
        }
        proof {
            assert(rest.skip(end - start + 1) =~= v@.skip(end + 1));
            done = done.push(rest.take(end - start));
        }
        start = end + 1;
    }
}

} // verus!
