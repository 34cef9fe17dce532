//! Character-level helpers shared by the script readers and the catalog writer.
use vstd::prelude::*;
use vstd::std_specs::iter::IteratorSpec;

verus! {

broadcast use vstd::string::group_string_axioms;

/// The characters that Unicode calls White_Space.
pub open spec fn is_ws(c: char) -> bool {
    c == ' ' || ('\t' <= c && c <= '\r') || c == '\u{85}' || c == '\u{a0}' || c == '\u{1680}'
        || ('\u{2000}' <= c && c <= '\u{200a}') || c == '\u{2028}' || c == '\u{2029}'
        || c == '\u{202f}' || c == '\u{205f}' || c == '\u{3000}'
}

pub fn is_whitespace(c: char) -> (r: bool)
    ensures
        r == is_ws(c),
{
    c == ' ' || ('\t' <= c && c <= '\r') || c == '\u{85}' || c == '\u{a0}' || c == '\u{1680}'
        || ('\u{2000}' <= c && c <= '\u{200a}') || c == '\u{2028}' || c == '\u{2029}'
        || c == '\u{202f}' || c == '\u{205f}' || c == '\u{3000}'
}

/// How many whitespace characters `s` starts with.
pub open spec fn lead_ws(s: Seq<char>) -> nat
    decreases s.len(),
{
    if s.len() > 0 && is_ws(s[0]) {
        1 + lead_ws(s.skip(1))
    } else {
        0
    }
}

/// How many whitespace characters `s` ends with.
pub open spec fn trail_ws(s: Seq<char>) -> nat
    decreases s.len(),
{
    if s.len() > 0 && is_ws(s.last()) {
        1 + trail_ws(s.drop_last())
    } else {
        0
    }
}

pub open spec fn trim_start(s: Seq<char>) -> Seq<char> {
    s.skip(lead_ws(s) as int)
}

pub open spec fn trim_end(s: Seq<char>) -> Seq<char> {
    s.take(s.len() - trail_ws(s))
}

pub open spec fn trim(s: Seq<char>) -> Seq<char> {
    trim_end(trim_start(s))
}

pub proof fn lemma_lead_ws(s: Seq<char>)
    ensures
        lead_ws(s) <= s.len(),
        forall|k: int| 0 <= k < lead_ws(s) ==> is_ws(#[trigger] s[k]),
        lead_ws(s) < s.len() ==> !is_ws(s[lead_ws(s) as int]),
    decreases s.len(),
{
    if s.len() > 0 && is_ws(s[0]) {
        lemma_lead_ws(s.skip(1));
        assert forall|k: int| 0 <= k < lead_ws(s) implies is_ws(#[trigger] s[k]) by {
            if k > 0 {
                assert(s[k] == s.skip(1)[k - 1]);
            }
        }
    }
}

/// `lead_ws` is the length of the whitespace run that `s` starts with.
pub proof fn lemma_lead_ws_is(s: Seq<char>, n: int)
    requires
        0 <= n <= s.len(),
        forall|k: int| 0 <= k < n ==> is_ws(#[trigger] s[k]),
        n < s.len() ==> !is_ws(s[n]),
    ensures
        lead_ws(s) == n,
    decreases n,
{
    if n > 0 {
        assert forall|k: int| 0 <= k < n - 1 implies is_ws(#[trigger] s.skip(1)[k]) by {
            assert(s.skip(1)[k] == s[k + 1]);
        }
        if n < s.len() {
            assert(s.skip(1)[n - 1] == s[n]);
        }
        lemma_lead_ws_is(s.skip(1), n - 1);
    }
}

pub proof fn lemma_trail_ws_is(s: Seq<char>, n: int)
    requires
        0 <= n <= s.len(),
        forall|k: int| s.len() - n <= k < s.len() ==> is_ws(#[trigger] s[k]),
        n < s.len() ==> !is_ws(s[s.len() - n - 1]),
    ensures
        trail_ws(s) == n,
    decreases n,
{
    if n > 0 {
        let t = s.drop_last();
        assert forall|k: int| t.len() - (n - 1) <= k < t.len() implies is_ws(#[trigger] t[k]) by {
            assert(t[k] == s[k]);
        }
        if n < s.len() {
            assert(t[t.len() - (n - 1) - 1] == s[s.len() - n - 1]);
        }
        lemma_trail_ws_is(t, n - 1);
    }
}

/// Number of leading whitespace characters of `s[from..to]`, plus `from`.
pub fn skip_ws(s: &Vec<char>, from: usize, to: usize) -> (r: usize)
    requires
        from <= to <= s@.len(),
    ensures
        from <= r <= to,
        r == from + lead_ws(s@.subrange(from as int, to as int)),
{
    let mut i = from;
    while i < to && is_whitespace(s[i])
        invariant
            from <= i <= to <= s@.len(),
            forall|k: int| from <= k < i ==> is_ws(#[trigger] s@[k]),
        decreases to - i,
    {
        i = i + 1;
    }
    proof {
        let t = s@.subrange(from as int, to as int);
        assert forall|k: int| 0 <= k < i - from implies is_ws(#[trigger] t[k]) by {
            assert(t[k] == s@[from + k]);
        }
        if i < to {
            assert(t[i - from] == s@[i as int]);
        }
        lemma_lead_ws_is(t, i - from);
    }
    i
}

/// End of `s[from..to]` once its trailing whitespace is dropped.
pub fn skip_ws_back(s: &Vec<char>, from: usize, to: usize) -> (r: usize)
    requires
        from <= to <= s@.len(),
    ensures
        from <= r <= to,
        r == to - trail_ws(s@.subrange(from as int, to as int)),
{
    let mut i = to;
    while i > from && is_whitespace(s[i - 1])
        invariant
            from <= i <= to <= s@.len(),
            forall|k: int| i <= k < to ==> is_ws(#[trigger] s@[k]),
        decreases i - from,
    {
        i = i - 1;
    }
    proof {
        let t = s@.subrange(from as int, to as int);
        assert forall|k: int| t.len() - (to - i) <= k < t.len() implies is_ws(#[trigger] t[k]) by {
            assert(t[k] == s@[from + k]);
        }
        if i > from {
            assert(t[t.len() - (to - i) - 1] == s@[i - 1]);
        }
        lemma_trail_ws_is(t, to - i);
    }
    i
}

/// The characters of a string, one by one.
pub fn chars_of(s: &str) -> (r: Vec<char>)
    ensures
        r@ == s@,
{
    let mut it = s.chars();
    let mut r: Vec<char> = Vec::new();
    loop
        invariant
            it.obeys_prophetic_iter_laws(),
            it.decrease() is Some,
            r@ + it.remaining() == s@,
        ensures
            r@ == s@,
        decreases it.decrease()->Some_0,
    {
        match it.next() {
            Some(c) => {
                r.push(c);
            },
            None => {
                break;
            },
        }
    }
    r
}

/// Relies on `String::push`: appends one character at the end.
#[verifier::external_body]
pub(crate) fn push_char(s: &mut String, c: char)
    ensures
        final(s)@ == old(s)@.push(c),
{
    s.push(c)
}

/// Appends `s[from..to]` to `out`.
pub fn push_chars(out: &mut String, s: &Vec<char>, from: usize, to: usize)
    requires
        from <= to <= s@.len(),
    ensures
        final(out)@ == old(out)@ + s@.subrange(from as int, to as int),
{
    let mut i = from;
    while i < to
        invariant
            from <= i <= to <= s@.len(),
            out@ == old(out)@ + s@.subrange(from as int, i as int),
        decreases to - i,
    {
        push_char(out, s[i]);
        i = i + 1;
        proof {
            assert(s@.subrange(from as int, i as int) =~= s@.subrange(from as int, i - 1).push(
                s@[i - 1],
            ));
        }
    }
}

/// `s[from..to]` as a string.
pub fn string_of(s: &Vec<char>, from: usize, to: usize) -> (r: String)
    requires
        from <= to <= s@.len(),
    ensures
        r@ == s@.subrange(from as int, to as int),
{
    let mut r = String::new();
    push_chars(&mut r, s, from, to);
    proof {
        assert(r@ =~= s@.subrange(from as int, to as int));
    }
    r
}

pub open spec fn digit(d: nat) -> char {
    seq!['0', '1', '2', '3', '4', '5', '6', '7', '8', '9'][d as int]
}

/// The decimal numeral of `n`, without leading zeros.
pub open spec fn decimal(n: nat) -> Seq<char>
    decreases n,
{
    if n < 10 {
        seq![digit(n)]
    } else {
        decimal(n / 10).push(digit(n % 10))
    }
}

fn digit_char(d: usize) -> (c: char)
    requires
        d < 10,
    ensures
        c == digit(d as nat),
{
    match d {
        0 => '0',
        1 => '1',
        2 => '2',
        3 => '3',
        4 => '4',
        5 => '5',
        6 => '6',
        7 => '7',
        8 => '8',
        _ => '9',
    }
}

/// Appends the decimal numeral of `n` to `out`.
pub fn push_decimal(out: &mut String, n: usize)
    ensures
        final(out)@ == old(out)@ + decimal(n as nat),
    decreases n,
{
    if n >= 10 {
        push_decimal(out, n / 10);
    }
    push_char(out, digit_char(n % 10));
    proof {
        if n >= 10 {
            assert(old(out)@ + decimal(n as nat) =~= old(out)@ + decimal((n / 10) as nat) + seq![
                digit((n % 10) as nat),
            ]);
        } else {
            assert(old(out)@ + decimal(n as nat) =~= old(out)@.push(digit((n % 10) as nat)));
        }
    }
}

/// Position of the first line feed at or after `j`, or the length of `s`.
pub open spec fn line_end(s: Seq<char>, j: int) -> int
    decreases s.len() - j,
{
    if j >= s.len() {
        s.len() as int
    } else if s[j] == '\n' {
        j
    } else {
        line_end(s, j + 1)
    }
}

/// The lines of `s` from position `j` on: split at each line feed, a carriage return
/// right before a line feed dropped, and no empty line after a final line feed.
pub open spec fn lines_from(s: Seq<char>, j: int) -> Seq<Seq<char>>
    decreases s.len() - j,
{
    if j < 0 || j >= s.len() || line_end(s, j) < j || line_end(s, j) > s.len() {
        Seq::empty()
    } else {
        let e = line_end(s, j);
        let raw = s.subrange(j, e);
        let line = if e < s.len() && raw.len() > 0 && raw.last() == '\r' {
            raw.drop_last()
        } else {
            raw
        };
        if e < s.len() {
            seq![line] + lines_from(s, e + 1)
        } else {
            seq![line]
        }
    }
}

pub open spec fn lines_of(s: Seq<char>) -> Seq<Seq<char>> {
    lines_from(s, 0)
}

pub proof fn lemma_line_end(s: Seq<char>, j: int)
    requires
        0 <= j <= s.len(),
    ensures
        j <= line_end(s, j) <= s.len(),
        line_end(s, j) < s.len() ==> s[line_end(s, j)] == '\n',
        forall|k: int| j <= k < line_end(s, j) ==> s[k] != '\n',
    decreases s.len() - j,
{
    if j < s.len() && s[j] != '\n' {
        lemma_line_end(s, j + 1);
    }
}

/// The lines of `s`, as `str::lines` gives them.
pub fn split_lines(s: &Vec<char>) -> (r: Vec<Vec<char>>)
    ensures
        r@.len() == lines_of(s@).len(),
        forall|i: int| 0 <= i < r@.len() ==> #[trigger] r@[i]@ == lines_of(s@)[i],
{
    let mut r: Vec<Vec<char>> = Vec::new();
    let mut j: usize = 0;
    while j < s.len()
        invariant
            j <= s@.len(),
            r@.len() + lines_from(s@, j as int).len() == lines_of(s@).len(),
            forall|i: int| 0 <= i < r@.len() ==> #[trigger] r@[i]@ == lines_of(s@)[i],
            forall|i: int|
                0 <= i < lines_from(s@, j as int).len() ==> #[trigger] lines_from(s@, j as int)[i]
                    == lines_of(s@)[r@.len() + i],
        decreases s@.len() - j,
    {
        let mut e = j;
        while e < s.len() && s[e] != '\n'
            invariant
                j <= e <= s@.len(),
                line_end(s@, j as int) == line_end(s@, e as int),
            decreases s@.len() - e,
        {
            e = e + 1;
        }
        proof {
            lemma_line_end(s@, j as int);
        }
        let mut stop = e;
        if e < s.len() && e > j && s[e - 1] == '\r' {
            stop = e - 1;
        }
        let mut line: Vec<char> = Vec::new();
        let mut k = j;
        while k < stop
            invariant
                j <= k <= stop <= s@.len(),
                line@ == s@.subrange(j as int, k as int),
            decreases stop - k,
        {
            line.push(s[k]);
            k = k + 1;
            proof {
                assert(line@ =~= s@.subrange(j as int, k as int));
            }
        }
        proof {
            let raw = s@.subrange(j as int, e as int);
            if e < s@.len() && raw.len() > 0 && raw.last() == '\r' {
                assert(line@ =~= raw.drop_last());
            } else {
                assert(line@ =~= raw);
            }
            assert(lines_from(s@, j as int)[0] == line@);
            assert forall|i: int| 0 <= i < lines_from(s@, e + 1).len() implies #[trigger] lines_from(
                s@,
                e + 1,
            )[i] == lines_of(s@)[r@.len() + 1 + i] by {
                assert(lines_from(s@, e + 1)[i] == lines_from(s@, j as int)[i + 1]);
            }
        }
        r.push(line);
        if e == s.len() {
            j = e;
            proof {
                assert(lines_from(s@, j as int).len() == 0);
            }
        } else {
            j = e + 1;
        }
    }
    r
}

/// How many non-whitespace characters `s` starts with.
pub open spec fn lead_word(s: Seq<char>) -> nat
    decreases s.len(),
{
    if s.len() > 0 && !is_ws(s[0]) {
        1 + lead_word(s.skip(1))
    } else {
        0
    }
}

/// The whitespace-separated words of `s`, in order.
pub open spec fn words(s: Seq<char>) -> Seq<Seq<char>>
    decreases s.len(),
{
    let t = trim_start(s);
    let n = lead_word(t);
    if t.len() == 0 || n == 0 || lead_ws(s) > s.len() || n > t.len() {
        Seq::empty()
    } else {
        seq![t.take(n as int)] + words(t.skip(n as int))
    }
}

pub proof fn lemma_lead_word_is(s: Seq<char>, n: int)
    requires
        0 <= n <= s.len(),
        forall|k: int| 0 <= k < n ==> !is_ws(#[trigger] s[k]),
        n < s.len() ==> is_ws(s[n]),
    ensures
        lead_word(s) == n,
    decreases n,
{
    if n > 0 {
        assert forall|k: int| 0 <= k < n - 1 implies !is_ws(#[trigger] s.skip(1)[k]) by {
            assert(s.skip(1)[k] == s[k + 1]);
        }
        if n < s.len() {
            assert(s.skip(1)[n - 1] == s[n]);
        }
        lemma_lead_word_is(s.skip(1), n - 1);
    }
}

/// The whitespace-separated words of `s[from..to]`.
pub fn split_words(s: &Vec<char>, from: usize, to: usize) -> (r: Vec<String>)
    requires
        from <= to <= s@.len(),
    ensures
        r@.len() == words(s@.subrange(from as int, to as int)).len(),
        forall|i: int| 0 <= i < r@.len() ==> #[trigger] r@[i]@ == words(
            s@.subrange(from as int, to as int),
        )[i],
{
    let ghost all = words(s@.subrange(from as int, to as int));
    let mut r: Vec<String> = Vec::new();
    let mut i = from;
    loop
        invariant
            from <= i <= to <= s@.len(),
            all == words(s@.subrange(from as int, to as int)),
            r@.len() + words(s@.subrange(i as int, to as int)).len() == all.len(),
            forall|k: int| 0 <= k < r@.len() ==> #[trigger] r@[k]@ == all[k],
            forall|k: int|
                0 <= k < words(s@.subrange(i as int, to as int)).len() ==> #[trigger] words(
                    s@.subrange(i as int, to as int),
                )[k] == all[r@.len() + k],
        ensures
            r@.len() == all.len(),
            forall|k: int| 0 <= k < r@.len() ==> #[trigger] r@[k]@ == all[k],
        decreases to - i,
    {
        let a = skip_ws(s, i, to);
        let ghost sub = s@.subrange(i as int, to as int);
        proof {
            lemma_lead_ws(sub);
            assert(trim_start(sub) =~= s@.subrange(a as int, to as int));
        }
        if a == to {
            proof {
                assert(words(sub).len() == 0);
            }
            break;
        }
        let mut b = a;
        while b < to && !is_whitespace(s[b])
            invariant
                a <= b <= to <= s@.len(),
                forall|k: int| a <= k < b ==> !is_ws(#[trigger] s@[k]),
            decreases to - b,
        {
            b = b + 1;
        }
        proof {
            let t = s@.subrange(a as int, to as int);
            assert forall|k: int| 0 <= k < b - a implies !is_ws(#[trigger] t[k]) by {
                assert(t[k] == s@[a + k]);
            }
            if b < to {
                assert(t[b - a] == s@[b as int]);
            }
            lemma_lead_word_is(t, b - a);
            assert(t.take(b - a) =~= s@.subrange(a as int, b as int));
            assert(t.skip(b - a) =~= s@.subrange(b as int, to as int));
            assert(words(sub) == seq![s@.subrange(a as int, b as int)] + words(
                s@.subrange(b as int, to as int),
            ));
            assert forall|k: int|
                0 <= k < words(s@.subrange(b as int, to as int)).len() implies #[trigger] words(
                s@.subrange(b as int, to as int),
            )[k] == all[r@.len() + 1 + k] by {
                assert(words(s@.subrange(b as int, to as int))[k] == words(sub)[k + 1]);
            }
            assert(words(sub)[0] == s@.subrange(a as int, b as int));
            assert(all[r@.len() as int] == s@.subrange(a as int, b as int));
        }
        r.push(string_of(s, a, b));
        i = b;
    }
    r
}

} // verus!
