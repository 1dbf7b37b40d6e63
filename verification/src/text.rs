use vstd::prelude::*;

verus! {

/// Position of the first `sep` in `s`, or `s.len()` when `s` holds none.
pub open spec fn first_index(s: Seq<char>, sep: char) -> int
    decreases s.len(),
{
    if s.len() == 0 || s[0] == sep {
        0
    } else {
        1 + first_index(s.drop_first(), sep)
    }
}

/// The pieces of `s` between occurrences of `sep`. Empty pieces are kept, so
/// a text with `n` separators always has `n + 1` pieces.
pub open spec fn split(s: Seq<char>, sep: char) -> Seq<Seq<char>>
    decreases s.len(),
{
    let i = first_index(s, sep);
    if 0 <= i < s.len() {
        seq![s.take(i)] + split(s.skip(i + 1), sep)
    } else {
        seq![s]
    }
}

/// The pieces joined again, with one `sep` between neighbours.
pub open spec fn join(pieces: Seq<Seq<char>>, sep: char) -> Seq<char>
    decreases pieces.len(),
{
    if pieces.len() == 0 {
        Seq::empty()
    } else if pieces.len() == 1 {
        pieces[0]
    } else {
        pieces[0] + seq![sep] + join(pieces.drop_first(), sep)
    }
}

/// `sep` does not occur in `s`.
pub open spec fn free_of(s: Seq<char>, sep: char) -> bool {
    forall|i: int| 0 <= i < s.len() ==> s[i] != sep
}

/// The parts of `chars` that the index pairs in `ranges` cut out.
pub open spec fn windows(chars: Seq<char>, ranges: Seq<(usize, usize)>) -> Seq<Seq<char>> {
    Seq::new(ranges.len(), |k: int| chars.subrange(ranges[k].0 as int, ranges[k].1 as int))
}

/// Every pair in `ranges` is an ordered pair of positions inside `[from, to]`.
pub open spec fn ranges_within(ranges: Seq<(usize, usize)>, from: int, to: int) -> bool {
    forall|k: int|
        0 <= k < ranges.len() ==> from <= (#[trigger] ranges[k]).0 <= ranges[k].1 <= to
}

/// The first separator is the only position that holds `sep` and has none
/// before it.
pub proof fn lemma_first_index_is(s: Seq<char>, sep: char, i: int)
    requires
        0 <= i <= s.len(),
        free_of(s.take(i), sep),
        i < s.len() ==> s[i] == sep,
    ensures
        first_index(s, sep) == i,
    decreases s.len(),
{
    if s.len() == 0 {
    } else if s[0] == sep {
        if i > 0 {
            assert(s.take(i)[0] == sep);
        }
    } else {
        let t = s.drop_first();
        let head = t.take(i - 1);
        assert forall|j: int| 0 <= j < head.len() implies head[j] != sep by {
            assert(s.take(i)[j + 1] == t[j]);
        }
        lemma_first_index_is(t, sep, i - 1);
    }
}

/// Splitting undoes joining, provided that no piece holds the separator.
pub proof fn lemma_split_join(pieces: Seq<Seq<char>>, sep: char)
    requires
        pieces.len() >= 1,
        forall|k: int| 0 <= k < pieces.len() ==> free_of(#[trigger] pieces[k], sep),
    ensures
        split(join(pieces, sep), sep) == pieces,
    decreases pieces.len(),
{
    let text = join(pieces, sep);
    let head = pieces[0];
    if pieces.len() == 1 {
        assert(text.take(text.len() as int) == text);
        lemma_first_index_is(text, sep, text.len() as int);
        assert(split(text, sep) =~= pieces);
    } else {
        let rest = pieces.drop_first();
        assert forall|k: int| 0 <= k < rest.len() implies free_of(#[trigger] rest[k], sep) by {
            assert(rest[k] == pieces[k + 1]);
        }
        lemma_split_join(rest, sep);
        let i = head.len() as int;
        assert(text == head + seq![sep] + join(rest, sep));
        assert(text.take(i) =~= head);
        assert(text[i] == sep);
        lemma_first_index_is(text, sep, i);
        assert(text.skip(i + 1) =~= join(rest, sep));
        assert(split(text, sep) =~= pieces);
    }
}

/// The characters of `s`, in order, as a vector that can be indexed.
pub fn chars_of(s: &str) -> (out: Vec<char>)
    ensures
        out@ == s@,
{
    let mut out: Vec<char> = Vec::new();
    for c in it: s.chars()
        invariant
            it.seq() == s@,
            out@ == s@.take(it.index()),
    {
        out.push(c);
    }
    out
}

/// Cuts `chars[from..to]` at every `sep` and reports where each piece lies.
pub fn split_ranges(chars: &Vec<char>, from: usize, to: usize, sep: char) -> (out: Vec<
    (usize, usize),
>)
    requires
        from <= to <= chars.len(),
    ensures
        windows(chars@, out@) == split(chars@.subrange(from as int, to as int), sep),
        ranges_within(out@, from as int, to as int),
        out.len() >= 1,
{
    let mut out: Vec<(usize, usize)> = Vec::new();
    let mut start: usize = from;
    let mut i: usize = from;
    while i < to
        invariant
            from <= start <= i <= to <= chars.len(),
            ranges_within(out@, from as int, to as int),
            free_of(chars@.subrange(start as int, i as int), sep),
            split(chars@.subrange(from as int, to as int), sep) == windows(chars@, out@) + split(
                chars@.subrange(start as int, to as int),
                sep,
            ),
        decreases to - i,
    {
        if chars[i] == sep {
            proof {
                let rest = chars@.subrange(start as int, to as int);
                let k = i - start;
                assert(rest.take(k) == chars@.subrange(start as int, i as int));
                lemma_first_index_is(rest, sep, k);
                assert(rest.skip(k + 1) == chars@.subrange(i + 1, to as int));
                assert(windows(chars@, out@.push((start, i))) == windows(chars@, out@)
                    + seq![rest.take(k)]);
            }
            out.push((start, i));
            start = i + 1;
            proof {
                assert(chars@.subrange(start as int, start as int) == Seq::<char>::empty());
            }
        } else {
            proof {
                let grown = chars@.subrange(start as int, i + 1);
                assert forall|j: int| 0 <= j < grown.len() implies grown[j] != sep by {
                    if j < i - start {
                        assert(chars@.subrange(start as int, i as int)[j] == chars@[start + j]);
                    }
                }
            }
        }
        i = i + 1;
    }
    proof {
        let rest = chars@.subrange(start as int, to as int);
        assert(rest.take(rest.len() as int) == rest);
        lemma_first_index_is(rest, sep, rest.len() as int);
        assert(windows(chars@, out@.push((start, to))) == windows(chars@, out@) + seq![rest]);
    }
    out.push((start, to));
    out
}

/// Whether the part of `chars` that `r` cuts out spells `word`.
pub fn window_is(chars: &Vec<char>, r: (usize, usize), word: &str) -> (b: bool)
    requires
        r.0 <= r.1 <= chars.len(),
    ensures
        b == (chars@.subrange(r.0 as int, r.1 as int) == word@),
{
    let w = chars_of(word);
    let ghost part = chars@.subrange(r.0 as int, r.1 as int);
    if r.1 - r.0 != w.len() {
        return false;
    }
    let mut i: usize = 0;
    while i < w.len()
        invariant
            r.0 <= r.1 <= chars.len(),
            r.1 - r.0 == w.len(),
            i <= w.len(),
            w@ == word@,
            part == chars@.subrange(r.0 as int, r.1 as int),
            part.take(i as int) == w@.take(i as int),
        decreases w.len() - i,
    {
        if chars[r.0 + i] != w[i] {
            assert(part[i as int] != w@[i as int]);
            return false;
        }
        proof {
            assert(part.take(i + 1) == part.take(i as int).push(part[i as int]));
            assert(w@.take(i + 1) == w@.take(i as int).push(w@[i as int]));
        }
        i = i + 1;
    }
    proof {
        assert(part.take(part.len() as int) == part);
        assert(w@.take(w@.len() as int) == w@);
    }
    true
}

/// Whether `word` is one of the comma-separated entries of the part of
/// `chars` that `r` cuts out.
pub fn lists_entry(chars: &Vec<char>, r: (usize, usize), word: &str) -> (b: bool)
    requires
        r.0 <= r.1 <= chars.len(),
    ensures
        b == split(chars@.subrange(r.0 as int, r.1 as int), ',').contains(word@),
{
    let entries = split_ranges(chars, r.0, r.1, ',');
    let ghost pieces = split(chars@.subrange(r.0 as int, r.1 as int), ',');
    let mut k: usize = 0;
    while k < entries.len()
        invariant
            k <= entries.len(),
            r.0 <= r.1 <= chars.len(),
            ranges_within(entries@, r.0 as int, r.1 as int),
            windows(chars@, entries@) == pieces,
            pieces == split(chars@.subrange(r.0 as int, r.1 as int), ','),
            forall|j: int| 0 <= j < k ==> pieces[j] != word@,
        decreases entries.len() - k,
    {
        let e = entries[k];
        assert(pieces[k as int] == chars@.subrange(e.0 as int, e.1 as int));
        if window_is(chars, e, word) {
            assert(pieces[k as int] == word@);
            return true;
        }
        k = k + 1;
    }
    false
}

/// Whether two texts hold the same characters.
pub fn same_text(a: &str, b: &str) -> (same: bool)
    ensures
        same == (a@ == b@),
{
    let chars = chars_of(a);
    assert(chars@.subrange(0, chars.len() as int) == a@);
    window_is(&chars, (0, chars.len()), b)
}

/// `s` without one trailing carriage return.
pub open spec fn strip_cr(s: Seq<char>) -> Seq<char> {
    if s.len() > 0 && s.last() == '\r' {
        s.drop_last()
    } else {
        s
    }
}

/// The lines of a text. A line ends at a line feed; a carriage return just
/// before that line feed is not part of the line. Text after the last line
/// feed is a line of its own unless it is empty.
pub open spec fn lines(s: Seq<char>) -> Seq<Seq<char>> {
    let pieces = split(s, '\n');
    let n = if pieces.last().len() == 0 {
        pieces.len() - 1
    } else {
        pieces.len() as int
    };
    Seq::new(
        n as nat,
        |k: int|
            if k < pieces.len() - 1 {
                strip_cr(pieces[k])
            } else {
                pieces[k]
            },
    )
}

/// Reports where each line of `chars` lies.
pub fn line_ranges(chars: &Vec<char>) -> (out: Vec<(usize, usize)>)
    ensures
        windows(chars@, out@) == lines(chars@),
        ranges_within(out@, 0, chars.len() as int),
{
    let pieces = split_ranges(chars, 0, chars.len(), '\n');
    assert(chars@.subrange(0, chars.len() as int) == chars@);
    let ghost p = split(chars@, '\n');
    let mut out: Vec<(usize, usize)> = Vec::new();
    let last: usize = pieces.len() - 1;
    let mut k: usize = 0;
    while k < last
        invariant
            k <= last,
            last == pieces.len() - 1,
            out.len() == k,
            ranges_within(pieces@, 0, chars.len() as int),
            ranges_within(out@, 0, chars.len() as int),
            windows(chars@, pieces@) == p,
            forall|j: int| 0 <= j < k ==> #[trigger] windows(chars@, out@)[j] == strip_cr(p[j]),
        decreases last - k,
    {
        let (from, to) = pieces[k];
        let ghost before = windows(chars@, out@);
        assert(p[k as int] == chars@.subrange(from as int, to as int));
        if to > from && chars[to - 1] == '\r' {
            assert(chars@.subrange(from as int, to - 1) == p[k as int].drop_last());
            out.push((from, (to - 1) as usize));
        } else {
            out.push((from, to));
        }
        assert forall|j: int| 0 <= j < k + 1 implies #[trigger] windows(chars@, out@)[j]
            == strip_cr(p[j]) by {
            if j < k {
                assert(windows(chars@, out@)[j] == before[j]);
            }
        }
        k = k + 1;
    }
    let (from, to) = pieces[last];
    let ghost before = windows(chars@, out@);
    assert(p.len() == pieces.len());
    assert(p.last() == chars@.subrange(from as int, to as int));
    if to > from {
        out.push((from, to));
    }
    proof {
        let got = windows(chars@, out@);
        let want = lines(chars@);
        assert(got.len() == want.len());
        assert forall|j: int| 0 <= j < got.len() implies got[j] == want[j] by {
            if j < last {
                assert(got[j] == before[j]);
            }
        }
        assert(got =~= want);
    }
    out
}

/// Whether `c` is white space in the sense of Unicode's `White_Space`
/// property.
pub open spec fn is_space(c: char) -> bool {
    let n = c as u32;
    ||| 0x09 <= n <= 0x0D
    ||| n == 0x20
    ||| n == 0x85
    ||| n == 0xA0
    ||| n == 0x1680
    ||| 0x2000 <= n <= 0x200A
    ||| n == 0x2028
    ||| n == 0x2029
    ||| n == 0x202F
    ||| n == 0x205F
    ||| n == 0x3000
}

/// `s` without the white space it starts with.
pub open spec fn trim_start(s: Seq<char>) -> Seq<char>
    decreases s.len(),
{
    if s.len() > 0 && is_space(s[0]) {
        trim_start(s.drop_first())
    } else {
        s
    }
}

/// `s` without the white space it ends with.
pub open spec fn trim_end(s: Seq<char>) -> Seq<char>
    decreases s.len(),
{
    if s.len() > 0 && is_space(s.last()) {
        trim_end(s.drop_last())
    } else {
        s
    }
}

/// `s` without the white space around it.
pub open spec fn trim(s: Seq<char>) -> Seq<char> {
    trim_end(trim_start(s))
}

/// Whether `c` is one of the ten decimal digits.
pub open spec fn is_digit(c: char) -> bool {
    '0' as u32 <= c as u32 <= '9' as u32
}

/// Every character of `s` is a decimal digit.
pub open spec fn all_digits(s: Seq<char>) -> bool {
    forall|i: int| 0 <= i < s.len() ==> is_digit(#[trigger] s[i])
}

/// The number that the digits `s` spell in base ten.
pub open spec fn digits_value(s: Seq<char>) -> nat
    decreases s.len(),
{
    if s.len() == 0 {
        0
    } else {
        (10 * digits_value(s.drop_last()) + (s.last() as u32 - '0' as u32)) as nat
    }
}

/// The number that `s` spells, if it spells one that is at most `max`: an
/// optional `+`, then one or more decimal digits, and nothing else.
pub open spec fn parse_number(s: Seq<char>, max: nat) -> Option<nat> {
    let digits = if s.len() > 0 && s[0] == '+' {
        s.drop_first()
    } else {
        s
    };
    if digits.len() > 0 && all_digits(digits) && digits_value(digits) <= max {
        Some(digits_value(digits))
    } else {
        None
    }
}

/// A longer run of digits never spells a smaller number than its start.
pub proof fn lemma_digits_value_grows(s: Seq<char>, n: int)
    requires
        0 <= n <= s.len(),
        all_digits(s),
    ensures
        digits_value(s.take(n)) <= digits_value(s),
    decreases s.len() - n,
{
    if n < s.len() {
        let longer = s.take(n + 1);
        assert(longer.drop_last() == s.take(n));
        assert(is_digit(s[n]));
        assert(longer.last() == s[n]);
        lemma_digits_value_grows(s, n + 1);
    } else {
        assert(s.take(n) == s);
    }
}

/// Whether `c` is white space.
pub fn is_whitespace(c: char) -> (b: bool)
    ensures
        b == is_space(c),
{
    let n: u32 = c as u32;
    (0x09 <= n && n <= 0x0D) || n == 0x20 || n == 0x85 || n == 0xA0 || n == 0x1680 || (0x2000 <= n
        && n <= 0x200A) || n == 0x2028 || n == 0x2029 || n == 0x202F || n == 0x205F || n == 0x3000
}

/// Narrows `r` until no white space is left at either end.
pub fn trim_range(chars: &Vec<char>, r: (usize, usize)) -> (out: (usize, usize))
    requires
        r.0 <= r.1 <= chars.len(),
    ensures
        r.0 <= out.0 <= out.1 <= r.1,
        chars@.subrange(out.0 as int, out.1 as int) == trim(
            chars@.subrange(r.0 as int, r.1 as int),
        ),
{
    let mut from: usize = r.0;
    let mut to: usize = r.1;
    while from < to && is_whitespace(chars[from])
        invariant
            r.0 <= from <= to == r.1 <= chars.len(),
            trim_start(chars@.subrange(r.0 as int, r.1 as int)) == trim_start(
                chars@.subrange(from as int, to as int),
            ),
        decreases to - from,
    {
        assert(chars@.subrange(from as int, to as int).drop_first() == chars@.subrange(
            from + 1,
            to as int,
        ));
        from = from + 1;
    }
    while from < to && is_whitespace(chars[to - 1])
        invariant
            r.0 <= from <= to <= r.1 <= chars.len(),
            trim(chars@.subrange(r.0 as int, r.1 as int)) == trim_end(
                chars@.subrange(from as int, to as int),
            ),
        decreases to - from,
    {
        assert(chars@.subrange(from as int, to as int).drop_last() == chars@.subrange(
            from as int,
            to - 1,
        ));
        to = to - 1;
    }
    (from, to)
}

/// Reads the number that the part of `chars` cut out by `r` spells, if it
/// spells one that is at most `max`.
pub fn parse_range(chars: &Vec<char>, r: (usize, usize), max: u64) -> (out: Option<u64>)
    requires
        r.0 <= r.1 <= chars.len(),
    ensures
        match out {
            Some(n) => parse_number(chars@.subrange(r.0 as int, r.1 as int), max as nat) == Some(
                n as nat,
            ),
            None => parse_number(chars@.subrange(r.0 as int, r.1 as int), max as nat) is None,
        },
{
    let ghost whole = chars@.subrange(r.0 as int, r.1 as int);
    let from: usize = if r.0 < r.1 && chars[r.0] == '+' {
        r.0 + 1
    } else {
        r.0
    };
    let ghost digits = chars@.subrange(from as int, r.1 as int);
    assert(digits == if whole.len() > 0 && whole[0] == '+' {
        whole.drop_first()
    } else {
        whole
    });
    if from == r.1 {
        return None;
    }
    let mut value: u64 = 0;
    let mut i: usize = from;
    while i < r.1
        invariant
            r.0 <= from <= i <= r.1 <= chars.len(),
            whole == chars@.subrange(r.0 as int, r.1 as int),
            digits == chars@.subrange(from as int, r.1 as int),
            digits == if whole.len() > 0 && whole[0] == '+' {
                whole.drop_first()
            } else {
                whole
            },
            all_digits(digits.take(i - from)),
            value == digits_value(digits.take(i - from)),
            value <= max,
        decreases r.1 - i,
    {
        let c = chars[i];
        let ghost seen = digits.take(i - from);
        let ghost more = digits.take(i + 1 - from);
        assert(more.drop_last() == seen);
        assert(more.last() == c);
        assert(digits[i - from] == c);
        let n: u32 = c as u32;
        if n < 0x30 || n > 0x39 {
            return None;
        }
        let d: u64 = (n - 0x30) as u64;
        assert forall|j: int| 0 <= j < more.len() implies is_digit(#[trigger] more[j]) by {
            if j < seen.len() {
                assert(more[j] == seen[j]);
            }
        }
        if d > max || value > (max - d) / 10 {
            proof {
                assert(10 * value + d > max);
                if all_digits(digits) {
                    lemma_digits_value_grows(digits, i + 1 - from);
                }
            }
            return None;
        }
        value = value * 10 + d;
        i = i + 1;
    }
    assert(digits.take(i - from) == digits);
    Some(value)
}

/// A copy of the part of `s` that `r` cuts out, counted in characters.
pub fn text_of(s: &str, r: (usize, usize)) -> (out: String)
    requires
        r.0 <= r.1 <= s@.len(),
    ensures
        out@ == s@.subrange(r.0 as int, r.1 as int),
{
    s.substring_char(r.0, r.1).to_owned()
}

} // verus!
