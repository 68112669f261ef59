//! Characters, decimal numbers and the splitting of text.
use vstd::prelude::*;
use vstd::string::*;
use vstd::utf8::*;

verus! {

/// The digit that stands for `d`, for `d` below ten.
pub open spec fn digit_char(d: nat) -> char {
    (('0' as u32) + d) as char
}

/// The decimal notation of `n`, without leading zeros.
pub open spec fn decimal(n: nat) -> Seq<char>
    decreases n,
{
    if n < 10 {
        seq![digit_char(n)]
    } else {
        decimal(n / 10).push(digit_char(n % 10))
    }
}

/// Whether `c` is one of the ten decimal digits.
pub open spec fn is_digit(c: char) -> bool {
    '0' <= c <= '9'
}

/// Whether `s` consists of decimal digits only.
pub open spec fn all_digits(s: Seq<char>) -> bool {
    forall|i: int| 0 <= i < s.len() ==> is_digit(#[trigger] s[i])
}

/// The number that a sequence of decimal digits denotes; leading zeros count for nothing.
pub open spec fn digits_value(s: Seq<char>) -> nat
    decreases s.len(),
{
    if s.len() == 0 {
        0
    } else {
        (digits_value(s.drop_last()) * 10 + (s.last() as nat - '0' as nat)) as nat
    }
}

/// The characters of `s`, in order.
pub(crate) fn chars_of(s: &str) -> (chars: Vec<char>)
    ensures
        chars@ == s@,
{
    let mut chars: Vec<char> = Vec::new();
    for c in it: s.chars()
        invariant
            chars@ == it.seq().take(it.index() as int),
    {
        chars.push(c);
    }
    chars
}

/// Appends the digit `d` to `out`.
fn append_digit(out: &mut String, d: u64)
    requires
        d < 10,
    ensures
        final(out)@ == old(out)@.push(digit_char(d as nat)),
{
    proof {
        reveal_strlit("0");
        reveal_strlit("1");
        reveal_strlit("2");
        reveal_strlit("3");
        reveal_strlit("4");
        reveal_strlit("5");
        reveal_strlit("6");
        reveal_strlit("7");
        reveal_strlit("8");
        reveal_strlit("9");
    }
    match d {
        0 => out.append("0"),
        1 => out.append("1"),
        2 => out.append("2"),
        3 => out.append("3"),
        4 => out.append("4"),
        5 => out.append("5"),
        6 => out.append("6"),
        7 => out.append("7"),
        8 => out.append("8"),
        _ => out.append("9"),
    }
}

/// Appends the decimal notation of `n` to `out`.
pub(crate) fn append_decimal(out: &mut String, n: u64)
    ensures
        final(out)@ == old(out)@ + decimal(n as nat),
    decreases n,
{
    if n >= 10 {
        append_decimal(out, n / 10);
    }
    append_digit(out, n % 10);
}

/// The number that decimal digits denote, where it is at most `max`.
pub(crate) fn parse_digits(s: &Vec<char>, from: usize, max: u32) -> (value: Option<u32>)
    requires
        from <= s.len(),
        max <= 1_000_000,
    ensures
        match value {
            Some(n) => s@.len() > from && all_digits(s@.skip(from as int)) && n == digits_value(
                s@.skip(from as int),
            ) && n <= max,
            None => s@.len() == from || !all_digits(s@.skip(from as int)) || digits_value(
                s@.skip(from as int),
            ) > max,
        },
{
    let ghost digits = s@.skip(from as int);
    if s.len() == from {
        return None;
    }
    let mut n: u32 = 0;
    let mut i: usize = from;
    // Once the bound is passed only the remaining characters matter.
    let mut above: bool = false;
    while i < s.len()
        invariant
            from <= i <= s.len(),
            max <= 1_000_000,
            digits == s@.skip(from as int),
            all_digits(digits.take(i - from)),
            !above ==> n == digits_value(digits.take(i - from)) && n <= max,
            above ==> digits_value(digits.take(i - from)) > max,
        decreases s.len() - i,
    {
        let c: char = s[i];
        proof {
            let before = digits.take(i - from);
            let after = digits.take(i + 1 - from);
            assert(after.drop_last() =~= before);
            assert(after.last() == c);
            assert(digits[i - from] == c);
            if is_digit(c) {
                assert(all_digits(after)) by {
                    assert forall|j: int| 0 <= j < after.len() implies is_digit(
                        #[trigger] after[j],
                    ) by {
                        if j < before.len() {
                            assert(is_digit(before[j]));
                        }
                    }
                }
            }
        }
        if c < '0' || c > '9' {
            assert(!is_digit(digits[i - from]));
            return None;
        }
        if !above {
            n = n * 10 + (c as u32 - '0' as u32);
            above = n > max;
        }
        i += 1;
    }
    assert(digits.take(i - from) =~= digits);
    if above {
        None
    } else {
        Some(n)
    }
}

/// The position of the last `c` in `s`.
pub open spec fn last_position(s: Seq<char>, c: char) -> Option<int>
    decreases s.len(),
{
    if s.len() == 0 {
        None
    } else if s.last() == c {
        Some(s.len() - 1)
    } else {
        last_position(s.drop_last(), c)
    }
}

/// Finds the last `c` in `s`.
pub(crate) fn find_last(s: &Vec<char>, c: char) -> (position: Option<usize>)
    ensures
        match position {
            Some(i) => i < s.len() && last_position(s@, c) == Some(i as int),
            None => last_position(s@, c) is None,
        },
{
    let mut n: usize = s.len();
    assert(s@.take(n as int) =~= s@);
    while n > 0
        invariant
            n <= s.len(),
            last_position(s@, c) == last_position(s@.take(n as int), c),
        decreases n,
    {
        assert(s@.take(n as int).drop_last() =~= s@.take(n - 1));
        if s[n - 1] == c {
            return Some(n - 1);
        }
        n -= 1;
    }
    None
}

/// `s` without the run of `c` at its start.
pub open spec fn trim_start(s: Seq<char>, c: char) -> Seq<char>
    decreases s.len(),
{
    if s.len() > 0 && s[0] == c {
        trim_start(s.drop_first(), c)
    } else {
        s
    }
}

/// `s` without the run of `c` at its end.
pub open spec fn trim_end(s: Seq<char>, c: char) -> Seq<char>
    decreases s.len(),
{
    if s.len() > 0 && s.last() == c {
        trim_end(s.drop_last(), c)
    } else {
        s
    }
}

/// The bounds of the text that is left of the first `end` characters of `s` once every `open` at
/// its start and every `close` at its end is taken off.
pub(crate) fn trim_bounds(s: &Vec<char>, end: usize, open: char, close: char) -> (bounds: (usize, usize))
    requires
        end <= s.len(),
    ensures
        bounds.0 <= bounds.1 <= end,
        s@.subrange(bounds.0 as int, bounds.1 as int) == trim_end(
            trim_start(s@.take(end as int), open),
            close,
        ),
{
    let ghost whole = s@.take(end as int);
    let mut from: usize = 0;
    assert(s@.subrange(0, end as int) =~= whole);
    while from < end && s[from] == open
        invariant
            from <= end <= s.len(),
            trim_start(whole, open) == trim_start(s@.subrange(from as int, end as int), open),
        decreases end - from,
    {
        assert(s@.subrange(from as int, end as int).drop_first() =~= s@.subrange(
            from + 1,
            end as int,
        ));
        from += 1;
    }
    let ghost started = s@.subrange(from as int, end as int);
    assert(trim_start(whole, open) == started);
    let mut to: usize = end;
    while to > from && s[to - 1] == close
        invariant
            from <= to <= end <= s.len(),
            trim_end(started, close) == trim_end(s@.subrange(from as int, to as int), close),
        decreases to,
    {
        assert(s@.subrange(from as int, to as int).drop_last() =~= s@.subrange(from as int, to - 1));
        to -= 1;
    }
    (from, to)
}

/// The pieces of `s` between the separators; a text without a separator is one piece.
pub open spec fn split(s: Seq<char>, separator: char) -> Seq<Seq<char>>
    decreases s.len(),
{
    if s.len() == 0 {
        seq![Seq::empty()]
    } else {
        let pieces = split(s.drop_last(), separator);
        if s.last() == separator {
            pieces.push(Seq::empty())
        } else {
            pieces.drop_last().push(pieces.last().push(s.last()))
        }
    }
}

/// The character sequences that a list of character vectors holds.
pub open spec fn views(pieces: Seq<Vec<char>>) -> Seq<Seq<char>> {
    Seq::new(pieces.len(), |i: int| pieces[i]@)
}

/// Splits the characters from `from` up to `to` at each separator.
pub(crate) fn split_chars(s: &Vec<char>, from: usize, to: usize, separator: char) -> (pieces: Vec<Vec<char>>)
    requires
        from <= to <= s.len(),
    ensures
        views(pieces@) == split(s@.subrange(from as int, to as int), separator),
{
    let mut pieces: Vec<Vec<char>> = Vec::new();
    let mut piece: Vec<char> = Vec::new();
    let mut i: usize = from;
    assert(views(pieces@).push(piece@) =~= split(s@.subrange(from as int, from as int), separator));
    while i < to
        invariant
            from <= i <= to <= s.len(),
            views(pieces@).push(piece@) == split(s@.subrange(from as int, i as int), separator),
        decreases to - i,
    {
        let c: char = s[i];
        let ghost before = views(pieces@).push(piece@);
        assert(s@.subrange(from as int, i + 1).drop_last() =~= s@.subrange(from as int, i as int));
        if c == separator {
            pieces.push(piece);
            piece = Vec::new();
            assert(views(pieces@).push(piece@) =~= before.push(Seq::empty()));
        } else {
            piece.push(c);
            assert(views(pieces@).push(piece@) =~= before.drop_last().push(before.last().push(c)));
        }
        i += 1;
    }
    let ghost before = views(pieces@).push(piece@);
    pieces.push(piece);
    assert(views(pieces@) =~= before);
    pieces
}

/// `c` with the twenty-six capital letters mapped to the small ones.
pub open spec fn ascii_lower(c: char) -> char {
    if 'A' <= c <= 'Z' {
        ((c as u32) + 32) as char
    } else {
        c
    }
}

/// `s` with the twenty-six capital letters mapped to the small ones.
pub open spec fn ascii_lowercase(s: Seq<char>) -> Seq<char> {
    Seq::new(s.len(), |i: int| ascii_lower(s[i]))
}

/// What `str::to_lowercase` makes of a text.
pub uninterp spec fn unicode_lowercase(s: Seq<char>) -> Seq<char>;

/// `s` in lower case: letter by letter where `s` is ASCII, by the Unicode tables elsewhere.
pub open spec fn lowercase(s: Seq<char>) -> Seq<char> {
    if is_ascii_chars(s) {
        ascii_lowercase(s)
    } else {
        unicode_lowercase(s)
    }
}

/// Calls `str::to_lowercase`. Trusted: the result depends on the text alone, and on ASCII text it
/// maps `A` to `Z` to `a` to `z` and keeps every other character. What it makes of other text is
/// left to the Unicode tables: nothing is said of it, not even that it is never an IP address.
#[verifier::external_body]
fn str_to_lowercase(s: &str) -> (lower: String)
    ensures
        lower@ == unicode_lowercase(s@),
        is_ascii_chars(s@) ==> lower@ == ascii_lowercase(s@),
{
    s.to_lowercase()
}

/// `s` in lower case.
pub(crate) fn to_lowercase(s: &str) -> (lower: String)
    ensures
        lower@ == lowercase(s@),
{
    str_to_lowercase(s)
}

} // verus!
