//! The textual notation of IPv4 and IPv6 addresses, as the standard library's address types read
//! it.
use crate::text::{all_digits, digits_value, parse_digits, split, split_chars, views};
use vstd::prelude::*;

verus! {

/// The octet that `s` denotes: one to three digits, no leading zero, at most 255.
pub open spec fn octet(s: Seq<char>) -> Option<u8> {
    if 1 <= s.len() <= 3 && all_digits(s) && (s.len() > 1 ==> s[0] != '0') && digits_value(s)
        <= 255 {
        Some(digits_value(s) as u8)
    } else {
        None
    }
}

/// The IPv4 address that `s` denotes: four octets with dots between them.
pub open spec fn ipv4(s: Seq<char>) -> Option<(u8, u8, u8, u8)> {
    let pieces = split(s, '.');
    if pieces.len() == 4 && octet(pieces[0]) is Some && octet(pieces[1]) is Some && octet(
        pieces[2],
    ) is Some && octet(pieces[3]) is Some {
        Some((octet(pieces[0])->0, octet(pieces[1])->0, octet(pieces[2])->0, octet(pieces[3])->0))
    } else {
        None
    }
}

/// The value of a hexadecimal digit of either case.
pub open spec fn hex_digit(c: char) -> Option<nat> {
    if '0' <= c <= '9' {
        Some((c as nat - '0' as nat) as nat)
    } else if 'a' <= c <= 'f' {
        Some((c as nat - 'a' as nat + 10) as nat)
    } else if 'A' <= c <= 'F' {
        Some((c as nat - 'A' as nat + 10) as nat)
    } else {
        None
    }
}

/// The number that hexadecimal digits denote.
pub open spec fn hex_value(s: Seq<char>) -> Option<nat>
    decreases s.len(),
{
    if s.len() == 0 {
        Some(0)
    } else {
        match (hex_value(s.drop_last()), hex_digit(s.last())) {
            (Some(high), Some(low)) => Some(high * 16 + low),
            _ => None,
        }
    }
}

/// The group of an IPv6 address that `s` denotes: one to four hexadecimal digits.
pub open spec fn hex_group(s: Seq<char>) -> Option<u16> {
    match hex_value(s) {
        Some(n) => if 1 <= s.len() <= 4 {
            Some(n as u16)
        } else {
            None
        },
        None => None,
    }
}

/// The groups that `s` denotes as one piece of an IPv6 address: a hexadecimal group, or two groups
/// in the notation of an IPv4 address where that is allowed.
pub open spec fn piece_groups(s: Seq<char>, dotted: bool) -> Option<Seq<u16>> {
    match (hex_group(s), ipv4(s)) {
        (Some(group), _) => Some(seq![group]),
        (None, Some((a, b, c, d))) => if dotted {
            Some(seq![(a * 256 + b) as u16, (c * 256 + d) as u16])
        } else {
            None
        },
        (None, None) => None,
    }
}

/// The groups that the pieces denote one after the other; only the last may be dotted.
pub open spec fn joined_groups(pieces: Seq<Seq<char>>, dotted: bool) -> Option<Seq<u16>>
    decreases pieces.len(),
{
    if pieces.len() == 0 {
        Some(Seq::empty())
    } else {
        match (joined_groups(pieces.drop_last(), false), piece_groups(pieces.last(), dotted)) {
            (Some(before), Some(groups)) => Some(before + groups),
            _ => None,
        }
    }
}

/// The groups that `s` denotes with colons between them; an empty text denotes none.
pub open spec fn part_groups(s: Seq<char>, dotted: bool) -> Option<Seq<u16>> {
    if s.len() == 0 {
        Some(Seq::empty())
    } else {
        joined_groups(split(s, ':'), dotted)
    }
}

/// The position of the first `::` in `s` at or after `from`.
pub open spec fn gap_position(s: Seq<char>, from: int) -> Option<int>
    decreases s.len() - from,
{
    if from + 1 >= s.len() {
        None
    } else if s[from] == ':' && s[from + 1] == ':' {
        Some(from)
    } else {
        gap_position(s, from + 1)
    }
}

/// The IPv6 address that `s` denotes, as its eight groups.
///
/// Either all eight groups are written out, or `::` stands for one or more groups of zero. The
/// last two groups may be written as an IPv4 address.
pub open spec fn ipv6(s: Seq<char>) -> Option<Seq<u16>> {
    match gap_position(s, 0) {
        None => match part_groups(s, true) {
            Some(groups) => if groups.len() == 8 {
                Some(groups)
            } else {
                None
            },
            None => None,
        },
        Some(gap) => match (part_groups(s.take(gap), false), part_groups(s.skip(gap + 2), true)) {
            (Some(head), Some(tail)) => if head.len() + tail.len() <= 7 {
                Some(head + zeros((8 - head.len() - tail.len()) as nat) + tail)
            } else {
                None
            },
            _ => None,
        },
    }
}

/// A run of `n` groups of zero.
pub open spec fn zeros(n: nat) -> Seq<u16> {
    Seq::new(n, |i: int| 0u16)
}

fn parse_octet(s: &Vec<char>) -> (value: Option<u8>)
    ensures
        value == octet(s@),
{
    assert(s@.skip(0) =~= s@);
    if s.len() == 0 || s.len() > 3 || (s.len() > 1 && s[0] == '0') {
        return None;
    }
    match parse_digits(s, 0, 255) {
        Some(n) => Some(n as u8),
        None => None,
    }
}

/// Reads the characters from `from` up to `to` as an IPv4 address.
fn parse_ipv4_chars(s: &Vec<char>, from: usize, to: usize) -> (address: Option<(u8, u8, u8, u8)>)
    requires
        from <= to <= s.len(),
    ensures
        address == ipv4(s@.subrange(from as int, to as int)),
{
    let pieces = split_chars(s, from, to, '.');
    assert(views(pieces@).len() == pieces.len());
    if pieces.len() != 4 {
        return None;
    }
    match (
        parse_octet(&pieces[0]),
        parse_octet(&pieces[1]),
        parse_octet(&pieces[2]),
        parse_octet(&pieces[3]),
    ) {
        (Some(a), Some(b), Some(c), Some(d)) => Some((a, b, c, d)),
        _ => None,
    }
}

fn parse_hex_digit(c: char) -> (value: Option<u16>)
    ensures
        match value {
            Some(n) => hex_digit(c) == Some(n as nat) && n < 16,
            None => hex_digit(c) is None,
        },
{
    if '0' <= c && c <= '9' {
        Some((c as u32 - '0' as u32) as u16)
    } else if 'a' <= c && c <= 'f' {
        Some((c as u32 - 'a' as u32 + 10) as u16)
    } else if 'A' <= c && c <= 'F' {
        Some((c as u32 - 'A' as u32 + 10) as u16)
    } else {
        None
    }
}

/// A text with a character that is no hexadecimal digit has no value.
proof fn lemma_hex_value_none(s: Seq<char>, i: int)
    requires
        0 <= i < s.len(),
        hex_digit(s[i]) is None,
    ensures
        hex_value(s) is None,
    decreases s.len(),
{
    if i < s.len() - 1 {
        lemma_hex_value_none(s.drop_last(), i);
    }
}

fn parse_hex_group(s: &Vec<char>) -> (value: Option<u16>)
    ensures
        value == hex_group(s@),
{
    if s.len() == 0 || s.len() > 4 {
        return None;
    }
    let mut n: u16 = 0;
    let mut i: usize = 0;
    while i < s.len()
        invariant
            i <= s.len() <= 4,
            hex_value(s@.take(i as int)) == Some(n as nat),
            i == 0 ==> n == 0,
            i == 1 ==> n < 16,
            i == 2 ==> n < 256,
            i == 3 ==> n < 4096,
        decreases s.len() - i,
    {
        assert(s@.take(i + 1).drop_last() =~= s@.take(i as int));
        match parse_hex_digit(s[i]) {
            Some(low) => {
                n = n * 16 + low;
            },
            None => {
                proof {
                    lemma_hex_value_none(s@, i as int);
                }
                return None;
            },
        }
        i += 1;
    }
    assert(s@.take(i as int) =~= s@);
    Some(n)
}

fn parse_piece(s: &Vec<char>, dotted: bool) -> (groups: Option<Vec<u16>>)
    ensures
        match groups {
            Some(groups) => piece_groups(s@, dotted) == Some(groups@),
            None => piece_groups(s@, dotted) is None,
        },
{
    assert(s@.subrange(0, s@.len() as int) =~= s@);
    let mut groups: Vec<u16> = Vec::new();
    match (parse_hex_group(s), parse_ipv4_chars(s, 0, s.len())) {
        (Some(group), _) => {
            groups.push(group);
            assert(groups@ =~= seq![group]);
            Some(groups)
        },
        (None, Some((a, b, c, d))) => {
            if !dotted {
                return None;
            }
            let high: u16 = a as u16 * 256 + b as u16;
            let low: u16 = c as u16 * 256 + d as u16;
            groups.push(high);
            groups.push(low);
            assert(groups@ =~= seq![high, low]);
            Some(groups)
        },
        (None, None) => None,
    }
}

/// Where the pieces before the last already denote nothing, so do all of them.
proof fn lemma_joined_groups_none(pieces: Seq<Seq<char>>, n: int, dotted: bool)
    requires
        0 <= n < pieces.len(),
        joined_groups(pieces.take(n), false) is None,
    ensures
        joined_groups(pieces, dotted) is None,
    decreases pieces.len(),
{
    assert(pieces.drop_last().take(n) =~= pieces.take(n));
    if n == pieces.len() - 1 {
        assert(pieces.drop_last() =~= pieces.take(n));
    } else {
        lemma_joined_groups_none(pieces.drop_last(), n, false);
    }
}

/// Reads the characters from `from` up to `to` as groups with colons between them.
fn parse_part(s: &Vec<char>, from: usize, to: usize, dotted: bool) -> (groups: Option<Vec<u16>>)
    requires
        from <= to <= s.len(),
    ensures
        match groups {
            Some(groups) => part_groups(s@.subrange(from as int, to as int), dotted) == Some(
                groups@,
            ),
            None => part_groups(s@.subrange(from as int, to as int), dotted) is None,
        },
{
    let mut groups: Vec<u16> = Vec::new();
    if from == to {
        assert(groups@ =~= Seq::empty());
        return Some(groups);
    }
    let pieces = split_chars(s, from, to, ':');
    let ghost texts = views(pieces@);
    let mut i: usize = 0;
    assert(joined_groups(texts.take(0), false) == Some(groups@)) by {
        assert(groups@ =~= Seq::empty());
    }
    while i < pieces.len()
        invariant
            i <= pieces.len(),
            from < to <= s.len(),
            texts == views(pieces@),
            texts == split(s@.subrange(from as int, to as int), ':'),
            joined_groups(texts.take(i as int), i == pieces.len() && dotted) == Some(groups@),
        decreases pieces.len() - i,
    {
        let last: bool = i + 1 == pieces.len();
        let ghost before = groups@;
        assert(texts.take(i + 1).drop_last() =~= texts.take(i as int));
        assert(texts.take(i + 1).last() == pieces[i as int]@);
        match parse_piece(&pieces[i], last && dotted) {
            Some(more) => {
                let mut more: Vec<u16> = more;
                let ghost added = more@;
                groups.append(&mut more);
                assert(groups@ =~= before + added);
            },
            None => {
                proof {
                    if last {
                        assert(texts.take(i + 1) =~= texts);
                    } else {
                        lemma_joined_groups_none(texts, i + 1, dotted);
                    }
                }
                return None;
            },
        }
        i += 1;
    }
    assert(texts.take(i as int) =~= texts);
    Some(groups)
}

/// Finds the first `::`.
fn find_gap(s: &Vec<char>) -> (position: Option<usize>)
    ensures
        match position {
            Some(i) => i + 2 <= s.len() && gap_position(s@, 0) == Some(i as int),
            None => gap_position(s@, 0) is None,
        },
{
    let mut i: usize = 0;
    while i < s.len()
        invariant
            i <= s.len(),
            gap_position(s@, 0) == gap_position(s@, i as int),
        decreases s.len() - i,
    {
        if s.len() - i < 2 {
            return None;
        }
        if s[i] == ':' && s[i + 1] == ':' {
            return Some(i);
        }
        i += 1;
    }
    None
}

/// Reads a whole text as an IPv4 address.
pub(crate) fn parse_ipv4(s: &Vec<char>) -> (address: Option<(u8, u8, u8, u8)>)
    ensures
        address == ipv4(s@),
{
    assert(s@.subrange(0, s@.len() as int) =~= s@);
    parse_ipv4_chars(s, 0, s.len())
}

/// Reads a whole text as an IPv6 address.
pub(crate) fn parse_ipv6(s: &Vec<char>) -> (address: Option<Vec<u16>>)
    ensures
        match address {
            Some(groups) => ipv6(s@) == Some(groups@),
            None => ipv6(s@) is None,
        },
{
    match find_gap(s) {
        None => {
            assert(s@.subrange(0, s@.len() as int) =~= s@);
            match parse_part(s, 0, s.len(), true) {
                Some(groups) => if groups.len() == 8 {
                    Some(groups)
                } else {
                    None
                },
                None => None,
            }
        },
        Some(gap) => {
            assert(s@.subrange(0, gap as int) =~= s@.take(gap as int));
            assert(s@.subrange(gap + 2, s@.len() as int) =~= s@.skip(gap + 2));
            let head = parse_part(s, 0, gap, false);
            let tail = parse_part(s, gap + 2, s.len(), true);
            match (head, tail) {
                (Some(head), Some(tail)) => {
                    let mut groups: Vec<u16> = head;
                    let mut tail: Vec<u16> = tail;
                    if groups.len() > 7 || tail.len() > 7 - groups.len() {
                        return None;
                    }
                    let ghost front = groups@;
                    let ghost back = tail@;
                    let wanted: usize = 8 - tail.len();
                    while groups.len() < wanted
                        invariant
                            front.len() <= groups.len() <= wanted,
                            groups@ == front + zeros((groups.len() - front.len()) as nat),
                        decreases wanted - groups.len(),
                    {
                        groups.push(0);
                        assert(groups@ =~= front + zeros((groups.len() - front.len()) as nat));
                    }
                    groups.append(&mut tail);
                    assert(groups@ =~= front + zeros((8 - front.len() - back.len()) as nat) + back);
                    Some(groups)
                },
                _ => None,
            }
        },
    }
}

} // verus!
