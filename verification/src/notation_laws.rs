//! What the notations of numbers, IP addresses, hosts and ports mean, character by character.
use crate::address_laws::{
    lemma_decimal_denotes, lemma_ip_addresses_are_compared_by_value, lemma_notations_are_apart,
};
use crate::connection::{host_port, port_number};
use crate::ip::{
    gap_position, hex_digit, hex_group, hex_value, ipv4, ipv6, joined_groups, octet, part_groups,
    piece_groups, zeros,
};
use crate::policy::same_address;
use crate::text::{
    all_digits, ascii_lower, ascii_lowercase, decimal, digit_char, digits_value, is_digit, last_position,
    lowercase, split, trim_end, trim_start, unicode_lowercase,
};
use vstd::arithmetic::div_mod::lemma_div_denominator;
use vstd::arithmetic::power::{lemma_pow_positive, pow};
use vstd::prelude::*;
use vstd::utf8::is_ascii_chars;

verus! {

/// The decimal notation of a number holds, from the right, its ones, its tens, its hundreds and so
/// on, and has no more places than the number needs.
pub proof fn lemma_decimal_places(n: nat)
    ensures
        decimal(n).len() >= 1,
        forall|i: int|
            0 <= i < decimal(n).len() ==> #[trigger] decimal(n)[decimal(n).len() - 1 - i] as int
                == 48 + (n as int / pow(10, i as nat)) % 10,
        n < pow(10, decimal(n).len()),
        decimal(n).len() > 1 ==> n >= pow(10, (decimal(n).len() - 1) as nat),
    decreases n,
{
    reveal(pow);
    let text = decimal(n);
    assert(pow(10, 0) == 1);
    if n < 10 {
        assert(text =~= seq![digit_char(n)]);
        assert(pow(10, 1) == 10 * pow(10, 0));
    } else {
        let m = n / 10;
        let front = decimal(m);
        lemma_decimal_places(m);
        assert(text =~= front.push(digit_char(n % 10)));
        assert(pow(10, text.len()) == 10 * pow(10, front.len()));
        assert forall|i: int| 0 <= i < text.len() implies #[trigger] text[text.len() - 1 - i] as int
            == 48 + (n as int / pow(10, i as nat)) % 10 by {
            if i == 0 {
                assert(n as int / 1 == n);
            } else {
                assert(text[text.len() - 1 - i] == front[front.len() - 1 - (i - 1)]);
                lemma_pow_positive(10, (i - 1) as nat);
                assert(pow(10, i as nat) == 10 * pow(10, (i - 1) as nat));
                lemma_div_denominator(n as int, 10, pow(10, (i - 1) as nat));
            }
        }
        if front.len() > 1 {
            assert(pow(10, front.len()) == 10 * pow(10, (front.len() - 1) as nat));
        } else {
            assert(pow(10, 1) == 10 * pow(10, 0));
        }
    }
}

/// A run of `n` characters `c`.
pub open spec fn run(c: char, n: nat) -> Seq<char> {
    Seq::new(n, |i: int| c)
}

proof fn lemma_zeros_count_for_nothing(k: nat, t: Seq<char>)
    ensures
        digits_value(run('0', k) + t) == digits_value(t),
    decreases k + t.len(),
{
    let s = run('0', k) + t;
    if t.len() > 0 {
        assert(s.drop_last() =~= run('0', k) + t.drop_last());
        assert(s.last() == t.last());
        lemma_zeros_count_for_nothing(k, t.drop_last());
    } else if k > 0 {
        assert(s.drop_last() =~= run('0', (k - 1) as nat) + t);
        assert(s.last() == '0');
        lemma_zeros_count_for_nothing((k - 1) as nat, t);
    } else {
        assert(s =~= t);
    }
}

/// Digits are zeros and the decimal notation of the number that they denote.
pub proof fn lemma_digits_are_zeros_and_decimal(s: Seq<char>)
    requires
        s.len() > 0,
        all_digits(s),
    ensures
        decimal(digits_value(s)).len() <= s.len(),
        s == run('0', (s.len() - decimal(digits_value(s)).len()) as nat) + decimal(digits_value(s)),
    decreases s.len(),
{
    let v = digits_value(s);
    let c = s.last();
    assert(is_digit(s[s.len() - 1]));
    let d = (c as nat - '0' as nat) as nat;
    assert(digit_char(d) == c);
    let t = s.drop_last();
    if t.len() == 0 {
        assert(digits_value(t) == 0);
        assert(s =~= run('0', 0) + decimal(v));
    } else {
        assert forall|i: int| 0 <= i < t.len() implies is_digit(#[trigger] t[i]) by {
            assert(is_digit(s[i]));
        }
        lemma_digits_are_zeros_and_decimal(t);
        let w = digits_value(t);
        let k = (t.len() - decimal(w).len()) as nat;
        assert(v == w * 10 + d);
        if w == 0 {
            assert(decimal(w) =~= seq!['0']) by {
                assert(digit_char(0) == '0');
            }
            assert(t =~= run('0', k + 1));
            assert(decimal(v) =~= seq![c]);
            assert(s =~= run('0', k + 1) + decimal(v));
        } else {
            assert(v / 10 == w && v % 10 == d);
            assert(decimal(v) =~= decimal(w).push(c));
            assert(s =~= t.push(c));
            assert(s =~= run('0', k) + decimal(v));
        }
    }
}

/// Zeros and the decimal notation of a number denote the number.
pub proof fn lemma_zeros_and_decimal_denote(k: nat, n: nat)
    ensures
        all_digits(run('0', k) + decimal(n)),
        digits_value(run('0', k) + decimal(n)) == n,
{
    lemma_decimal_denotes(n);
    lemma_zeros_count_for_nothing(k, decimal(n));
    let s = run('0', k) + decimal(n);
    assert forall|i: int| 0 <= i < s.len() implies is_digit(#[trigger] s[i]) by {
        if i >= k {
            assert(is_digit(decimal(n)[i - k]));
        }
    }
}

/// A number that is written without leading zeros starts with a zero only where it is zero.
proof fn lemma_decimal_start(n: nat)
    ensures
        decimal(n).len() > 1 ==> decimal(n)[0] != '0',
        n < 10 ==> decimal(n).len() == 1,
        10 <= n < 100 ==> decimal(n).len() == 2,
        100 <= n < 1000 ==> decimal(n).len() == 3,
    decreases n,
{
    if n >= 10 {
        lemma_decimal_start(n / 10);
        if n < 100 {
            assert(decimal(n / 10)[0] == digit_char(n / 10));
        } else {
            lemma_decimal_denotes(n / 10 / 10);
        }
        assert(decimal(n)[0] == decimal(n / 10)[0]);
    }
}

/// An octet is written as its decimal notation and in no other way.
proof fn lemma_octet_is_decimal(s: Seq<char>, v: u8)
    ensures
        octet(s) == Some(v) <==> s == decimal(v as nat),
{
    if octet(s) == Some(v) {
        lemma_digits_are_zeros_and_decimal(s);
        let k = (s.len() - decimal(v as nat).len()) as nat;
        if k > 0 {
            assert(s[0] == run('0', k)[0]);
            lemma_decimal_denotes(v as nat);
        }
        assert(run('0', 0) + decimal(v as nat) =~= decimal(v as nat));
    }
    if s == decimal(v as nat) {
        lemma_decimal_denotes(v as nat);
        lemma_decimal_start(v as nat);
    }
}

/// The pieces with a separator between each two.
pub open spec fn joined(pieces: Seq<Seq<char>>, separator: char) -> Seq<char>
    decreases pieces.len(),
{
    if pieces.len() == 0 {
        Seq::empty()
    } else if pieces.len() == 1 {
        pieces[0]
    } else {
        joined(pieces.drop_last(), separator).push(separator) + pieces.last()
    }
}

/// Whether no piece holds the separator.
pub open spec fn apart(pieces: Seq<Seq<char>>, separator: char) -> bool {
    forall|i: int| 0 <= i < pieces.len() ==> !(#[trigger] pieces[i]).contains(separator)
}

/// Splitting takes a text apart into the pieces that make it up, none of which holds a separator.
pub proof fn lemma_split_pieces_make_up_the_text(s: Seq<char>, separator: char)
    ensures
        split(s, separator).len() >= 1,
        apart(split(s, separator), separator),
        joined(split(s, separator), separator) == s,
    decreases s.len(),
{
    let pieces = split(s, separator);
    if s.len() == 0 {
        assert(s =~= Seq::empty());
    } else {
        let front = split(s.drop_last(), separator);
        lemma_split_pieces_make_up_the_text(s.drop_last(), separator);
        assert forall|i: int| 0 <= i < pieces.len() implies !(#[trigger] pieces[i]).contains(
            separator,
        ) by {
            if i < front.len() - 1 || (s.last() == separator && i < front.len()) {
                assert(pieces[i] == front[i]);
            } else if s.last() != separator {
                let last = front[front.len() - 1];
                assert(!last.contains(separator));
                assert(pieces[i] == last.push(s.last()));
                assert forall|j: int| 0 <= j < pieces[i].len() implies pieces[i][j]
                    != separator by {
                    if j < last.len() {
                        assert(pieces[i][j] == last[j]);
                        assert(last.contains(last[j]));
                    }
                }
            }
        }
        if s.last() == separator {
            assert(pieces.drop_last() =~= front);
            assert(joined(pieces, separator) =~= s.drop_last().push(separator));
        } else {
            assert(pieces.drop_last() =~= front.drop_last());
            assert(joined(pieces, separator) =~= joined(front, separator).push(s.last()));
        }
        assert(s.drop_last().push(s.last()) =~= s);
    }
}

proof fn lemma_split_behind_separator(front: Seq<char>, piece: Seq<char>, separator: char)
    requires
        !piece.contains(separator),
    ensures
        split(front.push(separator) + piece, separator) == split(front, separator).push(piece),
    decreases piece.len(),
{
    let s = front.push(separator) + piece;
    if piece.len() == 0 {
        assert(s =~= front.push(separator));
        assert(s.drop_last() =~= front);
        assert(piece =~= Seq::empty());
    } else {
        let shorter = piece.drop_last();
        assert(piece.contains(piece[piece.len() - 1]));
        assert forall|j: int| 0 <= j < shorter.len() implies shorter[j] != separator by {
            assert(piece.contains(piece[j]));
        }
        lemma_split_behind_separator(front, shorter, separator);
        assert(s.drop_last() =~= front.push(separator) + shorter);
        assert(shorter.push(piece.last()) =~= piece);
        let before = split(front, separator);
        assert(before.push(shorter).drop_last() =~= before);
    }
}

proof fn lemma_split_one_piece(piece: Seq<char>, separator: char)
    requires
        !piece.contains(separator),
    ensures
        split(piece, separator) == seq![piece],
    decreases piece.len(),
{
    if piece.len() == 0 {
        assert(piece =~= Seq::empty());
    } else {
        let shorter = piece.drop_last();
        assert(piece.contains(piece[piece.len() - 1]));
        assert forall|j: int| 0 <= j < shorter.len() implies shorter[j] != separator by {
            assert(piece.contains(piece[j]));
        }
        lemma_split_one_piece(shorter, separator);
        assert(shorter.push(piece.last()) =~= piece);
        assert(split(piece, separator) =~= seq![piece]);
    }
}

/// Pieces that hold no separator are got back from the text that they make up.
pub proof fn lemma_joined_pieces_are_split_again(pieces: Seq<Seq<char>>, separator: char)
    requires
        pieces.len() >= 1,
        apart(pieces, separator),
    ensures
        split(joined(pieces, separator), separator) == pieces,
    decreases pieces.len(),
{
    let last = pieces[pieces.len() - 1];
    if pieces.len() == 1 {
        lemma_split_one_piece(last, separator);
        assert(pieces =~= seq![last]);
    } else {
        let front = pieces.drop_last();
        assert forall|i: int| 0 <= i < front.len() implies !(#[trigger] front[i]).contains(
            separator,
        ) by {
            assert(!pieces[i].contains(separator));
        }
        lemma_joined_pieces_are_split_again(front, separator);
        lemma_split_behind_separator(joined(front, separator), last, separator);
        assert(front.push(last) =~= pieces);
    }
}

/// Four numbers with dots between them.
pub open spec fn dotted(octets: (u8, u8, u8, u8)) -> Seq<char> {
    decimal(octets.0 as nat).push('.') + decimal(octets.1 as nat).push('.') + decimal(
        octets.2 as nat,
    ).push('.') + decimal(octets.3 as nat)
}

proof fn lemma_dotted_is_joined(octets: (u8, u8, u8, u8))
    ensures
        ({
            let pieces = seq![
                decimal(octets.0 as nat),
                decimal(octets.1 as nat),
                decimal(octets.2 as nat),
                decimal(octets.3 as nat),
            ];
            joined(pieces, '.') == dotted(octets) && apart(pieces, '.')
        }),
{
    let a = decimal(octets.0 as nat);
    let b = decimal(octets.1 as nat);
    let c = decimal(octets.2 as nat);
    let d = decimal(octets.3 as nat);
    let pieces = seq![a, b, c, d];
    assert(pieces.drop_last() =~= seq![a, b, c]);
    assert(seq![a, b, c].drop_last() =~= seq![a, b]);
    assert(seq![a, b].drop_last() =~= seq![a]);
    assert(joined(seq![a], '.') == a);
    assert(joined(seq![a, b], '.') == a.push('.') + b);
    assert(joined(seq![a, b, c], '.') == (a.push('.') + b).push('.') + c);
    assert(joined(pieces, '.') =~= dotted(octets));
    lemma_decimal_denotes(octets.0 as nat);
    lemma_decimal_denotes(octets.1 as nat);
    lemma_decimal_denotes(octets.2 as nat);
    lemma_decimal_denotes(octets.3 as nat);
    assert forall|i: int| 0 <= i < pieces.len() implies !(#[trigger] pieces[i]).contains('.') by {
        assert(all_digits(pieces[i]));
        assert forall|j: int| 0 <= j < pieces[i].len() implies pieces[i][j] != '.' by {
            assert(is_digit(pieces[i][j]));
        }
    }
}

/// A text denotes an IPv4 address exactly where it is the four octets of the address in decimal
/// notation, with dots between them.
pub proof fn lemma_ipv4_notation(s: Seq<char>, octets: (u8, u8, u8, u8))
    ensures
        ipv4(s) == Some(octets) <==> s == decimal(octets.0 as nat).push('.') + decimal(
            octets.1 as nat,
        ).push('.') + decimal(octets.2 as nat).push('.') + decimal(octets.3 as nat),
{
    let wanted = seq![
        decimal(octets.0 as nat),
        decimal(octets.1 as nat),
        decimal(octets.2 as nat),
        decimal(octets.3 as nat),
    ];
    let pieces = split(s, '.');
    lemma_dotted_is_joined(octets);
    lemma_split_pieces_make_up_the_text(s, '.');
    lemma_joined_pieces_are_split_again(wanted, '.');
    if pieces.len() == 4 {
        lemma_octet_is_decimal(pieces[0], octets.0);
        lemma_octet_is_decimal(pieces[1], octets.1);
        lemma_octet_is_decimal(pieces[2], octets.2);
        lemma_octet_is_decimal(pieces[3], octets.3);
        if ipv4(s) == Some(octets) {
            assert(pieces =~= wanted);
        }
    }
}

/// Whether a character is the hexadecimal digit for a number below sixteen, of either case.
pub open spec fn is_hex_digit_for(c: char, v: nat) -> bool {
    if v < 10 {
        c as nat == 48 + v
    } else {
        v < 16 && (c as nat == 87 + v || c as nat == 55 + v)
    }
}

/// Whether a text holds the sixteen-fold places of a number, from the right, and all of them.
pub open spec fn writes_hex(s: Seq<char>, v: nat) -> bool {
    &&& v < pow(16, s.len())
    &&& forall|i: int|
        0 <= i < s.len() ==> is_hex_digit_for(
            #[trigger] s[s.len() - 1 - i],
            ((v as int / pow(16, i as nat)) % 16) as nat,
        )
}

/// Whether a text is a group in hexadecimal notation: one to four digits.
pub open spec fn writes_group(s: Seq<char>, group: u16) -> bool {
    1 <= s.len() <= 4 && writes_hex(s, group as nat)
}

proof fn lemma_hex_digit(c: char, v: nat)
    ensures
        hex_digit(c) == Some(v) <==> is_hex_digit_for(c, v),
        hex_digit(c) is Some ==> hex_digit(c)->0 < 16,
{
}

proof fn lemma_hex_step(s: Seq<char>, v: nat)
    requires
        s.len() > 0,
    ensures
        writes_hex(s, v) <==> writes_hex(s.drop_last(), v / 16) && is_hex_digit_for(
            s.last(),
            v % 16,
        ),
{
    reveal(pow);
    let t = s.drop_last();
    let n = s.len() as int;
    assert(pow(16, n as nat) == 16 * pow(16, (n - 1) as nat));
    assert forall|i: int| 1 <= i implies #[trigger] (v as int / pow(16, i as nat)) == (v / 16) as int
        / pow(16, (i - 1) as nat) by {
        lemma_pow_positive(16, (i - 1) as nat);
        assert(pow(16, i as nat) == 16 * pow(16, (i - 1) as nat));
        lemma_div_denominator(v as int, 16, pow(16, (i - 1) as nat));
    }
    assert(pow(16, 0) == 1);
    if writes_hex(s, v) {
        assert(is_hex_digit_for(s[s.len() - 1 - 0], ((v as int / pow(16, 0)) % 16) as nat));
        assert forall|i: int| 0 <= i < t.len() implies is_hex_digit_for(
            #[trigger] t[t.len() - 1 - i],
            (((v / 16) as int / pow(16, i as nat)) % 16) as nat,
        ) by {
            assert(t[t.len() - 1 - i] == s[s.len() - 1 - (i + 1)]);
            assert(v as int / pow(16, (i + 1) as nat) == (v / 16) as int / pow(16, i as nat));
        }
    }
    if writes_hex(t, v / 16) && is_hex_digit_for(s.last(), v % 16) {
        assert forall|i: int| 0 <= i < s.len() implies is_hex_digit_for(
            #[trigger] s[s.len() - 1 - i],
            ((v as int / pow(16, i as nat)) % 16) as nat,
        ) by {
            if i > 0 {
                assert(s[s.len() - 1 - i] == t[t.len() - 1 - (i - 1)]);
                assert(v as int / pow(16, i as nat) == (v / 16) as int / pow(16, (i - 1) as nat));
            }
        }
    }
}

proof fn lemma_hex_notation(s: Seq<char>, v: nat)
    ensures
        hex_value(s) == Some(v) <==> writes_hex(s, v),
    decreases s.len(),
{
    reveal(pow);
    if s.len() > 0 {
        lemma_hex_notation(s.drop_last(), v / 16);
        lemma_hex_digit(s.last(), v % 16);
        lemma_hex_step(s, v);
    }
}

/// A text denotes a group exactly where it writes the group.
pub proof fn lemma_group_notation(s: Seq<char>, group: u16)
    ensures
        hex_group(s) == Some(group) <==> writes_group(s, group),
{
    lemma_hex_notation(s, group as nat);
    if hex_value(s) is Some && s.len() <= 4 {
        lemma_hex_notation(s, hex_value(s)->0);
        reveal_with_fuel(pow, 5);
        assert(hex_value(s)->0 < 65536);
    }
}

/// Two groups in the notation of an IPv4 address.
pub open spec fn dotted_groups(high: u16, low: u16) -> Seq<char> {
    dotted(((high / 256) as u8, (high % 256) as u8, (low / 256) as u8, (low % 256) as u8))
}

/// Whether pieces write groups: each piece one group, but that the last may write the last two in
/// the notation of an IPv4 address where that is allowed.
pub open spec fn writes_groups(pieces: Seq<Seq<char>>, groups: Seq<u16>, dotted_end: bool) -> bool {
    ||| pieces.len() == groups.len() && forall|i: int|
        0 <= i < pieces.len() ==> writes_group(#[trigger] pieces[i], groups[i])
    ||| dotted_end && pieces.len() >= 1 && groups.len() == pieces.len() + 1 && pieces.last()
        == dotted_groups(groups[groups.len() - 2], groups[groups.len() - 1]) && forall|i: int|
        0 <= i < pieces.len() - 1 ==> writes_group(#[trigger] pieces[i], groups[i])
}

/// Whether a text writes out the groups of an IPv6 address with colons between them.
pub open spec fn writes_in_full(s: Seq<char>, groups: Seq<u16>) -> bool {
    exists|pieces: Seq<Seq<char>>| #[trigger]
        writes_groups(pieces, groups, true) && s == joined(pieces, ':')
}

/// Whether a text writes the groups of an IPv6 address with `::` in place of those from `from` up
/// to `to`, which are zero.
pub open spec fn writes_with_gap(s: Seq<char>, groups: Seq<u16>, from: int, to: int) -> bool {
    &&& 0 <= from < to <= 8
    &&& forall|i: int| from <= i < to ==> #[trigger] groups[i] == 0
    &&& exists|head: Seq<Seq<char>>, tail: Seq<Seq<char>>| #[trigger]
        writes_groups(head, groups.take(from), false) && #[trigger] writes_groups(
            tail,
            groups.skip(to),
            true,
        ) && s == joined(head, ':') + seq![':', ':'] + joined(tail, ':')
}

/// Whether a text writes an IPv6 address.
pub open spec fn writes_ipv6(s: Seq<char>, groups: Seq<u16>) -> bool {
    groups.len() == 8 && (writes_in_full(s, groups) || exists|from: int, to: int| #[trigger]
        writes_with_gap(s, groups, from, to))
}

proof fn lemma_group_chars(s: Seq<char>, group: u16)
    requires
        writes_group(s, group),
    ensures
        !s.contains(':'),
        !s.contains('.'),
{
    assert forall|j: int| 0 <= j < s.len() implies s[j] != ':' && s[j] != '.' by {
        let i = s.len() - 1 - j;
        assert(is_hex_digit_for(
            s[s.len() - 1 - i],
            ((group as int / pow(16, i as nat)) % 16) as nat,
        ));
    }
}

proof fn lemma_dotted_chars(octets: (u8, u8, u8, u8))
    ensures
        dotted(octets).len() > 0,
        dotted(octets).contains('.'),
        !dotted(octets).contains(':'),
{
    let a = decimal(octets.0 as nat);
    let b = decimal(octets.1 as nat);
    let c = decimal(octets.2 as nat);
    let d = decimal(octets.3 as nat);
    let s = dotted(octets);
    lemma_decimal_denotes(octets.0 as nat);
    lemma_decimal_denotes(octets.1 as nat);
    lemma_decimal_denotes(octets.2 as nat);
    lemma_decimal_denotes(octets.3 as nat);
    assert(s[a.len() as int] == '.');
    assert forall|j: int| 0 <= j < s.len() implies s[j] != ':' by {
        if j < a.len() {
            assert(is_digit(a[j]));
        } else if j == a.len() {
        } else if j < a.len() + 1 + b.len() {
            assert(is_digit(b[j - a.len() - 1]));
        } else if j == a.len() + 1 + b.len() {
        } else if j < a.len() + b.len() + 2 + c.len() {
            assert(is_digit(c[j - a.len() - b.len() - 2]));
        } else if j == a.len() + b.len() + 2 + c.len() {
        } else {
            assert(is_digit(d[j - a.len() - b.len() - c.len() - 3]));
        }
    }
}

/// Each piece denotes one group where none may be dotted.
proof fn lemma_plain_groups(pieces: Seq<Seq<char>>, groups: Seq<u16>)
    ensures
        joined_groups(pieces, false) == Some(groups) <==> writes_groups(pieces, groups, false),
    decreases pieces.len(),
{
    if pieces.len() == 0 {
        if groups.len() == 0 {
            assert(groups =~= Seq::empty());
        }
    } else {
        let front = pieces.drop_last();
        let last = pieces[pieces.len() - 1];
        if groups.len() > 0 {
            let before = groups.drop_last();
            let group = groups[groups.len() - 1];
            lemma_plain_groups(front, before);
            lemma_group_notation(last, group);
            assert(forall|i: int| 0 <= i < front.len() ==> #[trigger] front[i] == pieces[i]);
            if writes_groups(pieces, groups, false) {
                assert forall|i: int| 0 <= i < front.len() implies writes_group(
                    #[trigger] front[i],
                    before[i],
                ) by {
                    assert(writes_group(pieces[i], groups[i]));
                }
                assert(writes_group(last, group));
                assert(groups =~= before + seq![group]);
            }
            if joined_groups(pieces, false) == Some(groups) {
                let found = joined_groups(front, false)->0;
                let more = piece_groups(last, false)->0;
                assert(groups == found + more);
                assert(more.len() == 1);
                assert(found =~= before);
                assert(more[0] == group);
                assert forall|i: int| 0 <= i < pieces.len() implies writes_group(
                    #[trigger] pieces[i],
                    groups[i],
                ) by {
                    if i < front.len() {
                        assert(writes_group(front[i], before[i]));
                    }
                }
            }
        } else if joined_groups(pieces, false) is Some {
            assert(piece_groups(last, false)->0.len() == 1);
        }
    }
}

/// Pieces denote groups exactly where they write them.
proof fn lemma_groups_notation(pieces: Seq<Seq<char>>, groups: Seq<u16>)
    ensures
        joined_groups(pieces, true) == Some(groups) <==> writes_groups(pieces, groups, true),
{
    lemma_plain_groups(pieces, groups);
    if pieces.len() == 0 {
    } else {
        let front = pieces.drop_last();
        let last = pieces[pieces.len() - 1];
        assert(forall|i: int| 0 <= i < front.len() ==> #[trigger] front[i] == pieces[i]);
        if hex_group(last) is Some {
            let group = hex_group(last)->0;
            lemma_group_notation(last, group);
            lemma_group_chars(last, group);
            assert(piece_groups(last, true) == piece_groups(last, false));
            if groups.len() >= 2 {
                let h = groups[groups.len() - 2];
                let l = groups[groups.len() - 1];
                lemma_dotted_chars(
                    ((h / 256) as u8, (h % 256) as u8, (l / 256) as u8, (l % 256) as u8),
                );
            }
        } else {
            if groups.len() >= 2 {
                let before = groups.take(groups.len() - 2);
                let h = groups[groups.len() - 2];
                let l = groups[groups.len() - 1];
                let octets = ((h / 256) as u8, (h % 256) as u8, (l / 256) as u8, (l % 256) as u8);
                lemma_plain_groups(front, before);
                lemma_ipv4_notation(last, octets);
                if writes_groups(pieces, groups, true) {
                    if pieces.len() == groups.len() {
                        assert(writes_group(last, groups[groups.len() - 1]));
                        lemma_group_notation(last, groups[groups.len() - 1]);
                    }
                    assert forall|i: int| 0 <= i < front.len() implies writes_group(
                        #[trigger] front[i],
                        before[i],
                    ) by {
                        assert(writes_group(pieces[i], groups[i]));
                    }
                    assert(piece_groups(last, true) == Some(seq![h, l]));
                    assert(groups =~= before + seq![h, l]);
                }
                if joined_groups(pieces, true) == Some(groups) {
                    let found = joined_groups(front, false)->0;
                    let more = piece_groups(last, true)->0;
                    let o = ipv4(last)->0;
                    assert(groups == found + more);
                    assert(more == seq![(o.0 * 256 + o.1) as u16, (o.2 * 256 + o.3) as u16]);
                    assert(found =~= before);
                    assert(more[0] == h && more[1] == l);
                    assert(octets == o);
                    assert forall|i: int| 0 <= i < pieces.len() - 1 implies writes_group(
                        #[trigger] pieces[i],
                        groups[i],
                    ) by {
                        assert(writes_group(front[i], before[i]));
                    }
                }
            } else {
                if joined_groups(pieces, true) == Some(groups) {
                    assert(piece_groups(last, true)->0.len() == 2);
                }
                if writes_groups(pieces, groups, true) {
                    assert(writes_group(last, groups[groups.len() - 1]));
                    lemma_group_notation(last, groups[groups.len() - 1]);
                }
            }
        }
    }
}

proof fn lemma_pieces_notation(pieces: Seq<Seq<char>>, groups: Seq<u16>, dotted_end: bool)
    ensures
        joined_groups(pieces, dotted_end) == Some(groups) <==> writes_groups(
            pieces,
            groups,
            dotted_end,
        ),
{
    if dotted_end {
        lemma_groups_notation(pieces, groups);
    } else {
        lemma_plain_groups(pieces, groups);
    }
}

/// Whether a text has no two colons side by side.
spec fn without_gap(s: Seq<char>) -> bool {
    forall|i: int| 0 <= i < s.len() - 1 ==> !(#[trigger] s[i] == ':' && s[i + 1] == ':')
}

/// Pieces that write groups are not empty and hold no colon.
proof fn lemma_pieces_chars(pieces: Seq<Seq<char>>, groups: Seq<u16>, dotted_end: bool)
    requires
        writes_groups(pieces, groups, dotted_end),
    ensures
        apart(pieces, ':'),
        forall|i: int| 0 <= i < pieces.len() ==> (#[trigger] pieces[i]).len() > 0,
{
    assert forall|i: int| 0 <= i < pieces.len() implies !(#[trigger] pieces[i]).contains(':')
        && pieces[i].len() > 0 by {
        if pieces.len() == groups.len() || i < pieces.len() - 1 {
            assert(writes_group(pieces[i], groups[i]));
            lemma_group_chars(pieces[i], groups[i]);
        } else {
            let h = groups[groups.len() - 2];
            let l = groups[groups.len() - 1];
            lemma_dotted_chars(
                ((h / 256) as u8, (h % 256) as u8, (l / 256) as u8, (l % 256) as u8),
            );
        }
    }
}

proof fn lemma_joined_without_gap(pieces: Seq<Seq<char>>)
    requires
        apart(pieces, ':'),
        forall|i: int| 0 <= i < pieces.len() ==> (#[trigger] pieces[i]).len() > 0,
    ensures
        without_gap(joined(pieces, ':')),
        pieces.len() > 0 ==> joined(pieces, ':').len() > 0 && joined(pieces, ':').last() != ':',
    decreases pieces.len(),
{
    if pieces.len() > 0 {
        let last = pieces[pieces.len() - 1];
        assert(!last.contains(':'));
        assert(forall|j: int| 0 <= j < last.len() ==> last.contains(#[trigger] last[j]));
        if pieces.len() > 1 {
            let front = pieces.drop_last();
            assert forall|i: int| 0 <= i < front.len() implies !(#[trigger] front[i]).contains(':')
                && front[i].len() > 0 by {
                assert(front[i] == pieces[i]);
            }
            lemma_joined_without_gap(front);
            let x = joined(front, ':');
            let s = joined(pieces, ':');
            assert(s == x.push(':') + last);
            assert forall|i: int| 0 <= i < s.len() - 1 implies !(#[trigger] s[i] == ':' && s[i + 1]
                == ':') by {
                if i < x.len() - 1 {
                    assert(s[i] == x[i] && s[i + 1] == x[i + 1]);
                } else if i == x.len() - 1 {
                    assert(s[i] == x.last());
                } else if i == x.len() {
                    assert(s[i + 1] == last[0]);
                } else {
                    assert(s[i] == last[i - x.len() - 1]);
                }
            }
        }
    }
}

/// A part denotes the groups that its pieces write.
proof fn lemma_written_part(pieces: Seq<Seq<char>>, groups: Seq<u16>, dotted_end: bool)
    requires
        writes_groups(pieces, groups, dotted_end),
    ensures
        part_groups(joined(pieces, ':'), dotted_end) == Some(groups),
        without_gap(joined(pieces, ':')),
        joined(pieces, ':').len() > 0 ==> joined(pieces, ':').last() != ':',
{
    lemma_pieces_chars(pieces, groups, dotted_end);
    lemma_joined_without_gap(pieces);
    if pieces.len() == 0 {
        assert(groups =~= Seq::empty());
    } else {
        lemma_joined_pieces_are_split_again(pieces, ':');
        lemma_pieces_notation(pieces, groups, dotted_end);
    }
}

/// The pieces of a part.
spec fn part_pieces(s: Seq<char>) -> Seq<Seq<char>> {
    if s.len() == 0 {
        Seq::empty()
    } else {
        split(s, ':')
    }
}

/// The pieces of a part write the groups that it denotes.
proof fn lemma_part_is_written(s: Seq<char>, dotted_end: bool)
    requires
        part_groups(s, dotted_end) is Some,
    ensures
        writes_groups(part_pieces(s), part_groups(s, dotted_end)->0, dotted_end),
        joined(part_pieces(s), ':') == s,
{
    if s.len() == 0 {
        assert(s =~= Seq::empty());
    } else {
        lemma_split_pieces_make_up_the_text(s, ':');
        lemma_pieces_notation(split(s, ':'), part_groups(s, dotted_end)->0, dotted_end);
    }
}

/// The first `::` of a text is the first place where two colons stand side by side.
proof fn lemma_gap(s: Seq<char>, from: int)
    requires
        0 <= from,
    ensures
        match gap_position(s, from) {
            Some(i) => from <= i < s.len() - 1 && s[i] == ':' && s[i + 1] == ':' && forall|j: int|
                from <= j < i ==> !(#[trigger] s[j] == ':' && s[j + 1] == ':'),
            None => forall|j: int|
                from <= j < s.len() - 1 ==> !(#[trigger] s[j] == ':' && s[j + 1] == ':'),
        },
    decreases s.len() - from,
{
    if from + 1 < s.len() {
        lemma_gap(s, from + 1);
    }
}

proof fn lemma_written_in_full(s: Seq<char>, groups: Seq<u16>)
    requires
        groups.len() == 8,
        writes_in_full(s, groups),
    ensures
        ipv6(s) == Some(groups),
{
    let pieces = choose|pieces: Seq<Seq<char>>| #[trigger]
        writes_groups(pieces, groups, true) && s == joined(pieces, ':');
    lemma_written_part(pieces, groups, true);
    lemma_gap(s, 0);
}

/// Two parts with `::` between them denote the groups of the first, zeros and the groups of the
/// second.
proof fn lemma_parts_round_a_gap(
    h: Seq<char>,
    t: Seq<char>,
    head: Seq<u16>,
    tail: Seq<u16>,
)
    requires
        part_groups(h, false) == Some(head),
        part_groups(t, true) == Some(tail),
        head.len() + tail.len() <= 7,
        without_gap(h),
        h.len() > 0 ==> h.last() != ':',
    ensures
        ipv6(h + seq![':', ':'] + t) == Some(
            head + zeros((8 - head.len() - tail.len()) as nat) + tail,
        ),
{
    let s = h + seq![':', ':'] + t;
    let n = h.len() as int;
    assert(s[n] == ':' && s[n + 1] == ':');
    assert(gap_position(s, 0) == Some(n)) by {
        lemma_gap(s, 0);
        let gap = gap_position(s, 0)->0;
        if gap < n - 1 {
            assert(s[gap] == h[gap] && s[gap + 1] == h[gap + 1]);
        } else if gap == n - 1 {
            assert(s[gap] == h.last());
        }
    }
    assert(s.take(n) =~= h);
    assert(s.skip(n + 2) =~= t);
}

proof fn lemma_written_with_gap(s: Seq<char>, groups: Seq<u16>, from: int, to: int)
    requires
        groups.len() == 8,
        writes_with_gap(s, groups, from, to),
    ensures
        ipv6(s) == Some(groups),
{
    let first = groups.take(from);
    let last = groups.skip(to);
    let (head, tail) = choose|head: Seq<Seq<char>>, tail: Seq<Seq<char>>| #[trigger]
        writes_groups(head, groups.take(from), false) && #[trigger] writes_groups(
            tail,
            groups.skip(to),
            true,
        ) && s == joined(head, ':') + seq![':', ':'] + joined(tail, ':');
    lemma_written_part(head, first, false);
    lemma_written_part(tail, last, true);
    lemma_parts_round_a_gap(joined(head, ':'), joined(tail, ':'), first, last);
    assert(first + zeros((8 - first.len() - last.len()) as nat) + last =~= groups);
}

/// A text denotes an IPv6 address exactly where it writes the address: its eight groups with
/// colons between them, or with `::` in place of one or more that are zero, each in one to four
/// hexadecimal digits of either case, but that the last two may be in the notation of an IPv4
/// address.
pub proof fn lemma_ipv6_notation(s: Seq<char>, groups: Seq<u16>)
    ensures
        ipv6(s) == Some(groups) <==> writes_ipv6(s, groups),
{
    if writes_ipv6(s, groups) {
        if writes_in_full(s, groups) {
            lemma_written_in_full(s, groups);
        } else {
            let (from, to) = choose|from: int, to: int| #[trigger]
                writes_with_gap(s, groups, from, to);
            lemma_written_with_gap(s, groups, from, to);
        }
    }
    if ipv6(s) == Some(groups) {
        lemma_gap(s, 0);
        match gap_position(s, 0) {
            None => {
                lemma_part_is_written(s, true);
                assert(writes_groups(part_pieces(s), groups, true));
            },
            Some(gap) => {
                let h = s.take(gap);
                let t = s.skip(gap + 2);
                lemma_part_is_written(h, false);
                lemma_part_is_written(t, true);
                let head = part_groups(h, false)->0;
                let tail = part_groups(t, true)->0;
                let from = head.len() as int;
                let to = 8 - tail.len();
                assert(groups == head + zeros((8 - head.len() - tail.len()) as nat) + tail);
                assert(groups.take(from) =~= head);
                assert(groups.skip(to) =~= tail);
                assert forall|i: int| from <= i < to implies #[trigger] groups[i] == 0 by {
                    assert(groups[i] == zeros((8 - head.len() - tail.len()) as nat)[i - from]);
                }
                assert(s =~= h + seq![':', ':'] + t);
                assert(writes_groups(part_pieces(h), groups.take(from), false));
                assert(writes_groups(part_pieces(t), groups.skip(to), true));
                assert(writes_with_gap(s, groups, from, to));
            },
        }
    }
}

/// Lower case adds 32 to the numbers of the twenty-six capital letters of ASCII text and keeps
/// every other character; what it makes of other text is what the standard library makes of it.
pub proof fn lemma_lower_case_letters(s: Seq<char>)
    ensures
        is_ascii_chars(s) ==> lowercase(s).len() == s.len() && forall|i: int|
            0 <= i < s.len() ==> #[trigger] lowercase(s)[i] as int == s[i] as int + (if 65
                <= s[i] as int <= 90 {
                32int
            } else {
                0
            }),
        !is_ascii_chars(s) ==> lowercase(s) == unicode_lowercase(s),
{
    assert(forall|i: int| 0 <= i < s.len() ==> ascii_lowercase(s)[i] == ascii_lower(s[i]));
}

/// Two addresses are the same exactly where they are equal in lower case or write the same IPv6
/// address.
pub proof fn lemma_same_address_meaning(a: Seq<char>, b: Seq<char>)
    ensures
        same_address(a, b) <==> lowercase(a) == lowercase(b) || exists|groups: Seq<u16>| #[trigger]
            writes_ipv6(a, groups) && writes_ipv6(b, groups),
{
    lemma_notations_are_apart(a);
    lemma_notations_are_apart(b);
    if ipv4(a) is Some && ipv4(a) == ipv4(b) {
        lemma_ipv4_notation(a, ipv4(a)->0);
        lemma_ipv4_notation(b, ipv4(a)->0);
    }
    if ipv6(a) is Some && ipv6(a) == ipv6(b) {
        lemma_ipv6_notation(a, ipv6(a)->0);
        lemma_ipv6_notation(b, ipv6(a)->0);
        assert(writes_ipv6(a, ipv6(a)->0));
    }
    if exists|groups: Seq<u16>| #[trigger] writes_ipv6(a, groups) && writes_ipv6(b, groups) {
        let groups = choose|groups: Seq<u16>| #[trigger]
            writes_ipv6(a, groups) && writes_ipv6(b, groups);
        lemma_ipv6_notation(a, groups);
        lemma_ipv6_notation(b, groups);
    }
}

/// Two IPv4 addresses are the same exactly where all four octets are equal.
pub proof fn lemma_same_ipv4_address(a: (u8, u8, u8, u8), b: (u8, u8, u8, u8))
    ensures
        same_address(
            decimal(a.0 as nat).push('.') + decimal(a.1 as nat).push('.') + decimal(
                a.2 as nat,
            ).push('.') + decimal(a.3 as nat),
            decimal(b.0 as nat).push('.') + decimal(b.1 as nat).push('.') + decimal(
                b.2 as nat,
            ).push('.') + decimal(b.3 as nat),
        ) <==> a.0 == b.0 && a.1 == b.1 && a.2 == b.2 && a.3 == b.3,
{
    lemma_ipv4_notation(dotted(a), a);
    lemma_ipv4_notation(dotted(b), b);
    lemma_ip_addresses_are_compared_by_value(dotted(a), dotted(b));
}

/// Two texts that write IPv6 addresses are the same address exactly where all eight groups are
/// equal.
pub proof fn lemma_same_ipv6_address(a: Seq<char>, b: Seq<char>, one: Seq<u16>, other: Seq<u16>)
    requires
        writes_ipv6(a, one),
        writes_ipv6(b, other),
    ensures
        same_address(a, b) <==> one == other,
{
    lemma_ipv6_notation(a, one);
    lemma_ipv6_notation(b, other);
    lemma_ip_addresses_are_compared_by_value(a, b);
}

/// Whether a text writes a port: its decimal notation, with zeros before it or none, and with a
/// plus sign before them or none.
pub open spec fn writes_port(s: Seq<char>, port: u16) -> bool {
    exists|zeros: nat|
        s == #[trigger] run('0', zeros) + decimal(port as nat) || s == seq!['+'] + (run('0', zeros)
            + decimal(port as nat))
}

/// A text denotes a port exactly where it writes the port.
pub proof fn lemma_port_notation(s: Seq<char>, port: u16)
    ensures
        port_number(s) == Some(port) <==> writes_port(s, port),
{
    let digits = if s.len() > 0 && s[0] == '+' {
        s.drop_first()
    } else {
        s
    };
    if port_number(s) == Some(port) {
        lemma_digits_are_zeros_and_decimal(digits);
        let zeros = (digits.len() - decimal(port as nat).len()) as nat;
        assert(digits == run('0', zeros) + decimal(port as nat));
        if s.len() > 0 && s[0] == '+' {
            assert(s =~= seq!['+'] + digits);
        }
    }
    if writes_port(s, port) {
        let zeros = choose|zeros: nat|
            s == #[trigger] run('0', zeros) + decimal(port as nat) || s == seq!['+'] + (run(
                '0',
                zeros,
            ) + decimal(port as nat));
        let t = run('0', zeros) + decimal(port as nat);
        lemma_zeros_and_decimal_denote(zeros, port as nat);
        lemma_decimal_denotes(port as nat);
        assert(is_digit(t[0]));
        if s == seq!['+'] + t {
            assert(s.drop_first() =~= t);
        }
        if s == t {
            assert(digits == t);
        } else {
            assert(digits =~= t);
        }
    }
}

/// Whether a text is a host with brackets before and behind it, or with none.
pub open spec fn bracketed(s: Seq<char>, host: Seq<char>) -> bool {
    &&& host.len() > 0 ==> host[0] != '[' && host.last() != ']'
    &&& exists|before: nat, behind: nat|
        s == #[trigger] run('[', before) + host + #[trigger] run(']', behind)
}

proof fn lemma_trim_start(s: Seq<char>, c: char) -> (n: nat)
    ensures
        s == run(c, n) + trim_start(s, c),
        trim_start(s, c).len() > 0 ==> trim_start(s, c)[0] != c,
    decreases s.len(),
{
    if s.len() > 0 && s[0] == c {
        let n = lemma_trim_start(s.drop_first(), c);
        assert(s =~= seq![c] + s.drop_first());
        assert(s =~= run(c, n + 1) + trim_start(s, c));
        n + 1
    } else {
        assert(s =~= run(c, 0) + s);
        0
    }
}

proof fn lemma_trim_end(s: Seq<char>, c: char) -> (n: nat)
    ensures
        s == trim_end(s, c) + run(c, n),
        trim_end(s, c).len() > 0 ==> trim_end(s, c).last() != c,
    decreases s.len(),
{
    if s.len() > 0 && s.last() == c {
        let n = lemma_trim_end(s.drop_last(), c);
        assert(s =~= s.drop_last().push(c));
        assert(s =~= trim_end(s, c) + run(c, n + 1));
        n + 1
    } else {
        assert(s =~= s + run(c, 0));
        0
    }
}

proof fn lemma_run_is_trimmed_at_start(c: char, n: nat, s: Seq<char>)
    requires
        s.len() > 0 ==> s[0] != c,
    ensures
        trim_start(run(c, n) + s, c) == s,
    decreases n,
{
    if n == 0 {
        assert(run(c, n) + s =~= s);
    } else {
        assert((run(c, n) + s).drop_first() =~= run(c, (n - 1) as nat) + s);
        lemma_run_is_trimmed_at_start(c, (n - 1) as nat, s);
    }
}

proof fn lemma_run_is_trimmed_at_end(c: char, n: nat, s: Seq<char>)
    requires
        s.len() > 0 ==> s.last() != c,
    ensures
        trim_end(s + run(c, n), c) == s,
    decreases n,
{
    if n == 0 {
        assert(s + run(c, n) =~= s);
    } else {
        assert((s + run(c, n)).drop_last() =~= s + run(c, (n - 1) as nat));
        lemma_run_is_trimmed_at_end(c, (n - 1) as nat, s);
    }
}

/// Taking the brackets off a text gives the host that it puts in brackets.
proof fn lemma_brackets(s: Seq<char>, host: Seq<char>)
    ensures
        trim_end(trim_start(s, '['), ']') == host <==> bracketed(s, host),
{
    if trim_end(trim_start(s, '['), ']') == host {
        let started = trim_start(s, '[');
        let before = lemma_trim_start(s, '[');
        let behind = lemma_trim_end(started, ']');
        assert(s =~= run('[', before) + host + run(']', behind));
        if host.len() > 0 {
            assert(started[0] == host[0]);
        }
    }
    if bracketed(s, host) {
        let (before, behind) = choose|before: nat, behind: nat|
            s == #[trigger] run('[', before) + host + #[trigger] run(']', behind);
        let rest = host + run(']', behind);
        assert(s =~= run('[', before) + rest);
        lemma_run_is_trimmed_at_start('[', before, rest);
        lemma_run_is_trimmed_at_end(']', behind, host);
    }
}

/// The last occurrence of a character has none behind it.
proof fn lemma_last_position(s: Seq<char>, c: char)
    ensures
        match last_position(s, c) {
            Some(i) => 0 <= i < s.len() && s[i] == c && forall|j: int|
                i < j < s.len() ==> #[trigger] s[j] != c,
            None => forall|j: int| 0 <= j < s.len() ==> #[trigger] s[j] != c,
        },
    decreases s.len(),
{
    if s.len() > 0 && s.last() != c {
        let front = s.drop_last();
        lemma_last_position(front, c);
        assert forall|j: int|
            0 <= j < s.len() && (last_position(s, c) matches Some(i) ==> i < j) implies #[trigger] s[j]
            != c by {
            if j < front.len() {
                assert(front[j] == s[j]);
            }
        }
    }
}

/// Whether an address writes a host, in brackets or not, a colon and a port.
pub open spec fn writes_host_port(addr: Seq<char>, host: Seq<char>, port: u16) -> bool {
    exists|front: Seq<char>, back: Seq<char>| #[trigger]
        bracketed(front, host) && #[trigger] writes_port(back, port) && addr == front.push(':')
            + back
}

proof fn lemma_port_chars(s: Seq<char>, port: u16)
    requires
        writes_port(s, port),
    ensures
        forall|j: int| 0 <= j < s.len() ==> #[trigger] s[j] != ':',
{
    let zeros = choose|zeros: nat|
        s == #[trigger] run('0', zeros) + decimal(port as nat) || s == seq!['+'] + (run('0', zeros)
            + decimal(port as nat));
    let t = run('0', zeros) + decimal(port as nat);
    lemma_zeros_and_decimal_denote(zeros, port as nat);
    assert forall|j: int| 0 <= j < s.len() implies #[trigger] s[j] != ':' by {
        if s == t {
            assert(is_digit(t[j]));
        } else if j > 0 {
            assert(s[j] == t[j - 1]);
            assert(is_digit(t[j - 1]));
        }
    }
}

/// An address denotes a host and a port exactly where it writes them.
pub proof fn lemma_host_port_notation(addr: Seq<char>, host: Seq<char>, port: u16)
    ensures
        host_port(addr) == Some((host, port)) <==> writes_host_port(addr, host, port),
{
    lemma_last_position(addr, ':');
    if host_port(addr) == Some((host, port)) {
        let i = last_position(addr, ':')->0;
        let front = addr.take(i);
        let back = addr.skip(i + 1);
        lemma_port_notation(back, port);
        lemma_brackets(front, host);
        assert(bracketed(front, host) && writes_port(back, port));
        assert(addr =~= front.push(':') + back);
    }
    if writes_host_port(addr, host, port) {
        let (front, back) = choose|front: Seq<char>, back: Seq<char>| #[trigger]
            bracketed(front, host) && #[trigger] writes_port(back, port) && addr == front.push(':')
                + back;
        let n = front.len() as int;
        lemma_port_chars(back, port);
        lemma_port_notation(back, port);
        lemma_brackets(front, host);
        assert(addr[n] == ':');
        let i = last_position(addr, ':')->0;
        assert(i == n) by {
            if i > n {
                assert(addr[i] == back[i - n - 1]);
            }
        }
        assert(addr.take(n) =~= front);
        assert(addr.skip(n + 1) =~= back);
    }
}

} // verus!
