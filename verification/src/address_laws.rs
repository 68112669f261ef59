//! What holds of the reading and the comparing of addresses.
use crate::connection::host_port;
use crate::ip::{
    gap_position, hex_digit, hex_group, hex_value, ipv4, ipv6, joined_groups, octet, part_groups,
};
use crate::policy::{limit_of, lookup, same_address, used_of, RuleView};
use crate::policy_laws::lemma_lookup_is_first;
use crate::text::{
    all_digits, ascii_lower, ascii_lowercase, decimal, digit_char, digits_value, is_digit,
    last_position, lowercase, split, trim_end, trim_start,
};
use vstd::prelude::*;
use vstd::utf8::is_ascii_chars;

verus! {

/// The decimal notation of a number consists of digits and denotes the number.
pub proof fn lemma_decimal_denotes(n: nat)
    ensures
        decimal(n).len() >= 1,
        all_digits(decimal(n)),
        digits_value(decimal(n)) == n,
    decreases n,
{
    if n < 10 {
        assert(decimal(n).drop_last() =~= Seq::empty());
        assert(digits_value(Seq::empty()) == 0);
        assert(is_digit(digit_char(n)));
    } else {
        lemma_decimal_denotes(n / 10);
        assert(decimal(n).drop_last() =~= decimal(n / 10));
        assert(is_digit(digit_char(n % 10)));
        assert(all_digits(decimal(n))) by {
            assert forall|i: int| 0 <= i < decimal(n).len() implies is_digit(
                #[trigger] decimal(n)[i],
            ) by {
                if i < decimal(n / 10).len() {
                    assert(is_digit(decimal(n / 10)[i]));
                }
            }
        }
    }
}

/// Behind a colon, digits hold no other.
proof fn lemma_last_colon(front: Seq<char>, digits: Seq<char>)
    requires
        all_digits(digits),
    ensures
        last_position(front.push(':') + digits, ':') == Some(front.len() as int),
    decreases digits.len(),
{
    let whole = front.push(':') + digits;
    if digits.len() == 0 {
        assert(whole.last() == ':');
    } else {
        assert(is_digit(digits[digits.len() - 1]));
        assert(whole.last() == digits.last());
        assert(whole.drop_last() =~= front.push(':') + digits.drop_last());
        assert(all_digits(digits.drop_last())) by {
            assert forall|i: int| 0 <= i < digits.drop_last().len() implies is_digit(
                #[trigger] digits.drop_last()[i],
            ) by {
                assert(is_digit(digits[i]));
            }
        }
        lemma_last_colon(front, digits.drop_last());
    }
}

/// A host and a port that are written as `host:port` are read back, but for brackets round the
/// host.
pub proof fn lemma_host_and_port_are_read_back(host: Seq<char>, port: u16)
    ensures
        host_port(host.push(':') + decimal(port as nat)) == Some(
            (trim_end(trim_start(host, '['), ']'), port),
        ),
{
    let digits = decimal(port as nat);
    let addr = host.push(':') + digits;
    lemma_decimal_denotes(port as nat);
    lemma_last_colon(host, digits);
    assert(addr.take(host.len() as int) =~= host);
    assert(addr.skip(host.len() as int + 1) =~= digits);
    assert(is_digit(digits[0]));
}

/// A host without brackets at its ends is read back from `host:port` and from `[host]:port`.
pub proof fn lemma_plain_host_is_read_back(host: Seq<char>, port: u16)
    requires
        host.len() > 0 ==> host[0] != '[' && host.last() != ']',
    ensures
        host_port(host.push(':') + decimal(port as nat)) == Some((host, port)),
        host_port((seq!['['] + host).push(']').push(':') + decimal(port as nat)) == Some(
            (host, port),
        ),
{
    lemma_host_and_port_are_read_back(host, port);
    let bracketed = (seq!['['] + host).push(']');
    lemma_host_and_port_are_read_back(bracketed, port);
    reveal_with_fuel(trim_start, 3);
    reveal_with_fuel(trim_end, 3);
    assert(bracketed.drop_first() =~= host.push(']'));
    assert(host.push(']').drop_last() =~= host);
}

/// Every address is the same as itself, and it does not matter which of two is asked about.
pub proof fn lemma_same_address_is_symmetric(a: Seq<char>, b: Seq<char>)
    ensures
        same_address(a, a),
        same_address(a, b) == same_address(b, a),
{
}

/// Splitting and changing to lower case can be done in either order.
proof fn lemma_split_lowercase(s: Seq<char>, separator: char)
    requires
        separator == '.' || separator == ':',
    ensures
        split(s, separator).len() >= 1,
        split(ascii_lowercase(s), separator) == split(s, separator).map_values(
            |piece: Seq<char>| ascii_lowercase(piece),
        ),
    decreases s.len(),
{
    let lower = |piece: Seq<char>| ascii_lowercase(piece);
    if s.len() == 0 {
        assert(ascii_lowercase(Seq::empty()) =~= Seq::empty());
        assert(ascii_lowercase(s) =~= Seq::empty());
        assert(split(ascii_lowercase(s), separator) =~= split(s, separator).map_values(lower));
    } else {
        let front = s.drop_last();
        lemma_split_lowercase(front, separator);
        assert(ascii_lowercase(s).drop_last() =~= ascii_lowercase(front));
        assert(ascii_lowercase(s).last() == ascii_lower(s.last()));
        let pieces = split(front, separator);
        assert(ascii_lowercase(Seq::empty()) =~= Seq::empty());
        assert(ascii_lowercase(pieces.last().push(s.last())) =~= ascii_lowercase(
            pieces.last(),
        ).push(ascii_lower(s.last())));
        assert(split(ascii_lowercase(s), separator) =~= split(s, separator).map_values(lower));
    }
}

proof fn lemma_octet_lowercase(s: Seq<char>)
    ensures
        octet(ascii_lowercase(s)) == octet(s),
{
    let lower = ascii_lowercase(s);
    if all_digits(s) {
        assert(lower =~= s) by {
            assert forall|i: int| 0 <= i < s.len() implies #[trigger] lower[i] == s[i] by {
                assert(is_digit(s[i]));
            }
        }
    } else {
        let i = choose|i: int| 0 <= i < s.len() && !is_digit(#[trigger] s[i]);
        assert(!is_digit(lower[i]));
    }
}

/// The IPv4 address that a text denotes does not depend on the case of its letters.
proof fn lemma_ipv4_lowercase(s: Seq<char>)
    ensures
        ipv4(ascii_lowercase(s)) == ipv4(s),
{
    lemma_split_lowercase(s, '.');
    let pieces = split(s, '.');
    if pieces.len() == 4 {
        lemma_octet_lowercase(pieces[0]);
        lemma_octet_lowercase(pieces[1]);
        lemma_octet_lowercase(pieces[2]);
        lemma_octet_lowercase(pieces[3]);
    }
}

proof fn lemma_hex_value_lowercase(s: Seq<char>)
    ensures
        hex_value(ascii_lowercase(s)) == hex_value(s),
    decreases s.len(),
{
    if s.len() > 0 {
        lemma_hex_value_lowercase(s.drop_last());
        assert(ascii_lowercase(s).drop_last() =~= ascii_lowercase(s.drop_last()));
        assert(ascii_lowercase(s).last() == ascii_lower(s.last()));
        assert(hex_digit(ascii_lower(s.last())) == hex_digit(s.last()));
    }
}

proof fn lemma_joined_groups_lowercase(pieces: Seq<Seq<char>>, dotted: bool)
    ensures
        joined_groups(
            pieces.map_values(|piece: Seq<char>| ascii_lowercase(piece)),
            dotted,
        ) == joined_groups(pieces, dotted),
    decreases pieces.len(),
{
    if pieces.len() > 0 {
        let lower = |piece: Seq<char>| ascii_lowercase(piece);
        lemma_joined_groups_lowercase(pieces.drop_last(), false);
        assert(pieces.map_values(lower).drop_last() =~= pieces.drop_last().map_values(lower));
        lemma_hex_value_lowercase(pieces.last());
        lemma_ipv4_lowercase(pieces.last());
    }
}

proof fn lemma_part_groups_lowercase(s: Seq<char>, dotted: bool)
    ensures
        part_groups(ascii_lowercase(s), dotted) == part_groups(s, dotted),
{
    lemma_split_lowercase(s, ':');
    lemma_joined_groups_lowercase(split(s, ':'), dotted);
}

proof fn lemma_gap_lowercase(s: Seq<char>, from: int)
    requires
        0 <= from,
    ensures
        gap_position(ascii_lowercase(s), from) == gap_position(s, from),
        gap_position(s, from) matches Some(i) ==> 0 <= i && i + 2 <= s.len(),
    decreases s.len() - from,
{
    if from + 1 < s.len() {
        lemma_gap_lowercase(s, from + 1);
    }
}

/// The IPv6 address that a text denotes does not depend on the case of its letters.
proof fn lemma_ipv6_lowercase(s: Seq<char>)
    ensures
        ipv6(ascii_lowercase(s)) == ipv6(s),
{
    lemma_gap_lowercase(s, 0);
    match gap_position(s, 0) {
        None => lemma_part_groups_lowercase(s, true),
        Some(gap) => {
            assert(ascii_lowercase(s).take(gap) =~= ascii_lowercase(s.take(gap)));
            assert(ascii_lowercase(s).skip(gap + 2) =~= ascii_lowercase(s.skip(gap + 2)));
            lemma_part_groups_lowercase(s.take(gap), false);
            lemma_part_groups_lowercase(s.skip(gap + 2), true);
        },
    }
}

/// Whether `c` is an ASCII character.
spec fn is_ascii_char(c: char) -> bool {
    '\0' <= c <= '\u{7f}'
}

/// What holds of every character of every piece, and of the separator, holds of every character of
/// the text.
proof fn lemma_split_chars(s: Seq<char>, separator: char, holds: spec_fn(char) -> bool)
    requires
        holds(separator),
        forall|i: int, j: int|
            0 <= i < split(s, separator).len() && 0 <= j < split(s, separator)[i].len() ==> holds(
                #[trigger] split(s, separator)[i][j],
            ),
    ensures
        split(s, separator).len() >= 1,
        forall|k: int| 0 <= k < s.len() ==> holds(#[trigger] s[k]),
    decreases s.len(),
{
    if s.len() > 0 {
        let front = s.drop_last();
        let pieces = split(front, separator);
        let whole = split(s, separator);
        lemma_split_nonempty(front, separator);
        assert forall|i: int, j: int|
            0 <= i < pieces.len() && 0 <= j < pieces[i].len() implies holds(
            #[trigger] pieces[i][j],
        ) by {
            assert(whole[i][j] == pieces[i][j]);
        }
        lemma_split_chars(front, separator, holds);
        if s.last() != separator {
            let last = whole.len() - 1;
            assert(whole[last][whole[last].len() - 1] == s.last());
        }
        assert forall|k: int| 0 <= k < s.len() implies holds(#[trigger] s[k]) by {
            if k < front.len() {
                assert(holds(front[k]));
            }
        }
    }
}

/// A text has a piece.
proof fn lemma_split_nonempty(s: Seq<char>, separator: char)
    ensures
        split(s, separator).len() >= 1,
    decreases s.len(),
{
    if s.len() > 0 {
        lemma_split_nonempty(s.drop_last(), separator);
    }
}

/// A text without the separator is its only piece.
proof fn lemma_split_whole(s: Seq<char>, separator: char)
    requires
        forall|k: int| 0 <= k < s.len() ==> #[trigger] s[k] != separator,
    ensures
        split(s, separator) == seq![s],
    decreases s.len(),
{
    if s.len() > 0 {
        let front = s.drop_last();
        assert(s[s.len() - 1] != separator);
        assert forall|k: int| 0 <= k < front.len() implies #[trigger] front[k] != separator by {
            assert(s[k] != separator);
        }
        lemma_split_whole(front, separator);
        assert(front.push(s.last()) =~= s);
        assert(split(s, separator) =~= seq![s]);
    } else {
        assert(s =~= Seq::empty());
        assert(split(s, separator) =~= seq![s]);
    }
}

/// An IPv4 address is written with digits and dots.
proof fn lemma_ipv4_chars(s: Seq<char>)
    requires
        ipv4(s) is Some,
    ensures
        forall|k: int| 0 <= k < s.len() ==> is_digit(#[trigger] s[k]) || s[k] == '.',
{
    let pieces = split(s, '.');
    let holds = |c: char| is_digit(c) || c == '.';
    assert forall|i: int, j: int| 0 <= i < pieces.len() && 0 <= j < pieces[i].len() implies holds(
        #[trigger] pieces[i][j],
    ) by {
        assert(octet(pieces[i]) is Some);
    }
    lemma_split_chars(s, '.', holds);
    assert forall|k: int| 0 <= k < s.len() implies is_digit(#[trigger] s[k]) || s[k] == '.' by {
        assert(holds(s[k]));
    }
}

proof fn lemma_no_gap_without_colon(s: Seq<char>, from: int)
    requires
        0 <= from,
        forall|k: int| 0 <= k < s.len() ==> #[trigger] s[k] != ':',
    ensures
        gap_position(s, from) is None,
    decreases s.len() - from,
{
    if from + 1 < s.len() {
        assert(s[from] != ':');
        lemma_no_gap_without_colon(s, from + 1);
    }
}

/// No text denotes both an IPv4 and an IPv6 address.
pub proof fn lemma_notations_are_apart(s: Seq<char>)
    ensures
        ipv4(s) is None || ipv6(s) is None,
{
    if ipv4(s) is Some {
        lemma_ipv4_chars(s);
        assert forall|k: int| 0 <= k < s.len() implies #[trigger] s[k] != ':' by {
            assert(is_digit(s[k]) || s[k] == '.');
        }
        lemma_no_gap_without_colon(s, 0);
        lemma_split_whole(s, ':');
        reveal_with_fuel(joined_groups, 2);
        assert(seq![s].drop_last() =~= Seq::empty());
        assert(split(s, ':').last() == s);
    }
}

proof fn lemma_hex_value_chars(s: Seq<char>)
    requires
        hex_value(s) is Some,
    ensures
        forall|k: int| 0 <= k < s.len() ==> is_ascii_char(#[trigger] s[k]),
    decreases s.len(),
{
    if s.len() > 0 {
        lemma_hex_value_chars(s.drop_last());
        assert forall|k: int| 0 <= k < s.len() implies is_ascii_char(#[trigger] s[k]) by {
            if k < s.len() - 1 {
                assert(is_ascii_char(s.drop_last()[k]));
            }
        }
    }
}

proof fn lemma_joined_groups_chars(pieces: Seq<Seq<char>>, dotted: bool)
    requires
        joined_groups(pieces, dotted) is Some,
    ensures
        forall|i: int, j: int|
            0 <= i < pieces.len() && 0 <= j < pieces[i].len() ==> is_ascii_char(
                #[trigger] pieces[i][j],
            ),
    decreases pieces.len(),
{
    if pieces.len() > 0 {
        let last = pieces.last();
        lemma_joined_groups_chars(pieces.drop_last(), false);
        if hex_group(last) is Some {
            lemma_hex_value_chars(last);
        } else {
            lemma_ipv4_chars(last);
        }
        assert forall|i: int, j: int|
            0 <= i < pieces.len() && 0 <= j < pieces[i].len() implies is_ascii_char(
            #[trigger] pieces[i][j],
        ) by {
            if i < pieces.len() - 1 {
                assert(is_ascii_char(pieces.drop_last()[i][j]));
            } else if hex_group(last) is None {
                assert(is_digit(last[j]) || last[j] == '.');
            } else {
                assert(is_ascii_char(last[j]));
            }
        }
    }
}

proof fn lemma_part_chars(s: Seq<char>, dotted: bool)
    requires
        part_groups(s, dotted) is Some,
    ensures
        forall|k: int| 0 <= k < s.len() ==> is_ascii_char(#[trigger] s[k]),
{
    if s.len() > 0 {
        lemma_joined_groups_chars(split(s, ':'), dotted);
        lemma_split_chars(s, ':', |c: char| is_ascii_char(c));
        assert forall|k: int| 0 <= k < s.len() implies is_ascii_char(#[trigger] s[k]) by {
            assert((|c: char| is_ascii_char(c))(s[k]));
        }
    }
}

/// An IP address is written in ASCII.
pub proof fn lemma_ip_addresses_are_ascii(s: Seq<char>)
    requires
        ipv4(s) is Some || ipv6(s) is Some,
    ensures
        is_ascii_chars(s),
{
    if ipv4(s) is Some {
        lemma_ipv4_chars(s);
        assert forall|k: int| 0 <= k < s.len() implies '\0' <= #[trigger] s[k] <= '\u{7f}' by {
            assert(is_digit(s[k]) || s[k] == '.');
        }
    } else {
        lemma_gap_lowercase(s, 0);
        match gap_position(s, 0) {
            None => {
                lemma_part_chars(s, true);
                assert forall|k: int| 0 <= k < s.len() implies '\0' <= #[trigger] s[k]
                    <= '\u{7f}' by {
                    assert(is_ascii_char(s[k]));
                }
            },
            Some(gap) => {
                lemma_part_chars(s.take(gap), false);
                lemma_part_chars(s.skip(gap + 2), true);
                lemma_gap_is_two_colons(s, 0);
                assert forall|k: int| 0 <= k < s.len() implies '\0' <= #[trigger] s[k]
                    <= '\u{7f}' by {
                    if k < gap {
                        assert(is_ascii_char(s.take(gap)[k]));
                    } else if k >= gap + 2 {
                        assert(is_ascii_char(s.skip(gap + 2)[k - gap - 2]));
                    }
                }
            },
        }
    }
}

proof fn lemma_gap_is_two_colons(s: Seq<char>, from: int)
    requires
        0 <= from,
    ensures
        gap_position(s, from) matches Some(i) ==> s[i] == ':' && s[i + 1] == ':',
    decreases s.len() - from,
{
    if from + 1 < s.len() {
        lemma_gap_is_two_colons(s, from + 1);
    }
}

/// Two IP addresses are the same exactly where they denote the same address, whatever the
/// notation of each.
pub proof fn lemma_ip_addresses_are_compared_by_value(a: Seq<char>, b: Seq<char>)
    ensures
        ipv4(a) is Some && ipv4(b) is Some ==> same_address(a, b) == (ipv4(a) == ipv4(b)),
        ipv6(a) is Some && ipv6(b) is Some ==> same_address(a, b) == (ipv6(a) == ipv6(b)),
        ipv4(a) is Some && ipv6(b) is Some ==> !same_address(a, b),
{
    lemma_notations_are_apart(a);
    lemma_notations_are_apart(b);
    lemma_ipv4_lowercase(a);
    lemma_ipv4_lowercase(b);
    lemma_ipv6_lowercase(a);
    lemma_ipv6_lowercase(b);
    if ipv4(a) is Some || ipv6(a) is Some {
        lemma_ip_addresses_are_ascii(a);
    }
    if ipv4(b) is Some || ipv6(b) is Some {
        lemma_ip_addresses_are_ascii(b);
    }
}

/// Whether a text denotes an IP address.
pub open spec fn is_ip(s: Seq<char>) -> bool {
    ipv4(s) is Some || ipv6(s) is Some
}

/// Whether lower case does not make an IP address of a text that is none: the text is ASCII, or
/// its lower case is no IP address.
pub open spec fn plain(s: Seq<char>) -> bool {
    is_ascii_chars(s) || !is_ip(lowercase(s))
}

proof fn lemma_plain_lowercase(s: Seq<char>, ip: Seq<char>)
    requires
        is_ip(ip),
        plain(s),
        lowercase(s) == lowercase(ip),
    ensures
        ipv4(s) == ipv4(ip),
        ipv6(s) == ipv6(ip),
{
    lemma_ip_addresses_are_ascii(ip);
    lemma_ipv4_lowercase(s);
    lemma_ipv4_lowercase(ip);
    lemma_ipv6_lowercase(s);
    lemma_ipv6_lowercase(ip);
}

/// Two addresses that are the same as a third are the same as each other.
pub proof fn lemma_same_address_is_transitive(a: Seq<char>, b: Seq<char>, c: Seq<char>)
    requires
        is_ip(b) ==> plain(a) && plain(c),
        same_address(a, b),
        same_address(b, c),
    ensures
        same_address(a, c),
{
    if is_ip(b) {
        lemma_notations_are_apart(b);
        lemma_notations_are_apart(a);
        lemma_notations_are_apart(c);
        if lowercase(a) == lowercase(b) {
            lemma_plain_lowercase(a, b);
        }
        if lowercase(b) == lowercase(c) {
            lemma_plain_lowercase(c, b);
        }
    }
}

/// Where an IP address is among two addresses and those of the rules, lower case makes none of any
/// of them.
pub open spec fn comparable(rules: Seq<RuleView>, a: Seq<char>, b: Seq<char>) -> bool {
    is_ip(a) || is_ip(b) || (exists|i: int|
        0 <= i < rules.len() && is_ip((#[trigger] rules[i]).address)) ==> plain(a) && plain(b)
        && forall|i: int| 0 <= i < rules.len() ==> plain((#[trigger] rules[i]).address)
}

/// The same rule decides on two addresses that are the same, on every port, so that both are
/// allowed or neither, with the same limit and the same count.
pub proof fn lemma_same_address_same_rule(
    rules: Seq<RuleView>,
    a: Seq<char>,
    b: Seq<char>,
    port: u16,
)
    requires
        comparable(rules, a, b),
        same_address(a, b),
    ensures
        lookup(rules, a, port) == lookup(rules, b, port),
        limit_of(rules, a, port) == limit_of(rules, b, port),
        used_of(rules, a, port) == used_of(rules, b, port),
    decreases rules.len(),
{
    if rules.len() > 0 {
        let front = rules.drop_last();
        let last = rules[rules.len() - 1].address;
        assert(forall|i: int| 0 <= i < front.len() ==> #[trigger] front[i] == rules[i]);
        lemma_same_address_same_rule(front, a, b, port);
        lemma_same_address_is_symmetric(a, b);
        if same_address(last, a) {
            lemma_same_address_is_transitive(last, a, b);
        }
        if same_address(last, b) {
            lemma_same_address_is_transitive(last, b, a);
        }
    }
}

/// Two addresses that a rule decides on are the same.
pub proof fn lemma_same_rule_same_address(
    rules: Seq<RuleView>,
    a: Seq<char>,
    b: Seq<char>,
    port: u16,
    other_port: u16,
)
    requires
        comparable(rules, a, b),
        lookup(rules, a, port) is Some,
        lookup(rules, a, port) == lookup(rules, b, other_port),
    ensures
        port == other_port,
        same_address(a, b),
{
    lemma_lookup_is_first(rules, a, port);
    lemma_lookup_is_first(rules, b, other_port);
    let address = rules[lookup(rules, a, port)->0].address;
    lemma_same_address_is_symmetric(address, a);
    lemma_same_address_is_transitive(a, address, b);
}

/// Two ASCII texts that differ at most in the case of their letters are the same address as the
/// same addresses, so that the same rule decides on both.
pub proof fn lemma_case_does_not_matter(
    rules: Seq<RuleView>,
    a: Seq<char>,
    b: Seq<char>,
    port: u16,
)
    requires
        is_ascii_chars(a),
        is_ascii_chars(b),
        ascii_lowercase(a) == ascii_lowercase(b),
    ensures
        lookup(rules, a, port) == lookup(rules, b, port),
    decreases rules.len(),
{
    lemma_ipv4_lowercase(a);
    lemma_ipv4_lowercase(b);
    lemma_ipv6_lowercase(a);
    lemma_ipv6_lowercase(b);
    if rules.len() > 0 {
        lemma_case_does_not_matter(rules.drop_last(), a, b, port);
    }
}

} // verus!
