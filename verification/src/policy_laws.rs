//! What holds of the policy as a whole.
use crate::address_laws::{
    comparable, lemma_same_address_same_rule, lemma_same_rule_same_address,
};
use crate::error::{ErrorKind, ErrorView};
use crate::policy::{
    charge, entry_rule, entry_rules, first_duplicate, limit_of, load, log_heading, log_line,
    lookup, rule_applies, same_address, same_key, used_of, valid_rules, PolicyFileError, RuleEntry,
    RuleView, ServerRule,
};
use crate::text::{decimal, lowercase};
use vstd::prelude::*;

verus! {

/// The rule that decides on a server is the first that is about it, and there is none only where
/// no rule is about it.
pub proof fn lemma_lookup_is_first(rules: Seq<RuleView>, address: Seq<char>, port: u16)
    ensures
        match lookup(rules, address, port) {
            Some(i) => {
                &&& 0 <= i < rules.len()
                &&& rule_applies(rules[i], address, port)
                &&& forall|j: int| 0 <= j < i ==> !rule_applies(#[trigger] rules[j], address, port)
            },
            None => forall|j: int|
                0 <= j < rules.len() ==> !rule_applies(#[trigger] rules[j], address, port),
        },
    decreases rules.len(),
{
    if rules.len() > 0 {
        let front = rules.drop_last();
        lemma_lookup_is_first(front, address, port);
        match lookup(front, address, port) {
            Some(i) => {
                assert(rules[i] == front[i]);
                assert forall|j: int| 0 <= j < i implies !rule_applies(
                    #[trigger] rules[j],
                    address,
                    port,
                ) by {
                    assert(rules[j] == front[j]);
                }
            },
            None => {
                assert forall|j: int| 0 <= j < rules.len() - 1 implies !rule_applies(
                    #[trigger] rules[j],
                    address,
                    port,
                ) by {
                    assert(rules[j] == front[j]);
                }
            },
        }
    }
}

/// Two lists with the same addresses and ports decide by the rule at the same position.
pub proof fn lemma_lookup_by_addresses(
    a: Seq<RuleView>,
    b: Seq<RuleView>,
    address: Seq<char>,
    port: u16,
)
    requires
        a.len() == b.len(),
        forall|i: int|
            0 <= i < a.len() ==> (#[trigger] a[i]).address == b[i].address && a[i].port == b[i].port,
    ensures
        lookup(a, address, port) == lookup(b, address, port),
    decreases a.len(),
{
    if a.len() > 0 {
        assert(a[a.len() - 1].address == b[b.len() - 1].address);
        assert forall|i: int| 0 <= i < a.drop_last().len() implies (
        #[trigger] a.drop_last()[i]).address == b.drop_last()[i].address && a.drop_last()[i].port
            == b.drop_last()[i].port by {
            assert(a[i].address == b[i].address);
        }
        lemma_lookup_by_addresses(a.drop_last(), b.drop_last(), address, port);
    }
}

/// A list has a first repeated key exactly where two of its rules have the same key, and the
/// position is that of the first rule that repeats one.
pub proof fn lemma_first_duplicate(rules: Seq<RuleView>)
    ensures
        match first_duplicate(rules) {
            Some(j) => {
                &&& 0 <= j < rules.len()
                &&& exists|i: int| 0 <= i < j && same_key(#[trigger] rules[i], rules[j])
                &&& forall|i: int, k: int|
                    0 <= i < k < j ==> !same_key(#[trigger] rules[i], #[trigger] rules[k])
            },
            None => forall|i: int, k: int|
                0 <= i < k < rules.len() ==> !same_key(#[trigger] rules[i], #[trigger] rules[k]),
        },
    decreases rules.len(),
{
    if rules.len() > 0 {
        let front = rules.drop_last();
        lemma_first_duplicate(front);
        assert(forall|i: int| 0 <= i < front.len() ==> #[trigger] rules[i] == front[i]);
        match first_duplicate(front) {
            Some(j) => {
                let i = choose|i: int| 0 <= i < j && same_key(#[trigger] front[i], front[j]);
                assert(same_key(rules[i], rules[j]));
                assert forall|i: int, k: int| 0 <= i < k < j implies !same_key(
                    #[trigger] rules[i],
                    #[trigger] rules[k],
                ) by {
                    assert(!same_key(front[i], front[k]));
                }
            },
            None => {
                let last = rules.len() - 1;
                assert forall|i: int, k: int| 0 <= i < k < last implies !same_key(
                    #[trigger] rules[i],
                    #[trigger] rules[k],
                ) by {
                    assert(!same_key(front[i], front[k]));
                }
            },
        }
    }
}

/// A load keeps the rules valid.
pub proof fn lemma_load_keeps_rules_valid(
    rules: Seq<RuleView>,
    filename: Seq<char>,
    content: Result<Vec<RuleEntry>, PolicyFileError>,
)
    ensures
        valid_rules(rules) ==> valid_rules(load(rules, filename, content).0),
{
    match content {
        Ok(entries) => lemma_first_duplicate(entry_rules(entries@)),
        Err(_) => {},
    }
}

/// A policy file that parses is refused exactly where two of its rules have the same port and,
/// without regard to case, the same address. A load that is refused changes nothing.
pub proof fn lemma_load_accepts_distinct_rules(
    rules: Seq<RuleView>,
    filename: Seq<char>,
    content: Result<Vec<RuleEntry>, PolicyFileError>,
)
    ensures
        load(rules, filename, content).1 is Err ==> load(rules, filename, content).0 == rules,
        content matches Ok(entries) ==> {
            let loaded = entry_rules(entries@);
            load(rules, filename, content).1 is Ok <==> forall|i: int, j: int|
                0 <= i < j < loaded.len() ==> !same_key(#[trigger] loaded[i], #[trigger] loaded[j])
        },
{
    match content {
        Ok(entries) => lemma_first_duplicate(entry_rules(entries@)),
        Err(_) => {},
    }
}

/// Counting bytes keeps the rules valid.
pub proof fn lemma_charge_keeps_rules_valid(
    rules: Seq<RuleView>,
    address: Seq<char>,
    port: u16,
    bytes: u64,
)
    ensures
        valid_rules(rules) ==> valid_rules(charge(rules, address, port, bytes).0),
{
    if valid_rules(rules) {
        lemma_lookup_is_first(rules, address, port);
        let after = charge(rules, address, port, bytes).0;
        assert forall|i: int, j: int| 0 <= i < j < after.len() implies !same_key(
            #[trigger] after[i],
            #[trigger] after[j],
        ) by {
            assert(!same_key(rules[i], rules[j]));
        }
        assert forall|i: int| 0 <= i < after.len() implies (#[trigger] after[i]).used
            <= after[i].limit by {
            assert(rules[i].used <= rules[i].limit);
        }
    }
}

/// Counting bytes changes at most the counter of the rule that decides on the server, and, where
/// it is refused, nothing. Which rule decides on which server stays as it was.
pub proof fn lemma_charge_changes_one_counter(
    rules: Seq<RuleView>,
    address: Seq<char>,
    port: u16,
    bytes: u64,
)
    ensures
        charge(rules, address, port, bytes).0.len() == rules.len(),
        charge(rules, address, port, bytes).1 is Err ==> charge(rules, address, port, bytes).0
            == rules,
        forall|i: int|
            0 <= i < rules.len() && lookup(rules, address, port) != Some(i) ==> #[trigger] charge(
                rules,
                address,
                port,
                bytes,
            ).0[i] == rules[i],
        forall|i: int|
            0 <= i < rules.len() ==> {
                let after = #[trigger] charge(rules, address, port, bytes).0[i];
                after.address == rules[i].address && after.port == rules[i].port && after.limit
                    == rules[i].limit
            },
        forall|other: Seq<char>, other_port: u16|
            #[trigger] lookup(charge(rules, address, port, bytes).0, other, other_port) == lookup(
                rules,
                other,
                other_port,
            ),
{
    lemma_lookup_is_first(rules, address, port);
    let after = charge(rules, address, port, bytes).0;
    assert forall|other: Seq<char>, other_port: u16|
        #[trigger] lookup(after, other, other_port) == lookup(rules, other, other_port) by {
        lemma_lookup_by_addresses(after, rules, other, other_port);
    }
}

/// Counting bytes for a server that is not allowed is refused as such, and for no other server;
/// for one that is allowed, it is refused exactly where the limit would be exceeded.
pub proof fn lemma_charge_result(
    rules: Seq<RuleView>,
    address: Seq<char>,
    port: u16,
    bytes: u64,
)
    ensures
        match charge(rules, address, port, bytes).1 {
            Err(error) => error.kind == (if lookup(rules, address, port) is None {
                ErrorKind::PermissionDenied
            } else {
                ErrorKind::Other
            }),
            Ok(()) => lookup(rules, address, port) is Some,
        },
        lookup(rules, address, port) matches Some(i) ==> (charge(rules, address, port, bytes).1 is Ok
            <==> rules[i].used + bytes <= rules[i].limit),
{
}

/// Bytes to be counted for a server.
pub struct Charge {
    pub address: Seq<char>,
    pub port: u16,
    pub bytes: u64,
}

/// The rules after bytes were counted one after the other.
pub open spec fn charged(rules: Seq<RuleView>, charges: Seq<Charge>) -> Seq<RuleView>
    decreases charges.len(),
{
    if charges.len() == 0 {
        rules
    } else {
        let c = charges.last();
        charge(charged(rules, charges.drop_last()), c.address, c.port, c.bytes).0
    }
}

/// The number of bytes that were accepted on the rule at position `i` in all.
pub open spec fn accepted(rules: Seq<RuleView>, charges: Seq<Charge>, i: int) -> nat
    decreases charges.len(),
{
    if charges.len() == 0 {
        0
    } else {
        let c = charges.last();
        let before = charged(rules, charges.drop_last());
        accepted(rules, charges.drop_last(), i) + (if lookup(before, c.address, c.port) == Some(i)
            && charge(before, c.address, c.port, c.bytes).1 is Ok {
            c.bytes as nat
        } else {
            0
        })
    }
}

/// However bytes are counted for servers, each counter holds what it held before and all that was
/// accepted on its rule since, and that never exceeds the limit.
pub proof fn lemma_accepted_bytes_stay_within_limit(
    rules: Seq<RuleView>,
    charges: Seq<Charge>,
    i: int,
)
    requires
        valid_rules(rules),
        0 <= i < rules.len(),
    ensures
        charged(rules, charges).len() == rules.len(),
        charged(rules, charges)[i] == (RuleView {
            used: (rules[i].used + accepted(rules, charges, i)) as u64,
            ..rules[i]
        }),
        rules[i].used + accepted(rules, charges, i) <= rules[i].limit,
    decreases charges.len(),
{
    if charges.len() > 0 {
        let c = charges.last();
        let before = charged(rules, charges.drop_last());
        lemma_accepted_bytes_stay_within_limit(rules, charges.drop_last(), i);
        lemma_charge_changes_one_counter(before, c.address, c.port, c.bytes);
        lemma_lookup_is_first(before, c.address, c.port);
        assert(charge(before, c.address, c.port, c.bytes).0[i] == charged(rules, charges)[i]);
    }
}

/// Counting bytes for a server leaves the counter of every other server alone: of one on another
/// port, and of one at another address. It changes no limit, and which servers are allowed stays
/// as it was.
pub proof fn lemma_charge_leaves_other_servers_alone(
    rules: Seq<RuleView>,
    address: Seq<char>,
    port: u16,
    bytes: u64,
    other: Seq<char>,
    other_port: u16,
)
    ensures
        ({
            let after = charge(rules, address, port, bytes).0;
            &&& lookup(after, other, other_port) == lookup(rules, other, other_port)
            &&& limit_of(after, other, other_port) == limit_of(rules, other, other_port)
            &&& other_port != port || (comparable(rules, other, address) && !same_address(
                other,
                address,
            )) ==> used_of(after, other, other_port) == used_of(rules, other, other_port)
        }),
{
    lemma_charge_changes_one_counter(rules, address, port, bytes);
    lemma_lookup_is_first(rules, address, port);
    lemma_lookup_is_first(rules, other, other_port);
    let after = charge(rules, address, port, bytes).0;
    match lookup(rules, other, other_port) {
        Some(i) => {
            assert(after[i].limit == rules[i].limit);
            if comparable(rules, other, address) && lookup(rules, address, port) == Some(i) {
                lemma_same_rule_same_address(rules, other, address, other_port, port);
            }
        },
        None => {},
    }
}

/// However bytes are counted, no counter falls, and no limit changes.
pub proof fn lemma_counters_never_fall(
    rules: Seq<RuleView>,
    charges: Seq<Charge>,
    n: int,
    address: Seq<char>,
    port: u16,
)
    requires
        0 <= n <= charges.len(),
    ensures
        ({
            let earlier = charged(rules, charges.take(n));
            let later = charged(rules, charges);
            &&& limit_of(later, address, port) == limit_of(earlier, address, port)
            &&& match (used_of(earlier, address, port), used_of(later, address, port)) {
                (Some(before), Some(after)) => before <= after,
                (None, None) => true,
                _ => false,
            }
        }),
    decreases charges.len() - n,
{
    if n == charges.len() {
        assert(charges.take(n) =~= charges);
    } else {
        let front = charges.drop_last();
        let c = charges.last();
        assert(front.take(n) =~= charges.take(n));
        lemma_counters_never_fall(rules, front, n, address, port);
        let before = charged(rules, front);
        lemma_charge_leaves_other_servers_alone(before, c.address, c.port, c.bytes, address, port);
        lemma_charge_changes_one_counter(before, c.address, c.port, c.bytes);
        lemma_lookup_is_first(before, address, port);
        match lookup(before, address, port) {
            Some(i) => {
                assert(charge(before, c.address, c.port, c.bytes).0[i].limit == before[i].limit);
            },
            None => {},
        }
    }
}

/// Which rule decides on which server does not depend on what was counted.
proof fn lemma_charged_lookup(
    rules: Seq<RuleView>,
    charges: Seq<Charge>,
    address: Seq<char>,
    port: u16,
)
    ensures
        lookup(charged(rules, charges), address, port) == lookup(rules, address, port),
    decreases charges.len(),
{
    if charges.len() > 0 {
        let c = charges.last();
        lemma_charged_lookup(rules, charges.drop_last(), address, port);
        lemma_charge_changes_one_counter(
            charged(rules, charges.drop_last()),
            c.address,
            c.port,
            c.bytes,
        );
    }
}

/// The number of bytes that were accepted in all for servers on a port at the same address as the
/// one given.
pub open spec fn accepted_for(
    rules: Seq<RuleView>,
    charges: Seq<Charge>,
    address: Seq<char>,
    port: u16,
) -> nat
    decreases charges.len(),
{
    if charges.len() == 0 {
        0
    } else {
        let c = charges.last();
        let before = charged(rules, charges.drop_last());
        accepted_for(rules, charges.drop_last(), address, port) + (if c.port == port
            && same_address(c.address, address) && charge(before, c.address, c.port, c.bytes).1
            is Ok {
            c.bytes as nat
        } else {
            0
        })
    }
}

/// The counter of a server holds what it held before and the bytes of exactly those counts since
/// that were accepted on its port for the same address, and that never exceeds the limit.
pub proof fn lemma_counter_sums_accepted_bytes(
    rules: Seq<RuleView>,
    charges: Seq<Charge>,
    address: Seq<char>,
    port: u16,
)
    requires
        valid_rules(rules),
        forall|k: int|
            0 <= k < charges.len() ==> comparable(rules, (#[trigger] charges[k]).address, address),
    ensures
        ({
            let after = charged(rules, charges);
            match (used_of(rules, address, port), limit_of(rules, address, port)) {
                (Some(used), Some(limit)) => {
                    let sum = used + accepted_for(rules, charges, address, port);
                    sum <= limit && used_of(after, address, port) == Some(sum as u64) && limit_of(
                        after,
                        address,
                        port,
                    ) == Some(limit)
                },
                _ => used_of(after, address, port) is None,
            }
        }),
{
    lemma_lookup_is_first(rules, address, port);
    lemma_charged_lookup(rules, charges, address, port);
    match lookup(rules, address, port) {
        Some(i) => {
            lemma_accepted_bytes_stay_within_limit(rules, charges, i);
            lemma_accepted_by_address(rules, charges, address, port, i);
        },
        None => {},
    }
}

proof fn lemma_accepted_by_address(
    rules: Seq<RuleView>,
    charges: Seq<Charge>,
    address: Seq<char>,
    port: u16,
    i: int,
)
    requires
        lookup(rules, address, port) == Some(i),
        forall|k: int|
            0 <= k < charges.len() ==> comparable(rules, (#[trigger] charges[k]).address, address),
    ensures
        accepted_for(rules, charges, address, port) == accepted(rules, charges, i),
    decreases charges.len(),
{
    if charges.len() > 0 {
        let front = charges.drop_last();
        let c = charges[charges.len() - 1];
        assert(forall|k: int| 0 <= k < front.len() ==> #[trigger] front[k] == charges[k]);
        lemma_accepted_by_address(rules, front, address, port, i);
        lemma_charged_lookup(rules, front, c.address, c.port);
        assert(comparable(rules, c.address, address));
        if lookup(rules, c.address, c.port) == Some(i) {
            lemma_same_rule_same_address(rules, c.address, address, c.port, port);
        }
        if c.port == port && same_address(c.address, address) {
            lemma_same_address_same_rule(rules, c.address, address, port);
        }
    }
}

/// Since a policy file was loaded, the counter of a server holds the bytes of exactly those counts
/// that were accepted on its port for the same address, and that never exceeds the limit.
pub proof fn lemma_counter_sums_since_load(
    rules: Seq<RuleView>,
    filename: Seq<char>,
    entries: Vec<RuleEntry>,
    charges: Seq<Charge>,
    address: Seq<char>,
    port: u16,
)
    requires
        load(rules, filename, Ok(entries)).1 is Ok,
        forall|k: int|
            0 <= k < charges.len() ==> comparable(
                load(rules, filename, Ok(entries)).0,
                (#[trigger] charges[k]).address,
                address,
            ),
    ensures
        ({
            let loaded = load(rules, filename, Ok(entries)).0;
            let sum = accepted_for(loaded, charges, address, port);
            match limit_of(loaded, address, port) {
                Some(limit) => sum <= limit && used_of(charged(loaded, charges), address, port)
                    == Some(sum as u64),
                None => used_of(charged(loaded, charges), address, port) is None,
            }
        }),
{
    let loaded = load(rules, filename, Ok(entries)).0;
    lemma_first_duplicate(loaded);
    lemma_lookup_is_first(loaded, address, port);
    lemma_counter_sums_accepted_bytes(loaded, charges, address, port);
}

/// Every server of a policy file that was loaded is allowed, and nothing is counted on any rule.
pub proof fn lemma_loaded_servers_are_allowed(
    rules: Seq<RuleView>,
    filename: Seq<char>,
    entries: Vec<RuleEntry>,
    i: int,
)
    requires
        load(rules, filename, Ok(entries)).1 is Ok,
        0 <= i < entries@.len(),
    ensures
        ({
            let loaded = load(rules, filename, Ok(entries)).0;
            &&& loaded.len() == entries@.len()
            &&& lookup(loaded, entries@[i].address@, entries@[i].port) is Some
            &&& loaded[i].limit == entries@[i].tx_bytes_limit
            &&& loaded[i].used == 0
        }),
{
    let loaded = load(rules, filename, Ok(entries)).0;
    lemma_lookup_is_first(loaded, entries@[i].address@, entries@[i].port);
    assert(rule_applies(loaded[i], entries@[i].address@, entries@[i].port));
}

/// The first rule with the port of a server and the same address decides on the server: its limit
/// and its count are those of the server, whatever they are.
pub proof fn lemma_first_rule_decides(rules: Seq<RuleView>, address: Seq<char>, port: u16, i: int)
    requires
        0 <= i < rules.len(),
        rules[i].port == port,
        same_address(rules[i].address, address),
        forall|j: int|
            0 <= j < i ==> (#[trigger] rules[j]).port != port || !same_address(
                rules[j].address,
                address,
            ),
    ensures
        lookup(rules, address, port) == Some(i),
        limit_of(rules, address, port) == Some(rules[i].limit),
        used_of(rules, address, port) == Some(rules[i].used),
{
    lemma_lookup_is_first(rules, address, port);
    assert(rule_applies(rules[i], address, port));
    match lookup(rules, address, port) {
        Some(k) => {
            assert(rule_applies(rules[k], address, port));
        },
        None => {},
    }
}

/// A server has no rule, no limit and no count where every rule has another port or another
/// address.
pub proof fn lemma_server_without_rule(rules: Seq<RuleView>, address: Seq<char>, port: u16)
    requires
        forall|j: int|
            0 <= j < rules.len() ==> (#[trigger] rules[j]).port != port || !same_address(
                rules[j].address,
                address,
            ),
    ensures
        lookup(rules, address, port) is None,
        limit_of(rules, address, port) is None,
        used_of(rules, address, port) is None,
{
    lemma_lookup_is_first(rules, address, port);
    match lookup(rules, address, port) {
        Some(k) => {
            assert(rule_applies(rules[k], address, port));
        },
        None => {},
    }
}

/// Bytes that fit in what is left of a server's limit are accepted. The count of the rule that
/// decides on the server grows by them; nothing else of it changes, and nothing of any other rule.
pub proof fn lemma_bytes_that_fit_are_counted(
    rules: Seq<RuleView>,
    address: Seq<char>,
    port: u16,
    bytes: u64,
    i: int,
)
    requires
        lookup(rules, address, port) == Some(i),
        rules[i].used + bytes <= rules[i].limit,
    ensures
        ({
            let (after, result) = charge(rules, address, port, bytes);
            &&& result == Ok::<(), ErrorView>(())
            &&& after.len() == rules.len()
            &&& forall|j: int|
                0 <= j < rules.len() ==> (#[trigger] after[j]).address == rules[j].address
                    && after[j].port == rules[j].port && after[j].limit == rules[j].limit
                    && after[j].used == rules[j].used + (if j == i {
                    bytes as int
                } else {
                    0
                })
        }),
{
    lemma_lookup_is_first(rules, address, port);
}

/// Bytes that do not fit in what is left of a server's limit are refused with an error that names
/// the rule's server, its count, the bytes and its limit. Nothing is counted.
pub proof fn lemma_bytes_beyond_the_limit_are_refused(
    rules: Seq<RuleView>,
    address: Seq<char>,
    port: u16,
    bytes: u64,
    i: int,
)
    requires
        lookup(rules, address, port) == Some(i),
        rules[i].used + bytes > rules[i].limit,
    ensures
        charge(rules, address, port, bytes).0 == rules,
        charge(rules, address, port, bytes).1 == Err::<(), _>(
            ErrorView {
                kind: ErrorKind::Other,
                message: "TX bytes limit exceeded for "@ + rules[i].address + ":"@ + decimal(
                    rules[i].port as nat,
                ) + ": "@ + decimal(rules[i].used as nat) + " + "@ + decimal(bytes as nat)
                    + " > "@ + decimal(rules[i].limit as nat),
            },
        ),
{
}

/// Bytes for a server without a rule are refused with an error that names the server. Nothing is
/// counted.
pub proof fn lemma_bytes_without_rule_are_refused(
    rules: Seq<RuleView>,
    address: Seq<char>,
    port: u16,
    bytes: u64,
)
    requires
        lookup(rules, address, port) is None,
    ensures
        charge(rules, address, port, bytes).0 == rules,
        charge(rules, address, port, bytes).1 == Err::<(), _>(
            ErrorView {
                kind: ErrorKind::PermissionDenied,
                message: "Server "@ + address + ":"@ + decimal(port as nat)
                    + " not found in whitelist"@,
            },
        ),
{
}

/// A policy file without a repeated address and port is loaded: its entries, in order, replace the
/// rules, with nothing counted on any.
pub proof fn lemma_distinct_entries_are_loaded(
    rules: Seq<RuleView>,
    filename: Seq<char>,
    entries: Vec<RuleEntry>,
)
    requires
        forall|i: int, j: int|
            0 <= i < j < entries@.len() ==> (#[trigger] entries@[i]).port != (
            #[trigger] entries@[j]).port || lowercase(entries@[i].address@) != lowercase(
                entries@[j].address@,
            ),
    ensures
        ({
            let (loaded, result) = load(rules, filename, Ok(entries));
            &&& result == Ok::<(), Seq<char>>(())
            &&& loaded.len() == entries@.len()
            &&& forall|i: int|
                0 <= i < entries@.len() ==> (#[trigger] loaded[i]).address == entries@[i].address@
                    && loaded[i].port == entries@[i].port && loaded[i].limit
                    == entries@[i].tx_bytes_limit && loaded[i].used == 0
        }),
{
    let parsed = entry_rules(entries@);
    lemma_first_duplicate(parsed);
    match first_duplicate(parsed) {
        Some(j) => {
            let i = choose|i: int| 0 <= i < j && same_key(#[trigger] parsed[i], parsed[j]);
            assert(entries@[i].port == entries@[j].port);
        },
        None => {},
    }
}

/// A policy file that repeats an address and a port is refused, whatever the limits, with an error
/// that names the first entry that repeats one. The rules stay as they were.
pub proof fn lemma_repeated_entry_is_refused(
    rules: Seq<RuleView>,
    filename: Seq<char>,
    entries: Vec<RuleEntry>,
    i: int,
    j: int,
)
    requires
        0 <= i < j < entries@.len(),
        entries@[i].port == entries@[j].port,
        lowercase(entries@[i].address@) == lowercase(entries@[j].address@),
    ensures
        load(rules, filename, Ok(entries)).0 == rules,
        load(rules, filename, Ok(entries)).1 is Err,
        (forall|a: int, b: int|
            0 <= a < b < j ==> (#[trigger] entries@[a]).port != (#[trigger] entries@[b]).port
                || lowercase(entries@[a].address@) != lowercase(entries@[b].address@)) ==> load(rules, filename, Ok(entries)).1 == Err::<(), _>(
            "Duplicate rule detected in '"@ + filename + "': address='"@ + entries@[j].address@
                + "', port="@ + decimal(entries@[j].port as nat),
        ),
{
    let parsed = entry_rules(entries@);
    lemma_first_duplicate(parsed);
    assert(same_key(parsed[i], parsed[j]));
    match first_duplicate(parsed) {
        Some(k) => {
            let a = choose|a: int| 0 <= a < k && same_key(#[trigger] parsed[a], parsed[k]);
            assert(entries@[a].port == entries@[k].port);
            if k > j {
                assert(!same_key(parsed[i], parsed[j]));
            }
        },
        None => {
            assert(!same_key(parsed[i], parsed[j]));
        },
    }
}

/// A policy file that cannot be read or parsed is refused with an error that names the file and
/// says which of the two failed, and how. The rules stay as they were.
pub proof fn lemma_unreadable_file_is_refused(
    rules: Seq<RuleView>,
    filename: Seq<char>,
    error: String,
)
    ensures
        load(rules, filename, Err(PolicyFileError::Read(error))) == (
            rules,
            Err::<(), _>("Failed to read file '"@ + filename + "': "@ + error@),
        ),
        load(rules, filename, Err(PolicyFileError::Parse(error))) == (
            rules,
            Err::<(), _>("Failed to parse JSON from '"@ + filename + "': "@ + error@),
        ),
{
}

/// The rules are valid exactly where no two have the same port and, in lower case, the same
/// address, and none has more counted than its limit.
pub proof fn lemma_valid_rules_meaning(rules: Seq<RuleView>)
    ensures
        valid_rules(rules) <==> (forall|i: int, j: int|
            0 <= i < j < rules.len() && #[trigger] rules[i].port == #[trigger] rules[j].port
                ==> lowercase(rules[i].address) != lowercase(rules[j].address)) && (forall|i: int|
            0 <= i < rules.len() ==> #[trigger] rules[i].used <= rules[i].limit),
{
    if valid_rules(rules) {
        assert forall|i: int, j: int|
            0 <= i < j < rules.len() && #[trigger] rules[i].port == #[trigger] rules[j].port implies lowercase(
            rules[i].address) != lowercase(rules[j].address) by {
            assert(!same_key(rules[i], rules[j]));
        }
    } else {
        if forall|i: int, j: int|
            0 <= i < j < rules.len() && #[trigger] rules[i].port == #[trigger] rules[j].port
                ==> lowercase(rules[i].address) != lowercase(rules[j].address) {
            assert forall|i: int, j: int| 0 <= i < j < rules.len() implies !same_key(
                #[trigger] rules[i],
                #[trigger] rules[j],
            ) by {
                if rules[i].port == rules[j].port {
                }
            }
        }
    }
}

/// The lines that report the policy name the number of rules and, of each rule, its address, its
/// port, its limit and its count.
pub proof fn lemma_policy_report(n: nat, rule: RuleView)
    ensures
        log_heading(n) == "Loaded policy with "@ + decimal(n) + " rules:"@,
        log_line(rule) == "  - address: "@ + rule.address + ", port: "@ + decimal(rule.port as nat)
            + ", tx_bytes_limit: "@ + decimal(rule.limit as nat) + ", tx_bytes_used: "@ + decimal(
            rule.used as nat,
        ),
{
}

/// A rule's contents are its address, its port, its limit and its count; those of the rule that an
/// entry gives are the entry's, with nothing counted.
pub proof fn lemma_rule_contents(rule: ServerRule, entry: RuleEntry)
    ensures
        rule@.address == rule.address@,
        rule@.port == rule.port,
        rule@.limit == rule.tx_bytes_limit,
        rule@.used == rule.tx_bytes_used,
        entry_rule(entry).address == entry.address@,
        entry_rule(entry).port == entry.port,
        entry_rule(entry).limit == entry.tx_bytes_limit,
        entry_rule(entry).used == 0,
{
}

} // verus!
