//! The whitelist of servers and the number of bytes that each may be sent.
use crate::error::{result_view, ErrorKind, ErrorView, ProxyError};
use crate::ip::{ipv4, ipv6, parse_ipv4, parse_ipv6};
use crate::policy_laws::{lemma_charge_keeps_rules_valid, lemma_load_keeps_rules_valid};
use crate::text::{append_decimal, chars_of, decimal, lowercase, to_lowercase};
use vstd::prelude::*;
use vstd::string::*;

verus! {

/// Rule defining access policy for a specific server
#[derive(Debug)]
pub struct ServerRule {
    /// Server address - can be a domain name or IPv4/IPv6 address
    pub address: String,
    /// Server port number
    pub port: u16,
    /// Maximum number of bytes that can be sent to this server
    pub tx_bytes_limit: u64,
    /// Counter tracking cumulative bytes sent to this server
    pub tx_bytes_used: u64,
}

/// The contents of a rule.
pub struct RuleView {
    pub address: Seq<char>,
    pub port: u16,
    pub limit: u64,
    pub used: u64,
}

impl View for ServerRule {
    type V = RuleView;

    open spec fn view(&self) -> RuleView {
        RuleView {
            address: self.address@,
            port: self.port,
            limit: self.tx_bytes_limit,
            used: self.tx_bytes_used,
        }
    }
}

/// Whitelist of allowed servers
pub type ServerWhitelist = Vec<ServerRule>;

/// The contents of a whitelist.
pub open spec fn rule_views(rules: Seq<ServerRule>) -> Seq<RuleView> {
    Seq::new(rules.len(), |i: int| rules[i]@)
}

/// What a policy file holds about a server
#[derive(Debug)]
pub struct RuleEntry {
    /// Server address - can be a domain name or IPv4/IPv6 address
    pub address: String,
    /// Server port number
    pub port: u16,
    /// Maximum number of bytes that can be sent to this server
    pub tx_bytes_limit: u64,
}

/// Why a policy file gave no rules: the text of the error.
#[derive(Debug)]
pub enum PolicyFileError {
    /// The file could not be read
    Read(String),
    /// The file does not hold the JSON of a list of rules
    Parse(String),
}

/// The contents of the rule that an entry gives: nothing was sent to its server yet.
pub open spec fn entry_rule(entry: RuleEntry) -> RuleView {
    RuleView {
        address: entry.address@,
        port: entry.port,
        limit: entry.tx_bytes_limit,
        used: 0,
    }
}

/// The contents of the rules that entries give.
pub open spec fn entry_rules(entries: Seq<RuleEntry>) -> Seq<RuleView> {
    Seq::new(entries.len(), |i: int| entry_rule(entries[i]))
}

/// Whether two rules have the same port and, without regard to case, the same address.
pub open spec fn same_key(a: RuleView, b: RuleView) -> bool {
    lowercase(a.address) == lowercase(b.address) && a.port == b.port
}

/// The position of the first rule that repeats the key of an earlier one.
pub open spec fn first_duplicate(rules: Seq<RuleView>) -> Option<int>
    decreases rules.len(),
{
    if rules.len() == 0 {
        None
    } else {
        match first_duplicate(rules.drop_last()) {
            Some(i) => Some(i),
            None => if exists|i: int|
                0 <= i < rules.len() - 1 && same_key(#[trigger] rules[i], rules.last()) {
                Some(rules.len() - 1)
            } else {
                None
            },
        }
    }
}

/// What a load does to the rules, and its result: the rules of the file replace the old ones, or
/// the old ones stay and the error says why.
pub open spec fn load(
    rules: Seq<RuleView>,
    filename: Seq<char>,
    content: Result<Vec<RuleEntry>, PolicyFileError>,
) -> (Seq<RuleView>, Result<(), Seq<char>>) {
    match content {
        Err(PolicyFileError::Read(error)) => (
            rules,
            Err("Failed to read file '"@ + filename + "': "@ + error@),
        ),
        Err(PolicyFileError::Parse(error)) => (
            rules,
            Err("Failed to parse JSON from '"@ + filename + "': "@ + error@),
        ),
        Ok(entries) => match first_duplicate(entry_rules(entries@)) {
            Some(i) => (rules, Err(duplicate(filename, entries@[i].address@, entries@[i].port))),
            None => (entry_rules(entries@), Ok(())),
        },
    }
}

/// The text of the error for a rule that repeats the key of an earlier one.
pub open spec fn duplicate(filename: Seq<char>, address: Seq<char>, port: u16) -> Seq<char> {
    "Duplicate rule detected in '"@ + filename + "': address='"@ + address + "', port="@ + decimal(
        port as nat,
    )
}

/// The line that reports how many rules there are.
pub open spec fn log_heading(n: nat) -> Seq<char> {
    "Loaded policy with "@ + decimal(n) + " rules:"@
}

/// The line that reports a rule.
pub open spec fn log_line(rule: RuleView) -> Seq<char> {
    "  - address: "@ + rule.address + ", port: "@ + decimal(rule.port as nat)
        + ", tx_bytes_limit: "@ + decimal(rule.limit as nat) + ", tx_bytes_used: "@ + decimal(
        rule.used as nat,
    )
}

/// Whether two addresses name the same server: as text without regard to case, or as the same
/// IPv4 or IPv6 address in two notations.
pub open spec fn same_address(rule_addr: Seq<char>, check_addr: Seq<char>) -> bool {
    if lowercase(rule_addr) == lowercase(check_addr) {
        true
    } else if ipv4(rule_addr) is Some && ipv4(check_addr) is Some {
        ipv4(rule_addr) == ipv4(check_addr)
    } else if ipv6(rule_addr) is Some && ipv6(check_addr) is Some {
        ipv6(rule_addr) == ipv6(check_addr)
    } else {
        false
    }
}

/// Whether a rule is about the server at `address` and `port`.
pub open spec fn rule_applies(rule: RuleView, address: Seq<char>, port: u16) -> bool {
    rule.port == port && same_address(rule.address, address)
}

/// The position of the first rule about the server at `address` and `port`.
pub open spec fn lookup(rules: Seq<RuleView>, address: Seq<char>, port: u16) -> Option<int>
    decreases rules.len(),
{
    if rules.len() == 0 {
        None
    } else {
        match lookup(rules.drop_last(), address, port) {
            Some(i) => Some(i),
            None => if rule_applies(rules.last(), address, port) {
                Some(rules.len() - 1)
            } else {
                None
            },
        }
    }
}

/// The number of bytes that may be sent to a server in all; none for a server without a rule.
pub open spec fn limit_of(rules: Seq<RuleView>, address: Seq<char>, port: u16) -> Option<u64> {
    match lookup(rules, address, port) {
        Some(i) => Some(rules[i].limit),
        None => None,
    }
}

/// The number of bytes counted for a server; none for a server without a rule.
pub open spec fn used_of(rules: Seq<RuleView>, address: Seq<char>, port: u16) -> Option<u64> {
    match lookup(rules, address, port) {
        Some(i) => Some(rules[i].used),
        None => None,
    }
}

/// A rule after `bytes` more were counted on it.
pub open spec fn counted(rule: RuleView, bytes: u64) -> RuleView {
    RuleView { used: (rule.used + bytes) as u64, ..rule }
}

/// Whether a rule leaves room for `bytes` more.
pub open spec fn has_room(rule: RuleView, bytes: u64) -> bool {
    rule.used + bytes <= rule.limit
}

/// The invariant of the rules: no two have the same key, and none has more bytes counted than its
/// limit allows.
pub open spec fn valid_rules(rules: Seq<RuleView>) -> bool {
    &&& forall|i: int, j: int|
        0 <= i < j < rules.len() ==> !same_key(#[trigger] rules[i], #[trigger] rules[j])
    &&& forall|i: int| 0 <= i < rules.len() ==> (#[trigger] rules[i]).used <= rules[i].limit
}

/// The text of the error for bytes that would exceed a limit.
pub open spec fn limit_exceeded(rule: RuleView, bytes: u64) -> Seq<char> {
    "TX bytes limit exceeded for "@ + rule.address + ":"@ + decimal(rule.port as nat) + ": "@
        + decimal(rule.used as nat) + " + "@ + decimal(bytes as nat) + " > "@ + decimal(
        rule.limit as nat,
    )
}

/// The text of the error for a server without a rule.
pub open spec fn not_found(address: Seq<char>, port: u16) -> Seq<char> {
    "Server "@ + address + ":"@ + decimal(port as nat) + " not found in whitelist"@
}

/// What counting `bytes` for a server does to the rules, and its result.
pub open spec fn charge(
    rules: Seq<RuleView>,
    address: Seq<char>,
    port: u16,
    bytes: u64,
) -> (Seq<RuleView>, Result<(), ErrorView>) {
    match lookup(rules, address, port) {
        None => (
            rules,
            Err(
                ErrorView {
                    kind: ErrorKind::PermissionDenied,
                    message: not_found(address, port),
                },
            ),
        ),
        Some(i) => if has_room(rules[i], bytes) {
            (rules.update(i, counted(rules[i], bytes)), Ok(()))
        } else {
            (
                rules,
                Err(
                    ErrorView {
                        kind: ErrorKind::Other,
                        message: limit_exceeded(rules[i], bytes),
                    },
                ),
            )
        },
    }
}

/// A policy manager maintaining the whitelist of servers
#[derive(Debug)]
pub struct PolicyManager {
    whitelist: ServerWhitelist,
}

impl View for PolicyManager {
    type V = Seq<RuleView>;

    closed spec fn view(&self) -> Seq<RuleView> {
        rule_views(self.whitelist@)
    }
}

impl PolicyManager {
    /// A manager without rules.
    pub fn new() -> (manager: PolicyManager)
        ensures
            manager@ == Seq::<RuleView>::empty(),
            valid_rules(manager@),
    {
        let manager = PolicyManager { whitelist: Vec::new() };
        assert(manager@ =~= Seq::<RuleView>::empty());
        manager
    }

    /// Compares two addresses, handling both domain names and IP addresses
    pub fn addresses_match(&self, rule_addr: &str, check_addr: &str) -> (matching: bool)
        ensures
            matching == same_address(rule_addr@, check_addr@),
    {
        if to_lowercase(rule_addr) == to_lowercase(check_addr) {
            return true;
        }
        let rule_chars = chars_of(rule_addr);
        let check_chars = chars_of(check_addr);
        match (parse_ipv4(&rule_chars), parse_ipv4(&check_chars)) {
            (Some(rule_ip), Some(check_ip)) => {
                return rule_ip.0 == check_ip.0 && rule_ip.1 == check_ip.1 && rule_ip.2
                    == check_ip.2 && rule_ip.3 == check_ip.3;
            },
            _ => {},
        }
        match (parse_ipv6(&rule_chars), parse_ipv6(&check_chars)) {
            (Some(rule_ip), Some(check_ip)) => same_groups(&rule_ip, &check_ip),
            _ => false,
        }
    }

    /// Replaces the rules by those of a policy file.
    ///
    /// `content` is what reading the file `filename` and parsing it gave. Where that failed, or
    /// where two of its rules have the same key, the rules stay as they are.
    pub fn load_from_file(
        &mut self,
        filename: &str,
        content: Result<Vec<RuleEntry>, PolicyFileError>,
    ) -> (result: Result<(), String>)
        ensures
            final(self)@ == load(old(self)@, filename@, content).0,
            match result {
                Ok(()) => load(old(self)@, filename@, content).1 is Ok,
                Err(message) => load(old(self)@, filename@, content).1 == Err::<(), _>(message@),
            },
            valid_rules(old(self)@) ==> valid_rules(final(self)@),
    {
        proof {
            lemma_load_keeps_rules_valid(self@, filename@, content);
        }
        let entries: Vec<RuleEntry> = match content {
            Ok(entries) => entries,
            Err(PolicyFileError::Read(error)) => {
                let mut message = "Failed to read file '".to_owned();
                message.append(filename);
                message.append("': ");
                message.append(&error);
                return Err(message);
            },
            Err(PolicyFileError::Parse(error)) => {
                let mut message = "Failed to parse JSON from '".to_owned();
                message.append(filename);
                message.append("': ");
                message.append(&error);
                return Err(message);
            },
        };
        match find_duplicate(&entries) {
            Some(i) => {
                let mut message = "Duplicate rule detected in '".to_owned();
                message.append(filename);
                message.append("': address='");
                message.append(&entries[i].address);
                message.append("', port=");
                append_decimal(&mut message, entries[i].port as u64);
                return Err(message);
            },
            None => {},
        }
        self.whitelist = new_whitelist(entries);
        Ok(())
    }

    /// The lines that report the policy.
    pub fn log_policy(&self) -> (lines: Vec<String>)
        ensures
            lines@.len() == self@.len() + 1,
            lines@[0]@ == log_heading(self@.len()),
            forall|i: int| 0 <= i < self@.len() ==> #[trigger] lines@[i + 1]@ == log_line(self@[i]),
    {
        let mut lines: Vec<String> = Vec::new();
        let mut heading = "Loaded policy with ".to_owned();
        append_decimal(&mut heading, self.whitelist.len() as u64);
        heading.append(" rules:");
        lines.push(heading);
        let mut i: usize = 0;
        while i < self.whitelist.len()
            invariant
                i <= self.whitelist.len() == self@.len(),
                lines@.len() == i + 1,
                lines@[0]@ == log_heading(self@.len()),
                forall|j: int| 0 <= j < i ==> #[trigger] lines@[j + 1]@ == log_line(self@[j]),
            decreases self.whitelist.len() - i,
        {
            let rule = &self.whitelist[i];
            let mut line = "  - address: ".to_owned();
            line.append(&rule.address);
            line.append(", port: ");
            append_decimal(&mut line, rule.port as u64);
            line.append(", tx_bytes_limit: ");
            append_decimal(&mut line, rule.tx_bytes_limit);
            line.append(", tx_bytes_used: ");
            append_decimal(&mut line, rule.tx_bytes_used);
            lines.push(line);
            i += 1;
        }
        lines
    }

    /// Finds the first rule about a server.
    fn find(&self, address: &str, port: u16) -> (position: Option<usize>)
        ensures
            match position {
                Some(i) => i < self.whitelist.len() && lookup(self@, address@, port) == Some(
                    i as int,
                ),
                None => lookup(self@, address@, port) is None,
            },
    {
        let mut i: usize = 0;
        while i < self.whitelist.len()
            invariant
                i <= self.whitelist.len(),
                lookup(self@.take(i as int), address@, port) is None,
            decreases self.whitelist.len() - i,
        {
            let rule = &self.whitelist[i];
            proof {
                assert(self@.take(i + 1).drop_last() =~= self@.take(i as int));
                assert(self@.take(i + 1).last() == rule@);
            }
            if rule.port == port && self.addresses_match(&rule.address, address) {
                proof {
                    lemma_lookup_prefix(self@, i + 1, address@, port);
                }
                return Some(i);
            }
            i += 1;
        }
        assert(self@.take(i as int) =~= self@);
        None
    }

    /// Whether a server may be connected to.
    pub fn is_allowed(&self, address: &str, port: u16) -> (allowed: bool)
        ensures
            allowed == (lookup(self@, address@, port) is Some),
    {
        self.find(address, port).is_some()
    }

    /// The number of bytes that may be sent to a server in all.
    pub fn tx_bytes_limit(&self, address: &str, port: u16) -> (limit: Option<u64>)
        ensures
            limit == limit_of(self@, address@, port),
    {
        match self.find(address, port) {
            Some(i) => Some(self.whitelist[i].tx_bytes_limit),
            None => None,
        }
    }

    /// The number of bytes that were sent to a server so far.
    pub fn tx_bytes_used(&self, address: &str, port: u16) -> (used: Option<u64>)
        ensures
            used == used_of(self@, address@, port),
    {
        match self.find(address, port) {
            Some(i) => Some(self.whitelist[i].tx_bytes_used),
            None => None,
        }
    }

    /// Counts `bytes_to_add` on a server's rule, unless that would exceed the limit.
    pub fn check_and_add_tx_bytes(&mut self, address: &str, port: u16, bytes_to_add: u64) -> (result:
        Result<(), ProxyError>)
        ensures
            final(self)@ == charge(old(self)@, address@, port, bytes_to_add).0,
            result_view(result) == charge(old(self)@, address@, port, bytes_to_add).1,
            valid_rules(old(self)@) ==> valid_rules(final(self)@),
    {
        proof {
            lemma_charge_keeps_rules_valid(self@, address@, port, bytes_to_add);
        }
        match self.find(address, port) {
            Some(i) => {
                let current: u64 = self.whitelist[i].tx_bytes_used;
                let limit: u64 = self.whitelist[i].tx_bytes_limit;
                if current > limit || bytes_to_add > limit - current {
                    let rule = &self.whitelist[i];
                    let mut message = "TX bytes limit exceeded for ".to_owned();
                    message.append(&rule.address);
                    message.append(":");
                    append_decimal(&mut message, rule.port as u64);
                    message.append(": ");
                    append_decimal(&mut message, current);
                    message.append(" + ");
                    append_decimal(&mut message, bytes_to_add);
                    message.append(" > ");
                    append_decimal(&mut message, limit);
                    return Err(ProxyError::new(ErrorKind::Other, message));
                }
                self.whitelist[i].tx_bytes_used = current + bytes_to_add;
                assert(self@ =~= old(self)@.update(i as int, counted(old(self)@[i as int], bytes_to_add)));
                Ok(())
            },
            None => {
                let mut message = "Server ".to_owned();
                message.append(address);
                message.append(":");
                append_decimal(&mut message, port as u64);
                message.append(" not found in whitelist");
                Err(ProxyError::new(ErrorKind::PermissionDenied, message))
            },
        }
    }
}

impl ServerRule {
    /// The rule that an entry of a policy file gives.
    pub fn from_entry(entry: RuleEntry) -> (rule: ServerRule)
        ensures
            rule@ == entry_rule(entry),
    {
        ServerRule {
            address: entry.address,
            port: entry.port,
            tx_bytes_limit: entry.tx_bytes_limit,
            tx_bytes_used: 0,
        }
    }
}

/// The rules that entries give, in the same order.
fn new_whitelist(entries: Vec<RuleEntry>) -> (whitelist: ServerWhitelist)
    ensures
        rule_views(whitelist@) == entry_rules(entries@),
{
    let ghost wanted = entry_rules(entries@);
    let mut whitelist: ServerWhitelist = Vec::new();
    for entry in it: entries
        invariant
            it.seq() == entries@,
            wanted == entry_rules(entries@),
            whitelist.len() == it.index(),
            forall|j: int| 0 <= j < whitelist.len() ==> #[trigger] whitelist@[j]@ == wanted[j],
    {
        whitelist.push(ServerRule::from_entry(entry));
    }
    assert(rule_views(whitelist@) =~= wanted);
    whitelist
}

/// The first rule among the first `n` that repeats a key is the first among all.
proof fn lemma_first_duplicate_prefix(rules: Seq<RuleView>, n: int)
    requires
        0 <= n <= rules.len(),
        first_duplicate(rules.take(n)) is Some,
    ensures
        first_duplicate(rules) == first_duplicate(rules.take(n)),
    decreases rules.len(),
{
    if n == rules.len() {
        assert(rules.take(n) =~= rules);
    } else {
        assert(rules.drop_last().take(n) =~= rules.take(n));
        lemma_first_duplicate_prefix(rules.drop_last(), n);
    }
}

/// Finds the first entry that repeats the key of an earlier one.
fn find_duplicate(entries: &Vec<RuleEntry>) -> (position: Option<usize>)
    ensures
        match position {
            Some(i) => i < entries.len() && first_duplicate(entry_rules(entries@)) == Some(i as int),
            None => first_duplicate(entry_rules(entries@)) is None,
        },
{
    let ghost rules = entry_rules(entries@);
    let mut seen: Vec<String> = Vec::new();
    let mut i: usize = 0;
    while i < entries.len()
        invariant
            i <= entries.len(),
            rules == entry_rules(entries@),
            seen.len() == i,
            forall|j: int| 0 <= j < i ==> #[trigger] seen@[j]@ == lowercase(rules[j].address),
            first_duplicate(rules.take(i as int)) is None,
        decreases entries.len() - i,
    {
        let address = to_lowercase(&entries[i].address);
        let port: u16 = entries[i].port;
        let ghost before = rules.take(i as int);
        let ghost upto = rules.take(i + 1);
        assert(upto.drop_last() =~= before);
        assert(upto.last() == rules[i as int]);
        let mut j: usize = 0;
        while j < i
            invariant
                j <= i < entries.len(),
                rules == entry_rules(entries@),
                seen.len() == i,
                forall|k: int| 0 <= k < i ==> #[trigger] seen@[k]@ == lowercase(rules[k].address),
                address@ == lowercase(rules[i as int].address),
                port == rules[i as int].port,
                upto == rules.take(i + 1),
                upto.last() == rules[i as int],
                first_duplicate(upto.drop_last()) is None,
                forall|k: int| 0 <= k < j ==> !same_key(#[trigger] upto[k], upto.last()),
            decreases i - j,
        {
            if entries[j].port == port && seen[j] == address {
                proof {
                    assert(same_key(upto[j as int], upto.last()));
                    lemma_first_duplicate_prefix(rules, i + 1);
                }
                return Some(i);
            }
            assert(!same_key(rules[j as int], rules[i as int]));
            j += 1;
        }
        seen.push(address);
        i += 1;
    }
    assert(rules.take(i as int) =~= rules);
    None
}

/// Compares two lists of groups.
fn same_groups(a: &Vec<u16>, b: &Vec<u16>) -> (same: bool)
    ensures
        same == (a@ == b@),
{
    if a.len() != b.len() {
        return false;
    }
    let mut i: usize = 0;
    while i < a.len()
        invariant
            i <= a.len() == b.len(),
            forall|j: int| 0 <= j < i ==> a@[j] == b@[j],
        decreases a.len() - i,
    {
        if a[i] != b[i] {
            return false;
        }
        i += 1;
    }
    assert(a@ =~= b@);
    true
}

/// A rule found among the first `n` is the one found among all.
proof fn lemma_lookup_prefix(rules: Seq<RuleView>, n: int, address: Seq<char>, port: u16)
    requires
        0 <= n <= rules.len(),
        lookup(rules.take(n), address, port) is Some,
    ensures
        lookup(rules, address, port) == lookup(rules.take(n), address, port),
    decreases rules.len(),
{
    if n == rules.len() {
        assert(rules.take(n) =~= rules);
    } else {
        assert(rules.drop_last().take(n) =~= rules.take(n));
        lemma_lookup_prefix(rules.drop_last(), n, address, port);
    }
}

} // verus!
