//! The policy store: host rules with wildcard patterns, an IP-to-host cache
//! of DNS observations with lifetimes, and the decision for a destination.
//! Time is a count of milliseconds that the caller supplies.

use crate::addr::{ip_literal, ip_string, parse_ip, IpAddress};
use crate::ip_table::IpTable;
use crate::text::{
    ascii_lowercase, to_ascii_lowercase, trim, trim_trailing_dots, trimmed, without_trailing_dots,
};
use vstd::prelude::*;

verus! {

pub const DEFAULT_TTL_SECONDS: u32 = 60;

pub const MIN_TTL_SECONDS: u32 = 1;

pub const MAX_TTL_SECONDS: u32 = 3600;

pub const MAX_HOSTS_PER_IP: usize = 16;

pub const STALE_GRACE_SECONDS: u64 = 5;

/// The grace window in milliseconds.
pub const STALE_GRACE_MS: u64 = 5000;

#[derive(Clone, Copy, Debug, Default, PartialEq, Eq, Structural)]
pub struct ShapingConfig {
    pub latency_ms: u32,
    pub jitter_ms: u32,
}

#[derive(Clone, Copy, Debug, PartialEq, Eq, Structural)]
pub enum RuleAction {
    Block,
    Shape(ShapingConfig),
}

#[derive(Clone, Debug)]
pub struct PolicyDecision {
    pub host: String,
    pub action: RuleAction,
}

/// A decision as a mathematical value.
pub ghost struct PolicyDecisionView {
    pub host: Seq<char>,
    pub action: RuleAction,
}

impl View for PolicyDecision {
    type V = PolicyDecisionView;

    open spec fn view(&self) -> PolicyDecisionView {
        PolicyDecisionView { host: self.host@, action: self.action }
    }
}

/// A host rule: a lower-case wildcard pattern with its action, and the
/// address that the pattern spells, if it spells one.
#[derive(Debug)]
pub struct HostRule {
    pub id: u64,
    pub pattern: String,
    pub action: RuleAction,
    ip_target: Option<IpAddress>,
}

/// A rule as a mathematical value.
pub ghost struct HostRuleView {
    pub id: u64,
    pub pattern: Seq<char>,
    pub action: RuleAction,
    pub ip_target: Option<IpAddress>,
}

impl View for HostRule {
    type V = HostRuleView;

    closed spec fn view(&self) -> HostRuleView {
        HostRuleView {
            id: self.id,
            pattern: self.pattern@,
            action: self.action,
            ip_target: self.ip_target,
        }
    }
}

struct ObservedHost {
    host: String,
    expires_at: u64,
}

/// A host that a DNS response gave for an address, and the time at which the
/// observation expires.
pub ghost struct ObservedHostView {
    pub host: Seq<char>,
    pub expires_at: u64,
}

impl View for ObservedHost {
    type V = ObservedHostView;

    closed spec fn view(&self) -> ObservedHostView {
        ObservedHostView { host: self.host@, expires_at: self.expires_at }
    }
}

spec fn rules_view(rules: Seq<HostRule>) -> Seq<HostRuleView> {
    rules.map_values(|r: HostRule| r@)
}

spec fn records_view(records: Seq<ObservedHost>) -> Seq<ObservedHostView> {
    records.map_values(|r: ObservedHost| r@)
}

/// Whether the wildcard `pattern` matches the whole of `text`: `?` stands for
/// exactly one character, `*` for any number of characters, every other
/// character for itself.
pub open spec fn wildcard_matches(pattern: Seq<char>, text: Seq<char>) -> bool
    decreases pattern.len(), text.len(),
{
    if pattern.len() == 0 {
        text.len() == 0
    } else if pattern[0] == '*' {
        wildcard_matches(pattern.drop_first(), text) || (text.len() > 0 && wildcard_matches(
            pattern,
            text.drop_first(),
        ))
    } else {
        text.len() > 0 && (pattern[0] == '?' || pattern[0] == text[0]) && wildcard_matches(
            pattern.drop_first(),
            text.drop_first(),
        )
    }
}

/// wildmatch's `WildMatch::new(pattern).matches(text)`: whether the pattern,
/// with `?` for one character and `*` for any number, matches the whole text.
#[verifier::external_body]
fn wildcard_match(pattern: &str, text: &str) -> (r: bool)
    ensures
        r == wildcard_matches(pattern@, text@),
{
    wildmatch::WildMatch::new(pattern).matches(text)
}

/// The normal form of a host name: without the white space around it and the
/// dots at its end, in lower case; `None` if nothing is left.
pub open spec fn normalize_host_spec(host: Seq<char>) -> Option<Seq<char>> {
    let stripped = without_trailing_dots(trimmed(host));
    if stripped.len() == 0 {
        None
    } else {
        Some(ascii_lowercase(stripped))
    }
}

/// The normal form of a host name; `None` if nothing is left of it.
pub fn normalize_host(host: &str) -> (r: Option<String>)
    ensures
        match r {
            Some(name) => normalize_host_spec(host@) == Some(name@),
            None => normalize_host_spec(host@) is None,
        },
{
    let without_space = trim(host);
    let stripped = trim_trailing_dots(without_space.as_str());
    if stripped.as_str().unicode_len() == 0 {
        None
    } else {
        Some(to_ascii_lowercase(stripped.as_str()))
    }
}

/// The lifetime of an observation in milliseconds: `ttl_seconds`, or 60 s by
/// default, held between 1 s and 3600 s.
pub open spec fn ttl_millis(ttl_seconds: Option<u32>) -> u64 {
    let secs = match ttl_seconds {
        Some(s) => s,
        None => DEFAULT_TTL_SECONDS,
    };
    let clamped = if secs < MIN_TTL_SECONDS {
        MIN_TTL_SECONDS
    } else if secs > MAX_TTL_SECONDS {
        MAX_TTL_SECONDS
    } else {
        secs
    };
    (clamped * 1000) as u64
}

/// The lifetime of a mapping in milliseconds, for a TTL in seconds.
pub fn ttl_duration(ttl_seconds: Option<u32>) -> (r: u64)
    ensures
        r == ttl_millis(ttl_seconds),
        1000 <= r <= 3_600_000,
{
    let secs: u32 = match ttl_seconds {
        Some(s) => s,
        None => DEFAULT_TTL_SECONDS,
    };
    let clamped: u32 = if secs < MIN_TTL_SECONDS {
        MIN_TTL_SECONDS
    } else if secs > MAX_TTL_SECONDS {
        MAX_TTL_SECONDS
    } else {
        secs
    };
    (clamped as u64) * 1000
}

/// The time at which an observation made at `now` expires; it stops at the
/// largest time that can be held.
pub open spec fn expiry(now: u64, ttl_seconds: Option<u32>) -> u64 {
    if now + ttl_millis(ttl_seconds) > u64::MAX {
        u64::MAX
    } else {
        (now + ttl_millis(ttl_seconds)) as u64
    }
}

/// Whether an observation is still to be used at `now`: until the end of the
/// grace window behind its expiry.
pub open spec fn within_grace(record: ObservedHostView, now: u64) -> bool {
    now <= record.expires_at + STALE_GRACE_MS
}

/// Those of `records` that are within grace at `now`, in their order.
pub open spec fn retained(records: Seq<ObservedHostView>, now: u64) -> Seq<ObservedHostView>
    decreases records.len(),
{
    if records.len() == 0 {
        Seq::empty()
    } else if within_grace(records[0], now) {
        seq![records[0]] + retained(records.drop_first(), now)
    } else {
        retained(records.drop_first(), now)
    }
}

fn retain_with_grace(entries: &mut Vec<ObservedHost>, now: u64)
    ensures
        records_view(final(entries)@) == retained(records_view(old(entries)@), now),
{
    let mut i: usize = 0;
    assert(records_view(entries@).take(0) + retained(records_view(entries@).skip(0), now)
        =~= retained(records_view(entries@), now)) by {
        assert(records_view(entries@).skip(0) =~= records_view(entries@));
    }
    while i < entries.len()
        invariant
            i <= entries@.len(),
            records_view(entries@).take(i as int) + retained(
                records_view(entries@).skip(i as int),
                now,
            ) == retained(records_view(old(entries)@), now),
        decreases entries@.len() - i,
    {
        let ghost before = records_view(entries@);
        let expires_at = entries[i].expires_at;
        let keep = now <= expires_at || now - expires_at <= STALE_GRACE_MS;
        proof {
            assert(before.skip(i as int)[0] == before[i as int]);
            assert(before.skip(i as int).drop_first() =~= before.skip(i + 1));
            assert(keep == within_grace(before[i as int], now));
        }
        if keep {
            proof {
                assert(before.take(i + 1) =~= before.take(i as int) + seq![before[i as int]]);
                assert(before.take(i + 1) + retained(before.skip(i + 1), now) =~= before.take(
                    i as int,
                ) + retained(before.skip(i as int), now));
            }
            i = i + 1;
        } else {
            let _ = entries.remove(i);
            proof {
                let after = records_view(entries@);
                assert(after =~= before.remove(i as int));
                assert(after.take(i as int) =~= before.take(i as int));
                assert(after.skip(i as int) =~= before.skip(i + 1));
            }
        }
    }
    proof {
        let all = records_view(entries@);
        assert(all.skip(i as int) =~= Seq::<ObservedHostView>::empty());
        assert(all.take(i as int) =~= all);
        assert(all + Seq::<ObservedHostView>::empty() =~= all);
    }
}

/// The index of the first record at or behind `from` for `host`, or -1.
pub open spec fn find_observed(records: Seq<ObservedHostView>, host: Seq<char>, from: int) -> int
    decreases records.len() - from,
{
    if from < 0 || from >= records.len() {
        -1
    } else if records[from].host == host {
        from
    } else {
        find_observed(records, host, from + 1)
    }
}

/// `records` after `host` was observed to expire at `expires_at`: a known
/// host gets the new expiry in its place; a new host is added as the newest,
/// and where sixteen hosts are held the oldest leaves first.
pub open spec fn observe_record(records: Seq<ObservedHostView>, host: Seq<char>, expires_at: u64) -> Seq<
    ObservedHostView,
> {
    let i = find_observed(records, host, 0);
    if i >= 0 {
        records.update(i, ObservedHostView { host, expires_at })
    } else if records.len() >= MAX_HOSTS_PER_IP {
        records.drop_first().push(ObservedHostView { host, expires_at })
    } else {
        records.push(ObservedHostView { host, expires_at })
    }
}

fn observe_host(entries: &mut Vec<ObservedHost>, host: &String, expires_at: u64)
    ensures
        records_view(final(entries)@) == observe_record(
            records_view(old(entries)@),
            host@,
            expires_at,
        ),
{
    let ghost before = records_view(entries@);
    let mut i: usize = 0;
    while i < entries.len()
        invariant
            i <= entries@.len(),
            entries@ == old(entries)@,
            before == records_view(entries@),
            find_observed(before, host@, 0) == find_observed(before, host@, i as int),
        decreases entries@.len() - i,
    {
        assert(before[i as int] == entries@[i as int]@);
        if entries[i].host == *host {
            let mut entry = entries.remove(i);
            entry.expires_at = expires_at;
            entries.insert(i, entry);
            assert(records_view(entries@) =~= observe_record(before, host@, expires_at));
            return ;
        }
        i = i + 1;
    }
    if entries.len() >= MAX_HOSTS_PER_IP {
        let _ = entries.remove(0);
        assert(records_view(entries@) =~= before.drop_first());
    }
    entries.push(ObservedHost { host: host.clone(), expires_at });
    assert(records_view(entries@) =~= observe_record(before, host@, expires_at));
}

/// The action of the newest of `rules` whose pattern matches `host`, which
/// is taken as it is.
pub open spec fn match_rules(rules: Seq<HostRuleView>, host: Seq<char>) -> Option<RuleAction>
    decreases rules.len(),
{
    if rules.len() == 0 {
        None
    } else if wildcard_matches(rules.last().pattern, host) {
        Some(rules.last().action)
    } else {
        match_rules(rules.drop_last(), host)
    }
}

/// The action for `host`: that of the newest rule whose pattern matches the
/// host in lower case.
pub open spec fn match_host_spec(rules: Seq<HostRuleView>, host: Seq<char>) -> Option<RuleAction> {
    match_rules(rules, ascii_lowercase(host))
}

/// The decision that the newest of `records` with a matching rule gives;
/// with `fresh_only`, of those that have not expired at `now`.
pub open spec fn newest_match(
    rules: Seq<HostRuleView>,
    records: Seq<ObservedHostView>,
    now: u64,
    fresh_only: bool,
) -> Option<PolicyDecisionView>
    decreases records.len(),
{
    if records.len() == 0 {
        None
    } else {
        let record = records.last();
        match match_host_spec(rules, record.host) {
            Some(action) => if !fresh_only || record.expires_at > now {
                Some(PolicyDecisionView { host: record.host, action })
            } else {
                newest_match(rules, records.drop_last(), now, fresh_only)
            },
            None => newest_match(rules, records.drop_last(), now, fresh_only),
        }
    }
}

/// The decision that `records` give: that of the newest fresh record with a
/// matching rule, or, where there is none, of the newest record with one.
pub open spec fn decide_from_records(
    rules: Seq<HostRuleView>,
    records: Seq<ObservedHostView>,
    now: u64,
) -> Option<PolicyDecisionView> {
    match newest_match(rules, records, now, true) {
        Some(decision) => Some(decision),
        None => newest_match(rules, records, now, false),
    }
}

/// The policy store as a mathematical value.
pub ghost struct PolicyView {
    pub rules: Seq<HostRuleView>,
    pub next_id: u64,
    pub ip_rules: Map<IpAddress, RuleAction>,
    pub observed: Map<IpAddress, Seq<ObservedHostView>>,
}

/// The hosts observed for `addr`.
pub open spec fn observed_for(
    observed: Map<IpAddress, Seq<ObservedHostView>>,
    addr: IpAddress,
) -> Seq<ObservedHostView> {
    if observed.dom().contains(addr) {
        observed[addr]
    } else {
        Seq::empty()
    }
}

/// The store after a rule with `pattern` and `action` was installed.
pub open spec fn installed(view: PolicyView, pattern: Seq<char>, action: RuleAction) -> PolicyView {
    let normalized = ascii_lowercase(pattern);
    let target = ip_literal(normalized);
    PolicyView {
        rules: view.rules.push(
            HostRuleView { id: view.next_id, pattern: normalized, action, ip_target: target },
        ),
        next_id: if view.next_id == u64::MAX {
            0
        } else {
            (view.next_id + 1) as u64
        },
        ip_rules: match target {
            Some(ip) => view.ip_rules.insert(ip, action),
            None => view.ip_rules,
        },
        observed: view.observed,
    }
}

/// The rules that are left when those with `id` leave.
pub open spec fn rules_without(rules: Seq<HostRuleView>, id: u64) -> Seq<HostRuleView>
    decreases rules.len(),
{
    if rules.len() == 0 {
        Seq::empty()
    } else if rules[0].id == id {
        rules_without(rules.drop_first(), id)
    } else {
        seq![rules[0]] + rules_without(rules.drop_first(), id)
    }
}

/// The address of the first of the rules with `id` that has one.
pub open spec fn removed_target(rules: Seq<HostRuleView>, id: u64) -> Option<IpAddress>
    decreases rules.len(),
{
    if rules.len() == 0 {
        None
    } else if rules[0].id == id && rules[0].ip_target is Some {
        rules[0].ip_target
    } else {
        removed_target(rules.drop_first(), id)
    }
}

/// Whether one of `rules` targets `ip`.
pub open spec fn targets(rules: Seq<HostRuleView>, ip: IpAddress) -> bool {
    exists|i: int| 0 <= i < rules.len() && #[trigger] rules[i].ip_target == Some(ip)
}

/// The store after the rules with `id` were removed: the shortcut for their
/// address leaves with them unless another rule targets the address.
pub open spec fn removed(view: PolicyView, id: u64) -> PolicyView {
    let rest = rules_without(view.rules, id);
    PolicyView {
        rules: rest,
        next_id: view.next_id,
        ip_rules: match removed_target(view.rules, id) {
            Some(ip) => if targets(rest, ip) {
                view.ip_rules
            } else {
                view.ip_rules.remove(ip)
            },
            None => view.ip_rules,
        },
        observed: view.observed,
    }
}

/// The observations after `host` was seen for each of `addresses` in turn.
pub open spec fn observe_addresses(
    observed: Map<IpAddress, Seq<ObservedHostView>>,
    addresses: Seq<IpAddress>,
    host: Seq<char>,
    expires_at: u64,
    now: u64,
) -> Map<IpAddress, Seq<ObservedHostView>>
    decreases addresses.len(),
{
    if addresses.len() == 0 {
        observed
    } else {
        observe_addresses(
            observed.insert(
                addresses[0],
                observe_record(retained(observed_for(observed, addresses[0]), now), host, expires_at),
            ),
            addresses.drop_first(),
            host,
            expires_at,
            now,
        )
    }
}

/// The store after a DNS mapping was observed at `now`.
pub open spec fn observed_mapping(
    view: PolicyView,
    host: Seq<char>,
    addresses: Seq<IpAddress>,
    ttl_seconds: Option<u32>,
    now: u64,
) -> PolicyView {
    match normalize_host_spec(host) {
        Some(normalized) => PolicyView {
            rules: view.rules,
            next_id: view.next_id,
            ip_rules: view.ip_rules,
            observed: observe_addresses(
                view.observed,
                addresses,
                normalized,
                expiry(now, ttl_seconds),
                now,
            ),
        },
        None => view,
    }
}

/// The decision for `addr` at `now`: the shortcut of a rule that names the
/// address, else what the observations for the address give.
pub open spec fn decision_spec(view: PolicyView, addr: IpAddress, now: u64) -> Option<
    PolicyDecisionView,
> {
    if view.ip_rules.dom().contains(addr) {
        Some(PolicyDecisionView { host: addr.text(), action: view.ip_rules[addr] })
    } else if !view.observed.dom().contains(addr) {
        None
    } else {
        decide_from_records(view.rules, retained(view.observed[addr], now), now)
    }
}

/// The store after a decision for `addr` at `now`: the observations for the
/// address that are out of grace have left.
pub open spec fn decided(view: PolicyView, addr: IpAddress, now: u64) -> PolicyView {
    if view.ip_rules.dom().contains(addr) || !view.observed.dom().contains(addr) {
        view
    } else {
        let kept = retained(view.observed[addr], now);
        PolicyView {
            rules: view.rules,
            next_id: view.next_id,
            ip_rules: view.ip_rules,
            observed: if kept.len() == 0 {
                view.observed.remove(addr)
            } else {
                view.observed.insert(addr, kept)
            },
        }
    }
}

pub struct PolicyManager {
    rules: Vec<HostRule>,
    next_id: u64,
    dns_map: IpTable<Vec<ObservedHost>>,
    ip_rules: IpTable<RuleAction>,
}

impl View for PolicyManager {
    type V = PolicyView;

    closed spec fn view(&self) -> PolicyView {
        PolicyView {
            rules: rules_view(self.rules@),
            next_id: self.next_id,
            ip_rules: self.ip_rules@,
            observed: self.dns_map@.map_values(|v: Vec<ObservedHost>| records_view(v@)),
        }
    }
}

impl PolicyManager {
    pub closed spec fn wf(&self) -> bool {
        self.dns_map.wf() && self.ip_rules.wf()
    }

    /// A store without rules and observations; the first rule gets id 1.
    pub fn new() -> (r: PolicyManager)
        ensures
            r.wf(),
            r@ == (PolicyView {
                rules: Seq::empty(),
                next_id: 1,
                ip_rules: Map::empty(),
                observed: Map::empty(),
            }),
    {
        let r = PolicyManager {
            rules: Vec::new(),
            next_id: 1,
            dns_map: IpTable::new(),
            ip_rules: IpTable::new(),
        };
        proof {
            assert(r@.rules =~= Seq::empty());
            assert(r@.observed =~= Map::empty());
        }
        r
    }

    /// Installs a rule and returns its id. The pattern is held in lower case;
    /// a pattern that spells an IP address also decides for that address directly.
    pub fn install_rule(&mut self, pattern: &str, action: RuleAction) -> (id: u64)
        requires
            old(self).wf(),
        ensures
            final(self).wf(),
            id == old(self)@.next_id,
            final(self)@ == installed(old(self)@, pattern@, action),
    {
        let id = self.next_id;
        self.next_id = if self.next_id == u64::MAX {
            0
        } else {
            self.next_id + 1
        };
        let normalized = to_ascii_lowercase(pattern);
        let ip_target = parse_ip(normalized.as_str());
        match ip_target {
            Some(ip) => {
                self.ip_rules.put(ip, action);
            },
            None => {},
        }
        self.rules.push(HostRule { id, pattern: normalized, action, ip_target });
        proof {
            assert(self@.rules =~= installed(old(self)@, pattern@, action).rules);
        }
        id
    }

    fn any_rule_targets(&self, ip: IpAddress) -> (r: bool)
        ensures
            r == targets(rules_view(self.rules@), ip),
    {
        let mut i: usize = 0;
        while i < self.rules.len()
            invariant
                i <= self.rules@.len(),
                forall|k: int| 0 <= k < i ==> rules_view(self.rules@)[k].ip_target != Some(ip),
            decreases self.rules@.len() - i,
        {
            match self.rules[i].ip_target {
                Some(target) => {
                    if target == ip {
                        assert(rules_view(self.rules@)[i as int].ip_target == Some(ip));
                        return true;
                    }
                },
                None => {},
            }
            i = i + 1;
        }
        false
    }

    /// Removes the rules with `id`; says whether there was one.
    pub fn remove_rule(&mut self, id: u64) -> (found: bool)
        requires
            old(self).wf(),
        ensures
            final(self).wf(),
            final(self)@ == removed(old(self)@, id),
            found == (final(self)@.rules.len() != old(self)@.rules.len()),
    {
        let ghost before = rules_view(self.rules@);
        let len_before = self.rules.len();
        let mut removed_ip: Option<IpAddress> = None;
        let mut i: usize = 0;
        proof {
            assert(before.skip(0) =~= before);
            assert(before.take(0) + rules_without(before, id) =~= rules_without(before, id));
        }
        while i < self.rules.len()
            invariant
                i <= self.rules@.len(),
                self.dns_map == old(self).dns_map,
                self.ip_rules == old(self).ip_rules,
                self.next_id == old(self).next_id,
                rules_view(self.rules@).take(i as int) + rules_without(
                    rules_view(self.rules@).skip(i as int),
                    id,
                ) == rules_without(before, id),
                removed_target(before, id) == match removed_ip {
                    Some(ip) => Some(ip),
                    None => removed_target(rules_view(self.rules@).skip(i as int), id),
                },
            decreases self.rules@.len() - i,
        {
            let ghost current = rules_view(self.rules@);
            proof {
                assert(current.skip(i as int)[0] == current[i as int]);
                assert(current.skip(i as int).drop_first() =~= current.skip(i + 1));
            }
            if self.rules[i].id == id {
                let rule = self.rules.remove(i);
                if removed_ip.is_none() {
                    removed_ip = rule.ip_target;
                }
                proof {
                    let after = rules_view(self.rules@);
                    assert(after =~= current.remove(i as int));
                    assert(after.take(i as int) =~= current.take(i as int));
                    assert(after.skip(i as int) =~= current.skip(i + 1));
                }
            } else {
                proof {
                    assert(current.take(i + 1) =~= current.take(i as int) + seq![current[i as int]]);
                    assert(current.take(i + 1) + rules_without(current.skip(i + 1), id)
                        =~= current.take(i as int) + rules_without(current.skip(i as int), id));
                }
                i = i + 1;
            }
        }
        proof {
            let rest = rules_view(self.rules@);
            assert(rest.skip(i as int) =~= Seq::<HostRuleView>::empty());
            assert(rest.take(i as int) =~= rest);
            assert(rest + Seq::<HostRuleView>::empty() =~= rest);
        }
        match removed_ip {
            Some(ip) => {
                if !self.any_rule_targets(ip) {
                    let _ = self.ip_rules.take(ip);
                }
            },
            None => {},
        }
        len_before != self.rules.len()
    }

    /// Records that a DNS response at `now` gave `host` for `addresses`, for
    /// `ttl_seconds` (60 s by default, held between 1 s and 3600 s). Nothing
    /// is recorded for a host name that is empty once normalised.
    pub fn observe_dns_mapping(
        &mut self,
        host: &str,
        addresses: &[IpAddress],
        ttl_seconds: Option<u32>,
        now: u64,
    )
        requires
            old(self).wf(),
        ensures
            final(self).wf(),
            final(self)@ == observed_mapping(old(self)@, host@, addresses@, ttl_seconds, now),
    {
        if addresses.len() == 0 {
            return ;
        }
        let normalized = match normalize_host(host) {
            Some(name) => name,
            None => {
                return ;
            },
        };
        let ttl = ttl_duration(ttl_seconds);
        let expires_at: u64 = if now > u64::MAX - ttl {
            u64::MAX
        } else {
            now + ttl
        };
        let ghost start = self@.observed;
        let mut i: usize = 0;
        assert(addresses@.skip(0) =~= addresses@);
        while i < addresses.len()
            invariant
                i <= addresses@.len(),
                self.wf(),
                self.rules == old(self).rules,
                self.next_id == old(self).next_id,
                self.ip_rules == old(self).ip_rules,
                observe_addresses(
                    self@.observed,
                    addresses@.skip(i as int),
                    normalized@,
                    expires_at,
                    now,
                ) == observe_addresses(start, addresses@, normalized@, expires_at, now),
            decreases addresses@.len() - i,
        {
            let addr = addresses[i];
            let ghost current = self@.observed;
            proof {
                assert(addresses@.skip(i as int)[0] == addr);
                assert(addresses@.skip(i as int).drop_first() =~= addresses@.skip(i + 1));
            }
            let mut entry: Vec<ObservedHost> = match self.dns_map.take(addr) {
                Some(records) => records,
                None => Vec::new(),
            };
            assert(records_view(entry@) =~= observed_for(current, addr));
            retain_with_grace(&mut entry, now);
            observe_host(&mut entry, &normalized, expires_at);
            self.dns_map.put(addr, entry);
            proof {
                assert(self@.observed =~= current.insert(
                    addr,
                    observe_record(retained(observed_for(current, addr), now), normalized@, expires_at),
                ));
            }
            i = i + 1;
        }
    }

    /// The action for `host`: that of the newest rule whose pattern matches it.
    pub fn match_host(&self, host: &str) -> (r: Option<RuleAction>)
        ensures
            r == match_host_spec(self@.rules, host@),
    {
        if self.rules.len() == 0 {
            return None;
        }
        let host_lower = to_ascii_lowercase(host);
        let ghost rules = rules_view(self.rules@);
        let mut i: usize = self.rules.len();
        assert(rules.take(i as int) =~= rules);
        while i > 0
            invariant
                i <= self.rules@.len(),
                rules == rules_view(self.rules@),
                host_lower@ == ascii_lowercase(host@),
                match_rules(rules, host_lower@) == match_rules(rules.take(i as int), host_lower@),
            decreases i,
        {
            i = i - 1;
            proof {
                assert(rules.take(i + 1).last() == rules[i as int]);
                assert(rules.take(i + 1).drop_last() =~= rules.take(i as int));
            }
            assert(rules[i as int] == self.rules@[i as int]@);
            if wildcard_match(self.rules[i].pattern.as_str(), host_lower.as_str()) {
                return Some(self.rules[i].action);
            }
        }
        None
    }

    fn decide(&self, records: &Vec<ObservedHost>, now: u64) -> (r: Option<PolicyDecision>)
        ensures
            match r {
                Some(decision) => decide_from_records(self@.rules, records_view(records@), now)
                    == Some(decision@),
                None => decide_from_records(self@.rules, records_view(records@), now) is None,
            },
    {
        let ghost all = records_view(records@);
        let ghost rules = self@.rules;
        let mut stale: Option<PolicyDecision> = None;
        let mut i: usize = records.len();
        assert(all.take(i as int) =~= all);
        while i > 0
            invariant
                i <= records@.len(),
                all == records_view(records@),
                rules == self@.rules,
                newest_match(rules, all, now, true) == newest_match(
                    rules,
                    all.take(i as int),
                    now,
                    true,
                ),
                newest_match(rules, all, now, false) == match stale {
                    Some(decision) => Some(decision@),
                    None => newest_match(rules, all.take(i as int), now, false),
                },
            decreases i,
        {
            i = i - 1;
            proof {
                assert(all.take(i + 1).last() == all[i as int]);
                assert(all.take(i + 1).drop_last() =~= all.take(i as int));
            }
            assert(all[i as int] == records@[i as int]@);
            match self.match_host(records[i].host.as_str()) {
                Some(action) => {
                    if records[i].expires_at > now {
                        return Some(PolicyDecision { host: records[i].host.clone(), action });
                    }
                    if stale.is_none() {
                        stale = Some(PolicyDecision { host: records[i].host.clone(), action });
                    }
                },
                None => {},
            }
        }
        stale
    }

    /// The decision for a destination at `now`. Observations for the address
    /// that are out of grace leave the store.
    pub fn decision_for_ip(&mut self, addr: &IpAddress, now: u64) -> (r: Option<PolicyDecision>)
        requires
            old(self).wf(),
        ensures
            final(self).wf(),
            final(self)@ == decided(old(self)@, *addr, now),
            match r {
                Some(decision) => decision_spec(old(self)@, *addr, now) == Some(decision@),
                None => decision_spec(old(self)@, *addr, now) is None,
            },
    {
        match self.ip_rules.get(*addr) {
            Some(action) => {
                return Some(PolicyDecision { host: ip_string(*addr), action: *action });
            },
            None => {},
        }
        let ghost before = self@.observed;
        let mut entry: Vec<ObservedHost> = match self.dns_map.take(*addr) {
            Some(records) => records,
            None => {
                assert(self@.observed =~= before);
                return None;
            },
        };
        retain_with_grace(&mut entry, now);
        if entry.len() == 0 {
            assert(self@.observed =~= before.remove(*addr));
            assert(records_view(entry@) =~= Seq::<ObservedHostView>::empty());
            return None;
        }
        let decision = self.decide(&entry, now);
        self.dns_map.put(*addr, entry);
        proof {
            assert(self@.observed =~= before.insert(*addr, retained(before[*addr], now)));
        }
        decision
    }

    /// Removes every rule and every observation.
    pub fn clear(&mut self)
        ensures
            final(self).wf(),
            final(self)@ == (PolicyView {
                rules: Seq::empty(),
                next_id: old(self)@.next_id,
                ip_rules: Map::empty(),
                observed: Map::empty(),
            }),
    {
        self.rules.clear();
        self.dns_map.clear();
        self.ip_rules.clear();
        proof {
            assert(self@.rules =~= Seq::empty());
            assert(self@.observed =~= Map::empty());
        }
    }
}

/// An address with a single observed host resolves to that host, where a rule
/// matches it, until the end of the grace window behind its expiry, and to
/// nothing strictly after the window.
pub proof fn lemma_single_host_ttl(view: PolicyView, addr: IpAddress, now: u64)
    requires
        !view.ip_rules.dom().contains(addr),
        view.observed.dom().contains(addr),
        view.observed[addr].len() == 1,
    ensures
        now <= view.observed[addr][0].expires_at + STALE_GRACE_MS ==> decision_spec(
            view,
            addr,
            now,
        ) == match match_host_spec(view.rules, view.observed[addr][0].host) {
            Some(action) => Some(
                PolicyDecisionView { host: view.observed[addr][0].host, action },
            ),
            None => None,
        },
        now > view.observed[addr][0].expires_at + STALE_GRACE_MS ==> decision_spec(view, addr, now)
            is None && !decided(view, addr, now).observed.dom().contains(addr),
{
    let records = view.observed[addr];
    let record = records[0];
    assert(records.drop_first() =~= Seq::<ObservedHostView>::empty());
    reveal_with_fuel(retained, 3);
    reveal_with_fuel(newest_match, 3);
    if now <= record.expires_at + STALE_GRACE_MS {
        let kept = retained(records, now);
        assert(kept =~= seq![record]);
        assert(kept.last() == record);
        assert(kept.drop_last() =~= Seq::<ObservedHostView>::empty());
    } else {
        assert(retained(records, now) =~= Seq::<ObservedHostView>::empty());
    }
}

/// A rule whose pattern spells an IP address decides for that address as soon
/// as it is installed, with the action that it was installed with.
pub proof fn lemma_literal_rule_decides(
    view: PolicyView,
    pattern: Seq<char>,
    action: RuleAction,
    ip: IpAddress,
    now: u64,
)
    requires
        ip_literal(ascii_lowercase(pattern)) == Some(ip),
    ensures
        decision_spec(installed(view, pattern, action), ip, now) == Some(
            PolicyDecisionView { host: ip.text(), action },
        ),
{
}

} // verus!
