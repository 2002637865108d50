//! The resolver of the engine, without the lookup itself: which host names
//! are refused or answered at once, and a small cache of what the system
//! resolver found, so that repeated lookups do not hammer it.

use crate::addr::{ip_literal, ip_string, parse_ip};
use crate::dns::{texts_of, ResolveError, ResolveOutcome};
use crate::flow_manager::state::{add_time, time_after};
use crate::text::{trim, trimmed};
use vstd::prelude::*;
use vstd::string::StringSliceAdditionalSpecFns;

verus! {

pub const MAX_CACHE_ENTRIES: usize = 512;

pub const MAX_HOST_LENGTH: usize = 255;

/// The lifetime of a cache entry in seconds, where none is chosen.
pub const DEFAULT_TTL_SECS: u64 = 60;

struct CacheEntry {
    host: String,
    expires_at: u64,
    addresses: Vec<String>,
}

/// A cache entry as a mathematical value.
pub ghost struct CacheEntryView {
    pub host: Seq<char>,
    pub expires_at: u64,
    pub addresses: Seq<Seq<char>>,
}

impl View for CacheEntry {
    type V = CacheEntryView;

    closed spec fn view(&self) -> CacheEntryView {
        CacheEntryView {
            host: self.host@,
            expires_at: self.expires_at,
            addresses: texts_of(self.addresses@),
        }
    }
}

/// What is to be done for a host name.
#[derive(Debug)]
pub enum ResolveStep {
    /// The answer is known.
    Done(Result<ResolveOutcome, ResolveError>),
    /// The system has to be asked for this name.
    Query(String),
}

/// Blocking resolver state: the cache, oldest entry first, and the lifetime
/// of its entries.
pub struct SystemResolver {
    cache: Vec<CacheEntry>,
    ttl_secs: u64,
}

/// The index of the first entry at or behind `from` for `host`, or -1.
pub open spec fn find_cached(cache: Seq<CacheEntryView>, host: Seq<char>, from: int) -> int
    decreases cache.len() - from,
{
    if from < 0 || from >= cache.len() {
        -1
    } else if cache[from].host == host {
        from
    } else {
        find_cached(cache, host, from + 1)
    }
}

/// The cache after a lookup of `host` at `now`: an entry that has expired leaves.
pub open spec fn cache_after_lookup(cache: Seq<CacheEntryView>, host: Seq<char>, now: u64) -> Seq<
    CacheEntryView,
> {
    let i = find_cached(cache, host, 0);
    if i >= 0 && cache[i].expires_at <= now {
        cache.remove(i)
    } else {
        cache
    }
}

/// The addresses that the cache holds for `host` at `now`.
pub open spec fn cached_addresses(cache: Seq<CacheEntryView>, host: Seq<char>, now: u64) -> Option<
    Seq<Seq<char>>,
> {
    let i = find_cached(cache, host, 0);
    if i >= 0 && cache[i].expires_at > now {
        Some(cache[i].addresses)
    } else {
        None
    }
}

/// The cache after `entry` was inserted: the entry is the newest, an older
/// entry for its host leaves, and so does the oldest entry where 512 are held.
pub open spec fn cache_after_insert(cache: Seq<CacheEntryView>, entry: CacheEntryView) -> Seq<
    CacheEntryView,
> {
    let i = find_cached(cache, entry.host, 0);
    let rest = if i >= 0 {
        cache.remove(i)
    } else {
        cache
    };
    if rest.len() >= MAX_CACHE_ENTRIES {
        rest.drop_first().push(entry)
    } else {
        rest.push(entry)
    }
}

/// `texts` without the texts that stand in it before.
pub open spec fn without_repeats(texts: Seq<Seq<char>>) -> Seq<Seq<char>>
    decreases texts.len(),
{
    if texts.len() == 0 {
        Seq::empty()
    } else {
        let rest = without_repeats(texts.drop_last());
        if rest.contains(texts.last()) {
            rest
        } else {
            rest.push(texts.last())
        }
    }
}

/// What a lookup of `host` comes to before the system is asked.
pub ghost enum StepView {
    Unsupported,
    Literal(Seq<char>),
    Cached(Seq<Seq<char>>),
    Query(Seq<char>),
}

/// The step for `host` at `now`: a name that is empty once trimmed, or
/// longer than 255 bytes, is not supported; an IP address answers for
/// itself; a name in the cache is answered from there; for any other name
/// the system is asked.
pub open spec fn step_for(cache: Seq<CacheEntryView>, host: Seq<char>, now: u64) -> StepView {
    let name = trimmed(host);
    if name.len() == 0 || vstd::utf8::encode_utf8(name).len() > MAX_HOST_LENGTH {
        StepView::Unsupported
    } else {
        match ip_literal(name) {
            Some(ip) => StepView::Literal(ip.text()),
            None => match cached_addresses(cache, name, now) {
                Some(addresses) => StepView::Cached(addresses),
                None => StepView::Query(name),
            },
        }
    }
}

/// Whether an exec step is the step that the specification gives, with
/// `ttl_secs` as the lifetime of every answer.
pub open spec fn step_matches(step: ResolveStep, expected: StepView, ttl_secs: u64) -> bool {
    match step {
        ResolveStep::Done(Err(error)) => expected is Unsupported && error is Unsupported,
        ResolveStep::Done(Ok(outcome)) => outcome.ttl_secs == ttl_secs && match expected {
            StepView::Literal(text) => texts_of(outcome.addresses@) == seq![text],
            StepView::Cached(addresses) => texts_of(outcome.addresses@) == addresses,
            _ => false,
        },
        ResolveStep::Query(name) => expected == StepView::Query(name@),
    }
}

fn copy_texts(texts: &Vec<String>) -> (r: Vec<String>)
    ensures
        texts_of(r@) == texts_of(texts@),
{
    let mut out: Vec<String> = Vec::new();
    let mut i: usize = 0;
    while i < texts.len()
        invariant
            i <= texts@.len(),
            texts_of(out@) =~= texts_of(texts@).take(i as int),
        decreases texts@.len() - i,
    {
        let ghost before = texts_of(out@);
        let text = texts[i].clone();
        out.push(text);
        assert(texts_of(out@) =~= before.push(texts@[i as int]@));
        i = i + 1;
    }
    assert(texts_of(texts@).take(texts@.len() as int) =~= texts_of(texts@));
    out
}

fn holds_text(texts: &Vec<String>, text: &String) -> (r: bool)
    ensures
        r == texts_of(texts@).contains(text@),
{
    let mut i: usize = 0;
    while i < texts.len()
        invariant
            i <= texts@.len(),
            forall|k: int| 0 <= k < i ==> texts_of(texts@)[k] != text@,
        decreases texts@.len() - i,
    {
        if texts[i] == *text {
            assert(texts_of(texts@)[i as int] == text@);
            return true;
        }
        i = i + 1;
    }
    false
}

impl SystemResolver {
    /// The cache, oldest entry first.
    pub closed spec fn cache(&self) -> Seq<CacheEntryView> {
        self.cache@.map_values(|e: CacheEntry| e@)
    }

    /// The lifetime of an entry in seconds.
    pub closed spec fn spec_ttl(&self) -> u64 {
        self.ttl_secs
    }

    /// The cache holds 512 entries at most.
    pub closed spec fn wf(&self) -> bool {
        self.cache@.len() <= MAX_CACHE_ENTRIES
    }

    /// A resolver with an empty cache; the lifetime is a second at least.
    pub fn new(ttl_secs: u64) -> (r: SystemResolver)
        ensures
            r.wf(),
            r.cache() == Seq::<CacheEntryView>::empty(),
            r.spec_ttl() == if ttl_secs < 1 {
                1
            } else {
                ttl_secs
            },
    {
        let r = SystemResolver {
            cache: Vec::new(),
            ttl_secs: if ttl_secs < 1 {
                1
            } else {
                ttl_secs
            },
        };
        assert(r.cache() =~= Seq::<CacheEntryView>::empty());
        r
    }

    pub fn ttl_secs(&self) -> (r: u64)
        ensures
            r == self.spec_ttl(),
    {
        self.ttl_secs
    }

    fn position(&self, host: &String) -> (r: Option<usize>)
        ensures
            match r {
                Some(i) => i < self.cache@.len() && find_cached(self.cache(), host@, 0) == i,
                None => find_cached(self.cache(), host@, 0) == -1,
            },
    {
        let mut i: usize = 0;
        while i < self.cache.len()
            invariant
                i <= self.cache@.len(),
                find_cached(self.cache(), host@, 0) == find_cached(self.cache(), host@, i as int),
            decreases self.cache@.len() - i,
        {
            assert(self.cache()[i as int] == self.cache@[i as int]@);
            if self.cache[i].host == *host {
                return Some(i);
            }
            i = i + 1;
        }
        None
    }

    fn cache_lookup(&mut self, host: &String, now: u64) -> (r: Option<Vec<String>>)
        requires
            old(self).wf(),
        ensures
            final(self).wf(),
            final(self).spec_ttl() == old(self).spec_ttl(),
            final(self).cache() == cache_after_lookup(old(self).cache(), host@, now),
            match r {
                Some(addresses) => cached_addresses(old(self).cache(), host@, now) == Some(
                    texts_of(addresses@),
                ),
                None => cached_addresses(old(self).cache(), host@, now) is None,
            },
    {
        match self.position(host) {
            Some(i) => {
                assert(self.cache()[i as int] == self.cache@[i as int]@);
                if self.cache[i].expires_at > now {
                    Some(copy_texts(&self.cache[i].addresses))
                } else {
                    let ghost before = self.cache();
                    let _ = self.cache.remove(i);
                    assert(self.cache() =~= before.remove(i as int));
                    None
                }
            },
            None => None,
        }
    }

    fn cache_insert(&mut self, host: &String, addresses: &Vec<String>, now: u64)
        requires
            old(self).wf(),
        ensures
            final(self).wf(),
            final(self).spec_ttl() == old(self).spec_ttl(),
            final(self).cache() == if addresses@.len() == 0 {
                old(self).cache()
            } else {
                cache_after_insert(
                    old(self).cache(),
                    CacheEntryView {
                        host: host@,
                        expires_at: time_after(now, (old(self).spec_ttl() as nat * 1000 % 0x1_0000_0000_0000_0000) as u64),
                        addresses: texts_of(addresses@),
                    },
                )
            },
    {
        if addresses.len() == 0 {
            return ;
        }
        let ghost before = self.cache();
        match self.position(host) {
            Some(i) => {
                let _ = self.cache.remove(i);
                assert(self.cache() =~= before.remove(i as int));
            },
            None => {},
        }
        let ghost rest = self.cache();
        if self.cache.len() >= MAX_CACHE_ENTRIES {
            let _ = self.cache.remove(0);
            assert(self.cache() =~= rest.drop_first());
        }
        let ghost kept = self.cache();
        let lifetime: u64 = (((self.ttl_secs as u128) * 1000) % 0x1_0000_0000_0000_0000) as u64;
        let entry = CacheEntry {
            host: host.clone(),
            expires_at: add_time(now, lifetime),
            addresses: copy_texts(addresses),
        };
        self.cache.push(entry);
        assert(self.cache() =~= kept.push(entry@));
    }

    /// Takes up a host name: says whether the answer is known, or for which
    /// name the system is to be asked.
    pub fn lookup(&mut self, host: &str, now: u64) -> (step: ResolveStep)
        requires
            old(self).wf(),
        ensures
            final(self).wf(),
            final(self).spec_ttl() == old(self).spec_ttl(),
            step_matches(step, step_for(old(self).cache(), host@, now), old(self).spec_ttl()),
            final(self).cache() == if step_for(old(self).cache(), host@, now) is Unsupported
                || step_for(old(self).cache(), host@, now) is Literal {
                old(self).cache()
            } else {
                cache_after_lookup(old(self).cache(), trimmed(host@), now)
            },
    {
        let name = trim(host);
        if name.as_str().unicode_len() == 0 || name.as_str().as_bytes().len() > MAX_HOST_LENGTH {
            return ResolveStep::Done(Err(ResolveError::Unsupported));
        }
        match parse_ip(name.as_str()) {
            Some(ip) => {
                let mut addresses: Vec<String> = Vec::new();
                addresses.push(ip_string(ip));
                assert(texts_of(addresses@) =~= seq![ip.text()]);
                return ResolveStep::Done(
                    Ok(ResolveOutcome { addresses, ttl_secs: self.ttl_secs }),
                );
            },
            None => {},
        }
        match self.cache_lookup(&name, now) {
            Some(addresses) => ResolveStep::Done(
                Ok(ResolveOutcome { addresses, ttl_secs: self.ttl_secs }),
            ),
            None => ResolveStep::Query(name),
        }
    }

    /// Takes what the system found for `host` at `now`: the addresses
    /// without repeats are the answer, and go into the cache; no address is
    /// a failed lookup.
    pub fn complete(&mut self, host: &str, found: &Vec<String>, now: u64) -> (r: Result<
        ResolveOutcome,
        ResolveError,
    >)
        requires
            old(self).wf(),
        ensures
            final(self).wf(),
            final(self).spec_ttl() == old(self).spec_ttl(),
            match r {
                Ok(outcome) => without_repeats(texts_of(found@)).len() > 0 && texts_of(
                    outcome.addresses@,
                ) == without_repeats(texts_of(found@)) && outcome.ttl_secs == old(self).spec_ttl(),
                Err(error) => {
                    &&& without_repeats(texts_of(found@)).len() == 0
                    &&& error is LookupFailed
                    &&& error->LookupFailed_0@ == "resolver returned no addresses"@
                    &&& final(self).cache() == old(self).cache()
                },
            },
    {
        let ghost all = texts_of(found@);
        let mut results: Vec<String> = Vec::new();
        let mut i: usize = 0;
        assert(all.take(0) =~= Seq::<Seq<char>>::empty());
        assert(texts_of(results@) =~= Seq::<Seq<char>>::empty());
        while i < found.len()
            invariant
                i <= found@.len(),
                all == texts_of(found@),
                texts_of(results@) == without_repeats(all.take(i as int)),
            decreases found@.len() - i,
        {
            proof {
                assert(all.take(i + 1).drop_last() =~= all.take(i as int));
                assert(all.take(i + 1).last() == found@[i as int]@);
            }
            if !holds_text(&results, &found[i]) {
                let ghost before = texts_of(results@);
                let text = found[i].clone();
                results.push(text);
                assert(texts_of(results@) =~= before.push(found@[i as int]@));
            }
            i = i + 1;
        }
        assert(all.take(i as int) =~= all);
        if results.len() == 0 {
            return Err(ResolveError::LookupFailed(String::from_str("resolver returned no addresses")));
        }
        let name = String::from_str(host);
        self.cache_insert(&name, &results, now);
        Ok(ResolveOutcome { addresses: results, ttl_secs: self.ttl_secs })
    }
}

} // verus!
