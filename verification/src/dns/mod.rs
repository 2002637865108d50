//! Engine-local DNS helpers that extract hostname/IP mappings from packets.

pub mod system;

use crate::addr::IpAddress;
use crate::bytes::{be_value, lemma_be_value_bound, lemma_pow256_values, read_be16, read_be32};
use crate::device::{lemma_address_at, v4_at, v6_at, word_at};
use crate::text::{lossy_string, lossy_text, utf8_string};
use vstd::utf8::{decode_utf8, valid_utf8};
use vstd::prelude::*;

verus! {

/// How many compression pointers a name may follow.
pub const MAX_NAME_JUMPS: u8 = 10;

/// How many labels are read of a name.
pub const MAX_NAME_LABELS: u8 = 32;

/// The longest label.
pub const MAX_LABEL_LEN: u8 = 63;

/// A host name with the addresses that a DNS response gives for it.
#[derive(Debug, Clone)]
pub struct DnsMapping {
    pub host: String,
    pub addresses: Vec<IpAddress>,
    pub ttl: Option<u32>,
}

/// A mapping as a mathematical value.
pub ghost struct DnsMappingView {
    pub host: Seq<char>,
    pub addresses: Seq<IpAddress>,
    pub ttl: Option<u32>,
}

impl View for DnsMapping {
    type V = DnsMappingView;

    open spec fn view(&self) -> DnsMappingView {
        DnsMappingView { host: self.host@, addresses: self.addresses@, ttl: self.ttl }
    }
}

/// The views of a list of mappings.
pub open spec fn mappings_view(mappings: Seq<DnsMapping>) -> Seq<DnsMappingView> {
    mappings.map_values(|m: DnsMapping| m@)
}

/// Why a host name could not be resolved.
#[derive(Debug)]
pub enum ResolveError {
    Unsupported,
    LookupFailed(String),
}

/// What a resolver found for a host name; the lifetime is in seconds.
#[derive(Debug, Clone)]
pub struct ResolveOutcome {
    pub addresses: Vec<String>,
    pub ttl_secs: u64,
}

/// A source of addresses for host names.
pub trait Resolver {
    fn resolve(&self, host: &str) -> Result<ResolveOutcome, ResolveError>;
}

/// A name that answers stand for, with the question names that it leads back to.
pub ghost struct AliasView {
    pub name: Seq<char>,
    pub roots: Seq<Seq<char>>,
}

struct AliasEntry {
    name: String,
    roots: Vec<String>,
}

/// The texts of a list of strings.
pub open spec fn texts_of(strings: Seq<String>) -> Seq<Seq<char>> {
    strings.map_values(|s: String| s@)
}

impl View for AliasEntry {
    type V = AliasView;

    closed spec fn view(&self) -> AliasView {
        AliasView { name: self.name@, roots: texts_of(self.roots@) }
    }
}

spec fn aliases_view(aliases: Seq<AliasEntry>) -> Seq<AliasView> {
    aliases.map_values(|a: AliasEntry| a@)
}

/// Two labels, or a label and the rest of a name, with a dot between them.
pub open spec fn join_labels(label: Seq<u8>, rest: Seq<u8>) -> Seq<u8> {
    if rest.len() == 0 {
        label
    } else {
        label + seq![0x2Eu8] + rest
    }
}

/// The name that starts at `pos`, as bytes with dots between the labels, and
/// the offset behind it in the stream: behind its terminator, its last label
/// or its first pointer. `None` where the name is refused: a label of more
/// than 63 bytes or one that runs over the end, a pointer that is cut short,
/// does not point strictly backwards or is the eleventh. A name ends at the
/// end of the buffer and after its 32nd label.
pub open spec fn name_walk(buf: Seq<u8>, pos: int, jumps: nat, labels: nat) -> Option<
    (Seq<u8>, int),
>
    decreases (MAX_NAME_JUMPS - jumps) as nat, (buf.len() - pos) as nat,
{
    if pos < 0 || pos >= buf.len() {
        Some((Seq::empty(), pos))
    } else if buf[pos] == 0 {
        Some((Seq::empty(), pos + 1))
    } else if buf[pos] >= 192 {
        let target = (buf[pos] % 64) * 256 + buf[pos + 1];
        if pos + 1 >= buf.len() || jumps >= MAX_NAME_JUMPS || target >= pos {
            None
        } else {
            match name_walk(buf, target, jumps + 1, labels) {
                Some((rest, _)) => Some((rest, pos + 2)),
                None => None,
            }
        }
    } else if buf[pos] > MAX_LABEL_LEN || pos + 1 + buf[pos] > buf.len() {
        None
    } else {
        let label = buf.subrange(pos + 1, pos + 1 + buf[pos]);
        if labels + 1 >= MAX_NAME_LABELS {
            Some((label, pos + 1 + buf[pos]))
        } else {
            match name_walk(buf, pos + 1 + buf[pos], jumps, labels + 1) {
                Some((rest, end)) => Some((join_labels(label, rest), end)),
                None => None,
            }
        }
    }
}

/// The name that starts at `pos`, as text, and the offset behind it; `None`
/// where the name is refused or has no label.
pub open spec fn read_name_spec(buf: Seq<u8>, pos: int) -> Option<(Seq<char>, int)> {
    match name_walk(buf, pos, 0, 0) {
        Some((bytes, end)) => if bytes.len() == 0 {
            None
        } else {
            Some((lossy_text(bytes), end))
        },
        None => None,
    }
}

/// The index of the first alias at or behind `from` that is named `name`, or -1.
pub open spec fn find_alias(aliases: Seq<AliasView>, name: Seq<char>, from: int) -> int
    decreases aliases.len() - from,
{
    if from < 0 || from >= aliases.len() {
        -1
    } else if aliases[from].name == name {
        from
    } else {
        find_alias(aliases, name, from + 1)
    }
}

/// The index of the first mapping at or behind `from` for host `name`, or -1.
pub open spec fn find_host(hosts: Seq<DnsMappingView>, name: Seq<char>, from: int) -> int
    decreases hosts.len() - from,
{
    if from < 0 || from >= hosts.len() {
        -1
    } else if hosts[from].host == name {
        from
    } else {
        find_host(hosts, name, from + 1)
    }
}

/// The question names that `name` leads back to: the name itself where no alias is known.
pub open spec fn lookup_roots_spec(aliases: Seq<AliasView>, name: Seq<char>) -> Seq<Seq<char>> {
    let i = find_alias(aliases, name, 0);
    if i >= 0 {
        aliases[i].roots
    } else {
        seq![name]
    }
}

/// `hosts` with `address` added for host `name`: at the end of the host's
/// addresses, or as a new last mapping with lifetime `ttl`.
pub open spec fn insert_mapping_spec(
    hosts: Seq<DnsMappingView>,
    name: Seq<char>,
    address: IpAddress,
    ttl: u32,
) -> Seq<DnsMappingView> {
    let i = find_host(hosts, name, 0);
    if i >= 0 {
        hosts.update(
            i,
            DnsMappingView {
                host: hosts[i].host,
                addresses: hosts[i].addresses.push(address),
                ttl: hosts[i].ttl,
            },
        )
    } else {
        hosts.push(DnsMappingView { host: name, addresses: seq![address], ttl: Some(ttl) })
    }
}

/// `hosts` with `address` added for each of `roots`, in their order.
pub open spec fn insert_for_roots(
    hosts: Seq<DnsMappingView>,
    roots: Seq<Seq<char>>,
    address: IpAddress,
    ttl: u32,
) -> Seq<DnsMappingView>
    decreases roots.len(),
{
    if roots.len() == 0 {
        hosts
    } else {
        insert_for_roots(
            insert_mapping_spec(hosts, roots[0], address, ttl),
            roots.drop_first(),
            address,
            ttl,
        )
    }
}

/// `known` with those of `roots` added that it does not hold yet, in their order.
pub open spec fn add_roots(known: Seq<Seq<char>>, roots: Seq<Seq<char>>) -> Seq<Seq<char>>
    decreases roots.len(),
{
    if roots.len() == 0 {
        known
    } else {
        add_roots(
            if known.contains(roots[0]) {
                known
            } else {
                known.push(roots[0])
            },
            roots.drop_first(),
        )
    }
}

/// `aliases` after a CNAME record has led `target` back to `roots`.
pub open spec fn alias_target(
    aliases: Seq<AliasView>,
    target: Seq<char>,
    roots: Seq<Seq<char>>,
) -> Seq<AliasView> {
    if roots.len() == 0 {
        aliases
    } else {
        let i = find_alias(aliases, target, 0);
        if i >= 0 {
            aliases.update(
                i,
                AliasView { name: aliases[i].name, roots: add_roots(aliases[i].roots, roots) },
            )
        } else {
            aliases.push(AliasView { name: target, roots: add_roots(Seq::empty(), roots) })
        }
    }
}

/// `aliases` with the question `name` as its own root, unless it is known already.
pub open spec fn seed_alias(aliases: Seq<AliasView>, name: Seq<char>) -> Seq<AliasView> {
    if find_alias(aliases, name, 0) >= 0 {
        aliases
    } else {
        aliases.push(AliasView { name, roots: seq![name] })
    }
}

/// The offset behind `count` questions that start at `offset`, and the
/// aliases that they seed; `None` where a question is cut short or its name refused.
pub open spec fn questions_from(
    buf: Seq<u8>,
    count: nat,
    offset: int,
    aliases: Seq<AliasView>,
) -> Option<(int, Seq<AliasView>)>
    decreases count,
{
    if count == 0 {
        Some((offset, aliases))
    } else {
        match read_name_spec(buf, offset) {
            Some((name, next)) => if next + 4 > buf.len() {
                None
            } else {
                questions_from(buf, (count - 1) as nat, next + 4, seed_alias(aliases, name))
            },
            None => None,
        }
    }
}

/// The state of the walk over the answers.
pub ghost struct AnswerState {
    pub offset: int,
    pub aliases: Seq<AliasView>,
    pub hosts: Seq<DnsMappingView>,
}

/// The state behind the answer record at `state.offset`: an A or AAAA record
/// of the right length adds its address for every root of its name, a CNAME
/// record leads its target back to the roots of its name, any other record
/// is passed over. `None` where the record is cut short or its name refused.
pub open spec fn answer_step(buf: Seq<u8>, state: AnswerState) -> Option<AnswerState> {
    match read_name_spec(buf, state.offset) {
        Some((name, fields)) => {
            let rdlength = word_at(buf, fields + 8) as int;
            let rdata = fields + 10;
            if fields + 10 > buf.len() || rdata + rdlength > buf.len() {
                None
            } else {
                let record_type = word_at(buf, fields);
                let ttl = be_value(buf.subrange(fields + 4, fields + 8)) as u32;
                let roots = lookup_roots_spec(state.aliases, name);
                let next = rdata + rdlength;
                if record_type == 1 && rdlength == 4 {
                    Some(
                        AnswerState {
                            offset: next,
                            aliases: state.aliases,
                            hosts: insert_for_roots(state.hosts, roots, v4_at(buf, rdata), ttl),
                        },
                    )
                } else if record_type == 28 && rdlength == 16 {
                    Some(
                        AnswerState {
                            offset: next,
                            aliases: state.aliases,
                            hosts: insert_for_roots(state.hosts, roots, v6_at(buf, rdata), ttl),
                        },
                    )
                } else if record_type == 5 {
                    match read_name_spec(buf, rdata) {
                        Some((target, _)) => Some(
                            AnswerState {
                                offset: next,
                                aliases: alias_target(state.aliases, target, roots),
                                hosts: state.hosts,
                            },
                        ),
                        None => Some(
                            AnswerState { offset: next, aliases: state.aliases, hosts: state.hosts },
                        ),
                    }
                } else {
                    Some(AnswerState { offset: next, aliases: state.aliases, hosts: state.hosts })
                }
            }
        },
        None => None,
    }
}

/// The mappings behind `count` answer records from `state` on.
pub open spec fn answers_from(buf: Seq<u8>, count: nat, state: AnswerState) -> Option<
    Seq<DnsMappingView>,
>
    decreases count,
{
    if count == 0 {
        Some(state.hosts)
    } else {
        match answer_step(buf, state) {
            Some(next) => answers_from(buf, (count - 1) as nat, next),
            None => None,
        }
    }
}

/// The mappings that a DNS payload gives: those of its answers if it is a
/// response that can be read to the end of its answers, none otherwise. The
/// mappings stand in the order in which their hosts first got an address.
pub open spec fn dns_mappings(payload: Seq<u8>) -> Seq<DnsMappingView> {
    if payload.len() < 12 || payload[2] < 128 {
        Seq::empty()
    } else {
        match questions_from(payload, word_at(payload, 4), 12, Seq::empty()) {
            Some((offset, aliases)) => match answers_from(
                payload,
                word_at(payload, 6),
                AnswerState { offset, aliases, hosts: Seq::empty() },
            ) {
                Some(hosts) => hosts,
                None => Seq::empty(),
            },
            None => Seq::empty(),
        }
    }
}

fn walk_name(buf: &[u8], pos: usize, jumps: u8, labels: u8) -> (r: Option<(Vec<u8>, usize)>)
    requires
        jumps <= MAX_NAME_JUMPS,
        labels < MAX_NAME_LABELS,
        pos <= buf@.len(),
    ensures
        match r {
            Some((bytes, end)) => name_walk(buf@, pos as int, jumps as nat, labels as nat) == Some(
                (bytes@, end as int),
            ) && end <= buf@.len() + 1,
            None => name_walk(buf@, pos as int, jumps as nat, labels as nat) is None,
        },
    decreases (MAX_NAME_JUMPS - jumps) as nat, (buf@.len() - pos) as nat,
{
    let len: usize = buf.len();
    if pos >= len {
        return Some((Vec::new(), pos));
    }
    let first = buf[pos];
    if first == 0 {
        return Some((Vec::new(), pos + 1));
    }
    if first >= 192 {
        if pos + 1 >= len || jumps >= MAX_NAME_JUMPS {
            return None;
        }
        let target: usize = ((first % 64) as usize) * 256 + (buf[pos + 1] as usize);
        if target >= pos {
            return None;
        }
        return match walk_name(buf, target, jumps + 1, labels) {
            Some((rest, _)) => Some((rest, pos + 2)),
            None => None,
        };
    }
    let label_len: usize = first as usize;
    if first > MAX_LABEL_LEN || label_len > len - pos - 1 {
        return None;
    }
    let start: usize = pos + 1;
    let end: usize = start + label_len;
    let mut name = vstd::slice::slice_to_vec(vstd::slice::slice_subrange(buf, start, end));
    if labels + 1 >= MAX_NAME_LABELS {
        return Some((name, end));
    }
    match walk_name(buf, end, jumps, labels + 1) {
        Some((rest, after)) => {
            if rest.len() > 0 {
                let ghost label = name@;
                name.push(0x2E);
                let mut i: usize = 0;
                while i < rest.len()
                    invariant
                        i <= rest@.len(),
                        name@ =~= label + seq![0x2Eu8] + rest@.subrange(0, i as int),
                    decreases rest@.len() - i,
                {
                    name.push(rest[i]);
                    i = i + 1;
                }
                assert(rest@.subrange(0, rest@.len() as int) =~= rest@);
                assert(name@ =~= join_labels(label, rest@));
            }
            Some((name, after))
        },
        None => None,
    }
}

fn read_name(buf: &[u8], offset: usize) -> (r: Option<(String, usize)>)
    requires
        offset <= buf@.len(),
    ensures
        match r {
            Some((name, end)) => read_name_spec(buf@, offset as int) == Some((name@, end as int))
                && end <= buf@.len() + 1,
            None => read_name_spec(buf@, offset as int) is None,
        },
{
    match walk_name(buf, offset, 0, 0) {
        Some((bytes, end)) => {
            if bytes.len() == 0 {
                None
            } else {
                Some((lossy_string(bytes.as_slice()), end))
            }
        },
        None => None,
    }
}

fn alias_position(aliases: &Vec<AliasEntry>, name: &String) -> (r: Option<usize>)
    ensures
        match r {
            Some(i) => i < aliases@.len() && find_alias(aliases_view(aliases@), name@, 0) == i,
            None => find_alias(aliases_view(aliases@), name@, 0) == -1,
        },
{
    let mut i: usize = 0;
    while i < aliases.len()
        invariant
            i <= aliases@.len(),
            find_alias(aliases_view(aliases@), name@, 0) == find_alias(
                aliases_view(aliases@),
                name@,
                i as int,
            ),
        decreases aliases@.len() - i,
    {
        if aliases[i].name == *name {
            return Some(i);
        }
        i = i + 1;
    }
    None
}

fn host_position(hosts: &Vec<DnsMapping>, name: &String) -> (r: Option<usize>)
    ensures
        match r {
            Some(i) => i < hosts@.len() && find_host(mappings_view(hosts@), name@, 0) == i,
            None => find_host(mappings_view(hosts@), name@, 0) == -1,
        },
{
    let mut i: usize = 0;
    while i < hosts.len()
        invariant
            i <= hosts@.len(),
            find_host(mappings_view(hosts@), name@, 0) == find_host(
                mappings_view(hosts@),
                name@,
                i as int,
            ),
        decreases hosts@.len() - i,
    {
        if hosts[i].host == *name {
            return Some(i);
        }
        i = i + 1;
    }
    None
}

fn clone_names(names: &Vec<String>) -> (r: Vec<String>)
    ensures
        texts_of(r@) == texts_of(names@),
{
    let mut out: Vec<String> = Vec::new();
    let mut i: usize = 0;
    while i < names.len()
        invariant
            i <= names@.len(),
            texts_of(out@) =~= texts_of(names@).take(i as int),
        decreases names@.len() - i,
    {
        let ghost before = texts_of(out@);
        let name = names[i].clone();
        out.push(name);
        assert(texts_of(out@) =~= before.push(names@[i as int]@));
        i = i + 1;
    }
    assert(texts_of(names@).take(names@.len() as int) =~= texts_of(names@));
    out
}

fn lookup_roots(aliases: &Vec<AliasEntry>, name: &String) -> (r: Vec<String>)
    ensures
        texts_of(r@) == lookup_roots_spec(aliases_view(aliases@), name@),
{
    match alias_position(aliases, name) {
        Some(i) => clone_names(&aliases[i].roots),
        None => {
            let mut out: Vec<String> = Vec::new();
            out.push(name.clone());
            assert(texts_of(out@) =~= seq![name@]);
            out
        },
    }
}

fn insert_mapping(hosts: &mut Vec<DnsMapping>, name: &String, address: IpAddress, ttl: u32)
    ensures
        mappings_view(final(hosts)@) == insert_mapping_spec(
            mappings_view(old(hosts)@),
            name@,
            address,
            ttl,
        ),
{
    match host_position(hosts, name) {
        Some(i) => {
            let mut entry = hosts.remove(i);
            entry.addresses.push(address);
            hosts.insert(i, entry);
            assert(mappings_view(hosts@) =~= insert_mapping_spec(
                mappings_view(old(hosts)@),
                name@,
                address,
                ttl,
            ));
        },
        None => {
            let mut addresses: Vec<IpAddress> = Vec::new();
            addresses.push(address);
            hosts.push(DnsMapping { host: name.clone(), addresses, ttl: Some(ttl) });
            assert(mappings_view(hosts@) =~= insert_mapping_spec(
                mappings_view(old(hosts)@),
                name@,
                address,
                ttl,
            ));
        },
    }
}

fn insert_roots(hosts: &mut Vec<DnsMapping>, roots: &Vec<String>, address: IpAddress, ttl: u32)
    ensures
        mappings_view(final(hosts)@) == insert_for_roots(
            mappings_view(old(hosts)@),
            texts_of(roots@),
            address,
            ttl,
        ),
{
    let mut i: usize = 0;
    assert(texts_of(roots@).skip(0) =~= texts_of(roots@));
    while i < roots.len()
        invariant
            i <= roots@.len(),
            insert_for_roots(mappings_view(hosts@), texts_of(roots@).skip(i as int), address, ttl)
                == insert_for_roots(mappings_view(old(hosts)@), texts_of(roots@), address, ttl),
        decreases roots@.len() - i,
    {
        proof {
            assert(texts_of(roots@).skip(i as int).drop_first() =~= texts_of(roots@).skip(i + 1));
        }
        insert_mapping(hosts, &roots[i], address, ttl);
        i = i + 1;
    }
}

fn holds_name(names: &Vec<String>, name: &String) -> (r: bool)
    ensures
        r == texts_of(names@).contains(name@),
{
    let mut i: usize = 0;
    while i < names.len()
        invariant
            i <= names@.len(),
            forall|k: int| 0 <= k < i ==> texts_of(names@)[k] != name@,
        decreases names@.len() - i,
    {
        if names[i] == *name {
            assert(texts_of(names@)[i as int] == name@);
            return true;
        }
        i = i + 1;
    }
    false
}

fn extend_roots(known: &mut Vec<String>, roots: &Vec<String>)
    ensures
        texts_of(final(known)@) == add_roots(texts_of(old(known)@), texts_of(roots@)),
{
    let mut i: usize = 0;
    assert(texts_of(roots@).skip(0) =~= texts_of(roots@));
    while i < roots.len()
        invariant
            i <= roots@.len(),
            add_roots(texts_of(known@), texts_of(roots@).skip(i as int)) == add_roots(
                texts_of(old(known)@),
                texts_of(roots@),
            ),
        decreases roots@.len() - i,
    {
        proof {
            assert(texts_of(roots@).skip(i as int).drop_first() =~= texts_of(roots@).skip(i + 1));
        }
        if !holds_name(known, &roots[i]) {
            let ghost before = texts_of(known@);
            known.push(roots[i].clone());
            assert(texts_of(known@) =~= before.push(roots@[i as int]@));
        }
        i = i + 1;
    }
}

fn record_alias(aliases: &mut Vec<AliasEntry>, target: String, roots: &Vec<String>)
    ensures
        aliases_view(final(aliases)@) == alias_target(
            aliases_view(old(aliases)@),
            target@,
            texts_of(roots@),
        ),
{
    if roots.len() == 0 {
        return ;
    }
    match alias_position(aliases, &target) {
        Some(i) => {
            let mut entry = aliases.remove(i);
            extend_roots(&mut entry.roots, roots);
            aliases.insert(i, entry);
            assert(aliases_view(aliases@) =~= alias_target(
                aliases_view(old(aliases)@),
                target@,
                texts_of(roots@),
            ));
        },
        None => {
            let mut known: Vec<String> = Vec::new();
            assert(texts_of(known@) =~= Seq::<Seq<char>>::empty());
            extend_roots(&mut known, roots);
            aliases.push(AliasEntry { name: target, roots: known });
            assert(aliases_view(aliases@) =~= alias_target(
                aliases_view(old(aliases)@),
                target@,
                texts_of(roots@),
            ));
        },
    }
}

fn seed_question(aliases: &mut Vec<AliasEntry>, name: String)
    ensures
        aliases_view(final(aliases)@) == seed_alias(aliases_view(old(aliases)@), name@),
{
    match alias_position(aliases, &name) {
        Some(_) => {},
        None => {
            let mut roots: Vec<String> = Vec::new();
            roots.push(name.clone());
            assert(texts_of(roots@) =~= seq![name@]);
            aliases.push(AliasEntry { name, roots });
            assert(aliases_view(aliases@) =~= seed_alias(aliases_view(old(aliases)@), name@));
        },
    }
}

/// Attempts to parse a DNS response payload and return hostname/IP pairs.
pub fn parse_response(payload: &[u8]) -> (mappings: Vec<DnsMapping>)
    ensures
        mappings_view(mappings@) == dns_mappings(payload@),
{
    let len: usize = payload.len();
    if len < 12 || payload[2] < 128 {
        assert(mappings_view(Seq::<DnsMapping>::empty()) =~= Seq::<DnsMappingView>::empty());
        return Vec::new();
    }
    let qd_count: u16 = read_be16(payload, 4);
    let an_count: u16 = read_be16(payload, 6);
    let mut offset: usize = 12;
    let mut aliases: Vec<AliasEntry> = Vec::new();
    let mut hosts: Vec<DnsMapping> = Vec::new();
    assert(aliases_view(aliases@) =~= Seq::<AliasView>::empty());
    assert(mappings_view(hosts@) =~= Seq::<DnsMappingView>::empty());
    let mut q: u16 = 0;
    while q < qd_count
        invariant
            q <= qd_count,
            len == payload@.len(),
            len >= 12,
            payload@[2] >= 128,
            qd_count == word_at(payload@, 4),
            offset <= len,
            hosts@.len() == 0,
            questions_from(payload@, (qd_count - q) as nat, offset as int, aliases_view(aliases@))
                == questions_from(payload@, qd_count as nat, 12, Seq::empty()),
        decreases qd_count - q,
    {
        let ghost remaining = questions_from(
            payload@,
            (qd_count - q) as nat,
            offset as int,
            aliases_view(aliases@),
        );
        match read_name(payload, offset) {
            Some((name, next)) => {
                if next > len || 4 > len - next {
                    assert(remaining is None);
                    assert(mappings_view(hosts@) =~= Seq::<DnsMappingView>::empty());
                    return hosts;
                }
                seed_question(&mut aliases, name);
                offset = next + 4;
            },
            None => {
                assert(remaining is None);
                assert(mappings_view(hosts@) =~= Seq::<DnsMappingView>::empty());
                return hosts;
            },
        }
        q = q + 1;
    }
    let ghost start = AnswerState {
        offset: offset as int,
        aliases: aliases_view(aliases@),
        hosts: Seq::empty(),
    };
    let mut a: u16 = 0;
    while a < an_count
        invariant
            a <= an_count,
            len == payload@.len(),
            offset <= len,
            answers_from(
                payload@,
                (an_count - a) as nat,
                AnswerState {
                    offset: offset as int,
                    aliases: aliases_view(aliases@),
                    hosts: mappings_view(hosts@),
                },
            ) == answers_from(payload@, an_count as nat, start),
            dns_mappings(payload@) == match answers_from(payload@, an_count as nat, start) {
                Some(found) => found,
                None => Seq::empty(),
            },
        decreases an_count - a,
    {
        let ghost state = AnswerState {
            offset: offset as int,
            aliases: aliases_view(aliases@),
            hosts: mappings_view(hosts@),
        };
        let ghost remaining = answers_from(payload@, (an_count - a) as nat, state);
        assert(remaining == match answer_step(payload@, state) {
            Some(next) => answers_from(payload@, (an_count - a - 1) as nat, next),
            None => None,
        });
        let (name, fields) = match read_name(payload, offset) {
            Some(read) => read,
            None => {
                assert(mappings_view(Seq::<DnsMapping>::empty()) =~= Seq::<DnsMappingView>::empty());
                return Vec::new();
            },
        };
        if fields > len || 10 > len - fields {
            assert(mappings_view(Seq::<DnsMapping>::empty()) =~= Seq::<DnsMappingView>::empty());
            return Vec::new();
        }
        let record_type: u16 = read_be16(payload, fields);
        let ttl: u32 = read_be32(payload, fields + 4);
        let rdlength: usize = read_be16(payload, fields + 8) as usize;
        let rdata: usize = fields + 10;
        if rdlength > len - rdata {
            assert(mappings_view(Seq::<DnsMapping>::empty()) =~= Seq::<DnsMappingView>::empty());
            return Vec::new();
        }
        offset = rdata + rdlength;
        proof {
            lemma_be_value_bound(payload@.subrange(fields + 4, fields + 8));
            lemma_pow256_values();
        }
        if record_type == 1 && rdlength == 4 {
            let address = IpAddress::read_v4(payload, rdata);
            proof {
                lemma_address_at(payload@, rdata as int, address);
            }
            let roots = lookup_roots(&aliases, &name);
            insert_roots(&mut hosts, &roots, address, ttl);
        } else if record_type == 28 && rdlength == 16 {
            let address = IpAddress::read_v6(payload, rdata);
            proof {
                lemma_address_at(payload@, rdata as int, address);
            }
            let roots = lookup_roots(&aliases, &name);
            insert_roots(&mut hosts, &roots, address, ttl);
        } else if record_type == 5 {
            match read_name(payload, rdata) {
                Some((target, _)) => {
                    let roots = lookup_roots(&aliases, &name);
                    record_alias(&mut aliases, target, &roots);
                },
                None => {},
            }
        }
        a = a + 1;
    }
    hosts
}

/// The name of the first question of a DNS message, and whether the message
/// is a response: `None` for a message without a question, or whose first
/// name is refused, has no label or is not UTF-8.
pub open spec fn dns_question(payload: Seq<u8>) -> Option<(Seq<char>, bool)> {
    if payload.len() < 12 || word_at(payload, 4) == 0 {
        None
    } else {
        match name_walk(payload, 12, 0, 0) {
            Some((bytes, _)) => if bytes.len() == 0 || !valid_utf8(bytes) {
                None
            } else {
                Some((decode_utf8(bytes), payload[2] >= 128))
            },
            None => None,
        }
    }
}

/// Reads the name of the first question of a DNS message.
pub fn parse_dns_qname(payload: &[u8]) -> (r: Option<(String, bool)>)
    ensures
        match r {
            Some((name, is_response)) => dns_question(payload@) == Some((name@, is_response)),
            None => dns_question(payload@) is None,
        },
{
    if payload.len() < 12 {
        return None;
    }
    let qdcount = read_be16(payload, 4);
    if qdcount == 0 {
        return None;
    }
    match walk_name(payload, 12, 0, 0) {
        Some((bytes, _)) => {
            if bytes.len() == 0 {
                return None;
            }
            match utf8_string(bytes.as_slice()) {
                Some(name) => Some((name, payload[2] >= 128)),
                None => None,
            }
        },
        None => None,
    }
}

/// A name with a pointer that does not point strictly backwards is refused.
pub proof fn lemma_forward_pointer_refused(buf: Seq<u8>, pos: int, jumps: nat, labels: nat)
    requires
        0 <= pos,
        pos + 1 < buf.len(),
        buf[pos] >= 192,
        (buf[pos] % 64) * 256 + buf[pos + 1] >= pos,
    ensures
        name_walk(buf, pos, jumps, labels) is None,
        read_name_spec(buf, pos) is None,
{
}

/// A response whose first question starts with a forward pointer gives no mappings.
pub proof fn lemma_forward_pointer_gives_no_mappings(payload: Seq<u8>)
    requires
        payload.len() >= 14,
        word_at(payload, 4) >= 1,
        payload[12] >= 192,
        (payload[12] % 64) * 256 + payload[13] >= 12,
    ensures
        dns_mappings(payload) == Seq::<DnsMappingView>::empty(),
{
    lemma_forward_pointer_refused(payload, 12, 0, 0);
}

/// A response whose next answer is named through a forward pointer gives no
/// mappings, whatever the answers before it held.
pub proof fn lemma_forward_pointer_in_answer(buf: Seq<u8>, count: nat, state: AnswerState)
    requires
        count >= 1,
        0 <= state.offset,
        state.offset + 1 < buf.len(),
        buf[state.offset] >= 192,
        (buf[state.offset] % 64) * 256 + buf[state.offset + 1] >= state.offset,
    ensures
        answers_from(buf, count, state) is None,
{
    lemma_forward_pointer_refused(buf, state.offset, 0, 0);
}

/// Parsing is a function of the payload: two parses of one payload give equal mappings.
pub proof fn lemma_parse_twice(
    payload: Seq<u8>,
    first: Seq<DnsMappingView>,
    second: Seq<DnsMappingView>,
)
    requires
        first == dns_mappings(payload),
        second == dns_mappings(payload),
    ensures
        first == second,
{
}

} // verus!
