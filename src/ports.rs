use vstd::prelude::*;

use crate::config::{first_port_fault, lemma_no_fault_unique, ForwardedPort};
use crate::domain::{is_slug_char, lower, slug_of, slugify_name, valid_slug, ForwardedPortMapping, SandboxError};
use crate::text::{chars_of, push_char, push_decimal, push_str, decimal, starts_with, string_of_range, views};

verus! {

/// One host-side binding of a container port.
#[derive(Clone, Debug, PartialEq, Eq)]
pub struct PortBindingSpec {
    pub host_ip: Option<String>,
    pub host_port: Option<String>,
}

/// The bindings of one container port, keyed as the engine keys them (`8080/tcp`).
#[derive(Clone, Debug, PartialEq, Eq)]
pub struct PortBindingEntry {
    pub container_port: String,
    pub bindings: Vec<PortBindingSpec>,
}

/// What inspecting a container tells: its environment (`KEY=value` entries) and its port
/// bindings.
#[derive(Clone, Debug, PartialEq, Eq)]
pub struct ContainerInspection {
    pub env: Vec<String>,
    pub port_bindings: Vec<PortBindingEntry>,
}

pub open spec fn is_digit(c: char) -> bool {
    '0' <= c && c <= '9'
}

pub open spec fn all_digits(s: Seq<char>) -> bool {
    forall|i: int| 0 <= i < s.len() ==> is_digit(#[trigger] s[i])
}

/// The number that a string of decimal digits spells.
pub open spec fn digits_value(s: Seq<char>) -> nat
    decreases s.len(),
{
    if s.len() == 0 {
        0
    } else {
        digits_value(s.drop_last()) * 10 + ((s.last() as u32) - 48) as nat
    }
}

/// What `u16::from_str` gives: an optional `+`, then one or more decimal digits whose
/// value fits in 16 bits.
pub open spec fn parse_u16(s: Seq<char>) -> Option<u16> {
    let d = if s.len() > 0 && s[0] == '+' { s.drop_first() } else { s };
    if d.len() > 0 && all_digits(d) && digits_value(d) <= 65535 {
        Some(digits_value(d) as u16)
    } else {
        None
    }
}

pub fn parse_port(s: &str) -> (r: Option<u16>)
    ensures
        r == parse_u16(s@),
{
    let v = chars_of(s);
    let start: usize = if v.len() > 0 && v[0] == '+' { 1 } else { 0 };
    let ghost d = v@.subrange(start as int, v@.len() as int);
    proof {
        if start == 1 {
            assert(d =~= s@.drop_first());
        } else {
            assert(d =~= s@);
        }
    }
    if start >= v.len() {
        return None;
    }
    let mut acc: u32 = 0;
    let mut i: usize = start;
    while i < v.len()
        invariant
            start <= i <= v@.len(),
            v@ == s@,
            d == v@.subrange(start as int, v@.len() as int),
            d == (if s@.len() > 0 && s@[0] == '+' { s@.drop_first() } else { s@ }),
            all_digits(v@.subrange(start as int, i as int)),
            acc as nat == digits_value(v@.subrange(start as int, i as int)),
            acc <= 65535,
        decreases v@.len() - i,
    {
        let c = v[i];
        assert(v@.subrange(start as int, i + 1).drop_last() =~= v@.subrange(start as int, i as int));
        if !('0' <= c && c <= '9') {
            assert(!all_digits(d)) by {
                assert(d[i - start] == c);
            }
            return None;
        }
        let next = acc * 10 + ((c as u32) - 48);
        if next > 65535 {
            proof {
                let k = i - start + 1;
                assert(d.take(k) =~= v@.subrange(start as int, i + 1));
                assert(all_digits(d.take(k)));
                assert(digits_value(d.take(k)) == next);
                lemma_digits_grow(d, k);
            }
            return None;
        }
        acc = next;
        i = i + 1;
    }
    assert(v@.subrange(start as int, v@.len() as int) == d);
    Some(acc as u16)
}

/// A longer run of digits is worth at least as much as its start.
proof fn lemma_digits_grow(d: Seq<char>, k: int)
    requires
        0 <= k <= d.len(),
        all_digits(d.take(k)),
    ensures
        all_digits(d) ==> digits_value(d.take(k)) <= digits_value(d),
    decreases d.len() - k,
{
    if k < d.len() && all_digits(d) {
        assert(d.take(k + 1).drop_last() =~= d.take(k));
        assert(all_digits(d.take(k + 1)));
        lemma_digits_grow(d, k + 1);
    } else if k == d.len() {
        assert(d.take(k) =~= d);
    }
}

/// The position of the first `c` in `s`, or its length when there is none.
pub open spec fn first_index_of(s: Seq<char>, c: char) -> int
    decreases s.len(),
{
    if s.len() == 0 {
        0
    } else if s[0] == c {
        0
    } else {
        1 + first_index_of(s.drop_first(), c)
    }
}

proof fn lemma_first_index(s: Seq<char>, c: char, i: int)
    requires
        0 <= i <= s.len(),
        i < s.len() ==> s[i] == c,
        forall|k: int| 0 <= k < i ==> s[k] != c,
    ensures
        first_index_of(s, c) == i,
    decreases i,
{
    if i > 0 {
        assert forall|k: int| 0 <= k < i - 1 implies s.drop_first()[k] != c by {
            assert(s.drop_first()[k] == s[k + 1]);
        }
        lemma_first_index(s.drop_first(), c, i - 1);
    }
}

/// Finds the first `c` in `v`.
fn find_char(v: &Vec<char>, c: char) -> (r: usize)
    ensures
        r as int == first_index_of(v@, c),
        r <= v@.len(),
{
    let mut i: usize = 0;
    while i < v.len() && v[i] != c
        invariant
            i <= v@.len(),
            forall|k: int| 0 <= k < i ==> v@[k] != c,
        decreases v@.len() - i,
    {
        i = i + 1;
    }
    proof {
        lemma_first_index(v@, c, i as int);
    }
    i
}

pub open spec fn fwd_prefix() -> Seq<char> {
    "LITTERBOX_FWD_PORT_"@
}

/// An environment entry that announces a forwarded port: `LITTERBOX_FWD_PORT_<NAME>=<port>`,
/// split at its first `=`, read as its key and port.
pub open spec fn env_entry(e: Seq<char>) -> Option<(Seq<char>, u16)> {
    let i = first_index_of(e, '=');
    if i < e.len() && starts_with(e.take(i), fwd_prefix()) {
        match parse_u16(e.subrange(i + 1, e.len() as int)) {
            Some(p) => Some((e.take(i), p)),
            None => None,
        }
    } else {
        None
    }
}

fn env_entry_exec(e: &str) -> (r: Option<(String, u16)>)
    ensures
        match env_entry(e@) {
            Some((k, p)) => r is Some && r->Some_0.0@ == k && r->Some_0.1 == p,
            None => r is None,
        },
{
    let v = chars_of(e);
    let i = find_char(&v, '=');
    if i == v.len() {
        return None;
    }
    let key = string_of_range(&v, 0, i);
    assert(key@ =~= e@.take(i as int));
    let has_prefix = key_has_prefix(&v, i);
    if !has_prefix {
        return None;
    }
    let value = string_of_range(&v, i + 1, v.len());
    match parse_port(value.as_str()) {
        Some(p) => Some((key, p)),
        None => None,
    }
}

fn key_has_prefix(v: &Vec<char>, i: usize) -> (r: bool)
    requires
        i <= v@.len(),
    ensures
        r == starts_with(v@.take(i as int), fwd_prefix()),
{
    let p = chars_of("LITTERBOX_FWD_PORT_");
    if p.len() > i {
        return false;
    }
    let mut k: usize = 0;
    while k < p.len()
        invariant
            k <= p@.len() <= i <= v@.len(),
            p@ == fwd_prefix(),
            forall|m: int| 0 <= m < k ==> v@[m] == p@[m],
        decreases p@.len() - k,
    {
        if v[k] != p[k] {
            assert(v@.take(i as int).subrange(0, p@.len() as int)[k as int] != p@[k as int]);
            return false;
        }
        k = k + 1;
    }
    assert(v@.take(i as int).subrange(0, p@.len() as int) =~= p@);
    true
}

/// The key of the last entry of `env` that announces host port `port`.
pub open spec fn env_lookup(env: Seq<Seq<char>>, port: u16) -> Option<Seq<char>>
    decreases env.len(),
{
    if env.len() == 0 {
        None
    } else {
        match env_entry(env.last()) {
            Some((k, p)) => if p == port { Some(k) } else { env_lookup(env.drop_last(), port) },
            None => env_lookup(env.drop_last(), port),
        }
    }
}

proof fn lemma_lookup_prefixed(env: Seq<Seq<char>>, port: u16)
    ensures
        env_lookup(env, port) matches Some(k) ==> starts_with(k, fwd_prefix()),
    decreases env.len(),
{
    if env.len() > 0 {
        lemma_lookup_prefixed(env.drop_last(), port);
        let e = env.last();
        let i = first_index_of(e, '=');
        if env_entry(e) is Some {
            assert(e.take(i).subrange(0, fwd_prefix().len() as int) == fwd_prefix());
        }
    }
}

fn env_lookup_exec(env: &Vec<String>, port: u16) -> (r: Option<String>)
    ensures
        match env_lookup(views(env@), port) {
            Some(k) => r is Some && r->Some_0@ == k,
            None => r is None,
        },
{
    let mut found: Option<String> = None;
    let mut i: usize = 0;
    while i < env.len()
        invariant
            i <= env@.len(),
            match env_lookup(views(env@).take(i as int), port) {
                Some(k) => found is Some && found->Some_0@ == k,
                None => found is None,
            },
        decreases env@.len() - i,
    {
        proof {
            let t = views(env@).take(i + 1);
            assert(t.drop_last() =~= views(env@).take(i as int));
            assert(t.last() == env@[i as int]@);
        }
        match env_entry_exec(env[i].as_str()) {
            Some((k, p)) => {
                if p == port {
                    found = Some(k);
                }
            },
            None => {},
        }
        i = i + 1;
    }
    assert(views(env@).take(env@.len() as int) =~= views(env@));
    found
}

/// The logical name that an announcing key stands for: the part after the prefix,
/// lowercased, with `_` written as `-`.
pub open spec fn env_name(k: Seq<char>) -> Seq<char> {
    k.subrange(fwd_prefix().len() as int, k.len() as int).map_values(|c: char| if lower(c) == '_' { '-' } else { lower(c) })
}

fn env_name_exec(k: &str) -> (r: String)
    requires
        starts_with(k@, fwd_prefix()),
    ensures
        r@ == env_name(k@),
{
    let v = chars_of(k);
    let n: usize = 19;
    assert(fwd_prefix().len() == 19) by {
        reveal_strlit("LITTERBOX_FWD_PORT_");
    }
    let mut r = String::new();
    let mut i: usize = n;
    while i < v.len()
        invariant
            n <= i <= v@.len(),
            n == fwd_prefix().len(),
            v@ == k@,
            r@ == v@.subrange(n as int, i as int).map_values(|c: char| if lower(c) == '_' { '-' } else { lower(c) }),
        decreases v@.len() - i,
    {
        let c = v[i];
        let l = if 'A' <= c && c <= 'Z' { ((c as u8) + 32) as char } else { c };
        let m = if l == '_' { '-' } else { l };
        push_char(&mut r, m);
        i = i + 1;
        assert(r@ =~= v@.subrange(n as int, i as int).map_values(|c: char| if lower(c) == '_' { '-' } else { lower(c) }));
    }
    r
}

/// A mapping seen as plain values: name, container port, host port, variable.
pub open spec fn mapping_view(m: ForwardedPortMapping) -> (Seq<char>, u16, u16, Seq<char>) {
    (m.name@, m.target, m.host_port, m.env_var@)
}

/// The mappings of one container port's bindings: one for each binding whose host port
/// is a number that an environment entry announces.
pub open spec fn binding_maps(target: u16, bs: Seq<PortBindingSpec>, env: Seq<Seq<char>>) -> Seq<(Seq<char>, u16, u16, Seq<char>)>
    decreases bs.len(),
{
    if bs.len() == 0 {
        Seq::empty()
    } else {
        let p = binding_maps(target, bs.drop_last(), env);
        match bs.last().host_port {
            Some(hp) => match parse_u16(hp@) {
                Some(h) => match env_lookup(env, h) {
                    Some(k) => p.push((env_name(k), target, h, k)),
                    None => p,
                },
                None => p,
            },
            None => p,
        }
    }
}

/// The container port that a binding key (`8080/tcp`) names: the number before its first `/`.
pub open spec fn key_target(key: Seq<char>) -> Option<u16> {
    parse_u16(key.take(first_index_of(key, '/')))
}

/// The mappings of all bindings, in the order of the entries and of their bindings.
pub open spec fn inspection_maps(es: Seq<PortBindingEntry>, env: Seq<Seq<char>>) -> Seq<(Seq<char>, u16, u16, Seq<char>)>
    decreases es.len(),
{
    if es.len() == 0 {
        Seq::empty()
    } else {
        inspection_maps(es.drop_last(), env) + match key_target(es.last().container_port@) {
            Some(t) => binding_maps(t, es.last().bindings@, env),
            None => Seq::empty(),
        }
    }
}

/// Rebuilds a sandbox's forwarded ports from an inspection of its container, by joining
/// the announcing environment entries to the port bindings on the host port.
pub fn forwarded_ports_from_inspection(inspection: &ContainerInspection) -> (r: Vec<ForwardedPortMapping>)
    ensures
        r@.map_values(|m: ForwardedPortMapping| mapping_view(m)) == inspection_maps(inspection.port_bindings@, views(inspection.env@)),
{
    let ghost env = views(inspection.env@);
    let es = &inspection.port_bindings;
    let mut out: Vec<ForwardedPortMapping> = Vec::new();
    let mut i: usize = 0;
    while i < es.len()
        invariant
            i <= es@.len(),
            es@ == inspection.port_bindings@,
            env == views(inspection.env@),
            out@.map_values(|m: ForwardedPortMapping| mapping_view(m)) == inspection_maps(es@.take(i as int), env),
        decreases es@.len() - i,
    {
        let entry = &es[i];
        assert(es@.take(i + 1).drop_last() =~= es@.take(i as int));
        let key = chars_of(entry.container_port.as_str());
        let slash = find_char(&key, '/');
        let head = string_of_range(&key, 0, slash);
        assert(head@ =~= entry.container_port@.take(first_index_of(entry.container_port@, '/')));
        match parse_port(head.as_str()) {
            Some(target) => {
                let bs = &entry.bindings;
                let ghost base = out@.map_values(|m: ForwardedPortMapping| mapping_view(m));
                let mut j: usize = 0;
                while j < bs.len()
                    invariant
                        j <= bs@.len(),
                        bs@ == es@[i as int].bindings@,
                        env == views(inspection.env@),
                        out@.map_values(|m: ForwardedPortMapping| mapping_view(m)) == base + binding_maps(target, bs@.take(j as int), env),
                    decreases bs@.len() - j,
                {
                    assert(bs@.take(j + 1).drop_last() =~= bs@.take(j as int));
                    let ghost before = out@;
                    match &bs[j].host_port {
                        Some(hp) => match parse_port(hp.as_str()) {
                            Some(h) => match env_lookup_exec(&inspection.env, h) {
                                Some(k) => {
                                    proof {
                                        lemma_lookup_prefixed(views(inspection.env@), h);
                                    }
                                    let name = env_name_exec(k.as_str());
                                    out.push(ForwardedPortMapping { name, target, host_port: h, env_var: k });
                                    assert(out@.map_values(|m: ForwardedPortMapping| mapping_view(m)) =~= before.map_values(|m: ForwardedPortMapping| mapping_view(m)).push(mapping_view(out@.last())));
                                },
                                None => {},
                            },
                            None => {},
                        },
                        None => {},
                    }
                    j = j + 1;
                    assert(out@.map_values(|m: ForwardedPortMapping| mapping_view(m)) =~= base + binding_maps(target, bs@.take(j as int), env));
                }
                assert(bs@.take(bs@.len() as int) =~= bs@);
            },
            None => {
                assert(out@.map_values(|m: ForwardedPortMapping| mapping_view(m)) =~= inspection_maps(es@.take(i + 1), env));
            },
        }
        i = i + 1;
    }
    assert(es@.take(es@.len() as int) =~= es@);
    out
}

pub open spec fn upper(c: char) -> char {
    if 'a' <= c && c <= 'z' {
        ((c as u32) - 32) as char
    } else {
        c
    }
}

/// The variable that announces the host port of the forwarded port whose name has slug
/// `slug`: `LITTERBOX_FWD_PORT_` and the slug uppercased, with `-` written as `_`.
pub open spec fn env_var_of(slug: Seq<char>) -> Seq<char> {
    fwd_prefix() + slug.map_values(|c: char| upper(if c == '-' { '_' } else { c }))
}

pub fn env_var_for_slug(slug: &str) -> (r: String)
    ensures
        r@ == env_var_of(slug@),
{
    let v = chars_of(slug);
    let mut r = "LITTERBOX_FWD_PORT_".to_owned();
    let mut i: usize = 0;
    while i < v.len()
        invariant
            i <= v@.len(),
            v@ == slug@,
            r@ == fwd_prefix() + v@.take(i as int).map_values(|c: char| upper(if c == '-' { '_' } else { c })),
        decreases v@.len() - i,
    {
        let c = if v[i] == '-' { '_' } else { v[i] };
        let u = if 'a' <= c && c <= 'z' { ((c as u8) - 32) as char } else { c };
        push_char(&mut r, u);
        i = i + 1;
        assert(r@ =~= fwd_prefix() + v@.take(i as int).map_values(|c: char| upper(if c == '-' { '_' } else { c })));
    }
    assert(v@.take(v@.len() as int) =~= v@);
    r
}

/// Distinct slugs announce their ports under distinct variables.
pub proof fn lemma_env_var_injective(a: Seq<char>, b: Seq<char>)
    requires
        forall|i: int| 0 <= i < a.len() ==> is_slug_char(#[trigger] a[i]),
        forall|i: int| 0 <= i < b.len() ==> is_slug_char(#[trigger] b[i]),
        env_var_of(a) == env_var_of(b),
    ensures
        a == b,
{
    let n = fwd_prefix().len();
    assert(env_var_of(a).len() == n + a.len());
    assert(env_var_of(b).len() == n + b.len());
    assert forall|i: int| 0 <= i < a.len() implies a[i] == b[i] by {
        assert(env_var_of(a)[n + i] == env_var_of(b)[n + i]);
        assert(env_var_of(a)[n + i] == upper(if a[i] == '-' { '_' } else { a[i] }));
        assert(env_var_of(b)[n + i] == upper(if b[i] == '-' { '_' } else { b[i] }));
        assert(is_slug_char(a[i]) && is_slug_char(b[i]));
    }
    assert(a =~= b);
}

/// The host port tried at attempt `k`: `start + (seed + k) mod size`.
pub open spec fn candidate(start: u16, size: nat, seed: u64, k: nat) -> u16 {
    (start + (seed + k) % (size as int)) as u16
}

/// The first `n` candidates, in order, without those in `taken`.
pub open spec fn probe_seq(start: u16, size: nat, seed: u64, n: nat, taken: Seq<u16>) -> Seq<u16>
    decreases n,
{
    if n == 0 {
        Seq::empty()
    } else {
        let c = candidate(start, size, seed, (n - 1) as nat);
        probe_seq(start, size, seed, (n - 1) as nat, taken) + if taken.contains(c) { Seq::empty() } else { seq![c] }
    }
}

/// The ports of `start..=end` to probe, in order, for a host port: at most 32 attempts
/// from a position that `seed` picks, skipping the ports in `taken`.
pub open spec fn probe_plan(start: u16, end: u16, seed: u64, taken: Seq<u16>) -> Seq<u16> {
    let size = (end - start + 1) as nat;
    probe_seq(start, size, seed, if size < 32 { size } else { 32 }, taken)
}

/// The host ports to probe, in order, for a forwarded port; `Config` error for an inverted
/// range.
pub fn probe_candidates(start: u16, end: u16, seed: u64, taken: &Vec<u16>) -> (r: Result<Vec<u16>, SandboxError>)
    ensures
        end < start <==> r is Err,
        r matches Err(e) ==> e is Config && e->Config_0@ == "Invalid port range: "@ + decimal(start as nat) + "-"@ + decimal(end as nat),
        r matches Ok(v) ==> v@ == probe_plan(start, end, seed, taken@),
{
    if end < start {
        let mut m = "Invalid port range: ".to_owned();
        push_decimal(&mut m, start as u64);
        push_str(&mut m, "-");
        push_decimal(&mut m, end as u64);
        return Err(SandboxError::Config(m));
    }
    let size: u64 = (end - start) as u64 + 1;
    let attempts: u64 = if size < 32 { size } else { 32 };
    let base: u64 = seed % size;
    let mut out: Vec<u16> = Vec::new();
    let mut k: u64 = 0;
    while k < attempts
        invariant
            start <= end,
            size == end - start + 1,
            attempts <= size,
            attempts == (if size < 32 { size } else { 32 }),
            base == seed % size,
            k <= attempts,
            out@ == probe_seq(start, size as nat, seed, k as nat, taken@),
        decreases attempts - k,
    {
        let off: u64 = (base + k) % size;
        assert(off == (seed + k) % (size as int)) by {
            vstd::arithmetic::div_mod::lemma_add_mod_noop(seed as int, k as int, size as int);
            vstd::arithmetic::div_mod::lemma_mod_twice(seed as int, size as int);
            vstd::arithmetic::div_mod::lemma_add_mod_noop(base as int, k as int, size as int);
            vstd::arithmetic::div_mod::lemma_small_mod(k as nat, size as nat);
        }
        let c: u16 = start + off as u16;
        let mut seen = false;
        let mut j: usize = 0;
        while j < taken.len()
            invariant
                j <= taken@.len(),
                seen <==> exists|m: int| 0 <= m < j && taken@[m] == c,
            decreases taken@.len() - j,
        {
            if taken[j] == c {
                seen = true;
            }
            j = j + 1;
        }
        proof {
            if seen {
                let m = choose|m: int| 0 <= m < taken@.len() && taken@[m] == c;
                assert(taken@.contains(c));
            } else {
                assert(!taken@.contains(c));
            }
        }
        if !seen {
            out.push(c);
        }
        k = k + 1;
        assert(out@ =~= probe_seq(start, size as nat, seed, k as nat, taken@));
    }
    Ok(out)
}

/// Every port of a probe plan lies in its range and is none of the ports taken.
pub proof fn lemma_probe_seq_sound(start: u16, size: nat, seed: u64, n: nat, taken: Seq<u16>)
    requires
        size > 0,
        start + size - 1 <= u16::MAX,
    ensures
        forall|i: int| 0 <= i < probe_seq(start, size, seed, n, taken).len() ==> {
            let c = #[trigger] probe_seq(start, size, seed, n, taken)[i];
            start <= c <= start + size - 1 && !taken.contains(c)
        },
    decreases n,
{
    if n > 0 {
        lemma_probe_seq_sound(start, size, seed, (n - 1) as nat, taken);
        let c = candidate(start, size, seed, (n - 1) as nat);
        assert(0 <= (seed + (n - 1)) % (size as int) < size) by {
            vstd::arithmetic::div_mod::lemma_mod_bound((seed + (n - 1)) as int, size as int);
        }
        let p = probe_seq(start, size, seed, (n - 1) as nat, taken);
        assert forall|i: int| 0 <= i < probe_seq(start, size, seed, n, taken).len() implies {
            let c = #[trigger] probe_seq(start, size, seed, n, taken)[i];
            start <= c <= start + size - 1 && !taken.contains(c)
        } by {
            if i < p.len() {
                assert(probe_seq(start, size, seed, n, taken)[i] == p[i]);
            }
        }
    }
}

/// The slug-derived variables of the forwarded ports, in order; the first name whose slug is
/// not valid gives `InvalidName`.
pub fn port_env_keys(ports: &Vec<ForwardedPort>) -> (r: Result<Vec<String>, SandboxError>)
    ensures
        r is Ok <==> forall|i: int| 0 <= i < ports@.len() ==> valid_slug(slug_of((#[trigger] ports@[i]).name@)),
        r matches Ok(keys) ==> keys@.len() == ports@.len() && forall|i: int| 0 <= i < ports@.len() ==> (#[trigger] keys@[i])@ == env_var_of(slug_of(ports@[i].name@)),
        r matches Err(e) ==> e is InvalidName && exists|i: int| 0 <= i < ports@.len() && !valid_slug(slug_of((#[trigger] ports@[i]).name@))
            && e->InvalidName_name@ == ports@[i].name@ && forall|j: int| 0 <= j < i ==> valid_slug(slug_of((#[trigger] ports@[j]).name@)),
{
    let mut keys: Vec<String> = Vec::new();
    let mut i: usize = 0;
    while i < ports.len()
        invariant
            i <= ports@.len(),
            keys@.len() == i,
            forall|k: int| 0 <= k < i ==> valid_slug(slug_of((#[trigger] ports@[k]).name@)),
            forall|k: int| 0 <= k < i ==> (#[trigger] keys@[k])@ == env_var_of(slug_of(ports@[k].name@)),
        decreases ports@.len() - i,
    {
        match slugify_name(ports[i].name.as_str()) {
            Ok(slug) => {
                keys.push(env_var_for_slug(slug.as_str()));
            },
            Err(e) => {
                return Err(e);
            },
        }
        i = i + 1;
    }
    Ok(keys)
}

/// What a container is given for its forwarded ports: its environment entries, its port
/// bindings, and the mappings reported back.
pub struct PortSetup {
    pub env: Vec<String>,
    pub port_bindings: Vec<PortBindingEntry>,
    pub mappings: Vec<ForwardedPortMapping>,
}

/// What one forwarded port contributes: the environment entry `<key>=<host>`, the binding
/// of `<target>/tcp` to `0.0.0.0:<host>`, and the mapping reported back.
pub open spec fn setup_entry_ok(
    e: String,
    b: PortBindingEntry,
    m: ForwardedPortMapping,
    p: ForwardedPort,
    key: String,
    host: u16,
) -> bool {
    &&& e@ == key@ + "="@ + decimal(host as nat)
    &&& b.container_port@ == decimal(p.target as nat) + "/tcp"@
    &&& b.bindings@.len() == 1
    &&& b.bindings@[0].host_ip matches Some(ip) && ip@ == "0.0.0.0"@
    &&& b.bindings@[0].host_port matches Some(hp) && hp@ == decimal(host as nat)
    &&& mapping_view(m) == (p.name@, p.target, host, key@)
}

fn setup_entry(p: &ForwardedPort, key: &String, host: u16) -> (r: (String, PortBindingEntry, ForwardedPortMapping))
    ensures
        setup_entry_ok(r.0, r.1, r.2, *p, *key, host),
{
    let mut e = key.clone();
    push_str(&mut e, "=");
    push_decimal(&mut e, host as u64);
    let mut container_port = String::new();
    push_decimal(&mut container_port, p.target as u64);
    push_str(&mut container_port, "/tcp");
    let mut hp = String::new();
    push_decimal(&mut hp, host as u64);
    let mut bindings: Vec<PortBindingSpec> = Vec::new();
    bindings.push(PortBindingSpec { host_ip: Some("0.0.0.0".to_owned()), host_port: Some(hp) });
    let b = PortBindingEntry { container_port, bindings };
    let m = ForwardedPortMapping { name: p.name.clone(), target: p.target, host_port: host, env_var: key.clone() };
    assert(b.bindings@[0].host_ip matches Some(ip) && ip@ == "0.0.0.0"@);
    (e, b, m)
}

/// Builds the container's port setup from the ports, their variables and the host ports
/// chosen for them, one entry of each kind per port, in order.
pub fn port_setup(ports: &Vec<ForwardedPort>, keys: &Vec<String>, host_ports: &Vec<u16>) -> (r: PortSetup)
    requires
        keys@.len() == ports@.len(),
        host_ports@.len() == ports@.len(),
    ensures
        r.env@.len() == ports@.len(),
        r.port_bindings@.len() == ports@.len(),
        r.mappings@.len() == ports@.len(),
        forall|i: int| 0 <= i < ports@.len() ==> #[trigger] setup_entry_ok(
            r.env@[i], r.port_bindings@[i], r.mappings@[i], ports@[i], keys@[i], host_ports@[i]),
{
    let mut env: Vec<String> = Vec::new();
    let mut port_bindings: Vec<PortBindingEntry> = Vec::new();
    let mut mappings: Vec<ForwardedPortMapping> = Vec::new();
    let mut i: usize = 0;
    while i < ports.len()
        invariant
            i <= ports@.len(),
            keys@.len() == ports@.len(),
            host_ports@.len() == ports@.len(),
            env@.len() == i,
            port_bindings@.len() == i,
            mappings@.len() == i,
            forall|k: int| 0 <= k < i ==> #[trigger] setup_entry_ok(
                env@[k], port_bindings@[k], mappings@[k], ports@[k], keys@[k], host_ports@[k]),
        decreases ports@.len() - i,
    {
        let (e, b, m) = setup_entry(&ports[i], &keys[i], host_ports[i]);
        let ghost (e0, b0, m0) = (env@, port_bindings@, mappings@);
        env.push(e);
        port_bindings.push(b);
        mappings.push(m);
        proof {
            assert forall|k: int| 0 <= k < i + 1 implies #[trigger] setup_entry_ok(
                env@[k], port_bindings@[k], mappings@[k], ports@[k], keys@[k], host_ports@[k]) by {
                if k < i {
                    assert(env@[k] == e0[k] && port_bindings@[k] == b0[k] && mappings@[k] == m0[k]);
                }
            }
        }
        i = i + 1;
    }
    PortSetup { env, port_bindings, mappings }
}

/// Forwarded ports that passed validation, with variables from `port_env_keys` and each host
/// port taken from the probe plan that excludes the ones chosen before it, get distinct
/// variables and distinct host ports, all within the range.
pub proof fn lemma_port_forwarding_unique(
    ports: Seq<ForwardedPort>,
    keys: Seq<Seq<char>>,
    hosts: Seq<u16>,
    start: u16,
    end: u16,
    seeds: Seq<u64>,
)
    requires
        first_port_fault(ports) is None,
        start <= end,
        keys.len() == ports.len(),
        hosts.len() == ports.len(),
        seeds.len() == ports.len(),
        forall|i: int| 0 <= i < ports.len() ==> #[trigger] keys[i] == env_var_of(slug_of(ports[i].name@)),
        forall|i: int| 0 <= i < ports.len() ==> probe_plan(start, end, seeds[i], hosts.take(i)).contains(#[trigger] hosts[i]),
    ensures
        forall|i: int, j: int| 0 <= i < j < ports.len() ==> keys[i] != keys[j] && hosts[i] != hosts[j],
        forall|i: int| 0 <= i < ports.len() ==> start <= #[trigger] hosts[i] <= end,
{
    lemma_no_fault_unique(ports);
    let size = (end - start + 1) as nat;
    let n: nat = if size < 32 { size } else { 32 };
    assert forall|i: int| 0 <= i < ports.len() implies start <= #[trigger] hosts[i] <= end && !hosts.take(i).contains(hosts[i]) by {
        lemma_probe_seq_sound(start, size, seeds[i], n, hosts.take(i));
        let plan = probe_plan(start, end, seeds[i], hosts.take(i));
        let w = choose|w: int| 0 <= w < plan.len() && plan[w] == hosts[i];
        assert(plan[w] == hosts[i]);
    }
    assert forall|i: int, j: int| 0 <= i < j < ports.len() implies keys[i] != keys[j] && hosts[i] != hosts[j] by {
        assert(hosts.take(j)[i] == hosts[i]);
        if keys[i] == keys[j] {
            crate::domain::lemma_slug_shaped(ports[i].name@);
            crate::domain::lemma_slug_shaped(ports[j].name@);
            lemma_env_var_injective(slug_of(ports[i].name@), slug_of(ports[j].name@));
        }
    }
}

/// The same on the port setup that the container is given: its mappings carry distinct
/// variables and distinct host ports within the range, one per forwarded port.
pub proof fn lemma_port_setup_unique(
    ports: Seq<ForwardedPort>,
    keys: Seq<String>,
    hosts: Seq<u16>,
    start: u16,
    end: u16,
    seeds: Seq<u64>,
    setup: PortSetup,
)
    requires
        first_port_fault(ports) is None,
        start <= end,
        keys.len() == ports.len(),
        hosts.len() == ports.len(),
        seeds.len() == ports.len(),
        forall|i: int| 0 <= i < ports.len() ==> (#[trigger] keys[i])@ == env_var_of(slug_of(ports[i].name@)),
        forall|i: int| 0 <= i < ports.len() ==> probe_plan(start, end, seeds[i], hosts.take(i)).contains(#[trigger] hosts[i]),
        setup.mappings@.len() == ports.len(),
        forall|i: int| 0 <= i < ports.len() ==> #[trigger] setup_entry_ok(
            setup.env@[i], setup.port_bindings@[i], setup.mappings@[i], ports[i], keys[i], hosts[i]),
    ensures
        forall|i: int, j: int| 0 <= i < j < ports.len() ==> setup.mappings@[i].env_var@ != setup.mappings@[j].env_var@
            && setup.mappings@[i].host_port != setup.mappings@[j].host_port,
        forall|i: int| 0 <= i < ports.len() ==> start <= (#[trigger] setup.mappings@[i]).host_port <= end,
{
    let kv = keys.map_values(|k: String| k@);
    assert forall|i: int| 0 <= i < ports.len() implies #[trigger] kv[i] == env_var_of(slug_of(ports[i].name@)) by {
        assert(kv[i] == keys[i]@);
    }
    lemma_port_forwarding_unique(ports, kv, hosts, start, end, seeds);
    assert forall|i: int| 0 <= i < ports.len() implies (#[trigger] setup.mappings@[i]).env_var@ == kv[i]
        && setup.mappings@[i].host_port == hosts[i] by {
        assert(setup_entry_ok(setup.env@[i], setup.port_bindings@[i], setup.mappings@[i], ports[i], keys[i], hosts[i]));
    }
    assert forall|i: int, j: int| 0 <= i < j < ports.len() implies setup.mappings@[i].env_var@ != setup.mappings@[j].env_var@
        && setup.mappings@[i].host_port != setup.mappings@[j].host_port by {
        assert(setup.mappings@[i].env_var@ == kv[i] && setup.mappings@[j].env_var@ == kv[j]);
        assert(setup.mappings@[i].host_port == hosts[i] && setup.mappings@[j].host_port == hosts[j]);
    }
    assert forall|i: int| 0 <= i < ports.len() implies start <= (#[trigger] setup.mappings@[i]).host_port <= end by {
        assert(setup.mappings@[i].host_port == hosts[i]);
    }
}

} // verus!
