//! LAN game discovery: multicast announcement parsing, the table of games
//! seen, and the bookkeeping of running listeners.

use vstd::prelude::*;
use crate::text::{
    all_ascii_digits, chars_equal, chars_of, decode_utf8_lossy, is_ascii_digit,
    law_parse_u16_of_decimal, lemma_decimal_digits, trim_end, trim_start, find_chars, first_occurrence, first_occurrence_from, lemma_first_occurrence_found,
    lemma_lex_order, lex_less, lex_lt, occurs_at, parse_u16, parse_u16_spec, slice_chars,
    push_decimal, string_from_chars, lowercase, lowercase_chars, trim, trim_chars, digits_value,
    utf8_lossy, decimal,
};

verus! {

/// The text between the first `open` and the first `close` after it.
pub open spec fn extract_tag_spec(s: Seq<char>, open: Seq<char>, close: Seq<char>) -> Option<
    Seq<char>,
> {
    match first_occurrence(s, open) {
        None => None,
        Some(p) => {
            let rest = s.subrange(p + open.len(), s.len() as int);
            match first_occurrence(rest, close) {
                None => None,
                Some(e) => Some(rest.subrange(0, e)),
            }
        },
    }
}

proof fn lemma_first_occurrence_in_range(s: Seq<char>, pat: Seq<char>)
    ensures
        first_occurrence(s, pat) matches Some(k) ==> 0 <= k && k + pat.len() <= s.len(),
{
    lemma_first_occurrence_found(s, pat, 0);
}

/// The text between the first `open` in `s` and the first `close` after it.
pub fn extract_tag(s: &[char], open: &[char], close: &[char]) -> (r: Option<Vec<char>>)
    ensures
        r matches Some(t) ==> extract_tag_spec(s@, open@, close@) == Some(t@),
        r is None ==> extract_tag_spec(s@, open@, close@) is None,
{
    let p = match find_chars(s, open) {
        Some(p) => p,
        None => return None,
    };
    proof {
        lemma_first_occurrence_in_range(s@, open@);
    }
    let slen = s.len();
    assert(p + open@.len() <= slen);
    let start = p + open.len();
    let rest = slice_chars(s, start, slen);
    let e = match find_chars(&rest, close) {
        Some(e) => e,
        None => return None,
    };
    proof {
        lemma_first_occurrence_in_range(rest@, close@);
    }
    Some(slice_chars(&rest, 0, e))
}

/// `[MOTD]`
pub open spec fn motd_open() -> Seq<char> {
    seq!['[', 'M', 'O', 'T', 'D', ']']
}

/// `[/MOTD]`
pub open spec fn motd_close() -> Seq<char> {
    seq!['[', '/', 'M', 'O', 'T', 'D', ']']
}

/// `[AD]`
pub open spec fn ad_open() -> Seq<char> {
    seq!['[', 'A', 'D', ']']
}

/// `[/AD]`
pub open spec fn ad_close() -> Seq<char> {
    seq!['[', '/', 'A', 'D', ']']
}

/// What a Minecraft LAN announcement `[MOTD]..[/MOTD][AD]port[/AD]` holds:
/// the trimmed message of the day and a non-zero game port.
pub open spec fn minecraft_motd_spec(t: Seq<char>) -> Option<(Seq<char>, u16)> {
    match extract_tag_spec(t, motd_open(), motd_close()) {
        None => None,
        Some(motd) => match extract_tag_spec(t, ad_open(), ad_close()) {
            None => None,
            Some(ad) => match parse_u16_spec(trim(ad)) {
                None => None,
                Some(port) => if port == 0 {
                    None
                } else {
                    Some((trim(motd), port))
                },
            },
        },
    }
}

/// Parses the text of a Minecraft LAN announcement.
pub fn parse_minecraft_motd_text(t: &[char]) -> (r: Option<(String, u16)>)
    ensures
        r matches Some((motd, port)) ==> minecraft_motd_spec(t@) == Some((motd@, port)),
        r is None ==> minecraft_motd_spec(t@) is None,
{
    let motd_o = vec!['[', 'M', 'O', 'T', 'D', ']'];
    let motd_c = vec!['[', '/', 'M', 'O', 'T', 'D', ']'];
    let ad_o = vec!['[', 'A', 'D', ']'];
    let ad_c = vec!['[', '/', 'A', 'D', ']'];
    assert(motd_o@ == motd_open());
    assert(motd_c@ == motd_close());
    assert(ad_o@ == ad_open());
    assert(ad_c@ == ad_close());
    let motd = match extract_tag(t, &motd_o, &motd_c) {
        Some(m) => m,
        None => return None,
    };
    let ad = match extract_tag(t, &ad_o, &ad_c) {
        Some(a) => a,
        None => return None,
    };
    let ad_trimmed = trim_chars(&ad);
    let port = match parse_u16(&ad_trimmed) {
        Some(p) => p,
        None => return None,
    };
    if port == 0 {
        return None;
    }
    let motd_trimmed = trim_chars(&motd);
    Some((string_from_chars(&motd_trimmed), port))
}

/// Parses a Minecraft LAN announcement datagram; the bytes are decoded as
/// UTF-8 with invalid sequences replaced.
pub fn parse_minecraft_motd(data: &[u8]) -> (r: Option<(String, u16)>)
    ensures
        r matches Some((motd, port)) ==> minecraft_motd_spec(utf8_lossy(data@)) == Some(
            (motd@, port),
        ),
        r is None ==> minecraft_motd_spec(utf8_lossy(data@)) is None,
{
    let text = decode_utf8_lossy(data);
    let cs = chars_of(text.as_str());
    parse_minecraft_motd_text(&cs)
}

/// The announcement a Minecraft server sends: `[MOTD]<motd>[/MOTD][AD]<port>[/AD]`.
pub open spec fn announcement(motd: Seq<char>, port: u16) -> Seq<char> {
    motd_open() + motd + motd_close() + ad_open() + decimal(port as nat) + ad_close()
}

proof fn lemma_first_at_from(s: Seq<char>, pat: Seq<char>, k: int, i: int)
    requires
        0 <= i <= k,
        occurs_at(s, pat, k),
        forall|j: int| 0 <= j < k ==> !occurs_at(s, pat, j),
    ensures
        first_occurrence_from(s, pat, i) == Some(k),
    decreases k - i,
{
    if i < k {
        lemma_first_at_from(s, pat, k, i + 1);
    }
}

proof fn lemma_first_at(s: Seq<char>, pat: Seq<char>, k: int)
    requires
        occurs_at(s, pat, k),
        forall|j: int| 0 <= j < k ==> !occurs_at(s, pat, j),
    ensures
        first_occurrence(s, pat) == Some(k),
{
    lemma_first_at_from(s, pat, k, 0);
}

proof fn lemma_mismatch(s: Seq<char>, pat: Seq<char>, i: int, j: int)
    requires
        0 <= i,
        0 <= j < pat.len(),
        i + j < s.len(),
        s[i + j] != pat[j],
    ensures
        !occurs_at(s, pat, i),
{
    if occurs_at(s, pat, i) {
        assert(s.subrange(i, i + pat.len())[j] == s[i + j]);
    }
}

proof fn lemma_digits_untrimmed(d: Seq<char>)
    requires
        d.len() > 0,
        all_ascii_digits(d),
    ensures
        trim(d) == d,
{
    assert(is_ascii_digit(d[0]));
    assert(is_ascii_digit(d[d.len() - 1]));
    assert(trim_start(d) == d);
    assert(d.last() == d[d.len() - 1]);
    assert(trim_end(d) == d);
}

/// A Minecraft announcement whose message holds no `[` parses back to its
/// trimmed message and its port, for any port but 0.
pub proof fn law_announcement_roundtrip(motd: Seq<char>, port: u16)
    requires
        port != 0,
        forall|i: int| 0 <= i < motd.len() ==> motd[i] != '[',
    ensures
        minecraft_motd_spec(announcement(motd, port)) == Some((trim(motd), port)),
{
    reveal_strlit("[");
    let a = motd_open();
    let b = motd_close();
    let c = ad_open();
    let d = decimal(port as nat);
    let e = ad_close();
    let s = announcement(motd, port);
    let m = motd.len() as int;
    lemma_decimal_digits(port as nat);
    assert(s =~= a + motd + b + c + d + e);
    // [MOTD] starts the text
    assert(s.subrange(0, 6) =~= a);
    lemma_first_at(s, a, 0);
    // [/MOTD] follows the message
    let rest1 = s.subrange(6, s.len() as int);
    assert(rest1 =~= motd + b + c + d + e);
    assert(rest1.subrange(m, m + 7) =~= b);
    assert forall|j: int| 0 <= j < m implies !occurs_at(rest1, b, j) by {
        assert(rest1[j] == motd[j]);
        lemma_mismatch(rest1, b, j, 0);
    }
    lemma_first_at(rest1, b, m);
    assert(rest1.subrange(0, m) =~= motd);
    assert(extract_tag_spec(s, a, b) == Some(motd));
    // [AD] follows [/MOTD]
    let k: int = 6 + m + 7;
    assert(s.subrange(k, k + 4) =~= c);
    assert forall|j: int| 0 <= j < k implies !occurs_at(s, c, j) by {
        if j == 0 {
            assert(s[1] == 'M');
            lemma_mismatch(s, c, j, 1);
        } else if j < 6 {
            assert(s[j] == a[j]);
            lemma_mismatch(s, c, j, 0);
        } else if j < 6 + m {
            assert(s[j] == motd[j - 6]);
            lemma_mismatch(s, c, j, 0);
        } else if j == 6 + m {
            assert(s[j + 1] == '/');
            lemma_mismatch(s, c, j, 1);
        } else {
            assert(s[j] == b[j - 6 - m]);
            lemma_mismatch(s, c, j, 0);
        }
    }
    lemma_first_at(s, c, k);
    // [/AD] follows the port
    let rest2 = s.subrange(k + 4, s.len() as int);
    assert(rest2 =~= d + e);
    assert(rest2.subrange(d.len() as int, d.len() as int + 5) =~= e);
    assert forall|j: int| 0 <= j < d.len() implies !occurs_at(rest2, e, j) by {
        assert(rest2[j] == d[j]);
        assert(is_ascii_digit(d[j]));
        lemma_mismatch(rest2, e, j, 0);
    }
    lemma_first_at(rest2, e, d.len() as int);
    assert(rest2.subrange(0, d.len() as int) =~= d);
    assert(extract_tag_spec(s, c, e) == Some(d));
    lemma_digits_untrimmed(d);
    law_parse_u16_of_decimal(port);
}

/// `minecraft_motd`, the one payload parser the library knows.
pub open spec fn minecraft_parser_name() -> Seq<char> {
    seq!['m', 'i', 'n', 'e', 'c', 'r', 'a', 'f', 't', '_', 'm', 'o', 't', 'd']
}

/// `minecraft_motd` as a vector of characters.
fn minecraft_parser_chars() -> (v: Vec<char>)
    ensures
        v@ == minecraft_parser_name(),
{
    let v = vec!['m', 'i', 'n', 'e', 'c', 'r', 'a', 'f', 't', '_', 'm', 'o', 't', 'd'];
    assert(v@ == minecraft_parser_name());
    v
}

/// What the payload parser named `parser` extracts from announcement text.
pub open spec fn lan_payload_spec(parser: Seq<char>, text: Seq<char>) -> Option<(Seq<char>, u16)> {
    if parser == minecraft_parser_name() {
        minecraft_motd_spec(text)
    } else {
        None
    }
}

/// Runs the payload parser named `parser` on a datagram: (display text,
/// game port), or `None` for an unknown parser or a payload it rejects.
pub fn parse_lan_payload(parser: &str, data: &[u8]) -> (r: Option<(String, u16)>)
    ensures
        r matches Some((motd, port)) ==> lan_payload_spec(parser@, utf8_lossy(data@)) == Some(
            (motd@, port),
        ),
        r is None ==> lan_payload_spec(parser@, utf8_lossy(data@)) is None,
{
    let name = chars_of(parser);
    let known = minecraft_parser_chars();
    if chars_equal(&name, &known) {
        parse_minecraft_motd(data)
    } else {
        None
    }
}


/// The source address of a datagram: an IPv4 address as its big-endian
/// 32-bit value, or an IPv6 address as its 128-bit value.
#[derive(Clone, Copy, Debug, PartialEq, Eq, Structural)]
pub enum SourceIp {
    V4(u32),
    V6(u128),
}

/// The datagram comes from this machine: an IPv4 loopback address
/// (127.0.0.0/8) or one of `locals`, or the IPv6 loopback address `::1`.
pub open spec fn is_own_source_spec(src: SourceIp, locals: Seq<u32>) -> bool {
    match src {
        SourceIp::V4(a) => (a >> 24u32) == 127 || locals.contains(a),
        SourceIp::V6(a) => a == 1,
    }
}

/// 127.0.0.1 as its big-endian value.
pub const IPV4_LOOPBACK: u32 = 0x7f00_0001;

/// The IPv4 addresses this machine counts as its own, given the addresses
/// of its network interfaces: 127.0.0.1 and every IPv4 address among
/// `addrs`, each once; IPv6 addresses are left out.
pub fn local_ipv4_set(addrs: &Vec<SourceIp>) -> (r: Vec<u32>)
    ensures
        r@.no_duplicates(),
        forall|a: u32| #[trigger] r@.contains(a) <==> (a == IPV4_LOOPBACK || addrs@.contains(SourceIp::V4(a))),
{
    let mut r: Vec<u32> = Vec::new();
    r.push(IPV4_LOOPBACK);
    assert(r@ =~= seq![IPV4_LOOPBACK]);
    assert(addrs@.take(0) =~= Seq::<SourceIp>::empty());
    assert forall|a: u32| #[trigger] r@.contains(a) <==> (a == IPV4_LOOPBACK || addrs@.take(0).contains(SourceIp::V4(a))) by {
        if a == IPV4_LOOPBACK {
            assert(r@[0] == a);
        }
    }
    let mut i: usize = 0;
    while i < addrs.len()
        invariant
            i <= addrs.len(),
            r@.no_duplicates(),
            forall|a: u32| #[trigger] r@.contains(a) <==> (a == IPV4_LOOPBACK || addrs@.take(i as int).contains(SourceIp::V4(a))),
        decreases addrs.len() - i,
    {
        let ghost before = r@;
        let ghost t0 = addrs@.take(i as int);
        let ghost t1 = addrs@.take(i + 1);
        assert(t1 =~= t0.push(addrs@[i as int]));
        match addrs[i] {
            SourceIp::V4(a) => {
                if !crate::network::contains_u32(&r, a) {
                    r.push(a);
                    assert forall|x: u32| #[trigger] r@.contains(x) <==> (x == IPV4_LOOPBACK || t1.contains(SourceIp::V4(x))) by {
                        if r@.contains(x) {
                            let k = choose|k: int| 0 <= k < r@.len() && r@[k] == x;
                            if k < before.len() {
                                assert(before.contains(x));
                            }
                        }
                        if before.contains(x) {
                            let k = choose|k: int| 0 <= k < before.len() && before[k] == x;
                            assert(r@[k] == x);
                        }
                        if x == a {
                            assert(r@[before.len() as int] == x);
                            assert(t1[i as int] == SourceIp::V4(x));
                        }
                        if t0.contains(SourceIp::V4(x)) {
                            let k = choose|k: int| 0 <= k < i && t0[k] == SourceIp::V4(x);
                            assert(t1[k] == SourceIp::V4(x));
                        }
                        if t1.contains(SourceIp::V4(x)) {
                            let k = choose|k: int| 0 <= k < i + 1 && t1[k] == SourceIp::V4(x);
                            if k < i {
                                assert(t0[k] == SourceIp::V4(x));
                            }
                        }
                    }
                } else {
                    assert forall|x: u32| #[trigger] r@.contains(x) <==> (x == IPV4_LOOPBACK || t1.contains(SourceIp::V4(x))) by {
                        if t0.contains(SourceIp::V4(x)) {
                            let k = choose|k: int| 0 <= k < i && t0[k] == SourceIp::V4(x);
                            assert(t1[k] == SourceIp::V4(x));
                        }
                        if t1.contains(SourceIp::V4(x)) {
                            let k = choose|k: int| 0 <= k < i + 1 && t1[k] == SourceIp::V4(x);
                            if k < i {
                                assert(t0[k] == SourceIp::V4(x));
                            }
                        }
                    }
                }
            },
            SourceIp::V6(_) => {
                assert forall|x: u32| #[trigger] r@.contains(x) <==> (x == IPV4_LOOPBACK || t1.contains(SourceIp::V4(x))) by {
                    if t0.contains(SourceIp::V4(x)) {
                        let k = choose|k: int| 0 <= k < i && t0[k] == SourceIp::V4(x);
                        assert(t1[k] == SourceIp::V4(x));
                    }
                    if t1.contains(SourceIp::V4(x)) {
                        let k = choose|k: int| 0 <= k < i + 1 && t1[k] == SourceIp::V4(x);
                        if k < i {
                            assert(t0[k] == SourceIp::V4(x));
                        }
                    }
                }
            },
        }
        i = i + 1;
    }
    assert(addrs@.take(addrs.len() as int) =~= addrs@);
    r
}

/// Whether a datagram from `src` was sent by this machine, given the IPv4
/// addresses of its network interfaces.
pub fn is_own_source(src: SourceIp, locals: &[u32]) -> (b: bool)
    ensures
        b == is_own_source_spec(src, locals@),
{
    match src {
        SourceIp::V4(a) => {
            if (a >> 24u32) == 127 {
                return true;
            }
            let mut i: usize = 0;
            while i < locals.len()
                invariant
                    src == SourceIp::V4(a),
                    i <= locals.len(),
                    forall|k: int| 0 <= k < i ==> locals@[k] != a,
                decreases locals.len() - i,
            {
                if locals[i] == a {
                    assert(locals@[i as int] == a);
                    assert(locals@.contains(a));
                    return true;
                }
                i = i + 1;
            }
            false
        },
        SourceIp::V6(a) => a == 1,
    }
}

/// A game found on the LAN through a multicast announcement.
pub struct LanGameDiscovery {
    /// Name of the payload parser, such as `minecraft_motd`.
    pub parser: String,
    pub game_port: u16,
    pub motd: String,
    pub source_ip: String,
    pub seen_unix_ms: u64,
}

/// The plain values of a `LanGameDiscovery`.
pub struct LanGameDiscoveryView {
    pub parser: Seq<char>,
    pub game_port: u16,
    pub motd: Seq<char>,
    pub source_ip: Seq<char>,
    pub seen_unix_ms: u64,
}

impl View for LanGameDiscovery {
    type V = LanGameDiscoveryView;

    open spec fn view(&self) -> LanGameDiscoveryView {
        LanGameDiscoveryView {
            parser: self.parser@,
            game_port: self.game_port,
            motd: self.motd@,
            source_ip: self.source_ip@,
            seen_unix_ms: self.seen_unix_ms,
        }
    }
}

impl LanGameDiscovery {
    /// A copy of this discovery.
    pub fn duplicate(&self) -> (r: LanGameDiscovery)
        ensures
            r@ == self@,
    {
        LanGameDiscovery {
            parser: self.parser.clone(),
            game_port: self.game_port,
            motd: self.motd.clone(),
            source_ip: self.source_ip.clone(),
            seen_unix_ms: self.seen_unix_ms,
        }
    }
}

/// Discoveries are keyed by parser name and game port.
pub type DiscoveryKey = (Seq<char>, u16);

pub open spec fn key_of(d: LanGameDiscoveryView) -> DiscoveryKey {
    (d.parser, d.game_port)
}

/// The order of discoveries: by parser name, then by game port.
pub open spec fn key_lt(a: DiscoveryKey, b: DiscoveryKey) -> bool {
    lex_lt(a.0, b.0) || (a.0 == b.0 && a.1 < b.1)
}

pub proof fn lemma_key_order(a: DiscoveryKey, b: DiscoveryKey, c: DiscoveryKey)
    ensures
        !key_lt(a, a),
        key_lt(a, b) ==> !key_lt(b, a),
        a != b ==> key_lt(a, b) || key_lt(b, a),
        key_lt(a, b) && key_lt(b, c) ==> key_lt(a, c),
{
    lemma_lex_order(a.0, b.0, c.0);
    lemma_lex_order(b.0, a.0, c.0);
    lemma_lex_order(a.0, c.0, b.0);
    lemma_lex_order(b.0, c.0, a.0);
    lemma_lex_order(a.0, a.0, c.0);
    lemma_lex_order(b.0, b.0, a.0);
}

/// Strictly increasing keys, so each key occurs at most once.
pub open spec fn sorted_by_key(s: Seq<LanGameDiscoveryView>) -> bool {
    forall|i: int, j: int| 0 <= i < j < s.len() ==> key_lt(key_of(s[i]), key_of(s[j]))
}

pub open spec fn has_key(s: Seq<LanGameDiscoveryView>, k: DiscoveryKey) -> bool {
    exists|i: int| 0 <= i < s.len() && key_of(s[i]) == k
}

/// The discoveries of `s` by key.
pub open spec fn discovery_map(s: Seq<LanGameDiscoveryView>) -> Map<DiscoveryKey, LanGameDiscoveryView> {
    Map::new(
        |k: DiscoveryKey| has_key(s, k),
        |k: DiscoveryKey| s[choose|i: int| 0 <= i < s.len() && key_of(s[i]) == k],
    )
}

pub proof fn lemma_discovery_map_at(s: Seq<LanGameDiscoveryView>, i: int)
    requires
        sorted_by_key(s),
        0 <= i < s.len(),
    ensures
        discovery_map(s).contains_key(key_of(s[i])),
        discovery_map(s)[key_of(s[i])] == s[i],
{
    let k = key_of(s[i]);
    assert(has_key(s, k));
    let j = choose|j: int| 0 <= j < s.len() && key_of(s[j]) == k;
    if j != i {
        lemma_key_order(k, k, k);
    }
}

/// A discovery is still fresh at `now` when it was seen less than twenty
/// seconds before (a clock that went back counts as zero elapsed time).
pub open spec fn is_fresh(d: LanGameDiscoveryView, now: u64) -> bool {
    (if now >= d.seen_unix_ms { now - d.seen_unix_ms } else { 0 }) < 20_000
}

/// The entries of `m` that are fresh at `now`.
pub open spec fn fresh_part(m: Map<DiscoveryKey, LanGameDiscoveryView>, now: u64) -> Map<
    DiscoveryKey,
    LanGameDiscoveryView,
> {
    Map::new(|k: DiscoveryKey| m.contains_key(k) && is_fresh(m[k], now), |k: DiscoveryKey| m[k])
}

/// The plain values of a sequence of discoveries.
pub open spec fn views(v: Seq<LanGameDiscovery>) -> Seq<LanGameDiscoveryView> {
    v.map_values(|d: LanGameDiscovery| d@)
}

proof fn lemma_filter_sorted(
    old_s: Seq<LanGameDiscoveryView>,
    new_s: Seq<LanGameDiscoveryView>,
    idx: Seq<int>,
)
    requires
        sorted_by_key(old_s),
        new_s.len() == idx.len(),
        forall|t: int| 0 <= t < idx.len() ==> 0 <= #[trigger] idx[t] < old_s.len(),
        forall|t: int, u: int| 0 <= t < u < idx.len() ==> idx[t] < idx[u],
        forall|t: int| 0 <= t < idx.len() ==> new_s[t] == old_s[#[trigger] idx[t]],
    ensures
        sorted_by_key(new_s),
{
    assert forall|t: int, u: int| 0 <= t < u < new_s.len() implies key_lt(
        key_of(new_s[t]),
        key_of(new_s[u]),
    ) by {
        assert(new_s[t] == old_s[idx[t]]);
        assert(new_s[u] == old_s[idx[u]]);
    }
}

proof fn lemma_filter_map(
    old_s: Seq<LanGameDiscoveryView>,
    new_s: Seq<LanGameDiscoveryView>,
    idx: Seq<int>,
    now: u64,
)
    requires
        sorted_by_key(old_s),
        sorted_by_key(new_s),
        new_s.len() == idx.len(),
        forall|t: int| 0 <= t < idx.len() ==> 0 <= #[trigger] idx[t] < old_s.len(),
        forall|t: int| 0 <= t < idx.len() ==> new_s[t] == old_s[#[trigger] idx[t]],
        forall|j: int|
            0 <= j < old_s.len() ==> (is_fresh(#[trigger] old_s[j], now) <==> exists|t: int|
                0 <= t < idx.len() && idx[t] == j),
    ensures
        discovery_map(new_s) == fresh_part(discovery_map(old_s), now),
{
    let m_old = discovery_map(old_s);
    let m_new = discovery_map(new_s);
    let m_f = fresh_part(m_old, now);
    assert forall|key: DiscoveryKey| #[trigger] m_new.contains_key(key) == m_f.contains_key(key) by {
        if has_key(new_s, key) {
            let t = choose|t: int| 0 <= t < new_s.len() && key_of(new_s[t]) == key;
            let j = idx[t];
            assert(new_s[t] == old_s[j]);
            lemma_discovery_map_at(old_s, j);
            assert(is_fresh(old_s[j], now));
        }
        if m_f.contains_key(key) {
            assert(has_key(old_s, key));
            let j = choose|j: int| 0 <= j < old_s.len() && key_of(old_s[j]) == key;
            lemma_discovery_map_at(old_s, j);
            assert(is_fresh(old_s[j], now));
            let t = choose|t: int| 0 <= t < idx.len() && idx[t] == j;
            assert(new_s[t] == old_s[idx[t]]);
            assert(key_of(new_s[t]) == key);
        }
    }
    assert forall|key: DiscoveryKey| #[trigger] m_new.contains_key(key) implies m_new[key] == m_f[key] by {
        assert(has_key(new_s, key));
        let t = choose|t: int| 0 <= t < new_s.len() && key_of(new_s[t]) == key;
        lemma_discovery_map_at(new_s, t);
        assert(new_s[t] == old_s[idx[t]]);
        lemma_discovery_map_at(old_s, idx[t]);
    }
    assert(m_new =~= m_f);
}

/// A discovery recorded at some time is returned by every poll less than
/// twenty seconds later, as recorded.
pub proof fn law_recorded_discovery_is_polled(
    m: Map<DiscoveryKey, LanGameDiscoveryView>,
    d: LanGameDiscoveryView,
    now: u64,
)
    requires
        d.seen_unix_ms <= now,
        now - d.seen_unix_ms < 20_000,
    ensures
        fresh_part(m.insert(key_of(d), d), now).contains_key(key_of(d)),
        fresh_part(m.insert(key_of(d), d), now)[key_of(d)] == d,
{
}

/// A discovery last seen twenty seconds or more before a poll is dropped by
/// it.
pub proof fn law_stale_discovery_is_dropped(
    m: Map<DiscoveryKey, LanGameDiscoveryView>,
    d: LanGameDiscoveryView,
    now: u64,
)
    requires
        d.seen_unix_ms <= now,
        now - d.seen_unix_ms >= 20_000,
    ensures
        !fresh_part(m.insert(key_of(d), d), now).contains_key(key_of(d)),
{
}

/// Polling twice at the same time drops nothing more the second time.
pub proof fn law_poll_is_idempotent(m: Map<DiscoveryKey, LanGameDiscoveryView>, now: u64)
    ensures
        fresh_part(fresh_part(m, now), now) == fresh_part(m, now),
{
    assert(fresh_part(fresh_part(m, now), now) =~= fresh_part(m, now));
}

/// Recording a discovery again under the same parser and port replaces the
/// earlier one: the table holds one discovery per key.
pub proof fn law_record_replaces_same_key(
    m: Map<DiscoveryKey, LanGameDiscoveryView>,
    d1: LanGameDiscoveryView,
    d2: LanGameDiscoveryView,
)
    requires
        key_of(d1) == key_of(d2),
    ensures
        m.insert(key_of(d1), d1).insert(key_of(d2), d2) == m.insert(key_of(d2), d2),
{
    assert(m.insert(key_of(d1), d1).insert(key_of(d2), d2) =~= m.insert(key_of(d2), d2));
}

/// The games discovered so far, at most one per (parser, game port).
pub struct LanDiscoveryTable {
    entries: Vec<LanGameDiscovery>,
}

impl LanDiscoveryTable {
    pub closed spec fn entries_view(&self) -> Seq<LanGameDiscoveryView> {
        self.entries@.map_values(|d: LanGameDiscovery| d@)
    }

    /// The table keeps its entries ordered by key.
    pub closed spec fn wf(&self) -> bool {
        sorted_by_key(self.entries_view())
    }

    /// The discoveries in the table, by key.
    pub closed spec fn view(&self) -> Map<DiscoveryKey, LanGameDiscoveryView> {
        discovery_map(self.entries_view())
    }

    /// An empty table.
    pub fn new() -> (t: LanDiscoveryTable)
        ensures
            t.wf(),
            t.view() == Map::<DiscoveryKey, LanGameDiscoveryView>::empty(),
    {
        let t = LanDiscoveryTable { entries: Vec::new() };
        assert(t.view() =~= Map::<DiscoveryKey, LanGameDiscoveryView>::empty());
        t
    }

    /// Records a discovery, replacing the one held under the same key.
    pub fn record(&mut self, d: LanGameDiscovery)
        requires
            old(self).wf(),
        ensures
            final(self).wf(),
            final(self).view() == old(self).view().insert(key_of(d@), d@),
    {
        let ghost old_s = self.entries_view();
        let ghost k = key_of(d@);
        let d_parser = chars_of(d.parser.as_str());
        let n = self.entries.len();
        let mut p: usize = 0;
        let mut found = false;
        let mut stop = false;
        while p < n && !stop
            invariant
                p <= n == self.entries@.len(),
                old_s == self.entries_view(),
                sorted_by_key(old_s),
                d_parser@ == d@.parser,
                k == key_of(d@),
                forall|i: int| 0 <= i < p ==> key_lt(key_of(#[trigger] old_s[i]), k),
                found ==> stop,
                stop ==> p < n,
                stop && found ==> key_of(old_s[p as int]) == k,
                stop && !found ==> key_lt(k, key_of(old_s[p as int])),
            decreases n - p + (if stop { 0int } else { 1int }),
        {
            let e_parser = chars_of(self.entries[p].parser.as_str());
            let e_port = self.entries[p].game_port;
            assert(old_s[p as int] == self.entries@[p as int]@);
            if chars_equal(&e_parser, &d_parser) && e_port == d.game_port {
                found = true;
                stop = true;
            } else {
                let less = lex_less(&e_parser, &d_parser) || (chars_equal(&e_parser, &d_parser)
                    && e_port < d.game_port);
                assert(less == key_lt(key_of(old_s[p as int]), k));
                if !less {
                    proof {
                        lemma_key_order(key_of(old_s[p as int]), k, k);
                    }
                    stop = true;
                } else {
                    p = p + 1;
                }
            }
        }
        let ghost dv = d@;
        if found {
            self.entries.set(p, d);
            proof {
                let new_s = self.entries_view();
                assert(new_s =~= old_s.update(p as int, dv));
                self.lemma_update_sorted(old_s, p as int, dv);
                self.lemma_update_map(old_s, p as int, dv);
            }
        } else {
            self.entries.insert(p, d);
            proof {
                let new_s = self.entries_view();
                assert(new_s =~= old_s.insert(p as int, dv));
                self.lemma_insert_sorted(old_s, p as int, dv);
                self.lemma_insert_map(old_s, p as int, dv);
            }
        }
    }

    /// Drops the discoveries that are no longer fresh at `now` and returns
    /// copies of the rest, ordered by parser name, then game port.
    pub fn poll_at(&mut self, now: u64) -> (r: Vec<LanGameDiscovery>)
        requires
            old(self).wf(),
        ensures
            final(self).wf(),
            final(self).view() == fresh_part(old(self).view(), now),
            sorted_by_key(views(r@)),
            discovery_map(views(r@)) == final(self).view(),
    {
        let ghost old_s = self.entries_view();
        let n = self.entries.len();
        let mut kept: Vec<LanGameDiscovery> = Vec::new();
        let mut out: Vec<LanGameDiscovery> = Vec::new();
        let ghost mut idx: Seq<int> = Seq::empty();
        let mut i: usize = 0;
        while i < n
            invariant
                i <= n == self.entries@.len(),
                old_s == self.entries_view(),
                sorted_by_key(old_s),
                views(kept@) == views(out@),
                kept@.len() == idx.len(),
                forall|t: int| 0 <= t < idx.len() ==> 0 <= #[trigger] idx[t] < i,
                forall|t: int, u: int| 0 <= t < u < idx.len() ==> idx[t] < idx[u],
                forall|t: int| 0 <= t < idx.len() ==> views(kept@)[t] == old_s[#[trigger] idx[t]],
                forall|j: int|
                    0 <= j < i ==> (is_fresh(#[trigger] old_s[j], now) <==> exists|t: int|
                        0 <= t < idx.len() && idx[t] == j),
            decreases n - i,
        {
            let seen = self.entries[i].seen_unix_ms;
            let elapsed: u64 = if now >= seen { now - seen } else { 0 };
            assert(old_s[i as int] == self.entries@[i as int]@);
            let ghost prev_idx = idx;
            if elapsed < 20_000 {
                let a = self.entries[i].duplicate();
                let b = self.entries[i].duplicate();
                let ghost kept_before = kept@;
                let ghost out_before = out@;
                kept.push(a);
                out.push(b);
                proof {
                    idx = idx.push(i as int);
                    assert(views(kept@) =~= views(kept_before).push(old_s[i as int]));
                    assert(views(out@) =~= views(out_before).push(old_s[i as int]));
                    assert forall|j: int| 0 <= j < i + 1 implies (is_fresh(#[trigger] old_s[j], now)
                        <==> exists|t: int| 0 <= t < idx.len() && idx[t] == j) by {
                        if j < i {
                            if is_fresh(old_s[j], now) {
                                let t = choose|t: int| 0 <= t < prev_idx.len() && prev_idx[t] == j;
                                assert(idx[t] == j);
                            }
                        } else {
                            assert(idx[idx.len() - 1] == j);
                        }
                    }
                }
            } else {
                proof {
                    assert forall|j: int| 0 <= j < i + 1 implies (is_fresh(#[trigger] old_s[j], now)
                        <==> exists|t: int| 0 <= t < idx.len() && idx[t] == j) by {
                        if j == i {
                            if exists|t: int| 0 <= t < idx.len() && idx[t] == j {
                                let t = choose|t: int| 0 <= t < idx.len() && idx[t] == j;
                                assert(idx[t] < i);
                            }
                        }
                    }
                }
            }
            i = i + 1;
        }
        self.entries = kept;
        proof {
            let new_s = self.entries_view();
            assert(new_s == views(kept@));
            lemma_filter_sorted(old_s, new_s, idx);
            lemma_filter_map(old_s, new_s, idx, now);
            assert(views(out@) == new_s);
        }
        out
    }

    /// Forgets every discovery.
    pub fn clear(&mut self)
        ensures
            final(self).wf(),
            final(self).view() == Map::<DiscoveryKey, LanGameDiscoveryView>::empty(),
    {
        self.entries = Vec::new();
        assert(self.view() =~= Map::<DiscoveryKey, LanGameDiscoveryView>::empty());
    }

    proof fn lemma_update_sorted(&self, old_s: Seq<LanGameDiscoveryView>, p: int, d: LanGameDiscoveryView)
        requires
            sorted_by_key(old_s),
            0 <= p < old_s.len(),
            key_of(old_s[p]) == key_of(d),
            self.entries_view() == old_s.update(p, d),
        ensures
            self.wf(),
    {
    }

    proof fn lemma_update_map(&self, old_s: Seq<LanGameDiscoveryView>, p: int, d: LanGameDiscoveryView)
        requires
            sorted_by_key(old_s),
            0 <= p < old_s.len(),
            key_of(old_s[p]) == key_of(d),
            self.entries_view() == old_s.update(p, d),
            self.wf(),
        ensures
            self.view() == discovery_map(old_s).insert(key_of(d), d),
    {
        let new_s = self.entries_view();
        let m_old = discovery_map(old_s);
        let m_new = discovery_map(new_s);
        let k = key_of(d);
        assert forall|key: DiscoveryKey| #[trigger] m_new.contains_key(key) == m_old.insert(k, d).contains_key(key) by {
            if has_key(new_s, key) {
                let i = choose|i: int| 0 <= i < new_s.len() && key_of(new_s[i]) == key;
                if i != p {
                    assert(key_of(old_s[i]) == key);
                }
            }
            if has_key(old_s, key) {
                let i = choose|i: int| 0 <= i < old_s.len() && key_of(old_s[i]) == key;
                assert(key_of(new_s[i]) == key);
            }
            if key == k {
                assert(key_of(new_s[p]) == key);
            }
        }
        assert forall|key: DiscoveryKey| #[trigger] m_new.contains_key(key) implies m_new[key] == m_old.insert(k, d)[key] by {
            assert(has_key(new_s, key));
            let i = choose|i: int| 0 <= i < new_s.len() && key_of(new_s[i]) == key;
            lemma_discovery_map_at(new_s, i);
            lemma_discovery_map_at(new_s, p);
            if i != p {
                lemma_discovery_map_at(old_s, i);
            }
        }
        assert(m_new =~= m_old.insert(k, d));
    }

    proof fn lemma_insert_sorted(&self, old_s: Seq<LanGameDiscoveryView>, p: int, d: LanGameDiscoveryView)
        requires
            sorted_by_key(old_s),
            0 <= p <= old_s.len(),
            forall|i: int| 0 <= i < p ==> key_lt(key_of(#[trigger] old_s[i]), key_of(d)),
            p < old_s.len() ==> key_lt(key_of(d), key_of(old_s[p])),
            self.entries_view() == old_s.insert(p, d),
        ensures
            self.wf(),
    {
        let new_s = self.entries_view();
        assert forall|i: int, j: int| 0 <= i < j < new_s.len() implies key_lt(key_of(new_s[i]), key_of(new_s[j])) by {
            if j == p {
            } else if i == p {
                if j - 1 > p {
                    lemma_key_order(key_of(d), key_of(old_s[p]), key_of(old_s[j - 1]));
                }
            } else if i < p && j > p {
                lemma_key_order(key_of(old_s[i]), key_of(d), key_of(old_s[j - 1]));
            }
        }
    }

    proof fn lemma_insert_map(&self, old_s: Seq<LanGameDiscoveryView>, p: int, d: LanGameDiscoveryView)
        requires
            sorted_by_key(old_s),
            0 <= p <= old_s.len(),
            self.entries_view() == old_s.insert(p, d),
            self.wf(),
        ensures
            self.view() == discovery_map(old_s).insert(key_of(d), d),
    {
        let new_s = self.entries_view();
        let m_old = discovery_map(old_s);
        let m_new = discovery_map(new_s);
        let k = key_of(d);
        assert(key_of(new_s[p]) == k);
        assert forall|key: DiscoveryKey| #[trigger] m_new.contains_key(key) == m_old.insert(k, d).contains_key(key) by {
            if has_key(new_s, key) && key != k {
                let i = choose|i: int| 0 <= i < new_s.len() && key_of(new_s[i]) == key;
                if i < p {
                    assert(key_of(old_s[i]) == key);
                } else if i > p {
                    assert(key_of(old_s[i - 1]) == key);
                }
            }
            if has_key(old_s, key) {
                let i = choose|i: int| 0 <= i < old_s.len() && key_of(old_s[i]) == key;
                if i < p {
                    assert(key_of(new_s[i]) == key);
                } else {
                    assert(key_of(new_s[i + 1]) == key);
                }
            }
        }
        assert forall|key: DiscoveryKey| #[trigger] m_new.contains_key(key) implies m_new[key] == m_old.insert(k, d)[key] by {
            assert(has_key(new_s, key));
            let i = choose|i: int| 0 <= i < new_s.len() && key_of(new_s[i]) == key;
            lemma_discovery_map_at(new_s, i);
            lemma_discovery_map_at(new_s, p);
            if i < p {
                lemma_discovery_map_at(old_s, i);
            } else if i > p {
                lemma_discovery_map_at(old_s, i - 1);
            }
        }
        assert(m_new =~= m_old.insert(k, d));
    }
}


/// How long ago the Unix epoch was by the system clock
/// (`SystemTime::elapsed` on `UNIX_EPOCH`), or `None` when the clock reads
/// before the epoch. Nothing is promised of the value: it is the clock's.
#[verifier::external_body]
fn epoch_elapsed() -> Option<core::time::Duration> {
    match std::time::UNIX_EPOCH.elapsed() {
        Ok(d) => Some(d),
        Err(_) => None,
    }
}

/// The whole milliseconds of `d` (`Duration::as_millis`). `Duration` is
/// opaque here, so the value is left unsaid.
#[verifier::external_body]
fn duration_millis(d: &core::time::Duration) -> u128 {
    d.as_millis()
}

/// The Unix time in milliseconds for a reading of the time elapsed since the
/// epoch: its milliseconds cut to 64 bits, or 0 when the clock read before
/// the epoch.
pub fn unix_ms_from_elapsed(elapsed_ms: Option<u128>) -> (r: u64)
    ensures
        r == match elapsed_ms {
            Some(ms) => ms as u64,
            None => 0u64,
        },
{
    match elapsed_ms {
        Some(ms) => ms as u64,
        None => 0,
    }
}

/// The current Unix time in milliseconds, 0 when the clock reads before the
/// epoch.
fn now_unix_ms() -> u64 {
    let elapsed_ms = match epoch_elapsed() {
        Some(d) => Some(duration_millis(&d)),
        None => None,
    };
    unix_ms_from_elapsed(elapsed_ms)
}

/// Drops the discoveries not seen in the last twenty seconds and returns
/// the rest, ordered by parser name, then game port. The time is read from
/// the system clock; whatever it reads, the table and the result are those
/// of `poll_at` at that time.
pub fn poll_lan_game_discoveries(table: &mut LanDiscoveryTable) -> (r: Vec<LanGameDiscovery>)
    requires
        old(table).wf(),
    ensures
        final(table).wf(),
        exists|now: u64| final(table).view() == #[trigger] fresh_part(old(table).view(), now),
        sorted_by_key(views(r@)),
        discovery_map(views(r@)) == final(table).view(),
{
    let now = now_unix_ms();
    table.poll_at(now)
}

/// The discovery that a datagram gives, if it comes from this machine and
/// its payload parses.
pub open spec fn datagram_discovery(
    parser: Seq<char>,
    payload: Seq<u8>,
    src: SourceIp,
    source_text: Seq<char>,
    locals: Seq<u32>,
    now: u64,
) -> Option<LanGameDiscoveryView> {
    if !is_own_source_spec(src, locals) {
        None
    } else {
        match lan_payload_spec(parser, utf8_lossy(payload)) {
            None => None,
            Some((motd, port)) => Some(
                LanGameDiscoveryView {
                    parser: parser,
                    game_port: port,
                    motd: motd,
                    source_ip: source_text,
                    seen_unix_ms: now,
                },
            ),
        }
    }
}

/// Handles one datagram received at time `now` by the listener running
/// `parser`: a payload from this machine that parses is recorded; anything
/// else is ignored. Returns whether a discovery was recorded.
pub fn record_lan_datagram_at(
    table: &mut LanDiscoveryTable,
    parser: &str,
    payload: &[u8],
    src: SourceIp,
    source_text: &str,
    locals: &[u32],
    now: u64,
) -> (recorded: bool)
    requires
        old(table).wf(),
    ensures
        final(table).wf(),
        recorded == datagram_discovery(parser@, payload@, src, source_text@, locals@, now) is Some,
        match datagram_discovery(parser@, payload@, src, source_text@, locals@, now) {
            Some(d) => final(table).view() == old(table).view().insert(key_of(d), d),
            None => final(table).view() == old(table).view(),
        },
{
    if !is_own_source(src, locals) {
        return false;
    }
    match parse_lan_payload(parser, payload) {
        None => false,
        Some((motd, game_port)) => {
            let d = LanGameDiscovery {
                parser: String::from_str(parser),
                game_port,
                motd,
                source_ip: String::from_str(source_text),
                seen_unix_ms: now,
            };
            table.record(d);
            true
        },
    }
}

/// Handles one datagram as `record_lan_datagram_at` does, at the time the
/// system clock reads when the payload has parsed.
pub fn on_lan_datagram(
    table: &mut LanDiscoveryTable,
    parser: &str,
    payload: &[u8],
    src: SourceIp,
    source_text: &str,
    locals: &[u32],
) -> (recorded: bool)
    requires
        old(table).wf(),
    ensures
        final(table).wf(),
        recorded == datagram_discovery(parser@, payload@, src, source_text@, locals@, 0) is Some,
        !recorded ==> final(table).view() == old(table).view(),
        recorded ==> exists|now: u64|
            #[trigger] datagram_discovery(parser@, payload@, src, source_text@, locals@, now)
                matches Some(d) && final(table).view() == old(table).view().insert(key_of(d), d),
{
    if !is_own_source(src, locals) {
        return false;
    }
    let parsed = parse_lan_payload(parser, payload);
    if parsed.is_none() {
        return false;
    }
    let now = now_unix_ms();
    record_lan_datagram_at(table, parser, payload, src, source_text, locals, now)
}

/// The name a listener's parser is known by: trimmed, then lower-cased.
pub open spec fn normalized_parser_name(parser: Seq<char>) -> Seq<char> {
    lowercase(trim(parser))
}

/// The error for a parser name that is empty once normalized.
pub open spec fn empty_parser_error() -> Seq<char> {
    "parser 不能为空"@
}

/// The error for a parser name that no payload parser answers to.
pub open spec fn unknown_parser_error(name: Seq<char>) -> Seq<char> {
    "未知组播 parser: "@ + name + "（请在内核 parse_lan_payload 注册）"@
}

/// Checks a parser name that is already trimmed and lower-cased: it must not
/// be empty, and a payload parser must answer to it.
pub fn check_lan_parser_name(name: String) -> (r: Result<String, String>)
    ensures
        match r {
            Ok(n) => n@ == name@ && name@ == minecraft_parser_name(),
            Err(e) => if name@.len() == 0 {
                e@ == empty_parser_error()
            } else {
                name@ != minecraft_parser_name() && e@ == unknown_parser_error(name@)
            },
        },
{
    let name_cs = chars_of(name.as_str());
    if name_cs.len() == 0 {
        return Err(String::from_str("parser 不能为空"));
    }
    let known = minecraft_parser_chars();
    if !chars_equal(&name_cs, &known) {
        let mut e = String::from_str("未知组播 parser: ");
        e.append(name.as_str());
        e.append("（请在内核 parse_lan_payload 注册）");
        return Err(e);
    }
    Ok(name)
}

/// Normalizes a listener's parser name and checks that a payload parser
/// answers to it.
pub fn validate_lan_parser(parser: &str) -> (r: Result<String, String>)
    ensures
        match r {
            Ok(name) => name@ == normalized_parser_name(parser@) && name@
                == minecraft_parser_name(),
            Err(e) => if normalized_parser_name(parser@).len() == 0 {
                e@ == empty_parser_error()
            } else {
                normalized_parser_name(parser@) != minecraft_parser_name() && e@
                    == unknown_parser_error(normalized_parser_name(parser@))
            },
        },
{
    let cs = chars_of(parser);
    let trimmed = trim_chars(&cs);
    let lowered = lowercase_chars(&trimmed);
    check_lan_parser_name(string_from_chars(&lowered))
}

/// The fields of `s` between its dots, in order (one field when there is
/// no dot).
pub open spec fn dot_fields(s: Seq<char>) -> Seq<Seq<char>>
    decreases s.len(),
{
    if s.len() == 0 {
        seq![Seq::<char>::empty()]
    } else {
        let r = dot_fields(s.drop_last());
        if s.last() == '.' {
            r.push(Seq::<char>::empty())
        } else {
            r.update(r.len() - 1, r.last().push(s.last()))
        }
    }
}

proof fn lemma_dot_fields_len(s: Seq<char>)
    ensures
        dot_fields(s).len() >= 1,
    decreases s.len(),
{
    if s.len() > 0 {
        lemma_dot_fields_len(s.drop_last());
    }
}

/// A field of an IPv4 address as `str::parse::<Ipv4Addr>` reads it: one to
/// three ASCII digits, no leading zero unless the field is `0`, and a value
/// of at most 255.
pub open spec fn octet_value(d: Seq<char>) -> Option<u8> {
    if 1 <= d.len() <= 3 && all_ascii_digits(d) && !(d.len() > 1 && d[0] == '0') && digits_value(d)
        <= 255 {
        Some(digits_value(d) as u8)
    } else {
        None
    }
}

/// The IPv4 address that `str::parse::<Ipv4Addr>` reads from `s`, as its
/// 32-bit big-endian value: exactly four fields separated by dots.
pub open spec fn ipv4_value(s: Seq<char>) -> Option<u32> {
    let f = dot_fields(s);
    if f.len() == 4 && octet_value(f[0]) is Some && octet_value(f[1]) is Some && octet_value(f[2]) is Some
        && octet_value(f[3]) is Some {
        Some(
            (octet_value(f[0])->0 as int * 0x100_0000 + octet_value(f[1])->0 as int * 0x1_0000
                + octet_value(f[2])->0 as int * 0x100 + octet_value(f[3])->0 as int) as u32,
        )
    } else {
        None
    }
}

/// Reads one field of an IPv4 address.
fn octet_of(d: &[char]) -> (r: Option<u8>)
    ensures
        r == octet_value(d@),
{
    if d.len() < 1 || d.len() > 3 {
        return None;
    }
    if d.len() > 1 && d[0] == '0' {
        return None;
    }
    let mut acc: u32 = 0;
    let mut i: usize = 0;
    while i < d.len()
        invariant
            i <= d.len() <= 3,
            forall|k: int| 0 <= k < i ==> is_ascii_digit(#[trigger] d@[k]),
            acc == digits_value(d@.take(i as int)),
            acc < (if i == 0 {
                1u32
            } else if i == 1 {
                10u32
            } else if i == 2 {
                100u32
            } else {
                1000u32
            }),
        decreases d.len() - i,
    {
        let c = d[i];
        if !('0' <= c && c <= '9') {
            assert(!is_ascii_digit(d@[i as int]));
            return None;
        }
        assert(d@.take(i + 1).drop_last() =~= d@.take(i as int));
        assert(d@.take(i + 1).last() == c);
        let digit = (c as u32) - ('0' as u32);
        acc = acc * 10 + digit;
        i = i + 1;
    }
    assert(d@.take(d.len() as int) =~= d@);
    if acc > 255 {
        return None;
    }
    Some(acc as u8)
}

/// Reads an IPv4 address in dotted-quad form, as `str::parse::<Ipv4Addr>`
/// does, and gives its 32-bit big-endian value.
pub fn parse_ipv4(s: &[char]) -> (r: Option<u32>)
    ensures
        r == ipv4_value(s@),
{
    let mut done: Vec<Vec<char>> = Vec::new();
    let mut cur: Vec<char> = Vec::new();
    let mut i: usize = 0;
    while i < s.len()
        invariant
            i <= s.len(),
            done@.map_values(|v: Vec<char>| v@).push(cur@) == dot_fields(s@.take(i as int)),
        decreases s.len() - i,
    {
        let ghost before = done@.map_values(|v: Vec<char>| v@).push(cur@);
        let c = s[i];
        assert(s@.take(i + 1).drop_last() =~= s@.take(i as int));
        assert(s@.take(i + 1).last() == c);
        if c == '.' {
            let ghost cv = cur@;
            let ghost dv = done@.map_values(|v: Vec<char>| v@);
            done.push(cur);
            cur = Vec::new();
            assert(done@.map_values(|v: Vec<char>| v@) =~= dv.push(cv));
            assert(done@.map_values(|v: Vec<char>| v@).push(cur@) =~= before.push(
                Seq::<char>::empty(),
            ));
        } else {
            cur.push(c);
            assert(done@.map_values(|v: Vec<char>| v@).push(cur@) =~= before.update(
                before.len() - 1,
                before.last().push(c),
            ));
        }
        i = i + 1;
    }
    assert(s@.take(s.len() as int) =~= s@);
    let ghost f = dot_fields(s@);
    if done.len() != 3 {
        return None;
    }
    assert(f[0] == done@[0]@ && f[1] == done@[1]@ && f[2] == done@[2]@ && f[3] == cur@);
    let a = match octet_of(done[0].as_slice()) {
        Some(a) => a,
        None => return None,
    };
    let b = match octet_of(done[1].as_slice()) {
        Some(b) => b,
        None => return None,
    };
    let c = match octet_of(done[2].as_slice()) {
        Some(c) => c,
        None => return None,
    };
    let d = match octet_of(cur.as_slice()) {
        Some(d) => d,
        None => return None,
    };
    Some((a as u32) * 0x100_0000 + (b as u32) * 0x1_0000 + (c as u32) * 0x100 + (d as u32))
}

/// The error for a multicast group that is not an IPv4 address.
pub open spec fn invalid_group_error() -> Seq<char> {
    "无效组播地址: invalid IPv4 address syntax"@
}

/// What a LAN listener is to be started with: the multicast group to join
/// (as given and as its IPv4 value), the local address to bind and the
/// payload parser to run.
pub struct LanListenerPlan {
    pub multicast_addr: String,
    pub group: u32,
    pub listen_addr: String,
    pub parser: String,
}

/// `0.0.0.0:<port>`, the address a listener binds.
pub open spec fn listen_addr_for(port: u16) -> Seq<char> {
    "0.0.0.0:"@ + decimal(port as nat)
}

/// The outcome of starting a UDP multicast listener for `multicast_addr`,
/// `port` and `parser`: the parser is checked first, then the group; on
/// success the plan joins the group and binds all interfaces at `port`.
pub open spec fn lan_listener_result(
    r: Result<LanListenerPlan, String>,
    multicast_addr: Seq<char>,
    port: u16,
    parser: Seq<char>,
) -> bool {
    let name = normalized_parser_name(parser);
    if name.len() == 0 {
        r matches Err(e) && e@ == empty_parser_error()
    } else if name != minecraft_parser_name() {
        r matches Err(e) && e@ == unknown_parser_error(name)
    } else {
        match ipv4_value(multicast_addr) {
            None => r matches Err(e) && e@ == invalid_group_error(),
            Some(g) => r matches Ok(plan) && plan.multicast_addr@ == multicast_addr && plan.group
                == g && plan.listen_addr@ == listen_addr_for(port) && plan.parser@ == name,
        }
    }
}

/// Checks the parser and the group of a new UDP multicast listener and
/// plans it: the group `multicast_addr`, bound on all interfaces at `port`.
pub fn start_udp_multicast_lan_listener(multicast_addr: String, port: u16, parser: String) -> (r:
    Result<LanListenerPlan, String>)
    ensures
        lan_listener_result(r, multicast_addr@, port, parser@),
{
    let name = match validate_lan_parser(parser.as_str()) {
        Ok(n) => n,
        Err(e) => return Err(e),
    };
    let addr_cs = chars_of(multicast_addr.as_str());
    let group = match parse_ipv4(&addr_cs) {
        Some(g) => g,
        None => return Err(String::from_str("无效组播地址: invalid IPv4 address syntax")),
    };
    let mut listen_addr = String::from_str("0.0.0.0:");
    push_decimal(&mut listen_addr, port as u64);
    Ok(LanListenerPlan { multicast_addr, group, listen_addr, parser: name })
}

/// `minecraft_motd` is its own normalized name.
proof fn lemma_minecraft_name_normalized()
    ensures
        normalized_parser_name(minecraft_parser_name()) == minecraft_parser_name(),
{
    let m = minecraft_parser_name();
    assert(trim_start(m) == m);
    assert(trim_end(m) == m);
    assert(lowercase(m) =~= m);
}

/// Plans a listener for Minecraft LAN announcements: the same as a UDP
/// multicast listener with the parser `minecraft_motd`, which succeeds
/// exactly when the group is an IPv4 address.
pub fn start_minecraft_lan_listener(multicast_addr: String, port: u16) -> (r: Result<
    LanListenerPlan,
    String,
>)
    ensures
        lan_listener_result(r, multicast_addr@, port, minecraft_parser_name()),
        r is Ok <==> ipv4_value(multicast_addr@) is Some,
{
    proof {
        lemma_minecraft_name_normalized();
    }
    let parser = string_from_chars(&minecraft_parser_chars());
    start_udp_multicast_lan_listener(multicast_addr, port, parser)
}

/// The listeners running: each started listener gets the next index.
pub struct LanListenerRegistry {
    count: usize,
}

impl LanListenerRegistry {
    /// The number of listeners registered since the last stop.
    pub closed spec fn view(&self) -> nat {
        self.count as nat
    }

    /// A registry with no listener.
    pub fn new() -> (r: LanListenerRegistry)
        ensures
            r.view() == 0,
    {
        LanListenerRegistry { count: 0 }
    }

    /// Registers a started listener and returns its index.
    pub fn register(&mut self) -> (index: usize)
        requires
            old(self).view() < usize::MAX,
        ensures
            index == old(self).view(),
            final(self).view() == old(self).view() + 1,
    {
        let index = self.count;
        self.count = self.count + 1;
        index
    }

    /// The number of listeners registered.
    pub fn len(&self) -> (n: usize)
        ensures
            n == self.view(),
    {
        self.count
    }
}

/// The error of a listener whose socket could not be bound at `listen_addr`.
pub open spec fn bind_failed_error(listen_addr: Seq<char>, e: Seq<char>) -> Seq<char> {
    "绑定组播监听失败 "@ + listen_addr + ": "@ + e
}

/// The error of a listener that could not join its multicast group.
pub open spec fn join_failed_error(e: Seq<char>) -> Seq<char> {
    "加入组播失败: "@ + e
}

/// What registering a listener does, from `before` listeners to `after`,
/// with result `r`: the plan's error, a bind error or a join error leaves
/// the listeners as they were; otherwise the listener gets the next index.
pub open spec fn listener_registration(
    before: nat,
    after: nat,
    plan: Result<LanListenerPlan, String>,
    bound: Result<(), String>,
    joined: Result<(), String>,
    r: Result<usize, String>,
) -> bool {
    match plan {
        Err(e) => r matches Err(m) && m@ == e@ && after == before,
        Ok(p) => match bound {
            Err(e) => r matches Err(m) && m@ == bind_failed_error(p.listen_addr@, e@) && after
                == before,
            Ok(()) => match joined {
                Err(e) => r matches Err(m) && m@ == join_failed_error(e@) && after == before,
                Ok(()) => r matches Ok(i) && i == before && after == before + 1,
            },
        },
    }
}

/// Registers a listener once its plan is made, its socket bound at the
/// plan's address (`bound`) and the group joined (`joined`); the first
/// failure is the result and nothing is registered.
pub fn register_lan_listener(
    registry: &mut LanListenerRegistry,
    plan: &Result<LanListenerPlan, String>,
    bound: Result<(), String>,
    joined: Result<(), String>,
) -> (r: Result<usize, String>)
    requires
        old(registry).view() < usize::MAX,
    ensures
        listener_registration(old(registry).view(), final(registry).view(), *plan, bound, joined, r),
{
    let p = match plan {
        Ok(p) => p,
        Err(e) => return Err(e.clone()),
    };
    if let Err(e) = bound {
        let mut m = String::from_str("绑定组播监听失败 ");
        m.append(p.listen_addr.as_str());
        m.append(": ");
        m.append(e.as_str());
        return Err(m);
    }
    if let Err(e) = joined {
        let mut m = String::from_str("加入组播失败: ");
        m.append(e.as_str());
        return Err(m);
    }
    Ok(registry.register())
}

/// Starting a listener: a group that is not an IPv4 address is refused
/// with the invalid-group error (once the parser is known), an error leaves
/// the number of listeners `n` as it was, and success gives index `n` and
/// `n + 1` listeners.
pub proof fn law_listener_start(
    multicast_addr: Seq<char>,
    port: u16,
    parser: Seq<char>,
    plan: Result<LanListenerPlan, String>,
    bound: Result<(), String>,
    joined: Result<(), String>,
    n: nat,
    after: nat,
    r: Result<usize, String>,
)
    requires
        lan_listener_result(plan, multicast_addr, port, parser),
        listener_registration(n, after, plan, bound, joined, r),
    ensures
        normalized_parser_name(parser) == minecraft_parser_name() && ipv4_value(multicast_addr)
            is None ==> (r matches Err(m) && m@ == invalid_group_error()),
        r is Err ==> after == n,
        r matches Ok(i) ==> i == n && after == n + 1,
{
}

/// Forgets all listeners and every discovery, once their tasks are stopped.
pub fn stop_all_lan_game_listeners(registry: &mut LanListenerRegistry, table: &mut LanDiscoveryTable)
    ensures
        final(registry).view() == 0,
        final(table).wf(),
        final(table).view() == Map::<DiscoveryKey, LanGameDiscoveryView>::empty(),
{
    registry.count = 0;
    table.clear();
}

} // verus!
