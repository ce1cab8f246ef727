use astral_rust_core::lan::{
    check_lan_parser_name, local_ipv4_set, parse_ipv4, register_lan_listener, unix_ms_from_elapsed,
    extract_tag, is_own_source, on_lan_datagram, parse_lan_payload, parse_minecraft_motd,
    parse_minecraft_motd_text, poll_lan_game_discoveries, record_lan_datagram_at,
    start_minecraft_lan_listener, start_udp_multicast_lan_listener, stop_all_lan_game_listeners,
    validate_lan_parser, LanDiscoveryTable, LanGameDiscovery, LanListenerRegistry, SourceIp,
};

fn chars(s: &str) -> Vec<char> {
    s.chars().collect()
}

fn discovery(parser: &str, port: u16, motd: &str, seen: u64) -> LanGameDiscovery {
    LanGameDiscovery {
        parser: parser.to_string(),
        game_port: port,
        motd: motd.to_string(),
        source_ip: "127.0.0.1".to_string(),
        seen_unix_ms: seen,
    }
}

const LOOPBACK: u32 = 0x7f00_0001;

#[test]
fn motd_announcement_parses() {
    let r = parse_minecraft_motd(b"[MOTD]  My World \t[/MOTD][AD] 25565 [/AD]");
    assert_eq!(r, Some(("My World".to_string(), 25565)));
}

#[test]
fn motd_port_zero_is_rejected() {
    assert_eq!(parse_minecraft_motd(b"[MOTD]w[/MOTD][AD]0[/AD]"), None);
}

#[test]
fn motd_port_out_of_range_is_rejected() {
    assert_eq!(parse_minecraft_motd(b"[MOTD]w[/MOTD][AD]65536[/AD]"), None);
    assert_eq!(parse_minecraft_motd(b"[MOTD]w[/MOTD][AD]-1[/AD]"), None);
    assert_eq!(parse_minecraft_motd(b"[MOTD]w[/MOTD][AD]12a[/AD]"), None);
    assert_eq!(parse_minecraft_motd(b"[MOTD]w[/MOTD][AD][/AD]"), None);
}

#[test]
fn motd_port_plus_sign_and_leading_zeros() {
    assert_eq!(parse_minecraft_motd(b"[MOTD]w[/MOTD][AD]+080[/AD]"), Some(("w".to_string(), 80)));
    assert_eq!(parse_minecraft_motd(b"[MOTD]w[/MOTD][AD]65535[/AD]"), Some(("w".to_string(), 65535)));
}

#[test]
fn motd_missing_tags() {
    assert_eq!(parse_minecraft_motd(b"[MOTD]w[/MOTD]"), None);
    assert_eq!(parse_minecraft_motd(b"[AD]25565[/AD]"), None);
    assert_eq!(parse_minecraft_motd(b"[MOTD]w[AD]25565[/AD]"), None);
    assert_eq!(parse_minecraft_motd(b""), None);
}

#[test]
fn motd_ad_before_motd_still_parses() {
    assert_eq!(
        parse_minecraft_motd(b"[AD]1234[/AD][MOTD]x[/MOTD]"),
        Some(("x".to_string(), 1234))
    );
}

#[test]
fn motd_invalid_utf8_is_replaced() {
    let mut data = b"[MOTD]a".to_vec();
    data.push(0xff);
    data.extend_from_slice(b"b[/MOTD][AD]7[/AD]");
    assert_eq!(parse_minecraft_motd(&data), Some(("a\u{fffd}b".to_string(), 7)));
}

#[test]
fn motd_unicode_whitespace_is_trimmed() {
    let text = chars("[MOTD]\u{3000}世界\u{a0}[/MOTD][AD]\u{2003}9[/AD]");
    assert_eq!(parse_minecraft_motd_text(&text), Some(("世界".to_string(), 9)));
}

#[test]
fn extract_tag_takes_first_open_then_first_close() {
    let s = chars("x<a>1</a><a>2</a>");
    assert_eq!(extract_tag(&s, &chars("<a>"), &chars("</a>")), Some(chars("1")));
    assert_eq!(extract_tag(&s, &chars("<b>"), &chars("</a>")), None);
    assert_eq!(extract_tag(&s, &chars("<a>"), &chars("</b>")), None);
}

#[test]
fn lan_payload_needs_known_parser() {
    let data = b"[MOTD]m[/MOTD][AD]25565[/AD]";
    assert_eq!(parse_lan_payload("minecraft_motd", data), Some(("m".to_string(), 25565)));
    assert_eq!(parse_lan_payload("Minecraft_motd", data), None);
    assert_eq!(parse_lan_payload("source_engine", data), None);
}

#[test]
fn own_source_checks() {
    assert!(is_own_source(SourceIp::V4(LOOPBACK), &[]));
    assert!(is_own_source(SourceIp::V4(0x7fff_ffff), &[]));
    assert!(!is_own_source(SourceIp::V4(0xc0a8_0102), &[]));
    assert!(is_own_source(SourceIp::V4(0xc0a8_0102), &[0x0a00_0001, 0xc0a8_0102]));
    assert!(is_own_source(SourceIp::V6(1), &[]));
    assert!(!is_own_source(SourceIp::V6(2), &[]));
}

#[test]
fn poll_returns_recorded_discovery() {
    let mut t = LanDiscoveryTable::new();
    t.record(discovery("minecraft_motd", 25565, "w", 1_000));
    let r = t.poll_at(1_000);
    assert_eq!(r.len(), 1);
    assert_eq!(r[0].motd, "w");
    assert_eq!(r[0].game_port, 25565);
    let r = t.poll_at(20_999);
    assert_eq!(r.len(), 1);
}

#[test]
fn poll_drops_stale_discovery() {
    let mut t = LanDiscoveryTable::new();
    t.record(discovery("minecraft_motd", 25565, "w", 1_000));
    assert_eq!(t.poll_at(21_000).len(), 0);
    assert_eq!(t.poll_at(1_000).len(), 0);
}

#[test]
fn poll_with_clock_behind_keeps_discovery() {
    let mut t = LanDiscoveryTable::new();
    t.record(discovery("minecraft_motd", 1, "w", 50_000));
    assert_eq!(t.poll_at(10).len(), 1);
}

#[test]
fn poll_sorts_by_parser_then_port() {
    let mut t = LanDiscoveryTable::new();
    t.record(discovery("zz", 5, "a", 0));
    t.record(discovery("minecraft_motd", 30000, "b", 0));
    t.record(discovery("minecraft_motd", 25565, "c", 0));
    t.record(discovery("aa", 9, "d", 0));
    let r = t.poll_at(0);
    let keys: Vec<(String, u16)> = r.iter().map(|d| (d.parser.clone(), d.game_port)).collect();
    assert_eq!(
        keys,
        vec![
            ("aa".to_string(), 9),
            ("minecraft_motd".to_string(), 25565),
            ("minecraft_motd".to_string(), 30000),
            ("zz".to_string(), 5),
        ]
    );
}

#[test]
fn record_replaces_same_parser_and_port() {
    let mut t = LanDiscoveryTable::new();
    t.record(discovery("minecraft_motd", 25565, "old", 0));
    t.record(discovery("minecraft_motd", 25565, "new", 5));
    let r = t.poll_at(5);
    assert_eq!(r.len(), 1);
    assert_eq!(r[0].motd, "new");
    assert_eq!(r[0].seen_unix_ms, 5);
}

#[test]
fn poll_twice_is_stable() {
    let mut t = LanDiscoveryTable::new();
    t.record(discovery("a", 1, "x", 0));
    t.record(discovery("b", 2, "y", 30_000));
    let first = t.poll_at(30_000);
    let second = t.poll_at(30_000);
    assert_eq!(first.len(), 1);
    assert_eq!(second.len(), 1);
    assert_eq!(first[0].parser, second[0].parser);
}

#[test]
fn clock_poll_keeps_fresh_discovery() {
    let mut t = LanDiscoveryTable::new();
    let now = std::time::SystemTime::now()
        .duration_since(std::time::UNIX_EPOCH)
        .unwrap()
        .as_millis() as u64;
    t.record(discovery("minecraft_motd", 25565, "w", now));
    assert_eq!(poll_lan_game_discoveries(&mut t).len(), 1);
}

#[test]
fn datagram_from_this_machine_is_recorded() {
    let mut t = LanDiscoveryTable::new();
    let ok = record_lan_datagram_at(
        &mut t,
        "minecraft_motd",
        b"[MOTD]Survival[/MOTD][AD]25565[/AD]",
        SourceIp::V4(LOOPBACK),
        "127.0.0.1",
        &[],
        42,
    );
    assert!(ok);
    let r = t.poll_at(42);
    assert_eq!(r.len(), 1);
    assert_eq!(r[0].parser, "minecraft_motd");
    assert_eq!(r[0].motd, "Survival");
    assert_eq!(r[0].source_ip, "127.0.0.1");
    assert_eq!(r[0].seen_unix_ms, 42);
}

#[test]
fn datagram_from_elsewhere_is_ignored() {
    let mut t = LanDiscoveryTable::new();
    let ok = record_lan_datagram_at(
        &mut t,
        "minecraft_motd",
        b"[MOTD]x[/MOTD][AD]25565[/AD]",
        SourceIp::V4(0xc0a8_0105),
        "192.168.1.5",
        &[0xc0a8_0102],
        0,
    );
    assert!(!ok);
    assert_eq!(t.poll_at(0).len(), 0);
}

#[test]
fn datagram_with_bad_payload_is_ignored() {
    let mut t = LanDiscoveryTable::new();
    assert!(!on_lan_datagram(&mut t, "minecraft_motd", b"hello", SourceIp::V6(1), "::1", &[]));
    assert!(on_lan_datagram(
        &mut t,
        "minecraft_motd",
        b"[MOTD]x[/MOTD][AD]1[/AD]",
        SourceIp::V6(1),
        "::1",
        &[]
    ));
}

#[test]
fn parser_name_is_trimmed_and_lowercased() {
    assert_eq!(validate_lan_parser("  MineCraft_MOTD \n"), Ok("minecraft_motd".to_string()));
}

#[test]
fn empty_parser_name_is_refused() {
    assert_eq!(validate_lan_parser("   "), Err("parser 不能为空".to_string()));
}

#[test]
fn unknown_parser_name_is_refused() {
    assert_eq!(
        validate_lan_parser(" Custom_JSON"),
        Err("未知组播 parser: custom_json（请在内核 parse_lan_payload 注册）".to_string())
    );
}

#[test]
fn listener_plan_binds_all_interfaces() {
    let plan = start_udp_multicast_lan_listener("224.0.2.60".to_string(), 4445, "minecraft_motd".to_string())
        .unwrap();
    assert_eq!(plan.multicast_addr, "224.0.2.60");
    assert_eq!(plan.group, 0xE000_023C);
    assert_eq!(plan.listen_addr, "0.0.0.0:4445");
    assert_eq!(plan.parser, "minecraft_motd");
    assert!(start_udp_multicast_lan_listener("224.0.2.60".to_string(), 1, "".to_string()).is_err());
}

#[test]
fn minecraft_listener_plan() {
    let plan = start_minecraft_lan_listener("224.0.2.60".to_string(), 0).unwrap();
    assert_eq!(plan.listen_addr, "0.0.0.0:0");
    assert_eq!(plan.parser, "minecraft_motd");
    assert_eq!(
        start_minecraft_lan_listener("not-an-ip".to_string(), 4445).err(),
        Some("无效组播地址: invalid IPv4 address syntax".to_string())
    );
}

#[test]
fn listener_with_bad_group_is_refused() {
    assert_eq!(
        start_udp_multicast_lan_listener("not-an-ip".to_string(), 4445, "minecraft_motd".to_string()).err(),
        Some("无效组播地址: invalid IPv4 address syntax".to_string())
    );
    // The parser is checked before the group.
    assert_eq!(
        start_udp_multicast_lan_listener("not-an-ip".to_string(), 4445, " \t".to_string()).err(),
        Some("parser 不能为空".to_string())
    );
    let plan = start_udp_multicast_lan_listener("239.255.255.250".to_string(), 1900, " MineCraft_MOTD ".to_string())
        .unwrap();
    assert_eq!(plan.group, 0xEFFF_FFFA);
    assert_eq!(plan.parser, "minecraft_motd");
}

#[test]
fn ipv4_parsing() {
    let cases: [(&str, Option<u32>); 22] = [
        ("224.0.2.60", Some(0xE000_023C)),
        ("0.0.0.0", Some(0)),
        ("255.255.255.255", Some(0xFFFF_FFFF)),
        ("1.2.3.4", Some(0x0102_0304)),
        ("1.2.3.0", Some(0x0102_0300)),
        ("01.2.3.4", None),
        ("1.2.3.04", None),
        ("00.0.0.0", None),
        ("256.1.1.1", None),
        ("999.1.1.1", None),
        ("1234.1.1.1", None),
        ("1.2.3", None),
        ("1.2.3.4.5", None),
        ("1..2.3", None),
        ("", None),
        (".1.2.3", None),
        ("1.2.3.4.", None),
        (" 1.2.3.4", None),
        ("1.2.3.4 ", None),
        ("+1.2.3.4", None),
        ("a.b.c.d", None),
        ("１.2.3.4", None),
    ];
    for (text, expected) in cases {
        assert_eq!(parse_ipv4(&chars(text)), expected, "{}", text);
    }
}

#[test]
fn listener_indices_and_stop_all() {
    let mut reg = LanListenerRegistry::new();
    let mut t = LanDiscoveryTable::new();
    assert_eq!(reg.register(), 0);
    assert_eq!(reg.register(), 1);
    assert_eq!(reg.len(), 2);
    t.record(discovery("minecraft_motd", 1, "x", 0));
    stop_all_lan_game_listeners(&mut reg, &mut t);
    assert_eq!(reg.len(), 0);
    assert_eq!(t.poll_at(0).len(), 0);
    assert_eq!(reg.register(), 0);
}

#[test]
fn normalized_parser_name_check() {
    assert_eq!(check_lan_parser_name("minecraft_motd".to_string()), Ok("minecraft_motd".to_string()));
    assert_eq!(check_lan_parser_name(String::new()), Err("parser 不能为空".to_string()));
    assert_eq!(
        check_lan_parser_name("MINECRAFT_MOTD".to_string()),
        Err("未知组播 parser: MINECRAFT_MOTD（请在内核 parse_lan_payload 注册）".to_string())
    );
}

#[test]
fn elapsed_time_to_unix_ms() {
    assert_eq!(unix_ms_from_elapsed(Some(1_700_000_000_123)), 1_700_000_000_123);
    assert_eq!(unix_ms_from_elapsed(None), 0);
    assert_eq!(unix_ms_from_elapsed(Some((1u128 << 64) + 5)), 5);
}

#[test]
fn listener_registration_only_on_success() {
    let mut reg = LanListenerRegistry::new();
    let bad = start_udp_multicast_lan_listener("not-an-ip".to_string(), 4445, "minecraft_motd".to_string());
    assert_eq!(
        register_lan_listener(&mut reg, &bad, Ok(()), Ok(())),
        Err("无效组播地址: invalid IPv4 address syntax".to_string())
    );
    assert_eq!(reg.len(), 0);
    let plan = start_minecraft_lan_listener("224.0.2.60".to_string(), 4445);
    assert_eq!(
        register_lan_listener(&mut reg, &plan, Err("Address in use".to_string()), Ok(())),
        Err("绑定组播监听失败 0.0.0.0:4445: Address in use".to_string())
    );
    assert_eq!(
        register_lan_listener(&mut reg, &plan, Ok(()), Err("No such device".to_string())),
        Err("加入组播失败: No such device".to_string())
    );
    assert_eq!(reg.len(), 0);
    assert_eq!(register_lan_listener(&mut reg, &plan, Ok(()), Ok(())), Ok(0));
    assert_eq!(register_lan_listener(&mut reg, &plan, Ok(()), Ok(())), Ok(1));
    assert_eq!(reg.len(), 2);
}

#[test]
fn local_addresses_include_loopback_once() {
    let addrs = vec![
        SourceIp::V4(0xC0A8_0102),
        SourceIp::V6(1),
        SourceIp::V4(0x7F00_0001),
        SourceIp::V4(0xC0A8_0102),
        SourceIp::V4(0x0A00_0005),
    ];
    let mut got = local_ipv4_set(&addrs);
    got.sort();
    assert_eq!(got, vec![0x0A00_0005, 0x7F00_0001, 0xC0A8_0102]);
    assert_eq!(local_ipv4_set(&vec![]), vec![0x7F00_0001]);
}
