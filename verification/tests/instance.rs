use astral_rust_core::instance::{
    close_instance, instance_id_from_parse, instance_start_message, lookup_retry_step, parse_instance_id,
    InstanceStartInfo, RetryStep,
};

#[test]
fn instance_id_forms() {
    let v = 0x550e8400_e29b_41d4_a716_446655440000u128;
    assert_eq!(parse_instance_id("550e8400-e29b-41d4-a716-446655440000"), Ok(v));
    assert_eq!(parse_instance_id("550E8400E29B41D4A716446655440000"), Ok(v));
    assert_eq!(parse_instance_id("{550e8400-e29b-41d4-a716-446655440000}"), Ok(v));
    assert_eq!(parse_instance_id("urn:uuid:550e8400-e29b-41d4-a716-446655440000"), Ok(v));
}

#[test]
fn invalid_instance_id() {
    let e = parse_instance_id("not-a-uuid").unwrap_err();
    assert!(e.starts_with("invalid instance_id: "));
    assert!(e.len() > "invalid instance_id: ".len());
}

#[test]
fn close_instance_deletes_parsed_id() {
    let mut seen = None;
    let r = close_instance("550e8400-e29b-41d4-a716-446655440000".to_string(), |id| {
        seen = Some(id);
        Ok(())
    });
    assert_eq!(r, Ok(()));
    assert_eq!(seen, Some(0x550e8400_e29b_41d4_a716_446655440000u128));
}

#[test]
fn close_instance_reports_delete_failure() {
    let r = close_instance("550e8400-e29b-41d4-a716-446655440000".to_string(), |_| {
        Err("no such instance".to_string())
    });
    assert_eq!(r, Err("delete instance failed: no such instance".to_string()));
}

#[test]
fn close_instance_with_bad_id_does_not_delete() {
    let mut called = false;
    let r = close_instance("xyz".to_string(), |_| {
        called = true;
        Ok(())
    });
    assert!(r.unwrap_err().starts_with("invalid instance_id: "));
    assert!(!called);
}

#[test]
fn start_message() {
    let info = InstanceStartInfo {
        instance_id: "550e8400-e29b-41d4-a716-446655440000".to_string(),
        network_name: "lan".to_string(),
        hostname: "pc".to_string(),
        dhcp: true,
        ipv4: None,
        listeners: Some(vec!["tcp://0.0.0.0:11010".to_string(), "udp://0.0.0.0:11010".to_string()]),
        peers: vec![],
    };
    assert_eq!(
        instance_start_message(&info),
        "instance starting. instance_id: 550e8400-e29b-41d4-a716-446655440000, network_name: lan, hostname: pc, dhcp: true, ipv4: none, listeners: [tcp://0.0.0.0:11010, udp://0.0.0.0:11010], peers: []"
    );
    let info = InstanceStartInfo {
        dhcp: false,
        ipv4: Some("10.0.0.1/24".to_string()),
        listeners: None,
        peers: vec!["tcp://1.2.3.4:11010".to_string()],
        ..info
    };
    assert_eq!(
        instance_start_message(&info),
        "instance starting. instance_id: 550e8400-e29b-41d4-a716-446655440000, network_name: lan, hostname: pc, dhcp: false, ipv4: 10.0.0.1/24, listeners: [none], peers: [tcp://1.2.3.4:11010]"
    );
}

#[test]
fn retry_steps() {
    assert!(matches!(lookup_retry_step::<u8>(Ok(3), true), RetryStep::Ready(3)));
    assert!(matches!(lookup_retry_step::<u8>(Err("x".to_string()), false), RetryStep::Retry));
    match lookup_retry_step::<u8>(Err("gone".to_string()), true) {
        RetryStep::Fail(e) => assert_eq!(e, "gone"),
        _ => panic!("expected a failure"),
    }
}

#[test]
fn parse_outcome_to_instance_id() {
    assert_eq!(instance_id_from_parse(Ok(7)), Ok(7));
    assert_eq!(
        instance_id_from_parse(Err("bad length".to_string())),
        Err("invalid instance_id: bad length".to_string())
    );
}
