use astral_rust_core::multicast::{MulticastSender, MulticastSenderRegistry};

fn sender(port: u16) -> MulticastSender {
    MulticastSender::new("224.0.2.60", port, vec![], 10, Ok(())).unwrap()
}

#[test]
fn sender_settings() {
    let s = MulticastSender::new("224.0.2.60", 4445, vec![1, 2], 1500, Ok(())).unwrap();
    assert_eq!(s.target, "224.0.2.60:4445");
    assert_eq!(s.bind_addr, "0.0.0.0:0");
    assert_eq!(s.data, vec![1, 2]);
    assert_eq!(s.interval_ms, 1500);
    assert!(!s.is_running());
    let s = s.with_bind_addr("192.168.1.2:0");
    assert_eq!(s.bind_addr, "192.168.1.2:0");
}

#[test]
fn sender_with_bad_target_is_refused() {
    let r = MulticastSender::new("ff02::1", 4445, vec![], 10, Err("invalid socket address syntax".to_string()));
    assert_eq!(r.err(), Some("invalid socket address syntax".to_string()));
}

#[test]
fn sender_start_twice_is_refused() {
    let mut s = sender(4445);
    assert!(s.check_start().is_ok());
    s.mark_started();
    assert_eq!(s.check_start(), Err("组播已启动".to_string()));
    s.stop();
    assert!(!s.is_running());
    assert!(s.check_start().is_ok());
}

#[test]
fn registry_indices_and_stops() {
    let mut r = MulticastSenderRegistry::new();
    let mut a = sender(1);
    a.mark_started();
    let mut b = sender(2);
    b.mark_started();
    assert_eq!(r.add(a), 0);
    assert_eq!(r.add(b), 1);
    assert_eq!(r.get_multicast_sender_count(), 2);
    assert!(r.is_multicast_sender_running(1));
    assert_eq!(r.stop_multicast_sender(1), Ok(()));
    assert!(!r.is_multicast_sender_running(1));
    assert!(r.is_multicast_sender_running(0));
    assert_eq!(r.get_multicast_sender_count(), 1);
    assert_eq!(r.stop_multicast_sender(2), Err("无效的发送器索引: 2".to_string()));
    assert!(!r.is_multicast_sender_running(7));
    r.stop_all_multicast_senders();
    assert_eq!(r.get_multicast_sender_count(), 0);
}

#[test]
fn create_errors_and_indices() {
    let mut r = MulticastSenderRegistry::new();
    let bad = MulticastSender::new("nope", 1, vec![], 10, Err("invalid socket address syntax".to_string()));
    assert_eq!(
        r.create_multicast_sender(bad, Ok(())),
        Err("创建组播发送器失败: invalid socket address syntax".to_string())
    );
    assert_eq!(
        r.create_multicast_sender(Ok(sender(1)), Err("Address already in use".to_string())),
        Err("启动组播发送器失败: Address already in use".to_string())
    );
    let mut running = sender(2);
    running.mark_started();
    assert_eq!(
        r.create_multicast_sender(Ok(running), Ok(())),
        Err("启动组播发送器失败: 组播已启动".to_string())
    );
    assert_eq!(r.get_multicast_sender_count(), 0);
    assert_eq!(r.create_multicast_sender(Ok(sender(3)), Ok(())), Ok(0));
    assert_eq!(r.create_multicast_sender_with_bind(Ok(sender(4)), "10.0.0.1:0", Ok(())), Ok(1));
    assert_eq!(r.get_multicast_sender_count(), 2);
    assert!(r.is_multicast_sender_running(1));
}
