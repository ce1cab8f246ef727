use astral_rust_core::process::{
    contains_any, list_contains, list_game_processes, sort_dedup_ports, udp_ports_by_pid, udp_table_row_count,
    wchar_to_string, RunningProcess, UdpRow, WindowTitleTable,
};

fn proc(pid: u32, exe: &str, title: &str, ports: Vec<u16>) -> RunningProcess {
    RunningProcess {
        pid,
        exe_file: exe.to_string(),
        title: title.to_string(),
        path: format!("C:\\Games\\{}", exe),
        udp_ports: ports,
    }
}

fn strings(v: &[&str]) -> Vec<String> {
    v.iter().map(|s| s.to_string()).collect()
}

#[test]
fn no_filters_no_games() {
    let procs = vec![proc(1, "javaw.exe", "Minecraft", vec![])];
    assert!(list_game_processes(strings(&["  ", ""]), strings(&[" \t "]), procs).is_empty());
}

#[test]
fn games_by_exe_name() {
    let procs = vec![
        proc(1, "JavaW.EXE", "", vec![25565, 4445, 25565]),
        proc(2, "explorer.exe", "Files", vec![]),
    ];
    let out = list_game_processes(strings(&[" javaw.exe "]), vec![], procs);
    assert_eq!(out.len(), 1);
    assert_eq!(out[0].pid, 1);
    assert_eq!(out[0].exe, "javaw.exe");
    assert_eq!(out[0].udp_ports, vec![4445, 25565]);
    assert_eq!(out[0].path, "C:\\Games\\JavaW.EXE");
}

#[test]
fn games_by_window_title() {
    let procs = vec![
        proc(7, "a.exe", "Minecraft 1.20.1 - Multiplayer", vec![]),
        proc(8, "b.exe", "", vec![]),
        proc(9, "c.exe", "Terraria", vec![]),
    ];
    let out = list_game_processes(vec![], strings(&["MINECRAFT", "terra"]), procs);
    let pids: Vec<u32> = out.iter().map(|g| g.pid).collect();
    assert_eq!(pids, vec![7, 9]);
    assert_eq!(out[0].title, "Minecraft 1.20.1 - Multiplayer");
}

#[test]
fn non_ascii_titles_are_lowercased() {
    let procs = vec![
        proc(1, "a.exe", "ÄRGER im Spiel", vec![]),
        proc(2, "b.exe", "Ärgerlich", vec![]),
        proc(3, "c.exe", "Other", vec![]),
    ];
    let out = list_game_processes(vec![], strings(&[" ärger "]), procs);
    let pids: Vec<u32> = out.iter().map(|g| g.pid).collect();
    assert_eq!(pids, vec![1, 2]);
}

#[test]
fn ports_are_sorted_and_unique() {
    assert_eq!(sort_dedup_ports(&vec![5, 3, 5, 1, 3]), vec![1, 3, 5]);
    assert_eq!(sort_dedup_ports(&vec![]), Vec::<u16>::new());
}

#[test]
fn udp_rows_by_pid() {
    let rows = [
        UdpRow { local_addr: 0, local_port: 0xDD63, owning_pid: 4 },
        UdpRow { local_addr: 0x0100007f, local_port: 0x5D11, owning_pid: 4 },
        UdpRow { local_addr: 0, local_port: 0, owning_pid: 4 },
        UdpRow { local_addr: 0, local_port: 0x5D11, owning_pid: 5 },
        UdpRow { local_addr: 0, local_port: 0xFFFF_5D11, owning_pid: 4 },
    ];
    assert_eq!(udp_ports_by_pid(&rows, 4), vec![25565, 4445]);
    assert_eq!(udp_ports_by_pid(&rows, 5), vec![4445]);
    assert_eq!(udp_ports_by_pid(&rows, 6), Vec::<u16>::new());
}

#[test]
fn udp_row_count_is_bounded_by_buffer() {
    assert_eq!(udp_table_row_count(10, 4 + 3 * 12, 12), 3);
    assert_eq!(udp_table_row_count(2, 4 + 3 * 12, 12), 2);
    assert_eq!(udp_table_row_count(2, 3, 12), 0);
    assert_eq!(udp_table_row_count(2, 10, 0), 2);
}

#[test]
fn wide_strings_stop_at_nul() {
    let buf: Vec<u16> = "notepad.exe\0junk".encode_utf16().collect();
    assert_eq!(wchar_to_string(&buf), "notepad.exe");
    let buf: Vec<u16> = "游戏".encode_utf16().collect();
    assert_eq!(wchar_to_string(&buf), "游戏");
    assert_eq!(wchar_to_string(&[0xD800, 0x41]), "\u{fffd}A");
    assert_eq!(wchar_to_string(&[0xD83D, 0xDE00, 0]), "\u{1F600}");
    assert_eq!(wchar_to_string(&[0xDC00, 0xD800]), "\u{fffd}\u{fffd}");
}

#[test]
fn window_titles_keep_longest() {
    let mut t = WindowTitleTable::new();
    t.offer(3, "ab".to_string());
    t.offer(3, "xyz".to_string());
    t.offer(3, "uvw".to_string());
    t.offer(3, "".to_string());
    t.offer(0, "zero".to_string());
    t.offer(4, "é".to_string());
    t.offer(4, "ab".to_string());
    assert_eq!(t.title_of(3), "xyz");
    assert_eq!(t.title_of(0), "");
    assert_eq!(t.title_of(4), "é");
    assert_eq!(t.title_of(5), "");
}

#[test]
fn filter_matching() {
    let needles = vec!["craft".chars().collect::<Vec<char>>(), "terra".chars().collect()];
    assert!(contains_any(&"minecraft launcher".chars().collect(), &needles));
    assert!(!contains_any(&"Minecraft".chars().collect(), &vec!["MINE".chars().collect()]));
    assert!(!contains_any(&"anything".chars().collect(), &vec![]));
    let exes = vec!["javaw.exe".chars().collect::<Vec<char>>()];
    assert!(list_contains(&exes, &"javaw.exe".chars().collect()));
    assert!(!list_contains(&exes, &"java.exe".chars().collect()));
}
