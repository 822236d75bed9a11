use cpubind::inotify::{
    check_changed, check_due, init, read, rewatch, EVENT_HEADER, IN_CLOSE_WRITE, IN_DELETE_SELF,
    IN_MOVE_SELF, WATCH_MASK,
};

fn event(mask: u32, name: &[u8]) -> Vec<u8> {
    let mut b = Vec::new();
    b.extend_from_slice(&1i32.to_le_bytes());
    b.extend_from_slice(&mask.to_le_bytes());
    b.extend_from_slice(&0u32.to_le_bytes());
    b.extend_from_slice(&(name.len() as u32).to_le_bytes());
    b.extend_from_slice(name);
    b
}

fn read_all(b: &[u8]) -> Option<u8> {
    read(5, b.len() as isize, b, false)
}

#[test]
fn kinds_are_those_of_the_c_library() {
    assert_eq!(IN_CLOSE_WRITE, libc::IN_CLOSE_WRITE);
    assert_eq!(IN_DELETE_SELF, libc::IN_DELETE_SELF);
    assert_eq!(IN_MOVE_SELF, libc::IN_MOVE_SELF);
    assert_eq!(WATCH_MASK, IN_CLOSE_WRITE | IN_DELETE_SELF | IN_MOVE_SELF);
    assert_eq!(EVENT_HEADER, std::mem::size_of::<libc::inotify_event>());
}

#[test]
fn a_closed_file_calls_for_a_reload() {
    assert_eq!(read_all(&event(IN_CLOSE_WRITE, b"")), Some(1));
    assert_eq!(read_all(&event(IN_CLOSE_WRITE | 1, b"")), Some(1));
}

#[test]
fn a_file_that_is_gone_calls_for_a_new_watch() {
    assert_eq!(read_all(&event(IN_DELETE_SELF, b"")), Some(2));
    assert_eq!(read_all(&event(IN_MOVE_SELF, b"")), Some(2));
}

#[test]
fn other_events_call_for_nothing() {
    assert_eq!(read_all(&event(0x8000, b"")), None);
    assert_eq!(read_all(&event(0, b"")), None);
}

#[test]
fn every_bit_that_is_watched_for_counts() {
    for bit in 0..32 {
        let mask = 1u32 << bit;
        assert_eq!(read_all(&event(mask, b"")).is_some(), mask & WATCH_MASK != 0);
    }
}

#[test]
fn events_follow_each_other() {
    let mut b = event(0, b"name\0\0\0\0");
    b.extend(event(IN_CLOSE_WRITE, b""));
    assert_eq!(read_all(&b), Some(1));
    b.extend(event(IN_MOVE_SELF, b"x\0\0\0"));
    assert_eq!(read_all(&b), Some(2));
    assert_eq!(read(5, 24, &b, false), None);
    assert_eq!(read(5, 40, &b, false), Some(1));
}

#[test]
fn a_name_may_run_past_the_end() {
    let mut b = event(IN_CLOSE_WRITE, b"");
    b[12..16].copy_from_slice(&u32::MAX.to_le_bytes());
    b.extend(event(IN_MOVE_SELF, b""));
    assert_eq!(read_all(&b), Some(1));
}

#[test]
fn cut_headers_are_no_events() {
    let b = event(IN_CLOSE_WRITE, b"");
    assert_eq!(read(5, 15, &b, false), None);
}

#[test]
fn events_may_have_the_big_end_first() {
    let mut b = vec![0; 16];
    b[4..8].copy_from_slice(&IN_DELETE_SELF.to_be_bytes());
    assert_eq!(read(5, 16, &b, true), Some(2));
}

#[test]
fn without_a_watch_or_data_there_are_no_events() {
    let b = event(IN_CLOSE_WRITE, b"");
    assert_eq!(read(-1, 16, &b, false), None);
    assert_eq!(read(5, 0, &b, false), None);
    assert_eq!(read(5, -1, &b, false), None);
}

#[test]
fn setting_up_a_watch() {
    assert_eq!(init(4, Some(1)), (4, false));
    assert_eq!(init(-1, None), (-1, false));
    assert_eq!(init(4, Some(-1)), (-1, true));
    assert_eq!(init(4, None), (-1, true));
}

#[test]
fn watching_anew() {
    assert_eq!(rewatch(4, Some(2)), (4, false));
    assert_eq!(rewatch(4, Some(-1)), (-1, true));
    assert_eq!(rewatch(4, None), (4, false));
    assert_eq!(rewatch(-1, Some(2)), (-1, false));
}

#[test]
fn reloads_keep_their_distance() {
    assert!(!check_due(4999));
    assert!(check_due(5000));
    assert_eq!(check_changed(4999, 4, Some(1), None, 0), (false, false));
    assert_eq!(check_changed(4999, -1, None, Some(9), 0), (false, false));
}

#[test]
fn events_are_changes() {
    assert_eq!(check_changed(5000, 4, Some(1), None, 0), (true, false));
    assert_eq!(check_changed(5000, 4, Some(2), None, 0), (true, true));
    assert_eq!(check_changed(5000, 4, None, Some(9), 0), (false, false));
}

#[test]
fn without_a_watch_the_time_of_change_decides() {
    assert_eq!(check_changed(5000, -1, None, Some(9), 8), (true, false));
    assert_eq!(check_changed(5000, -1, None, Some(8), 8), (false, false));
    assert_eq!(check_changed(5000, -1, None, None, 8), (false, false));
}
