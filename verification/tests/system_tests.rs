use splitter::channel::{on_poll, PollAction, RepaintScheduler};
use splitter::frame::{parse_frame, Frame, FRAME_BYTES};
use splitter::inject::{encode_wide, injection_payload};
use splitter::locator::{
    discovery_rights, escalated_rights, find_target, is_target_executable, pid_buffer_bytes,
    pid_slots, trim_pids, ProcessEntry,
};

fn frame_bytes(difficulty: u32, stage: u32, game_loop: u32, scores: [u32; 8]) -> Vec<u8> {
    let mut b = Vec::new();
    for w in [difficulty, stage, game_loop]
        .iter()
        .chain(scores.iter())
    {
        b.extend_from_slice(&w.to_le_bytes());
    }
    b
}

#[test]
fn parse_frame_reads_little_endian_words() {
    let b = frame_bytes(0, 2, 1, [10, 20, 0, 0, 0, 0, 0, 40]);
    let f = parse_frame(&b).expect("parses");
    assert_eq!(f.difficulty, 0);
    assert_eq!(f.stage, 2);
    assert_eq!(f.game_loop, 1);
    assert_eq!(f.scores, vec![10, 20, 0, 0, 0, 0, 0, 40]);
    assert_eq!(f.total_score(), 70);
}

#[test]
fn parse_frame_rejects_wrong_length() {
    assert!(parse_frame(&vec![0; FRAME_BYTES - 1]).is_none());
    assert!(parse_frame(&vec![0; FRAME_BYTES + 1]).is_none());
    assert!(parse_frame(&Vec::new()).is_none());
}

#[test]
fn parse_frame_rejects_out_of_range_score() {
    let b = frame_bytes(0, 1, 0, [0x1000_0000, 0, 0, 0, 0, 0, 0, 0]);
    assert!(parse_frame(&b).is_none());
}

#[test]
fn timeout_triggers_exactly_one_injection_attempt() {
    // One silent read window yields one injection action, nothing more.
    assert!(matches!(on_poll(None), PollAction::StartInjection));
    // A frame, however malformed, never triggers an injection.
    assert!(matches!(on_poll(Some(vec![1, 2, 3])), PollAction::DropMalformed));
    let good = frame_bytes(0, 1, 0, [5, 0, 0, 0, 0, 0, 0, 0]);
    match on_poll(Some(good)) {
        PollAction::Deliver(f) => {
            assert_eq!(f.stage, 1);
            assert_eq!(f.total_score(), 5);
        }
        _ => panic!("expected delivery"),
    }
}

#[test]
fn repaint_requests_coalesce_until_acknowledged() {
    let mut s = RepaintScheduler::new();
    assert!(s.request_repaint());
    assert!(!s.request_repaint());
    assert!(!s.request_repaint());
    s.acknowledge();
    assert!(s.request_repaint());
}

#[test]
fn target_match_is_exact_and_case_sensitive() {
    assert!(is_target_executable(
        "C:\\Games\\ZeroRanger\\ZeroRanger.exe",
        "ZeroRanger.exe"
    ));
    assert!(is_target_executable("ZeroRanger.exe", "ZeroRanger.exe"));
    assert!(is_target_executable("/opt/zr/ZeroRanger.exe", "ZeroRanger.exe"));
    assert!(!is_target_executable("C:\\Games\\zeroranger.exe", "ZeroRanger.exe"));
    assert!(!is_target_executable("C:\\ZeroRanger.exe.bak", "ZeroRanger.exe"));
    assert!(!is_target_executable("C:\\NotZeroRanger.exe", "ZeroRanger.exe"));
}

#[test]
fn find_target_picks_first_match() {
    let procs = vec![
        ProcessEntry {
            pid: 4,
            exe: "C:\\Windows\\System32\\svchost.exe".to_string(),
        },
        ProcessEntry {
            pid: 1200,
            exe: "D:\\ZR\\ZeroRanger.exe".to_string(),
        },
        ProcessEntry {
            pid: 1300,
            exe: "E:\\Other\\ZeroRanger.exe".to_string(),
        },
    ];
    assert_eq!(find_target(&procs, "ZeroRanger.exe"), Some(1));
    assert_eq!(find_target(&procs, "missing.exe"), None);
}

#[test]
fn pid_buffer_sizing_over_allocates_and_trims() {
    // The sizing query reported 40 bytes: ten entries, plus ten spare.
    assert_eq!(pid_slots(40), 20);
    assert_eq!(pid_buffer_bytes(20), 80);
    let mut pids: Vec<u32> = (0..20).collect();
    // The fetch query reported 48 bytes: twelve entries are real.
    trim_pids(&mut pids, 48);
    assert_eq!(pids, (0..12).collect::<Vec<u32>>());
    // A report larger than the buffer leaves it untouched.
    let mut pids: Vec<u32> = (0..4).collect();
    trim_pids(&mut pids, 48);
    assert_eq!(pids.len(), 4);
}

#[test]
fn rights_sets_for_discovery_and_injection() {
    assert_eq!(discovery_rights(), 0x1000);
    let r = escalated_rights();
    assert_eq!(r, 0x43a);
    for right in [0x8u32, 0x10, 0x20, 0x2, 0x400] {
        assert_eq!(r & right, right);
    }
}

#[test]
fn wide_encoding_matches_utf16() {
    assert_eq!(encode_wide("ab"), vec![0x61, 0x62]);
    let g_clef = encode_wide("\u{1D11E}");
    assert_eq!(g_clef, vec![0xD834, 0xDD1E]);
    let reference: Vec<u16> = "payload.dll".encode_utf16().collect();
    assert_eq!(encode_wide("payload.dll"), reference);
}

#[test]
fn injection_payload_is_little_endian_bytes() {
    let bytes = injection_payload(&vec![0x0041, 0x1234]);
    assert_eq!(bytes, vec![0x41, 0x00, 0x34, 0x12]);
    assert_eq!(bytes.len(), 4);
}

#[test]
fn menu_frame_constructor_is_idle() {
    let f = Frame::menu();
    assert!(f.is_menu());
    assert!(!f.is_first_stage());
    assert_eq!(f.total_score(), 0);
}
