use fido2ble::channel::ChannelState;
use fido2ble::cmd::CTapBLECommand;
use fido2ble::cmd::CTapBLEError;
use fido2ble::cmd::CTapCHIDCmd;
use fido2ble::session::machine::init_reply;
use fido2ble::session::machine::render;
use fido2ble::session::machine::BridgeSession;
use fido2ble::session::machine::Emitted;
use fido2ble::session::machine::Event;
use fido2ble::session::machine::Reply;
use fido2ble::session::model::SessionConfig;

const NONCE: [u8; 8] = [0x11, 0x22, 0x33, 0x44, 0x55, 0x66, 0x77, 0x88];

fn payload(n: usize) -> Vec<u8> {
    (0..n).map(|i| (i * 13 + 1) as u8).collect()
}

fn report(head: &[u8], chunk: &[u8]) -> Vec<u8> {
    let mut out = head.to_vec();
    out.extend_from_slice(chunk);
    out.resize(64, 0);
    out
}

fn settings(max_wait_ticks: u32, forward_cancel: bool, accept_local: bool) -> SessionConfig {
    SessionConfig { fragment_len: 20, max_wait_ticks, forward_cancel, accept_local }
}

fn fresh() -> BridgeSession {
    BridgeSession::new(SessionConfig::standard_settings()).unwrap()
}

fn bound_with(config: SessionConfig) -> BridgeSession {
    let mut s = BridgeSession::new(config).unwrap();
    let out = s.step(&Event::Report(report(&[0x86, 0xff, 0xff, 0xff, 0xff, 0x86, 0x00, 0x08], &NONCE)));
    assert_eq!(out.to_host.len(), 1);
    assert_eq!(s.cid(), Some(1));
    s
}

fn bound() -> BridgeSession {
    bound_with(SessionConfig::standard_settings())
}

fn busy_with(config: SessionConfig) -> BridgeSession {
    let mut s = bound_with(config);
    let out = s.step(&Event::Report(report(&[0x90, 0, 0, 0, 1, 0x90, 0x00, 0x02], &[0xa1, 0xa2])));
    assert_eq!(out.to_device, vec![vec![0x83, 0x00, 0x02, 0xa1, 0xa2]]);
    assert!(out.to_host.is_empty());
    assert!(s.is_waiting());
    s
}

fn busy() -> BridgeSession {
    busy_with(SessionConfig::standard_settings())
}

fn silent(out: &Emitted) -> bool {
    out.to_host.is_empty() && out.to_device.is_empty() && !out.closed
}

fn error_report(cid: [u8; 4], status: u8) -> Vec<u8> {
    report(&[0xbf, cid[0], cid[1], cid[2], cid[3], 0xbf, 0x00, 0x01], &[status])
}

#[test]
fn settings_are_checked() {
    assert!(SessionConfig::standard_settings().is_valid());
    assert_eq!(SessionConfig::standard_settings(), settings(300, true, false));
    assert!(!settings(1, true, false).is_valid());
    assert!(settings(2, true, false).is_valid());
    let small = SessionConfig { fragment_len: 3, ..SessionConfig::standard_settings() };
    assert!(!small.is_valid());
    assert_eq!(BridgeSession::new(small).err(), Some(CTapBLEError::InvalidPAR));
    assert_eq!(
        BridgeSession::new(settings(0, false, false)).err(),
        Some(CTapBLEError::InvalidPAR)
    );
}

#[test]
fn new_session_is_idle() {
    let s = fresh();
    assert_eq!(s.state(), ChannelState::Idle);
    assert_eq!(s.cid(), None);
    assert!(!s.is_waiting());
    assert!(!s.keepalive_running());
    assert!(!s.is_closed());
    assert_eq!(s.config(), SessionConfig::standard_settings());
}

#[test]
fn channel_request_is_answered_with_nonce_and_channel() {
    let mut s = fresh();
    let out = s.step(&Event::Report(report(&[0x86, 0xff, 0xff, 0xff, 0xff, 0x86, 0x00, 0x08], &NONCE)));
    let mut expected = vec![0x86, 0xff, 0xff, 0xff, 0xff, 0x86, 0x00, 0x11];
    expected.extend_from_slice(&NONCE);
    expected.extend_from_slice(&[0x00, 0x00, 0x00, 0x01]);
    expected.extend_from_slice(&[0x02, 0x00, 0x00, 0x00, 0x0c]);
    expected.resize(64, 0);
    assert_eq!(out.to_host, vec![expected]);
    assert!(out.to_device.is_empty());
    assert!(!out.closed);
    assert_eq!(s.state(), ChannelState::Bound { cid: 1 });
}

#[test]
fn init_reply_layout() {
    let r = init_reply(0x1122_3344_5566_7788, 0x0a0b_0c0d);
    assert_eq!(
        r,
        vec![
            0x11, 0x22, 0x33, 0x44, 0x55, 0x66, 0x77, 0x88, 0x0a, 0x0b, 0x0c, 0x0d, 0x02, 0x00,
            0x00, 0x00, 0x0c
        ]
    );
}

#[test]
fn every_channel_request_issues_a_new_channel() {
    let mut s = fresh();
    let mut seen = Vec::new();
    for _ in 0..5 {
        let before = s.cid();
        let out =
            s.step(&Event::Report(report(&[0x86, 0xff, 0xff, 0xff, 0xff, 0x86, 0x00, 0x08], &NONCE)));
        let cid = s.cid().unwrap();
        assert_ne!(Some(cid), before);
        assert_ne!(cid, 0);
        assert_ne!(cid, 0xffff_ffff);
        assert!(!seen.contains(&cid));
        seen.push(cid);
        assert_eq!(&out.to_host[0][16..20], &cid.to_be_bytes());
    }
    assert_eq!(seen, vec![1, 2, 3, 4, 5]);
}

#[test]
fn old_channel_is_unallocated_after_a_new_request() {
    let mut s = bound();
    s.step(&Event::Report(report(&[0x86, 0xff, 0xff, 0xff, 0xff, 0x86, 0x00, 0x08], &NONCE)));
    assert_eq!(s.cid(), Some(2));
    let out = s.step(&Event::Report(report(&[0x81, 0, 0, 0, 1, 0x81, 0x00, 0x01], &[7])));
    assert_eq!(out.to_host, vec![error_report([0, 0, 0, 1], 0x0b)]);
}

#[test]
fn broadcast_channel_serves_channel_requests_only() {
    let mut s = bound();
    let out = s.step(&Event::Report(report(&[0x81, 0xff, 0xff, 0xff, 0xff, 0x81, 0x00, 0x01], &[7])));
    assert_eq!(out.to_host, vec![error_report([0xff; 4], 0x0b)]);
    let out = s.step(&Event::Report(report(&[0x00, 0xff, 0xff, 0xff, 0xff], &[7])));
    assert_eq!(out.to_host, vec![error_report([0xff; 4], 0x0b)]);
    let out = s.step(&Event::Report(report(&[0x86, 0xff, 0xff, 0xff, 0xff, 0x86, 0x00, 0x07], &NONCE)));
    assert_eq!(out.to_host, vec![error_report([0xff; 4], 0x7f)]);
    let out = s.step(&Event::Report(report(&[0xff, 0xff, 0xff, 0xff, 0xff, 0xff, 0x00, 0x08], &NONCE)));
    assert_eq!(out.to_host, vec![error_report([0xff; 4], 0x01)]);
    assert_eq!(s.state(), ChannelState::Bound { cid: 1 });
}

#[test]
fn channel_request_while_busy_is_refused() {
    let mut s = busy();
    let out = s.step(&Event::Report(report(&[0x86, 0xff, 0xff, 0xff, 0xff, 0x86, 0x00, 0x08], &NONCE)));
    assert_eq!(out.to_host, vec![error_report([0xff; 4], 0x7f)]);
    assert_eq!(s.state(), ChannelState::Busy { cid: 1, pending_command: CTapCHIDCmd::Cbot });
}

#[test]
fn frame_on_unallocated_channel_is_refused_and_changes_nothing() {
    let mut s = fresh();
    let out = s.step(&Event::Report(report(&[0x81, 0, 0, 0, 1, 0x81, 0x00, 0x01], &[7])));
    assert_eq!(out.to_host, vec![error_report([0, 0, 0, 1], 0x0b)]);
    assert!(out.to_device.is_empty());
    assert_eq!(s.state(), ChannelState::Idle);
    let mut s = bound();
    let out = s.step(&Event::Report(report(&[0x83, 0, 0, 0, 9, 0x83, 0x00, 0xc8], &payload(56))));
    assert_eq!(out.to_host, vec![error_report([0, 0, 0, 9], 0x0b)]);
    assert_eq!(s.state(), ChannelState::Bound { cid: 1 });
    let out = s.step(&Event::Report(report(&[0x00, 0, 0, 0, 0], &payload(59))));
    assert_eq!(out.to_host, vec![error_report([0, 0, 0, 0], 0x0b)]);
    let out = s.step(&Event::Report(report(&[0x00, 0, 0, 0, 1], &payload(59))));
    assert_eq!(out.to_host, vec![error_report([0, 0, 0, 1], 0x04)]);
    let mut s = busy();
    let out = s.step(&Event::Report(report(&[0x91, 0, 0, 0, 2, 0x91, 0x00, 0x00], &[])));
    assert_eq!(out.to_host, vec![error_report([0, 0, 0, 2], 0x0b)]);
    assert!(s.keepalive_running());
    assert_eq!(s.state(), ChannelState::Busy { cid: 1, pending_command: CTapCHIDCmd::Cbot });
}

#[test]
fn short_report_is_refused() {
    let mut s = bound();
    let out = s.step(&Event::Report(vec![0, 0, 0, 1]));
    assert_eq!(out.to_host, vec![error_report([0xff; 4], 0x7f)]);
    let out = s.step(&Event::Report(vec![0x83, 0, 0, 0, 1, 0x83, 0x00]));
    assert_eq!(out.to_host, vec![error_report([0, 0, 0, 1], 0x7f)]);
    let out = s.step(&Event::Report(report(&[0xaa, 0, 0, 0, 1, 0xaa, 0x00, 0x00], &[])));
    assert_eq!(out.to_host, vec![error_report([0, 0, 0, 1], 0x01)]);
    assert_eq!(s.state(), ChannelState::Bound { cid: 1 });
}

#[test]
fn msg_of_200_bytes_is_reassembled_before_it_is_forwarded() {
    let mut s = bound();
    let data = payload(200);
    let frames = fido2ble::hid::codec::encode(1, CTapCHIDCmd::Msg, &data, 64).unwrap();
    assert_eq!(frames.len(), 4);
    for f in &frames[..3] {
        let out = s.step(&Event::Report(f.clone()));
        assert!(silent(&out));
        assert!(!s.is_waiting());
    }
    let out = s.step(&Event::Report(frames[3].clone()));
    assert!(out.to_host.is_empty());
    assert_eq!(out.to_device.len(), 11);
    let sent = fido2ble::ble::reassembly::decode_message(&out.to_device, 20).unwrap();
    assert_eq!(sent.command, CTapBLECommand::Msg);
    assert_eq!(sent.payload.len(), 200);
    assert_eq!(sent.payload, data);
    assert_eq!(s.state(), ChannelState::Busy { cid: 1, pending_command: CTapCHIDCmd::Msg });
    assert!(s.keepalive_running());
}

#[test]
fn answer_goes_back_to_the_host_in_frames() {
    let mut s = busy();
    let data = payload(100);
    let fragments = fido2ble::ble::codec::encode(CTapBLECommand::Msg, &data, 20).unwrap();
    let last = fragments.len() - 1;
    for f in &fragments[..last] {
        let out = s.step(&Event::Notification(f.clone()));
        assert!(silent(&out));
        assert!(s.is_waiting());
    }
    let out = s.step(&Event::Notification(fragments[last].clone()));
    assert!(out.to_device.is_empty());
    assert_eq!(out.to_host.len(), 2);
    assert_eq!(&out.to_host[0][..8], &[0x90, 0, 0, 0, 1, 0x90, 0x00, 0x64]);
    let back = fido2ble::hid::reassembly::decode_message(&out.to_host, 64).unwrap();
    assert_eq!(back.command, CTapCHIDCmd::Cbot);
    assert_eq!(back.payload, data);
    assert_eq!(s.state(), ChannelState::Bound { cid: 1 });
    assert!(!s.keepalive_running());
}

#[test]
fn ping_is_forwarded_and_answered() {
    let mut s = bound();
    let out = s.step(&Event::Report(report(&[0x81, 0, 0, 0, 1, 0x81, 0x00, 0x03], &[1, 2, 3])));
    assert_eq!(out.to_device, vec![vec![0x01, 0x00, 0x03, 1, 2, 3]]);
    let out = s.step(&Event::Notification(vec![0x01, 0x00, 0x03, 1, 2, 3]));
    assert_eq!(out.to_host, vec![report(&[0x81, 0, 0, 0, 1, 0x81, 0x00, 0x03], &[1, 2, 3])]);
    assert_eq!(s.state(), ChannelState::Bound { cid: 1 });
}

#[test]
fn request_too_long_for_the_fragments_is_refused() {
    let mut s = bound();
    let data = payload(2450);
    let frames = fido2ble::hid::codec::encode(1, CTapCHIDCmd::Msg, &data, 64).unwrap();
    let last = frames.len() - 1;
    for f in &frames[..last] {
        assert!(silent(&s.step(&Event::Report(f.clone()))));
    }
    let out = s.step(&Event::Report(frames[last].clone()));
    assert_eq!(out.to_host, vec![error_report([0, 0, 0, 1], 0x7f)]);
    assert!(out.to_device.is_empty());
    assert_eq!(s.state(), ChannelState::Bound { cid: 1 });
}

#[test]
fn answer_too_long_for_the_reports_is_an_error() {
    let mut s = busy_with(SessionConfig { fragment_len: 512, ..SessionConfig::standard_settings() });
    let data = payload(7610);
    let fragments = fido2ble::ble::codec::encode(CTapBLECommand::Msg, &data, 512).unwrap();
    let last = fragments.len() - 1;
    for f in &fragments[..last] {
        assert!(silent(&s.step(&Event::Notification(f.clone()))));
    }
    let out = s.step(&Event::Notification(fragments[last].clone()));
    assert_eq!(out.to_host, vec![error_report([0, 0, 0, 1], 0x7f)]);
    assert_eq!(s.state(), ChannelState::Bound { cid: 1 });
}

#[test]
fn authenticator_error_invalid_sequence_reaches_the_host() {
    let mut s = busy();
    let out = s.step(&Event::Notification(vec![0xbf, 0x00, 0x01, 0x04]));
    assert_eq!(out.to_host, vec![error_report([0, 0, 0, 1], 0x04)]);
    assert!(out.to_device.is_empty());
    assert_eq!(s.state(), ChannelState::Bound { cid: 1 });
    assert!(!s.keepalive_running());
}

#[test]
fn authenticator_errors_are_translated() {
    let cases: [(u8, u8); 9] = [
        (0x01, 0x01),
        (0x02, 0x7f),
        (0x03, 0x7f),
        (0x04, 0x04),
        (0x05, 0x7f),
        (0x06, 0x7f),
        (0x0b, 0x0b),
        (0x7f, 0x7f),
        (0x33, 0x7f),
    ];
    for (code, status) in cases {
        let mut s = busy();
        let out = s.step(&Event::Notification(vec![0xbf, 0x00, 0x01, code]));
        assert_eq!(out.to_host, vec![error_report([0, 0, 0, 1], status)]);
    }
    let mut s = busy();
    let out = s.step(&Event::Notification(vec![0xbf, 0x00, 0x00]));
    assert_eq!(out.to_host, vec![error_report([0, 0, 0, 1], 0x7f)]);
}

#[test]
fn authenticator_error_in_the_middle_of_its_answer_reaches_the_host() {
    let mut s = busy();
    assert!(silent(&s.step(&Event::Notification(vec![0x83, 0x00, 0x30, 1, 2, 3]))));
    assert!(silent(&s.step(&Event::Notification(vec![0x00, 4, 5, 6]))));
    let out = s.step(&Event::Notification(vec![0xbf, 0x00, 0x01, 0x04]));
    assert_eq!(out.to_host, vec![error_report([0, 0, 0, 1], 0x04)]);
    assert!(out.to_device.is_empty());
    assert_eq!(s.state(), ChannelState::Bound { cid: 1 });
    assert!(silent(&s.step(&Event::Notification(vec![0x01, 7, 8, 9]))));
}

#[test]
fn other_first_fragment_in_the_middle_of_an_answer_is_busy() {
    let mut s = busy();
    assert!(silent(&s.step(&Event::Notification(vec![0x83, 0x00, 0x30, 1, 2, 3]))));
    let out = s.step(&Event::Notification(vec![0x83, 0x00, 0x01, 0x04]));
    assert_eq!(out.to_host, vec![error_report([0, 0, 0, 1], 0x7f)]);
    assert_eq!(s.state(), ChannelState::Bound { cid: 1 });
}

#[test]
fn framing_error_of_the_authenticator_reaches_the_host() {
    let mut s = busy();
    assert!(silent(&s.step(&Event::Notification(vec![0x83, 0x00, 0x30, 1, 2, 3]))));
    let out = s.step(&Event::Notification(vec![0x01, 4, 5]));
    assert_eq!(out.to_host, vec![error_report([0, 0, 0, 1], 0x04)]);
    assert_eq!(s.state(), ChannelState::Bound { cid: 1 });
    let mut s = busy();
    let out = s.step(&Event::Notification(vec![0x99, 0x00, 0x01, 1]));
    assert_eq!(out.to_host, vec![error_report([0, 0, 0, 1], 0x01)]);
    let mut s = busy();
    let out = s.step(&Event::Notification(vec![]));
    assert_eq!(out.to_host, vec![error_report([0, 0, 0, 1], 0x7f)]);
}

#[test]
fn tick_sends_keepalive_while_waiting() {
    let mut s = busy();
    let out = s.step(&Event::Tick);
    assert_eq!(out.to_host, vec![report(&[0xbb, 0, 0, 0, 1, 0xbb, 0x00, 0x01], &[0x01])]);
    assert!(out.to_device.is_empty());
    let out = s.step(&Event::Tick);
    assert_eq!(out.to_host, vec![report(&[0xbb, 0, 0, 0, 1, 0xbb, 0x00, 0x01], &[0x01])]);
    assert!(s.is_waiting());
}

#[test]
fn answer_within_one_interval_comes_without_keepalive() {
    let mut s = busy();
    let out = s.step(&Event::Notification(vec![0x83, 0x00, 0x01, 0x00]));
    assert_eq!(out.to_host, vec![report(&[0x90, 0, 0, 0, 1, 0x90, 0x00, 0x01], &[0x00])]);
    let out = s.step(&Event::Tick);
    assert!(silent(&out));
}

#[test]
fn tick_without_a_command_in_flight_is_silent() {
    let mut s = fresh();
    assert!(silent(&s.step(&Event::Tick)));
    let mut s = bound();
    assert!(silent(&s.step(&Event::Tick)));
    assert_eq!(s.state(), ChannelState::Bound { cid: 1 });
}

#[test]
fn keepalive_of_the_authenticator_sets_the_status() {
    let mut s = busy();
    let out = s.step(&Event::Notification(vec![0x82, 0x00, 0x01, 0x02]));
    assert!(silent(&out));
    assert!(s.is_waiting());
    let out = s.step(&Event::Tick);
    assert_eq!(out.to_host, vec![report(&[0xbb, 0, 0, 0, 1, 0xbb, 0x00, 0x01], &[0x02])]);
    assert!(silent(&s.step(&Event::Notification(vec![0x82, 0x00, 0x00]))));
    let out = s.step(&Event::Tick);
    assert_eq!(out.to_host, vec![report(&[0xbb, 0, 0, 0, 1, 0xbb, 0x00, 0x01], &[0x02])]);
}

#[test]
fn command_is_given_up_after_the_last_tick() {
    let mut s = busy_with(settings(3, true, false));
    assert_eq!(
        s.step(&Event::Tick).to_host,
        vec![report(&[0xbb, 0, 0, 0, 1, 0xbb, 0x00, 0x01], &[0x01])]
    );
    assert_eq!(
        s.step(&Event::Tick).to_host,
        vec![report(&[0xbb, 0, 0, 0, 1, 0xbb, 0x00, 0x01], &[0x01])]
    );
    let out = s.step(&Event::Tick);
    assert_eq!(out.to_host, vec![error_report([0, 0, 0, 1], 0x7f)]);
    assert_eq!(s.state(), ChannelState::Bound { cid: 1 });
    assert!(!s.keepalive_running());
    let late = s.step(&Event::Notification(vec![0x83, 0x00, 0x01, 0x00]));
    assert!(silent(&late));
    assert!(silent(&s.step(&Event::Tick)));
}

#[test]
fn cancel_stops_keepalive_and_is_acknowledged_once_resolved() {
    let mut s = busy();
    let out = s.step(&Event::Report(report(&[0x91, 0, 0, 0, 1, 0x91, 0x00, 0x00], &[])));
    assert!(out.to_host.is_empty());
    assert_eq!(out.to_device, vec![vec![0xbe, 0x00, 0x00]]);
    assert!(!s.keepalive_running());
    assert!(s.is_waiting());
    assert!(silent(&s.step(&Event::Tick)));
    assert!(silent(&s.step(&Event::Tick)));
    let out = s.step(&Event::Notification(vec![0x83, 0x00, 0x02, 0x00, 0x2d]));
    assert_eq!(out.to_host, vec![report(&[0x91, 0, 0, 0, 1, 0x91, 0x00, 0x00], &[])]);
    assert!(out.to_device.is_empty());
    assert_eq!(s.state(), ChannelState::Bound { cid: 1 });
}

#[test]
fn cancel_is_not_forwarded_if_the_settings_say_so() {
    let mut s = busy_with(settings(4, false, false));
    let out = s.step(&Event::Report(report(&[0x91, 0, 0, 0, 1, 0x91, 0x00, 0x00], &[])));
    assert!(silent(&out));
    assert!(!s.keepalive_running());
    assert!(silent(&s.step(&Event::Tick)));
    assert!(silent(&s.step(&Event::Tick)));
    assert!(silent(&s.step(&Event::Tick)));
    let out = s.step(&Event::Tick);
    assert_eq!(out.to_host, vec![report(&[0x91, 0, 0, 0, 1, 0x91, 0x00, 0x00], &[])]);
    assert_eq!(s.state(), ChannelState::Bound { cid: 1 });
}

#[test]
fn second_cancel_is_not_forwarded_again() {
    let mut s = busy();
    let out = s.step(&Event::Report(report(&[0x91, 0, 0, 0, 1, 0x91, 0x00, 0x00], &[])));
    assert_eq!(out.to_device.len(), 1);
    let out = s.step(&Event::Report(report(&[0x91, 0, 0, 0, 1, 0x91, 0x00, 0x00], &[])));
    assert!(silent(&out));
    let out = s.step(&Event::Notification(vec![0xbf, 0x00, 0x01, 0x05]));
    assert_eq!(out.to_host, vec![report(&[0x91, 0, 0, 0, 1, 0x91, 0x00, 0x00], &[])]);
}

#[test]
fn cancel_with_nothing_in_flight_is_acknowledged_at_once() {
    let mut s = bound();
    let out = s.step(&Event::Report(report(&[0x91, 0, 0, 0, 1, 0x91, 0x00, 0x00], &[])));
    assert_eq!(out.to_host, vec![report(&[0x91, 0, 0, 0, 1, 0x91, 0x00, 0x00], &[])]);
    assert!(out.to_device.is_empty());
    assert_eq!(s.state(), ChannelState::Bound { cid: 1 });
}

#[test]
fn other_command_while_busy_is_refused() {
    let mut s = busy();
    let out = s.step(&Event::Report(report(&[0x81, 0, 0, 0, 1, 0x81, 0x00, 0x01], &[9])));
    assert_eq!(out.to_host, vec![error_report([0, 0, 0, 1], 0x7f)]);
    assert!(out.to_device.is_empty());
    assert!(s.is_waiting());
    assert!(s.keepalive_running());
}

#[test]
fn wink_and_lock_are_answered_here() {
    let mut s = bound();
    let out = s.step(&Event::Report(report(&[0x88, 0, 0, 0, 1, 0x88, 0x00, 0x00], &[])));
    assert_eq!(out.to_host, vec![error_report([0, 0, 0, 1], 0x01)]);
    assert!(out.to_device.is_empty());
    let out = s.step(&Event::Report(report(&[0x84, 0, 0, 0, 1, 0x84, 0x00, 0x01], &[5])));
    assert_eq!(out.to_host, vec![error_report([0, 0, 0, 1], 0x01)]);
    assert_eq!(s.state(), ChannelState::Bound { cid: 1 });
    let mut s = bound_with(settings(300, true, true));
    let out = s.step(&Event::Report(report(&[0x88, 0, 0, 0, 1, 0x88, 0x00, 0x00], &[])));
    assert_eq!(out.to_host, vec![report(&[0x88, 0, 0, 0, 1, 0x88, 0x00, 0x00], &[])]);
    let out = s.step(&Event::Report(report(&[0x84, 0, 0, 0, 1, 0x84, 0x00, 0x01], &[5])));
    assert_eq!(out.to_host, vec![report(&[0x84, 0, 0, 0, 1, 0x84, 0x00, 0x00], &[])]);
    assert!(out.to_device.is_empty());
    assert_eq!(s.state(), ChannelState::Bound { cid: 1 });
}

#[test]
fn keepalive_and_error_from_the_host_are_refused() {
    let mut s = bound();
    let out = s.step(&Event::Report(report(&[0xbb, 0, 0, 0, 1, 0xbb, 0x00, 0x01], &[1])));
    assert_eq!(out.to_host, vec![error_report([0, 0, 0, 1], 0x01)]);
    let out = s.step(&Event::Report(report(&[0xbf, 0, 0, 0, 1, 0xbf, 0x00, 0x01], &[1])));
    assert_eq!(out.to_host, vec![error_report([0, 0, 0, 1], 0x01)]);
}

#[test]
fn init_on_the_allocated_channel_keeps_the_channel() {
    let mut s = bound();
    let out = s.step(&Event::Report(report(&[0x86, 0, 0, 0, 1, 0x86, 0x00, 0x08], &NONCE)));
    let mut expected = vec![0x86, 0, 0, 0, 1, 0x86, 0x00, 0x11];
    expected.extend_from_slice(&NONCE);
    expected.extend_from_slice(&[0, 0, 0, 1, 0x02, 0, 0, 0, 0x0c]);
    expected.resize(64, 0);
    assert_eq!(out.to_host, vec![expected]);
    assert_eq!(s.state(), ChannelState::Bound { cid: 1 });
    let out = s.step(&Event::Report(report(&[0x86, 0, 0, 0, 1, 0x86, 0x00, 0x04], &NONCE)));
    assert_eq!(out.to_host, vec![error_report([0, 0, 0, 1], 0x7f)]);
}

#[test]
fn notification_without_a_command_in_flight_is_dropped() {
    let mut s = bound();
    assert!(silent(&s.step(&Event::Notification(vec![0x83, 0x00, 0x01, 0x00]))));
    assert!(silent(&s.step(&Event::Notification(vec![0xbf, 0x00, 0x01, 0x04]))));
    assert_eq!(s.state(), ChannelState::Bound { cid: 1 });
    let mut s = fresh();
    assert!(silent(&s.step(&Event::Notification(vec![0x83, 0x00, 0x01, 0x00]))));
}

#[test]
fn disconnect_ends_the_session() {
    let mut s = busy();
    let out = s.step(&Event::Disconnected);
    assert!(out.closed);
    assert!(out.to_host.is_empty());
    assert!(out.to_device.is_empty());
    assert!(s.is_closed());
    assert_eq!(s.state(), ChannelState::Idle);
    assert_eq!(s.cid(), None);
    assert!(!s.keepalive_running());
    for e in [
        Event::Tick,
        Event::Notification(vec![0x83, 0, 1, 0]),
        Event::Report(report(&[0x86, 0xff, 0xff, 0xff, 0xff, 0x86, 0x00, 0x08], &NONCE)),
        Event::Disconnected,
    ] {
        let out = s.step(&e);
        assert!(out.closed);
        assert!(out.to_host.is_empty());
        assert!(out.to_device.is_empty());
        assert_eq!(s.state(), ChannelState::Idle);
    }
}

#[test]
fn fragment_size_can_be_renewed() {
    let mut s = bound();
    assert!(!s.set_fragment_len(3));
    assert_eq!(s.config().fragment_len, 20);
    assert!(s.set_fragment_len(23));
    assert_eq!(s.config().fragment_len, 23);
    let data = payload(40);
    let frames = fido2ble::hid::codec::encode(1, CTapCHIDCmd::Cbot, &data, 64).unwrap();
    let out = s.step(&Event::Report(frames[0].clone()));
    assert_eq!(out.to_device.len(), 2);
    assert_eq!(out.to_device[0].len(), 23);
    assert_eq!(out.to_device[1].len(), 21);
    assert_eq!(
        out.to_device,
        fido2ble::ble::codec::encode(CTapBLECommand::Msg, &data, 23).unwrap()
    );
}

#[test]
fn handle_gives_the_messages_and_render_their_frames() {
    let mut s = bound();
    let reply = s.handle(&Event::Report(report(&[0x90, 0, 0, 0, 1, 0x90, 0x00, 0x02], &[1, 2])));
    assert!(reply.host.is_none());
    let d = reply.device.as_ref().unwrap();
    assert_eq!(d.command, CTapBLECommand::Msg);
    assert_eq!(d.payload, vec![1, 2]);
    let out = render(&s.config(), &reply);
    assert_eq!(out.to_device, vec![vec![0x83, 0x00, 0x02, 1, 2]]);
    let reply = s.on_tick();
    let h = reply.host.as_ref().unwrap();
    assert_eq!(h.cid, 1);
    assert_eq!(h.command, CTapCHIDCmd::KeepAlive);
    assert_eq!(h.payload, vec![1]);
    let reply = s.on_notification(&[0x83, 0x00, 0x01, 0x09]);
    let h = reply.host.as_ref().unwrap();
    assert_eq!(h.command, CTapCHIDCmd::Cbot);
    assert_eq!(h.payload, vec![9]);
    let reply = s.on_report(&[0, 0, 0, 0, 7]);
    let h = reply.host.as_ref().unwrap();
    assert_eq!((h.cid, h.command), (7, CTapCHIDCmd::Error));
    assert_eq!(h.payload, vec![0x0b]);
    let reply = s.on_disconnect();
    assert!(reply.closed);
}

#[test]
fn replies_are_built_as_named() {
    let q = Reply::quiet(true);
    assert!(q.host.is_none() && q.device.is_none() && q.closed);
    let h = Reply::to_host(4, CTapCHIDCmd::Ping, vec![1]);
    assert_eq!(h.host.as_ref().unwrap().cid, 4);
    assert!(h.device.is_none() && !h.closed);
    let d = Reply::to_device(CTapBLECommand::Cancel, vec![]);
    assert_eq!(d.device.as_ref().unwrap().command, CTapBLECommand::Cancel);
    let f = Reply::refusal(4, CTapBLEError::InvalidSequence);
    assert_eq!(f.host.as_ref().unwrap().command, CTapCHIDCmd::Error);
    assert_eq!(f.host.as_ref().unwrap().payload, vec![0x04]);
    let big = Reply::to_host(4, CTapCHIDCmd::Ping, payload(7610));
    let out = render(&SessionConfig::standard_settings(), &big);
    assert!(out.to_host.is_empty());
}
