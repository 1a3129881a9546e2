use fido2ble::registry::holds;
use fido2ble::registry::Device;
use fido2ble::registry::Driver;
use fido2ble::registry::FIDO_SERVICE_UUID;
use fido2ble::session::machine::Event;
use fido2ble::session::model::SessionConfig;

const OTHER_UUID: u128 = 0x0000180f_0000_1000_8000_00805f9b34fb;

fn device(address: u64, paired: bool, uuids: Vec<u128>, service_data: Vec<u128>) -> Device {
    Device { address, paired, uuids, service_data }
}

fn channel_request() -> Event {
    let mut r = vec![0x86, 0xff, 0xff, 0xff, 0xff, 0x86, 0x00, 0x08, 1, 2, 3, 4, 5, 6, 7, 8];
    r.resize(64, 0);
    Event::Report(r)
}

#[test]
fn fido_service_uuid_value() {
    assert_eq!(FIDO_SERVICE_UUID, 0x0000_fffd_0000_1000_8000_0080_5f9b_34fb);
    assert!(holds(&vec![OTHER_UUID, FIDO_SERVICE_UUID], FIDO_SERVICE_UUID));
    assert!(!holds(&vec![OTHER_UUID], FIDO_SERVICE_UUID));
    assert!(!holds(&vec![], FIDO_SERVICE_UUID));
}

#[test]
fn device_matches_by_service_or_by_service_data() {
    assert!(device(1, true, vec![FIDO_SERVICE_UUID], vec![]).is_authenticator());
    assert!(device(1, true, vec![], vec![FIDO_SERVICE_UUID]).is_authenticator());
    assert!(device(1, true, vec![OTHER_UUID, FIDO_SERVICE_UUID], vec![OTHER_UUID])
        .is_authenticator());
    assert!(!device(1, true, vec![OTHER_UUID], vec![OTHER_UUID]).is_authenticator());
    assert!(!device(1, true, vec![], vec![]).is_authenticator());
    assert!(!device(1, false, vec![FIDO_SERVICE_UUID], vec![FIDO_SERVICE_UUID])
        .is_authenticator());
}

#[test]
fn registering_is_idempotent() {
    let mut d = Driver::new();
    assert_eq!(d.len(), 0);
    let key = device(0xa1b2_c3d4_e5f6, true, vec![FIDO_SERVICE_UUID], vec![]);
    assert!(!d.lookup(key.address));
    assert!(d.handle_device(&key));
    assert!(d.lookup(key.address));
    assert_eq!(d.len(), 1);
    assert!(d.deliver(key.address, &channel_request()).is_some());
    assert!(!d.handle_device(&key));
    assert_eq!(d.len(), 1);
    let out = d.deliver(key.address, &channel_request()).unwrap();
    assert_eq!(&out.to_host[0][16..20], &[0, 0, 0, 2]);
}

#[test]
fn number_of_sessions_changes_by_one() {
    let mut d = Driver::new();
    for address in 1..=5u64 {
        let before = d.len();
        assert!(d.handle_device(&device(address, true, vec![FIDO_SERVICE_UUID], vec![])));
        assert_eq!(d.len(), before + 1);
        assert!(!d.handle_device(&device(address, true, vec![FIDO_SERVICE_UUID], vec![])));
        assert_eq!(d.len(), before + 1);
    }
    for address in 1..=5u64 {
        let before = d.len();
        assert!(d.unregister_device(address));
        assert_eq!(d.len(), before - 1);
        assert!(!d.unregister_device(address));
        assert_eq!(d.len(), before - 1);
    }
    assert_eq!(d.len(), 0);
}

#[test]
fn devices_that_do_not_qualify_get_no_session() {
    let mut d = Driver::new();
    assert!(!d.handle_device(&device(1, false, vec![FIDO_SERVICE_UUID], vec![])));
    assert!(!d.handle_device(&device(2, true, vec![OTHER_UUID], vec![])));
    assert_eq!(d.len(), 0);
    assert!(!d.lookup(1));
    assert!(d.deliver(1, &Event::Tick).is_none());
    assert!(!d.is_waiting(1));
    assert!(!d.set_fragment_len(1, 100));
}

#[test]
fn unregistering_removes_the_session() {
    let mut d = Driver::new();
    assert!(d.handle_device(&device(1, true, vec![FIDO_SERVICE_UUID], vec![])));
    assert!(d.handle_device(&device(2, true, vec![], vec![FIDO_SERVICE_UUID])));
    assert_eq!(d.len(), 2);
    assert!(d.unregister_device(1));
    assert!(!d.lookup(1));
    assert!(d.lookup(2));
    assert!(!d.unregister_device(1));
    assert_eq!(d.len(), 1);
    assert!(d.handle_device(&device(1, true, vec![FIDO_SERVICE_UUID], vec![])));
    let out = d.deliver(1, &channel_request()).unwrap();
    assert_eq!(&out.to_host[0][16..20], &[0, 0, 0, 1]);
}

#[test]
fn sessions_are_independent() {
    let mut d = Driver::new();
    assert!(d.handle_device(&device(1, true, vec![FIDO_SERVICE_UUID], vec![])));
    assert!(d.handle_device(&device(2, true, vec![FIDO_SERVICE_UUID], vec![])));
    d.deliver(1, &channel_request()).unwrap();
    let mut ping = vec![0x81, 0, 0, 0, 1, 0x81, 0x00, 0x01, 0x55];
    ping.resize(64, 0);
    let out = d.deliver(1, &Event::Report(ping.clone())).unwrap();
    assert_eq!(out.to_device, vec![vec![0x01, 0x00, 0x01, 0x55]]);
    assert!(d.is_waiting(1));
    assert!(!d.is_waiting(2));
    let out = d.deliver(2, &Event::Report(ping)).unwrap();
    assert_eq!(out.to_host[0][..9], [0xbf, 0, 0, 0, 1, 0xbf, 0x00, 0x01, 0x0b]);
    let out = d.deliver(2, &Event::Tick).unwrap();
    assert!(out.to_host.is_empty());
    let out = d.deliver(1, &Event::Tick).unwrap();
    assert_eq!(out.to_host[0][..9], [0xbb, 0, 0, 0, 1, 0xbb, 0x00, 0x01, 0x01]);
}

#[test]
fn session_that_ends_is_unmade() {
    let mut d = Driver::new();
    assert!(d.handle_device(&device(1, true, vec![FIDO_SERVICE_UUID], vec![])));
    let out = d.deliver(1, &Event::Disconnected).unwrap();
    assert!(out.closed);
    assert!(!d.lookup(1));
    assert_eq!(d.len(), 0);
    assert!(d.deliver(1, &Event::Tick).is_none());
}

#[test]
fn registry_settings_reach_the_sessions() {
    assert!(Driver::with_config(SessionConfig { fragment_len: 2, ..SessionConfig::standard_settings() })
        .is_err());
    let config = SessionConfig {
        fragment_len: 100,
        max_wait_ticks: 2,
        forward_cancel: false,
        accept_local: true,
    };
    let mut d = Driver::with_config(config).unwrap();
    assert!(d.handle_device(&device(7, true, vec![FIDO_SERVICE_UUID], vec![])));
    d.deliver(7, &channel_request()).unwrap();
    let mut wink = vec![0x88, 0, 0, 0, 1, 0x88, 0x00, 0x00];
    wink.resize(64, 0);
    let out = d.deliver(7, &Event::Report(wink.clone())).unwrap();
    assert_eq!(out.to_host, vec![wink]);
    assert!(!d.set_fragment_len(7, 3));
    assert!(d.set_fragment_len(7, 10));
    let mut msg = vec![0x90, 0, 0, 0, 1, 0x90, 0x00, 0x0a];
    msg.extend_from_slice(&[1, 2, 3, 4, 5, 6, 7, 8, 9, 10]);
    msg.resize(64, 0);
    let out = d.deliver(7, &Event::Report(msg)).unwrap();
    assert_eq!(
        out.to_device,
        vec![vec![0x83, 0x00, 0x0a, 1, 2, 3, 4, 5, 6, 7], vec![0x00, 8, 9, 10]]
    );
    let out = d.deliver(7, &Event::Tick).unwrap();
    assert_eq!(out.to_host[0][..9], [0xbb, 0, 0, 0, 1, 0xbb, 0x00, 0x01, 0x01]);
    assert!(d.is_waiting(7));
    let out = d.deliver(7, &Event::Tick).unwrap();
    assert_eq!(out.to_host[0][..9], [0xbf, 0, 0, 0, 1, 0xbf, 0x00, 0x01, 0x7f]);
    assert!(!d.is_waiting(7));
}
