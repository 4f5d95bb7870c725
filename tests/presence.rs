use houserat::config::{build_rules, Config, Interface, InterfaceInfo, User};
use houserat::presence::{HouseRat, Status, ALLOWED_PACKETS_LOST};
use houserat::time::{Duration, TimeOfDay, Timestamp};
use houserat::{Error, Event, IpAddress, Ipv4Address, MacAddress, Period};

const PHONE: [u8; 6] = [0x02, 0, 0, 0, 0, 0x01];
const STRANGER: [u8; 6] = [0x02, 0, 0, 0, 0, 0x99];

fn user(name: &str, subscriber: Option<&str>, chat_id: Option<i64>, devices: Vec<MacAddress>) -> User {
    User {
        name: name.to_string(),
        icon: None,
        username: None,
        chat_id,
        subscriber: subscriber.map(|s| s.to_string()),
        devices,
    }
}

fn rat(cooldown: Option<Duration>, quiet_period: Option<Period>) -> HouseRat {
    let mut ann = user("Ann", Some("Bob"), None, vec![MacAddress::new(PHONE)]);
    ann.icon = Some("🐀".to_string());
    ann.username = Some("ann".to_string());
    let users = vec![ann, user("Bob", None, Some(42), vec![])];
    let interfaces = vec![InterfaceInfo {
        name: "eth0".to_string(),
        index: 2,
        mac: Some(MacAddress::new([0x02, 0, 0, 0, 0, 0xfe])),
        ips: vec![IpAddress::V6(1), IpAddress::V4(Ipv4Address { bits: 0xc0a80101 })],
    }];
    let cooldown_millis = cooldown.map(|d| d.millis as u128);
    let config = Config::from_parts("eth0", interfaces, "SECRET-REDACTED".to_string(), cooldown_millis, quiet_period, &users)
        .unwrap();
    HouseRat::new(config)
}

fn noon() -> TimeOfDay {
    TimeOfDay::parse_hh_mm("12:00").unwrap()
}

fn alive(ip: u32) -> Event {
    Event::Alive { mac: MacAddress::new(PHONE), ip: Ipv4Address { bits: ip } }
}

#[test]
fn loss_threshold_evicts_on_third_tick() {
    assert_eq!(ALLOWED_PACKETS_LOST, 3);
    let mut r = rat(None, None);
    let t = Timestamp::from_millis(0);
    assert!(r.handle_event(alive(0xc0a80114), t, noon()).is_none());
    assert_eq!(r.online.len(), 1);
    let tick = r.handle_clock();
    assert_eq!(tick.probes.len(), 1);
    assert_eq!(tick.probes[0].ip, Ipv4Address { bits: 0xc0a80114 });
    let tick = r.handle_clock();
    assert_eq!(tick.probes.len(), 1);
    assert!(tick.departed.is_empty());
    assert_eq!(r.online[0].outstanding, 2);
    let tick = r.handle_clock();
    assert!(tick.probes.is_empty());
    assert_eq!(tick.departed, vec![MacAddress::new(PHONE)]);
    assert!(r.online.is_empty());
    let msg = r.notify(tick.departed[0], Status::Left, t, noon()).unwrap();
    assert_eq!(msg.chat_id, 42);
    assert_eq!(msg.text, "[🐀 Ann](t.me/ann) left");
    assert_eq!(msg.parse_mode, "Markdown");
    assert!(!msg.disable_notification);
}

#[test]
fn alive_before_third_tick_prevents_eviction() {
    let mut r = rat(None, None);
    let t = Timestamp::from_millis(0);
    r.handle_event(alive(1), t, noon());
    r.handle_clock();
    r.handle_clock();
    r.handle_event(alive(1), t, noon());
    assert_eq!(r.online[0].outstanding, 0);
    let tick = r.handle_clock();
    assert!(tick.departed.is_empty());
    assert_eq!(r.online[0].outstanding, 1);
}

#[test]
fn repeated_alive_keeps_identity() {
    let mut r = rat(None, None);
    let t = Timestamp::from_millis(0);
    r.handle_event(alive(1), t, noon());
    r.handle_clock();
    r.handle_event(alive(2), t, noon());
    r.handle_event(alive(2), t, noon());
    assert_eq!(r.online.len(), 1);
    assert_eq!(r.online[0].mac, MacAddress::new(PHONE));
    assert_eq!(r.online[0].ip, Ipv4Address { bits: 2 });
    assert_eq!(r.online[0].outstanding, 0);
}

#[test]
fn unknown_devices_are_not_tracked() {
    let mut r = rat(None, None);
    let t = Timestamp::from_millis(0);
    let ev = Event::Alive { mac: MacAddress::new(STRANGER), ip: Ipv4Address { bits: 5 } };
    assert!(r.handle_event(ev, t, noon()).is_none());
    assert!(r.online.is_empty());
    assert!(r.handle_event(Event::Connected(MacAddress::new(STRANGER)), t, noon()).is_none());
    assert!(r.handle_event(Event::Ignored, t, noon()).is_none());
}

#[test]
fn connected_notifies_arrival_unless_online() {
    let mut r = rat(None, None);
    let t = Timestamp::from_millis(0);
    let msg = r.handle_event(Event::Connected(MacAddress::new(PHONE)), t, noon()).unwrap();
    assert_eq!(msg.text, "[🐀 Ann](t.me/ann) arrived");
    assert!(r.online.is_empty());
    r.handle_event(alive(1), t, noon());
    assert!(r.handle_event(Event::Connected(MacAddress::new(PHONE)), t, noon()).is_none());
}

#[test]
fn cooldown_and_quiet_period_shape_notifications() {
    let quiet = Period::new(TimeOfDay::parse_hh_mm("23:00").unwrap(), TimeOfDay::parse_hh_mm("06:00").unwrap());
    let mut r = rat(Some(Duration::seconds(5)), Some(quiet));
    let t = Timestamp::from_millis(1_000);
    let late = TimeOfDay::parse_hh_mm("23:30").unwrap();
    let phone = MacAddress::new(PHONE);
    let msg = r.notify(phone, Status::Arrived, t, late).unwrap();
    assert!(msg.disable_notification);
    assert!(r.notify(phone, Status::Left, t.plus(Duration::seconds(1)), noon()).is_none());
    let msg = r.notify(phone, Status::Left, t.plus(Duration::seconds(5)), noon()).unwrap();
    assert!(!msg.disable_notification);
    assert_eq!(r.rules[0].1.last_notified, Some(t.plus(Duration::seconds(5))));
}

#[test]
fn resolved_device_gets_a_probe() {
    let r = rat(None, None);
    let frame = r.handle_resolve(MacAddress::new(PHONE), Ipv4Address { bits: 0xc0a80114 });
    assert_eq!(frame.len(), 42);
    assert_eq!(&frame[0..6], &PHONE);
    assert_eq!(&frame[38..42], &[192, 168, 1, 20]);
}

#[test]
fn status_text() {
    assert_eq!(Status::Arrived.to_string(), "arrived");
    assert_eq!(Status::Left.to_string(), "left");
}

#[test]
fn rules_from_users() {
    let users = vec![
        user("Ann", Some("Bob"), None, vec![MacAddress::new(PHONE), MacAddress::new(STRANGER)]),
        user("Bob", None, Some(42), vec![]),
    ];
    let rules = build_rules(&users).unwrap();
    assert_eq!(rules.len(), 2);
    assert_eq!(rules[1].0, MacAddress::new(STRANGER));
    assert_eq!(rules[1].1.name, "Ann");
    assert_eq!(rules[1].1.subscriber_name, "Bob");
    assert_eq!(rules[1].1.chat_id, 42);
}

#[test]
fn subscriber_without_devices_is_refused() {
    let users = vec![user("Ann", Some("Bob"), None, vec![]), user("Bob", None, Some(42), vec![])];
    assert_eq!(build_rules(&users).unwrap_err(), Error::NoDevices { user: "Ann".to_string() });
}

#[test]
fn devices_without_subscriber_are_refused() {
    let users = vec![user("Ann", None, Some(1), vec![MacAddress::new(PHONE)])];
    assert_eq!(build_rules(&users).unwrap_err(), Error::NoSubscriber { user: "Ann".to_string() });
}

#[test]
fn shared_device_names_both_owners() {
    let users = vec![
        user("Ann", Some("Bob"), None, vec![MacAddress::new(PHONE)]),
        user("Bob", None, Some(42), vec![]),
        user("Cid", Some("Bob"), None, vec![MacAddress::new(PHONE)]),
    ];
    assert_eq!(
        build_rules(&users).unwrap_err(),
        Error::DuplicateDevice {
            device: MacAddress::new(PHONE),
            user: "Cid".to_string(),
            orig_user: "Ann".to_string(),
        }
    );
}

#[test]
fn unknown_subscriber_and_missing_chat_are_refused() {
    let users = vec![user("Ann", Some("Zed"), None, vec![MacAddress::new(PHONE)])];
    assert_eq!(build_rules(&users).unwrap_err(), Error::UnknownUser { user: "Zed".to_string() });
    let users = vec![user("Ann", Some("Bob"), None, vec![MacAddress::new(PHONE)]), user("Bob", None, None, vec![])];
    assert_eq!(build_rules(&users).unwrap_err(), Error::MissingChatId { user: "Bob".to_string() });
}

#[test]
fn interface_selection() {
    let infos = || {
        vec![
            InterfaceInfo { name: "lo".to_string(), index: 1, mac: None, ips: vec![IpAddress::V4(Ipv4Address { bits: 0x7f000001 })] },
            InterfaceInfo { name: "wlan0".to_string(), index: 3, mac: Some(MacAddress::new(PHONE)), ips: vec![IpAddress::V6(7)] },
            InterfaceInfo {
                name: "eth0".to_string(),
                index: 2,
                mac: Some(MacAddress::new(PHONE)),
                ips: vec![IpAddress::V4(Ipv4Address { bits: 10 }), IpAddress::V4(Ipv4Address { bits: 11 })],
            },
        ]
    };
    let eth = Interface::from_name("eth0", infos()).unwrap();
    assert_eq!(eth.index, 2);
    assert_eq!(eth.addresses.ip, Ipv4Address { bits: 10 });
    assert_eq!(Interface::from_name("lo", infos()).unwrap_err(), Error::BadInterface { interface: "lo".to_string() });
    assert_eq!(Interface::from_name("wlan0", infos()).unwrap_err(), Error::BadInterface { interface: "wlan0".to_string() });
    assert_eq!(Interface::from_name("eth9", infos()).unwrap_err(), Error::UnknownInterface { interface: "eth9".to_string() });
}

#[test]
fn cooldown_range() {
    assert_eq!(houserat::config::cooldown_from_millis(5_000).unwrap(), Duration::seconds(5));
    let too_long = i64::MAX as u128 + 1;
    assert_eq!(
        houserat::config::cooldown_from_millis(too_long).unwrap_err(),
        Error::InvalidDuration { millis: too_long }
    );
    let users: Vec<User> = vec![];
    let interfaces = vec![InterfaceInfo { name: "eth0".to_string(), index: 2, mac: Some(MacAddress::new(PHONE)), ips: vec![IpAddress::V4(Ipv4Address { bits: 1 })] }];
    let e = Config::from_parts("eth0", interfaces, String::new(), Some(too_long), None, &users).unwrap_err();
    assert_eq!(e, Error::InvalidDuration { millis: too_long });
}

#[test]
fn message_fields() {
    let m = houserat::Message::new(9, "hi".to_string(), true);
    assert_eq!(m.chat_id, 9);
    assert_eq!(m.text, "hi");
    assert_eq!(m.parse_mode, "Markdown");
    assert!(m.disable_notification);
    assert_eq!(houserat::Message::method(), "sendMessage");
}
