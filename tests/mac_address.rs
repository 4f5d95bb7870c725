use houserat::{Error, MacAddress};

#[test]
fn test_try_from() {
    assert!(matches!(MacAddress::try_from("wat"), Err(Error::InvalidMacAddress { .. })));
    assert!(MacAddress::try_from("00:01:02:03:04:05").is_ok());
    assert!(MacAddress::try_from("00:01:02:03:04:0").is_ok());
    assert!(matches!(MacAddress::try_from("00:01:02:03:04:"), Err(Error::InvalidMacAddress { .. })));
    assert!(matches!(MacAddress::try_from("00:01:02:03:04"), Err(Error::InvalidMacAddress { .. })));
    assert!(matches!(MacAddress::try_from(":00:01:02:03:04"), Err(Error::InvalidMacAddress { .. })));
}

#[test]
fn test_display() {
    let mac_string = "00:01:02:03:04:05";
    let mac = MacAddress::try_from(mac_string).unwrap();
    assert_eq!(mac.to_string(), mac_string);
}

#[test]
fn mac_parse_values_and_case() {
    let mac = MacAddress::try_from("aa:Bb:0:ff:+1:010").unwrap();
    assert_eq!(mac, MacAddress::new([0xaa, 0xbb, 0x00, 0xff, 0x01, 0x10]));
    assert_eq!(mac.to_string(), "AA:BB:00:FF:01:10");
}

#[test]
fn mac_parse_refusals() {
    let e = MacAddress::try_from("00:01:02:03:04:05:06").unwrap_err();
    assert_eq!(e, Error::InvalidMacAddress { value: "00:01:02:03:04:05:06".to_string() });
    assert!(MacAddress::try_from("100:01:02:03:04:05").is_err());
    assert!(MacAddress::try_from("00:01:02:03:04:+").is_err());
    assert!(MacAddress::try_from("00:01:02:03:04:-5").is_err());
    assert!(MacAddress::try_from("").is_err());
    assert!(MacAddress::try_from("00:01:02:03:04:0g").is_err());
}
