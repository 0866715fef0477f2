use ykctl::conf::{Conf, APPLICATION_OTP, TRANSPORT_CCID};

#[test]
fn reads_usb_and_version() {
    let blob = [9, 0x03, 0x02, 0x02, 0x3f, 0x05, 0x03, 5, 4, 3];
    let c = Conf::from_device(&blob).unwrap();
    assert_eq!(c.usb_enabled, Some(0x023f));
    assert!(c.can_write);
}

#[test]
fn old_firmware_cannot_write() {
    let blob = [5, 0x05, 0x03, 4, 9, 9];
    let c = Conf::from_device(&blob).unwrap();
    assert_eq!(c.usb_enabled, None);
    assert!(!c.can_write);
}

#[test]
fn last_usb_record_wins() {
    let blob = [8, 0x03, 0x02, 0x00, 0x01, 0x03, 0x02, 0x00, 0x05];
    assert_eq!(Conf::from_device(&blob).unwrap().usb_enabled, Some(5));
}

#[test]
fn malformed_blobs_are_refused() {
    assert!(Conf::from_device(&[]).is_none());
    assert!(Conf::from_device(&[3, 0x03, 0x01]).is_none());
    assert!(Conf::from_device(&[3, 0x03, 0x01, 0x07]).is_none());
    assert!(Conf::from_device(&[4, 0x05, 0x02, 5, 0]).is_none());
}

#[test]
fn trailing_garbage_is_ignored() {
    let blob = [6, 0x03, 0x02, 0x00, 0x04, 0x07, 0x09];
    let c = Conf::from_device(&blob).unwrap();
    assert_eq!(c.usb_enabled, Some(4));
}

#[test]
fn usb_bits() {
    let mut c = Conf { usb_enabled: None, can_write: true };
    assert!(!c.is_usb_enabled(APPLICATION_OTP));
    assert!(c.is_usb_enabled(0));
    c.set_usb_enabled(APPLICATION_OTP, true);
    assert_eq!(c.usb_enabled, Some(1));
    c.set_usb_enabled(TRANSPORT_CCID, true);
    assert_eq!(c.usb_enabled, Some(5));
    assert!(c.is_usb_enabled(APPLICATION_OTP | TRANSPORT_CCID));
    c.set_usb_enabled(APPLICATION_OTP, false);
    assert_eq!(c.usb_enabled, Some(4));
    assert!(!c.is_usb_enabled(APPLICATION_OTP));
    assert!(c.can_write);
}

#[test]
fn writes_blob_with_length_byte() {
    let c = Conf { usb_enabled: Some(0x023d), can_write: true };
    let mut out = Vec::new();
    c.to_device(true, &mut out);
    assert_eq!(out, vec![6, 0x03, 0x02, 0x02, 0x3d, 0x0c, 0x00]);
    let mut out = Vec::new();
    c.to_device(false, &mut out);
    assert_eq!(out, vec![4, 0x03, 0x02, 0x02, 0x3d]);
    let back = Conf::from_device(&out).unwrap();
    assert_eq!(back.usb_enabled, Some(0x023d));
    let none = Conf { usb_enabled: None, can_write: false };
    let mut out = Vec::new();
    none.to_device(false, &mut out);
    assert_eq!(out, vec![0]);
}
