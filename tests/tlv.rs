use ykctl::tlv::{parse_tlv, Iter};

fn records(buf: &[u8]) -> Vec<(u16, Vec<u8>)> {
    let mut it = Iter::new(buf);
    let mut out = Vec::new();
    while let Some((tag, data)) = it.next() {
        out.push((tag, data.to_vec()));
    }
    out
}

#[test]
fn round_trip_one_byte_tags() {
    for tag in 0u16..=0x1e {
        let payload: Vec<u8> = (0..tag as u8).collect();
        let mut buf = Vec::new();
        ykctl::tlv::write(&mut buf, tag, &payload);
        assert_eq!(records(&buf), vec![(tag, payload)]);
    }
}

#[test]
fn round_trip_two_byte_tag() {
    let mut buf = Vec::new();
    ykctl::tlv::write(&mut buf, 0x5f2d, &[0xaa, 0xbb]);
    assert_eq!(buf, vec![0x5f, 0x2d, 0x02, 0xaa, 0xbb]);
    assert_eq!(records(&buf), vec![(0x5f2d, vec![0xaa, 0xbb])]);
}

#[test]
fn round_trip_longest_payload() {
    let payload = vec![0x11u8; 0x7f];
    let mut buf = Vec::new();
    ykctl::tlv::write(&mut buf, 0x7f1f, &payload);
    assert_eq!(buf.len(), 3 + 0x7f);
    assert_eq!(records(&buf), vec![(0x7f1f, payload)]);
}

#[test]
fn write_appends_after_existing_bytes() {
    let mut buf = vec![9u8];
    ykctl::tlv::write(&mut buf, 0x03, &[0x01, 0x02]);
    ykctl::tlv::write(&mut buf, 0x0c, &[]);
    assert_eq!(buf, vec![9, 0x03, 0x02, 0x01, 0x02, 0x0c, 0x00]);
    assert_eq!(records(&buf[1..]), vec![(0x03, vec![1, 2]), (0x0c, vec![])]);
}

#[test]
fn truncated_buffers_give_prefixes() {
    let mut buf = Vec::new();
    ykctl::tlv::write(&mut buf, 0x03, &[0x00, 0x3f]);
    ykctl::tlv::write(&mut buf, 0x5f2d, &[1, 2, 3]);
    ykctl::tlv::write(&mut buf, 0x0c, &[]);
    let full = records(&buf);
    assert_eq!(full.len(), 3);
    for n in 0..buf.len() {
        let part = records(&buf[..n]);
        assert!(part.len() < full.len());
        assert_eq!(&full[..part.len()], &part[..]);
    }
    assert!(records(&buf[..3]).is_empty());
    assert_eq!(records(&buf[..4]).len(), 1);
}

#[test]
fn multi_byte_tag_decode() {
    let buf = [0x5f, 0x2d, 0x02, 0xaa, 0xbb];
    assert_eq!(parse_tlv(&buf), Some((0x5f2d, 3, 5)));
    assert_eq!(records(&buf), vec![(0x5f2d, vec![0xaa, 0xbb])]);
}

#[test]
fn extended_length_decode() {
    let buf = [0x01, 0x81, 0x05, 1, 2, 3, 4, 5];
    assert_eq!(parse_tlv(&buf), Some((0x01, 3, 8)));
    assert_eq!(records(&buf), vec![(0x01, vec![1, 2, 3, 4, 5])]);
}

#[test]
fn two_length_bytes_are_big_endian() {
    let mut buf = vec![0x04, 0x82, 0x01, 0x00];
    buf.extend(std::iter::repeat(7u8).take(256));
    assert_eq!(parse_tlv(&buf), Some((0x04, 4, 260)));
    let recs = records(&buf);
    assert_eq!(recs.len(), 1);
    assert_eq!(recs[0].1.len(), 256);
}

#[test]
fn length_byte_0x80_is_a_plain_length() {
    assert_eq!(parse_tlv(&[0x02, 0x80]), Some((0x02, 2, 0x82)));
}

#[test]
fn incomplete_headers_give_none() {
    assert_eq!(parse_tlv(&[]), None);
    assert_eq!(parse_tlv(&[0x01]), None);
    assert_eq!(parse_tlv(&[0x1f]), None);
    assert_eq!(parse_tlv(&[0x5f, 0x2d]), None);
    assert_eq!(parse_tlv(&[0x01, 0x82, 0x01]), None);
}

#[test]
fn huge_length_gives_none() {
    let mut buf = vec![0x01, 0x89];
    buf.extend([0xffu8; 9]);
    assert_eq!(parse_tlv(&buf), None);
    assert!(records(&buf).is_empty());
}

#[test]
fn payload_past_end_stops_the_walk() {
    let buf = [0x01, 0x01, 0xaa, 0x02, 0x05, 0xbb];
    assert_eq!(parse_tlv(&buf[3..]), Some((0x02, 2, 7)));
    assert_eq!(records(&buf), vec![(0x01, vec![0xaa])]);
}

#[test]
fn walk_stays_at_end() {
    let buf = [0x01, 0x00];
    let mut it = Iter::new(&buf);
    assert_eq!(it.next(), Some((0x01, &[][..])));
    assert_eq!(it.next(), None);
    assert_eq!(it.next(), None);
}
