use mdns_query::name::{
    append_label, append_qname, check_name, try_append_qname, NameError, MAX_LABEL_LEN, SEPARATOR,
};
use mdns_query::wire::append_u16;

fn encoded(name: &[u8]) -> Vec<u8> {
    let mut out = Vec::new();
    assert_eq!(try_append_qname(&mut out, name), Ok(()));
    out
}

#[test]
fn u16_is_written_high_byte_first() {
    let mut out = Vec::new();
    append_u16(&mut out, 0x1234);
    assert_eq!(out, vec![0x12, 0x34]);
}

#[test]
fn u16_boundary_values() {
    let mut out = Vec::new();
    append_u16(&mut out, 0x0000);
    append_u16(&mut out, 0xffff);
    append_u16(&mut out, 0x00ff);
    append_u16(&mut out, 0xff00);
    append_u16(&mut out, 0x0100);
    assert_eq!(out, vec![0x00, 0x00, 0xff, 0xff, 0x00, 0xff, 0xff, 0x00, 0x01, 0x00]);
}

#[test]
fn u16_keeps_what_is_already_there() {
    let mut out = vec![7, 8, 9];
    append_u16(&mut out, 0x000c);
    assert_eq!(out, vec![7, 8, 9, 0x00, 0x0c]);
}

#[test]
fn every_u16_reads_back() {
    let mut value: u16 = 0;
    loop {
        let mut out = Vec::new();
        append_u16(&mut out, value);
        assert_eq!(out.len(), 2);
        assert_eq!(u16::from_be_bytes([out[0], out[1]]), value);
        if value == u16::MAX {
            break;
        }
        value += 1;
    }
}

#[test]
fn constants_of_the_name_format() {
    assert_eq!(SEPARATOR, b'.');
    assert_eq!(MAX_LABEL_LEN, 63);
}

#[test]
fn label_is_length_then_bytes() {
    let mut out = vec![0xaa];
    append_label(&mut out, b"local");
    assert_eq!(out, vec![0xaa, 5, b'l', b'o', b'c', b'a', b'l']);
}

#[test]
fn empty_label_is_a_single_zero() {
    let mut out = Vec::new();
    append_label(&mut out, b"");
    assert_eq!(out, vec![0]);
}

#[test]
fn qname_of_three_labels() {
    let mut out = Vec::new();
    append_qname(&mut out, b"a.bb.ccc");
    assert_eq!(out, vec![0x01, 0x61, 0x02, 0x62, 0x62, 0x03, 0x63, 0x63, 0x63, 0x00]);
}

#[test]
fn qname_appends_after_existing_bytes() {
    let mut out = vec![1, 2, 3];
    append_qname(&mut out, b"ab");
    assert_eq!(out, vec![1, 2, 3, 2, b'a', b'b', 0]);
}

#[test]
fn trailing_separator_is_the_root() {
    assert_eq!(
        encoded(b"a.bb.ccc."),
        vec![0x01, 0x61, 0x02, 0x62, 0x62, 0x03, 0x63, 0x63, 0x63, 0x00]
    );
}

#[test]
fn service_name_takes_seventeen_bytes() {
    let out = encoded(b"_p2p._udp.local.");
    assert_eq!(
        out,
        vec![
            4, b'_', b'p', b'2', b'p', 4, b'_', b'u', b'd', b'p', 5, b'l', b'o', b'c', b'a',
            b'l', 0
        ]
    );
    assert_eq!(out.len(), 17);
}

#[test]
fn single_label_without_separator() {
    assert_eq!(encoded(b"local"), vec![5, b'l', b'o', b'c', b'a', b'l', 0]);
}

#[test]
fn empty_name_is_one_empty_label_and_the_root() {
    assert_eq!(encoded(b""), vec![0, 0]);
}

#[test]
fn written_root_changes_nothing() {
    let names: [&[u8]; 4] = [b"", b"local", b"a.bb.ccc", b".a"];
    for name in names {
        let mut rooted = name.to_vec();
        rooted.push(b'.');
        assert_eq!(encoded(&rooted), encoded(name));
    }
}

#[test]
fn empty_labels_are_kept() {
    assert_eq!(encoded(b"a..b"), vec![1, b'a', 0, 1, b'b', 0]);
    assert_eq!(encoded(b".a"), vec![0, 1, b'a', 0]);
    assert_eq!(encoded(b"a.."), vec![1, b'a', 0, 0]);
    assert_eq!(encoded(b"."), vec![0, 0]);
    assert_eq!(encoded(b".."), vec![0, 0, 0]);
}

#[test]
fn encoded_length_follows_the_name() {
    let names: [&[u8]; 7] = [b"", b".", b"a", b"a.", b"a.bb.ccc", b"a.bb.ccc.", b"x..y."];
    for name in names {
        let out = encoded(name);
        let ends_in_root = !name.is_empty() && name[name.len() - 1] == b'.';
        let extra = if ends_in_root { 1 } else { 2 };
        assert_eq!(out.len(), name.len() + extra);
        assert_eq!(out[out.len() - 1], 0);
    }
}

#[test]
fn label_of_63_bytes_is_accepted() {
    let label = vec![b'x'; 63];
    assert_eq!(check_name(&label), Ok(()));
    let mut out = Vec::new();
    assert_eq!(try_append_qname(&mut out, &label), Ok(()));
    let mut expected = vec![63u8];
    expected.extend_from_slice(&label);
    expected.push(0);
    assert_eq!(out, expected);
    assert_eq!(out.len(), 65);

    let mut direct = Vec::new();
    append_qname(&mut direct, &label);
    assert_eq!(direct, expected);
}

#[test]
fn label_of_64_bytes_is_refused() {
    let label = vec![b'x'; 64];
    assert_eq!(check_name(&label), Err(NameError::LabelTooLong));
    let mut out = vec![9, 9];
    assert_eq!(try_append_qname(&mut out, &label), Err(NameError::LabelTooLong));
    assert_eq!(out, vec![9, 9]);
}

#[test]
fn long_label_is_found_wherever_it_stands() {
    let long = vec![b'y'; 64];
    let fits = vec![b'y'; 63];

    let mut first = long.clone();
    first.extend_from_slice(b".local");
    assert_eq!(check_name(&first), Err(NameError::LabelTooLong));

    let mut middle = b"a.".to_vec();
    middle.extend_from_slice(&long);
    middle.extend_from_slice(b".local.");
    assert_eq!(check_name(&middle), Err(NameError::LabelTooLong));

    let mut last = b"a.b.".to_vec();
    last.extend_from_slice(&long);
    assert_eq!(check_name(&last), Err(NameError::LabelTooLong));

    let mut many = fits.clone();
    many.push(b'.');
    many.extend_from_slice(&fits);
    many.push(b'.');
    many.extend_from_slice(&fits);
    assert_eq!(check_name(&many), Ok(()));
    assert_eq!(encoded(&many).len(), 3 * 64 + 1);
}

#[test]
fn non_ascii_name_is_refused() {
    assert_eq!(check_name(&[b'a', 0x80, b'b']), Err(NameError::NonAscii));
    assert_eq!(check_name("caf\u{e9}.local".as_bytes()), Err(NameError::NonAscii));
    assert_eq!(check_name(&[b'a', 0x7f, b'b']), Ok(()));
    let mut out = vec![5];
    assert_eq!(try_append_qname(&mut out, &[0xff]), Err(NameError::NonAscii));
    assert_eq!(out, vec![5]);
}

#[test]
fn non_ascii_is_reported_before_length() {
    let mut name = vec![b'z'; 70];
    name.push(0xc3);
    assert_eq!(check_name(&name), Err(NameError::NonAscii));
}

#[test]
fn check_accepts_the_service_name() {
    assert_eq!(check_name(b"_p2p._udp.local."), Ok(()));
    assert_eq!(check_name(b""), Ok(()));
    assert_eq!(check_name(b"a..b"), Ok(()));
}

#[test]
fn errors_say_what_is_wrong() {
    assert_eq!(NameError::LabelTooLong.message(), "Service name has a label too long");
    assert_eq!(NameError::NonAscii.message(), "Service name is not ASCII");
    assert_ne!(NameError::LabelTooLong, NameError::NonAscii);
}
