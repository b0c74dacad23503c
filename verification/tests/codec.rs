use kasten::bytes::{copy_range, id_key, put_bytes, put_u16, put_u64, read_u16, read_u64, same_bytes};
use kasten::clock::{stamp_from_bits, stamp_to_bits};
use kasten::codec::{
    decode_file, decode_group, empty_permissions, encode_dir, encode_file, encode_group,
    encode_permissions, entry_to_dir_incomplete, parse_db_string, parse_id_list,
    parse_read_group_ids, parse_text, parse_write_group_ids, push_to_list, remove_from_list,
    serialize_id_list, string_to_bytes,
};
use kasten::error::Error;

fn id_bytes(id: u64) -> Vec<u8> {
    id.to_be_bytes().to_vec()
}

#[test]
fn integers_are_big_endian() {
    let mut buf = vec![0xaa];
    put_u16(&mut buf, 0x0102);
    put_u64(&mut buf, 0x0102030405060708);
    assert_eq!(buf, vec![0xaa, 1, 2, 1, 2, 3, 4, 5, 6, 7, 8]);
    assert_eq!(read_u16(&buf, 1), 0x0102);
    assert_eq!(read_u64(&buf, 3), 0x0102030405060708);
    assert_eq!(id_key(u64::MAX), vec![0xff; 8]);
    assert_eq!(id_key(0), vec![0; 8]);
    assert_eq!(id_key(256), vec![0, 0, 0, 0, 0, 0, 1, 0]);
    assert_eq!(read_u64(&id_key(0xdead_beef_0000_0001), 0), 0xdead_beef_0000_0001);
}

#[test]
fn byte_helpers() {
    let mut buf = vec![1, 2];
    put_bytes(&mut buf, &[3, 4, 5]);
    assert_eq!(buf, vec![1, 2, 3, 4, 5]);
    assert_eq!(copy_range(&buf, 1, 4), vec![2, 3, 4]);
    assert_eq!(copy_range(&buf, 2, 2), Vec::<u8>::new());
    assert!(same_bytes(&[1, 2, 3], &[1, 2, 3]));
    assert!(!same_bytes(&[1, 2, 3], &[1, 2, 4]));
    assert!(!same_bytes(&[1, 2, 3], &[1, 2]));
    assert!(same_bytes(&[], &[]));
}

#[test]
fn timestamps_keep_their_sign() {
    assert_eq!(stamp_to_bits(0), 0);
    assert_eq!(stamp_to_bits(1_600_000_000), 1_600_000_000);
    assert_eq!(stamp_to_bits(-1), u64::MAX);
    assert_eq!(stamp_to_bits(i64::MIN), 0x8000_0000_0000_0000);
    assert_eq!(stamp_to_bits(i64::MAX), 0x7fff_ffff_ffff_ffff);
    assert_eq!(stamp_from_bits(u64::MAX), -1);
    assert_eq!(stamp_from_bits(0x8000_0000_0000_0000), i64::MIN);
    assert_eq!(stamp_from_bits(stamp_to_bits(-86_400)), -86_400);
    assert_eq!(stamp_to_bits(-2).to_be_bytes(), (-2i64).to_be_bytes());
}

#[test]
fn id_list_layout() {
    let mut buf = Vec::new();
    serialize_id_list(&[1, 0x0203], &mut buf).unwrap();
    let mut expected = vec![0, 2];
    expected.extend(id_bytes(1));
    expected.extend(id_bytes(0x0203));
    assert_eq!(buf, expected);
    assert_eq!(parse_id_list(&buf).unwrap(), vec![1, 0x0203]);
    buf.push(9);
    assert_eq!(parse_id_list(&buf).unwrap(), vec![1, 0x0203]);
    let mut empty = Vec::new();
    serialize_id_list(&[], &mut empty).unwrap();
    assert_eq!(empty, vec![0, 0]);
    assert_eq!(parse_id_list(&empty).unwrap(), Vec::<u64>::new());
}

#[test]
fn id_list_that_runs_past_the_end_is_refused() {
    assert!(matches!(parse_id_list(&[]), Err(Error::EncodingError)));
    assert!(matches!(parse_id_list(&[0]), Err(Error::EncodingError)));
    assert!(matches!(parse_id_list(&[0, 1]), Err(Error::EncodingError)));
    assert!(matches!(parse_id_list(&[0, 1, 0, 0, 0, 0, 0, 0, 0]), Err(Error::EncodingError)));
    assert_eq!(parse_id_list(&[0, 1, 0, 0, 0, 0, 0, 0, 0, 7]).unwrap(), vec![7]);
    assert!(matches!(parse_id_list(&[0xff, 0xff, 1, 2, 3]), Err(Error::EncodingError)));
}

#[test]
fn list_that_is_too_long_is_refused() {
    let full: Vec<u64> = (0..65535).collect();
    let mut buf = vec![7];
    serialize_id_list(&full, &mut buf).unwrap();
    assert_eq!(buf.len(), 1 + 2 + 8 * 65535);
    assert_eq!(&buf[..3], &[7, 0xff, 0xff]);
    let too_long: Vec<u64> = (0..65536).collect();
    let mut buf = vec![7];
    assert!(matches!(serialize_id_list(&too_long, &mut buf), Err(Error::BadCall)));
    assert_eq!(buf, vec![7]);
    assert!(matches!(encode_permissions(&too_long, &[]), Err(Error::BadCall)));
    assert!(matches!(encode_permissions(&[], &too_long), Err(Error::BadCall)));
    assert!(matches!(encode_dir(1, 2, &too_long, "d"), Err(Error::BadCall)));
    assert!(matches!(encode_group(&too_long, &[], "g"), Err(Error::BadCall)));
    assert!(matches!(encode_group(&[], &too_long, "g"), Err(Error::BadCall)));
    assert!(encode_group(&full, &full, "g").is_ok());
}

#[test]
fn string_layout() {
    let mut buf = Vec::new();
    string_to_bytes("héllo", &mut buf).unwrap();
    assert_eq!(buf, vec![0, 6, b'h', 0xc3, 0xa9, b'l', b'l', b'o']);
    assert_eq!(parse_db_string(&buf).unwrap(), ("héllo".to_string(), 8));
    let mut empty = Vec::new();
    string_to_bytes("", &mut empty).unwrap();
    assert_eq!(empty, vec![0, 0]);
    assert_eq!(parse_db_string(&empty).unwrap(), (String::new(), 2));
}

#[test]
fn string_that_is_no_text_is_refused() {
    assert!(matches!(parse_db_string(&[0, 1, 0xff]), Err(Error::EncodingError)));
    assert!(matches!(parse_db_string(&[0, 2, b'a']), Err(Error::EncodingError)));
    assert!(matches!(parse_db_string(&[0]), Err(Error::EncodingError)));
    assert!(matches!(parse_text(&[b'a', 0xc3], 0, 2), Err(Error::EncodingError)));
    assert_eq!(parse_text(&[b'a', 0xc3, 0xa9], 1, 3).unwrap(), "é");
}

#[test]
fn string_that_is_too_long_is_refused() {
    let fits = "a".repeat(65535);
    let mut buf = Vec::new();
    string_to_bytes(&fits, &mut buf).unwrap();
    assert_eq!(buf.len(), 65537);
    assert_eq!(&buf[..2], &[0xff, 0xff]);
    let too_long = "a".repeat(65536);
    let mut buf = vec![1];
    assert!(matches!(string_to_bytes(&too_long, &mut buf), Err(Error::BadCall)));
    assert_eq!(buf, vec![1]);
    assert!(matches!(encode_file(1, 2, &too_long, "t"), Err(Error::BadCall)));
    assert!(matches!(encode_file(1, 2, "n", &too_long), Err(Error::BadCall)));
}

#[test]
fn file_record_layout() {
    let record = encode_file(0x0a, 0x0b, "a.txt", "text/plain").unwrap();
    let mut expected = id_bytes(0x0a);
    expected.extend(id_bytes(0x0b));
    expected.extend([0, 5]);
    expected.extend(b"a.txt");
    expected.extend([0, 10]);
    expected.extend(b"text/plain");
    assert_eq!(record, expected);
    let file = decode_file(77, &record).unwrap();
    assert_eq!(file.id, 77);
    assert_eq!(file.parent_id, 0x0a);
    assert_eq!(file.owner_id, 0x0b);
    assert_eq!(file.name, "a.txt");
    assert_eq!(file.media_type, "text/plain");
    assert!(file.read_group_ids.is_empty());
    assert!(file.write_group_ids.is_empty());
}

#[test]
fn file_record_that_is_cut_short_is_refused() {
    let record = encode_file(1, 2, "a.txt", "text/plain").unwrap();
    for len in 0..record.len() {
        assert!(matches!(decode_file(1, &record[..len]), Err(Error::EncodingError)), "{}", len);
    }
    assert!(decode_file(1, &record).is_ok());
}

#[test]
fn directory_record_layout() {
    let record = encode_dir(0x0a, 0x0b, &[3, 4], "docs").unwrap();
    let mut expected = id_bytes(0x0a);
    expected.extend(id_bytes(0x0b));
    expected.extend([0, 2]);
    expected.extend(id_bytes(3));
    expected.extend(id_bytes(4));
    expected.extend(b"docs");
    assert_eq!(record, expected);
    let dir = entry_to_dir_incomplete(5, &record).unwrap();
    assert_eq!(dir.id, 5);
    assert_eq!(dir.parent_id, 0x0a);
    assert_eq!(dir.owner_id, 0x0b);
    assert_eq!(dir.child_ids, vec![3, 4]);
    assert_eq!(dir.name, "docs");
    assert!(dir.read_group_ids.is_empty());
    assert!(dir.write_group_ids.is_empty());
}

#[test]
fn directory_record_that_is_cut_short_is_refused() {
    let record = encode_dir(1, 2, &[3, 4], "").unwrap();
    for len in 0..record.len() {
        assert!(
            matches!(entry_to_dir_incomplete(1, &record[..len]), Err(Error::EncodingError)),
            "{}",
            len
        );
    }
    let mut bad_name = record.clone();
    bad_name.push(0xff);
    assert!(matches!(entry_to_dir_incomplete(1, &bad_name), Err(Error::EncodingError)));
}

#[test]
fn permission_record_layout() {
    let record = encode_permissions(&[1], &[2, 3]).unwrap();
    let mut expected = vec![0, 1];
    expected.extend(id_bytes(1));
    expected.extend([0, 2]);
    expected.extend(id_bytes(2));
    expected.extend(id_bytes(3));
    assert_eq!(record, expected);
    assert_eq!(parse_read_group_ids(&record).unwrap(), vec![1]);
    assert_eq!(parse_write_group_ids(&record).unwrap(), vec![2, 3]);
    assert_eq!(empty_permissions(), vec![0, 0, 0, 0]);
    assert_eq!(encode_permissions(&[], &[]).unwrap(), vec![0, 0, 0, 0]);
    assert!(matches!(parse_write_group_ids(&record[..10]), Err(Error::EncodingError)));
    assert!(matches!(parse_write_group_ids(&record[..12]), Err(Error::EncodingError)));
    assert!(matches!(parse_write_group_ids(&[0, 9]), Err(Error::EncodingError)));
    assert!(matches!(parse_read_group_ids(&[0, 9]), Err(Error::EncodingError)));
}

#[test]
fn group_record_layout() {
    let record = encode_group(&[7, 8], &[7], "team").unwrap();
    let mut expected = vec![0, 2];
    expected.extend(id_bytes(7));
    expected.extend(id_bytes(8));
    expected.extend([0, 1]);
    expected.extend(id_bytes(7));
    expected.extend(b"team");
    assert_eq!(record, expected);
    let group = decode_group(9, &record).unwrap();
    assert_eq!(group.id, 9);
    assert_eq!(group.name, "team");
    assert_eq!(group.member_ids, vec![7, 8]);
    assert_eq!(group.admin_ids, vec![7]);
    for len in 0..28 {
        assert!(matches!(decode_group(9, &record[..len]), Err(Error::EncodingError)), "{}", len);
    }
    assert_eq!(decode_group(9, &record[..28]).unwrap().name, "");
}

#[test]
fn lists_inside_records_grow_and_shrink() {
    let record = encode_dir(1, 2, &[3, 4], "docs").unwrap();
    let longer = push_to_list(&record, 16, 5).unwrap();
    assert_eq!(longer, encode_dir(1, 2, &[3, 4, 5], "docs").unwrap());
    let shorter = remove_from_list(&longer, 16, 4).unwrap();
    assert_eq!(shorter, encode_dir(1, 2, &[3, 5], "docs").unwrap());
    let twice = encode_dir(1, 2, &[3, 4, 3], "docs").unwrap();
    assert_eq!(remove_from_list(&twice, 16, 3).unwrap(), encode_dir(1, 2, &[4, 3], "docs").unwrap());
    assert!(matches!(remove_from_list(&record, 16, 9), Err(Error::InconsistentDbState)));
    assert!(matches!(remove_from_list(&record[..20], 16, 3), Err(Error::EncodingError)));
    assert!(matches!(push_to_list(&record[..20], 16, 3), Err(Error::EncodingError)));
    assert!(matches!(push_to_list(&record, 40, 3), Err(Error::EncodingError)));
    let full: Vec<u64> = (0..65535).collect();
    let full_record = encode_dir(1, 2, &full, "docs").unwrap();
    assert!(matches!(push_to_list(&full_record, 16, 5), Err(Error::BadCall)));
    let perms = encode_permissions(&[1], &[2]).unwrap();
    assert_eq!(push_to_list(&perms, 0, 9).unwrap(), encode_permissions(&[1, 9], &[2]).unwrap());
    assert_eq!(push_to_list(&perms, 10, 9).unwrap(), encode_permissions(&[1], &[2, 9]).unwrap());
}

#[test]
fn records_are_read_back_as_written() {
    let names = ["", "a", "ünïcödé ✓", "with\0zero"];
    for name in names {
        for media_type in names {
            let record = encode_file(u64::MAX, 0, name, media_type).unwrap();
            let file = decode_file(1, &record).unwrap();
            assert_eq!((file.parent_id, file.owner_id), (u64::MAX, 0));
            assert_eq!(file.name, name);
            assert_eq!(file.media_type, media_type);
        }
        let children = vec![u64::MAX, 0, 1 << 63, 0x0102030405060708];
        let record = encode_dir(3, u64::MAX, &children, name).unwrap();
        let dir = entry_to_dir_incomplete(2, &record).unwrap();
        assert_eq!((dir.parent_id, dir.owner_id), (3, u64::MAX));
        assert_eq!(dir.child_ids, children);
        assert_eq!(dir.name, name);
        let record = encode_group(&children, &[5], name).unwrap();
        let group = decode_group(4, &record).unwrap();
        assert_eq!(group.member_ids, children);
        assert_eq!(group.admin_ids, vec![5]);
        assert_eq!(group.name, name);
        let record = encode_permissions(&children, &[6, 6]).unwrap();
        assert_eq!(parse_read_group_ids(&record).unwrap(), children);
        assert_eq!(parse_write_group_ids(&record).unwrap(), vec![6, 6]);
    }
}
