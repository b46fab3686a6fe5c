use rutinose::rdb::{
    decode_key, decode_kv, decode_length, encode_key, encode_length, encode_string_kv, rdb_load,
    rdb_save, Length, RdbError,
};
use rutinose::store::{Object, Str};

#[test]
fn test_rdb_length_codec() {
    let mut buf = Vec::new();
    encode_length(&mut buf, 0, None);
    assert_eq!(buf, [0]);
    let len = decode_length(&buf, 0).unwrap();
    if let (Length::Len(len), _) = len {
        assert_eq!(len, 0);
    } else {
        panic!("decode length failed");
    }
    buf.clear();

    encode_length(&mut buf, 63, None);
    assert_eq!(buf, [63]);
    let len = decode_length(&buf, 0).unwrap();
    if let (Length::Len(len), _) = len {
        assert_eq!(len, 63);
    } else {
        panic!("decode length failed");
    }
    buf.clear();

    encode_length(&mut buf, 64, None);
    assert_eq!(buf, [0x40, 64]);
    let len = decode_length(&buf, 0).unwrap();
    if let (Length::Len(len), _) = len {
        assert_eq!(len, 64);
    } else {
        panic!("decode length failed");
    }
    buf.clear();

    encode_length(&mut buf, 16383, None);
    assert_eq!(buf, [0x7f, 0xff]);
    let len = decode_length(&buf, 0).unwrap();
    if let (Length::Len(len), _) = len {
        assert_eq!(len, 16383);
    } else {
        panic!("decode length failed");
    }
    buf.clear();

    encode_length(&mut buf, 16384, None);
    assert_eq!(buf, [0x80, 0, 0, 0x40, 0]);
    let len = decode_length(&buf, 0).unwrap();
    if let (Length::Len(len), _) = len {
        assert_eq!(len, 16384);
    } else {
        panic!("decode length failed");
    }
    buf.clear();
}

#[test]
fn test_rdb_key_codec() {
    let mut buf = Vec::new();
    encode_key(&mut buf, b"key");
    assert_eq!(buf, [3, 107, 101, 121]);
    let (key, _) = decode_key(&buf, 0).unwrap();
    assert_eq!(key, b"key".to_vec());
    buf.clear();
}

#[test]
fn test_rdb_str_kv() {
    let now: u64 = 0;
    let mut buf = Vec::new();
    let key = b"key".to_vec();

    let object = Object { value: Str::Raw(b"hello".to_vec()), expire: None };
    encode_string_kv(&mut buf, &key, &object, now);
    let ((k, obj), _) = decode_kv(&buf, 0).unwrap();
    assert_eq!(k, key);
    assert_eq!(obj, object);
    buf.clear();

    let object = Object { value: Str::Raw(b"hello".to_vec()), expire: Some(10_000) };
    encode_string_kv(&mut buf, &key, &object, now);
    let ((k, obj), _) = decode_kv(&buf, 0).unwrap();
    assert_eq!(k, key);
    assert_eq!(obj, object);
    buf.clear();

    let object = Object { value: Str::Int(10), expire: None };
    encode_string_kv(&mut buf, &key, &object, now);
    let ((k, obj), _) = decode_kv(&buf, 0).unwrap();
    assert_eq!(k, key);
    assert_eq!(obj, object);
    buf.clear();

    let object = Object { value: Str::Int(10), expire: Some(10_000) };
    encode_string_kv(&mut buf, &key, &object, now);
    let ((k, obj), _) = decode_kv(&buf, 0).unwrap();
    assert_eq!(k, key);
    assert_eq!(obj, object);
}

#[test]
fn test_rdb_save_and_load() {
    let now: u64 = 0;
    let obj1 = Object { value: Str::Raw(b"hello".to_vec()), expire: None };
    let obj2 = Object { value: Str::Int(10), expire: None };
    let obj3 = Object { value: Str::Int(200), expire: Some(10_000) };
    let obj4 = Object { value: Str::Raw(b"hello".to_vec()), expire: Some(10_000) };
    let entries = vec![
        (b"key".to_vec(), obj1.clone()),
        (b"key1".to_vec(), obj2.clone()),
        (b"key2".to_vec(), obj3.clone()),
        (b"key3".to_vec(), obj4.clone()),
    ];
    let bytes = rdb_save(&entries, 1, true, now).unwrap();
    let loaded = rdb_load(&bytes, true).unwrap();
    assert_eq!(loaded.len(), 4);
    assert_eq!(loaded[0].0, b"key".to_vec());
    assert_eq!(loaded[0].1, obj1);
    assert_eq!(loaded[1].1, obj2);
    assert_eq!(loaded[2].1, obj3);
    assert_eq!(loaded[3].1, obj4);
}

#[test]
fn big_integer_values_survive_the_snapshot() {
    let now: u64 = 0;
    let obj = Object { value: Str::Int(i64::MIN), expire: None };
    let entries = vec![(b"big".to_vec(), obj.clone())];
    let bytes = rdb_save(&entries, 1, true, now).unwrap();
    let loaded = rdb_load(&bytes, true).unwrap();
    assert_eq!(loaded[0].1, obj);
}

#[test]
fn expired_entries_are_skipped_on_save() {
    let now: u64 = 5000;
    let live = Object { value: Str::Raw(b"a".to_vec()), expire: Some(9000) };
    let dead = Object { value: Str::Raw(b"b".to_vec()), expire: Some(1000) };
    let entries = vec![(b"live".to_vec(), live.clone()), (b"dead".to_vec(), dead)];
    let bytes = rdb_save(&entries, 1, true, now).unwrap();
    let loaded = rdb_load(&bytes, true).unwrap();
    assert_eq!(loaded.len(), 1);
    assert_eq!(loaded[0].0, b"live".to_vec());
}

#[test]
fn checksum_mismatch_rejects_the_snapshot() {
    let entries = vec![(b"key".to_vec(), Object { value: Str::Raw(b"hello".to_vec()), expire: None })];
    let bytes = rdb_save(&entries, 1, true, 0).unwrap();
    assert!(rdb_load(&bytes, true).is_ok());
    // Flip one byte of the payload: the stored checksum no longer matches.
    for i in 9..bytes.len() - 9 {
        let mut corrupt = bytes.clone();
        corrupt[i] ^= 0x01;
        assert!(rdb_load(&corrupt, true).is_err(), "flip at {} accepted", i);
    }
}

#[test]
fn unsupported_value_types_are_rejected() {
    let entries = vec![(b"key".to_vec(), Object { value: Str::Raw(b"x".to_vec()), expire: None })];
    let mut bytes = rdb_save(&entries, 1, false, 0).unwrap();
    // The type byte of the single entry sits right after the header.
    assert_eq!(bytes[11], 0);
    bytes[11] = 4;
    assert_eq!(rdb_load(&bytes, false).unwrap_err(), RdbError::UnsupportedRdbType);
}

#[test]
fn bad_magic_is_rejected() {
    let bytes = b"RUBBISH snapshot".to_vec();
    assert_eq!(rdb_load(&bytes, true).unwrap_err(), RdbError::BadMagic);
}

#[test]
fn medium_and_large_integers_use_the_wider_forms() {
    let now: u64 = 0;
    for v in [0i64, -1, 127, -128, 128, 1000, -32768, 32768, 100000, -2147483648, 2147483647] {
        let mut buf = Vec::new();
        let obj = Object { value: Str::Int(v), expire: None };
        encode_string_kv(&mut buf, b"n", &obj, now);
        let ((_, back), _) = decode_kv(&buf, 0).unwrap();
        assert_eq!(back, obj, "value {v}");
    }
}

#[test]
fn lzf_compressed_strings_load() {
    // A handcrafted snapshot whose single value uses the compressed string
    // format; the loader must inflate it back to the repeated text.
    let plain: Vec<u8> = b"hello".repeat(40);
    let compressed = rutinose::lzf::lzf_compress(&plain);
    let mut bytes: Vec<u8> = Vec::new();
    bytes.extend_from_slice(b"REDIS");
    bytes.extend_from_slice(&1u32.to_be_bytes());
    bytes.extend_from_slice(&[0xFE, 0x00]);
    bytes.push(0x00); // the string type
    encode_key(&mut bytes, b"big");
    bytes.push(0xC3); // the compressed format marker
    encode_length(&mut bytes, compressed.len() as u32, None);
    encode_length(&mut bytes, plain.len() as u32, None);
    bytes.extend_from_slice(&compressed);
    bytes.push(0xFF);
    bytes.extend_from_slice(&0u64.to_be_bytes());
    let loaded = rdb_load(&bytes, false).unwrap();
    assert_eq!(loaded.len(), 1);
    assert_eq!(loaded[0].0, b"big".to_vec());
    assert_eq!(loaded[0].1.value(), plain);
}
