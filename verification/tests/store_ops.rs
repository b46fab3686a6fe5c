use rutinose::list_db::ListDb;
use rutinose::store::{KvPairs, Object, Str};

#[test]
fn string_kvs_test_get_and_set_and_del() {
    let mut db = KvPairs::new();
    let t0: u64 = 0;

    db.set(b"key1", b"value1".to_vec(), None);
    db.set(b"key2", b"value2".to_vec(), None);
    db.set(b"key3", b"value3".to_vec(), Some(1000));

    assert_eq!(Some(b"value1".to_vec()), db.get(b"key1", t0));
    assert_eq!(Some(b"value2".to_vec()), db.get(b"key2", t0));
    assert_eq!(Some(b"value3".to_vec()), db.get(b"key3", t0));

    db.set(b"key1", b"value11".to_vec(), None);
    db.set(b"key2", b"value22".to_vec(), None);
    assert_eq!(Some(b"value11".to_vec()), db.get(b"key1", t0));
    assert_eq!(Some(b"value22".to_vec()), db.get(b"key2", t0));

    db.del(b"key1");
    db.del(b"key2");
    assert_eq!(None, db.get(b"key1", t0));
    assert_eq!(None, db.get(b"key2", t0));

    // After key3's expiration has passed, it reads as absent.
    assert_eq!(None, db.get(b"key3", 2000));
}

#[test]
fn string_kvs_test_check_exist() {
    let mut db = KvPairs::new();
    let t0: u64 = 0;

    db.set(b"key1", b"value1".to_vec(), None);
    db.set(b"key2", b"value2".to_vec(), None);
    db.set(b"key3", b"value3".to_vec(), Some(1000));

    assert!(db.check_exist(b"key1", t0));
    assert!(db.check_exist(b"key2", t0));
    assert!(!db.check_exist(b"key3", 2000));
}

#[test]
fn string_kvs_test_get_ttl() {
    let mut db = KvPairs::new();
    let t0: u64 = 0;

    db.set(b"key1", b"value1".to_vec(), None);
    db.set(b"key2", b"value2".to_vec(), Some(1000));

    assert_eq!(0, db.get_ttl(b"key1", t0).expect("should be Some"));
    let ttl = db.get_ttl(b"key2", t0).expect("should be Some");
    assert!(1000 - ttl < 10);
}

#[test]
fn list_db_test_get_ttl() {
    let mut db = ListDb::new();
    let t0: u64 = 0;

    db.set(b"key1", vec![b"value1".to_vec()], None, t0);
    db.set(b"key2", vec![b"value2".to_vec()], Some(1000), t0);

    assert_eq!(0, db.get_ttl(b"key1", t0).expect("should be Some"));
    let ttl = db.get_ttl(b"key2", t0).expect("should be Some");
    assert!(1000 - ttl < 10);
}

#[test]
fn list_db_test_get_and_set_and_del() {
    let mut db = ListDb::new();
    let t0: u64 = 0;

    db.set(b"key1", vec![b"value1".to_vec()], None, t0);
    db.set(b"key2", vec![b"value2".to_vec()], None, t0);
    db.set(b"key3", vec![b"value3".to_vec()], Some(1000), t0);

    assert_eq!(Some(vec![b"value1".to_vec()]), db.get(b"key1", t0));
    assert_eq!(Some(vec![b"value2".to_vec()]), db.get(b"key2", t0));
    assert_eq!(Some(vec![b"value3".to_vec()]), db.get(b"key3", t0));

    db.set(b"key1", vec![b"value11".to_vec()], None, t0);
    db.set(b"key2", vec![b"value22".to_vec()], None, t0);
    assert_eq!(Some(vec![b"value11".to_vec()]), db.get(b"key1", t0));
    assert_eq!(Some(vec![b"value22".to_vec()]), db.get(b"key2", t0));

    db.del(b"key1");
    db.del(b"key2");
    assert_eq!(None, db.get(b"key1", t0));
    assert_eq!(None, db.get(b"key2", t0));

    assert_eq!(None, db.get(b"key3", 2000));
}

#[test]
fn list_db_test_check_exist() {
    let mut db = ListDb::new();
    let t0: u64 = 0;

    db.set(b"key1", vec![b"value1".to_vec()], None, t0);
    db.set(b"key2", vec![b"value2".to_vec()], None, t0);
    db.set(b"key3", vec![b"value3".to_vec()], Some(1000), t0);

    assert!(db.check_exist(b"key1", t0));
    assert!(db.check_exist(b"key2", t0));
    assert!(!db.check_exist(b"key3", 2000));
}

#[test]
fn integers_are_stored_as_integers() {
    let o = Object::new(b"1234".to_vec(), None);
    assert_eq!(o.value_type(), 0);
    assert_eq!(o.value(), b"1234".to_vec());

    let o = Object::new(b"0420".to_vec(), None);
    assert_eq!(o.value_type(), 1, "leading zeros keep the raw form");
    assert_eq!(o.value(), b"0420".to_vec());

    let o = Object::new(b"hello".to_vec(), None);
    assert_eq!(o.value_type(), 1);
    assert_eq!(o.value(), b"hello".to_vec());

    let o = Object::new(b"-9223372036854775808".to_vec(), None);
    assert_eq!(o.value_type(), 0);
    assert_eq!(o.value(), b"-9223372036854775808".to_vec());

    let mut o = Object::new(b"x".to_vec(), Some(77));
    o.set_value(b"-5".to_vec());
    assert_eq!(o.value_type(), 0);
    assert_eq!(o.value(), b"-5".to_vec());
    assert!(matches!(o.value, Str::Int(-5)));
    assert_eq!(o.expire, Some(77));
}

#[test]
fn expiry_reaper_sweeps_dead_entries() {
    let mut db = KvPairs::new();
    db.set(b"a", b"1".to_vec(), Some(100));
    db.set(b"b", b"2".to_vec(), Some(5000));
    db.set(b"c", b"3".to_vec(), None);
    db.check_expiration(1000);
    assert!(!db.check_exist(b"a", 1000));
    assert!(db.check_exist(b"b", 1000));
    assert!(db.check_exist(b"c", 1000));
    // The sweep itself removed the entry, not just the read.
    assert_eq!(db.entries().len(), 2);
}

#[test]
fn set_keepttl_and_epoch_semantics() {
    let mut db = KvPairs::new();
    // A write with an explicit expiration.
    db.set(b"k", b"v1".to_vec(), Some(5000));
    assert_eq!(db.get_ttl(b"k", 1000), Some(4000));
    // None keeps the time to live.
    db.set(b"k", b"v2".to_vec(), None);
    assert_eq!(db.get_ttl(b"k", 1000), Some(4000));
    // The epoch instant clears it.
    db.set(b"k", b"v3".to_vec(), Some(0));
    assert_eq!(db.get_ttl(b"k", 1000), Some(0));
    assert_eq!(db.get(b"k", u64::MAX), Some(b"v3".to_vec()));
}

#[test]
fn set_ttl_gives_a_deadline() {
    let mut db = KvPairs::new();
    assert!(!db.set_ttl(b"k", 100, 0));
    db.set(b"k", b"v".to_vec(), None);
    assert!(db.set_ttl(b"k", 100, 0));
    assert_eq!(db.get(b"k", 50), Some(b"v".to_vec()));
    assert_eq!(db.get(b"k", 201), None);
}
