use tickstore::disk::Disk;
use tickstore::registry::{HistPoint, SharedState};
use tickstore::settings::Settings;
use tickstore::state::State;
use tickstore::store::Store;
use tickstore::tick::Update;

fn mk(ts: u64) -> Update {
    Update { ts, seq: 0, is_trade: false, is_bid: false, price_bits: 0, size_bits: 0 }
}

fn fresh(autoflush: bool, interval: u32) -> (SharedState, Disk) {
    let settings = Settings::new(autoflush, interval, 4, "db".to_string());
    (SharedState::new(settings), Disk::new())
}

fn entry<'a>(shared: &'a SharedState, name: &str) -> &'a tickstore::registry::StoreEntry {
    &shared
        .vec_store
        .iter()
        .find(|(k, _)| k.as_str() == name)
        .expect("store entry missing")
        .1
}

fn file_records(disk: &Disk, name: &str) -> Option<Vec<u64>> {
    disk.decode(&name.to_string(), None)
        .map(|v| v.iter().map(|u| u.ts).collect())
}

#[test]
fn example_create_insert_flush_reload() {
    let (mut shared, mut disk) = fresh(false, 5);
    let mut conn = State::new(&shared);
    conn.create(&mut shared, &"btc_eth".to_string());
    conn.use_db(&mut shared, &disk, &"btc_eth".to_string()).expect("known store");
    conn.add(&mut shared, &mut disk, mk(100));
    conn.add(&mut shared, &mut disk, mk(101));
    conn.add(&mut shared, &mut disk, mk(102));
    assert_eq!(conn.count(&shared), 3);
    conn.flush(&mut shared, &mut disk);
    assert_eq!(entry(&shared, "btc_eth").buffer.len(), 0);
    assert_eq!(file_records(&disk, "btc_eth"), Some(vec![100, 101, 102]));

    let mut conn2 = State::new(&shared);
    conn2.use_db(&mut shared, &disk, &"btc_eth".to_string()).expect("known store");
    let buf: Vec<u64> = entry(&shared, "btc_eth").buffer.iter().map(|u| u.ts).collect();
    assert_eq!(buf, vec![100, 101, 102]);
    assert_eq!(conn2.count(&shared), 3);
}

#[test]
fn count_monotonic_across_flushes() {
    let (mut shared, mut disk) = fresh(false, 5);
    let conn = State::new(&shared);
    let before = conn.count(&shared);
    for i in 0..7 {
        conn.add(&mut shared, &mut disk, mk(i));
        if i == 3 {
            conn.flush(&mut shared, &mut disk);
        }
    }
    assert_eq!(conn.count(&shared), before + 7);
}

#[test]
fn flush_of_empty_buffer_writes_nothing() {
    let (mut shared, mut disk) = fresh(false, 5);
    let conn = State::new(&shared);
    conn.add(&mut shared, &mut disk, mk(1));
    conn.flush(&mut shared, &mut disk);
    let count_before = conn.count(&shared);
    let files_before: usize = disk.files.len();
    let records_before = file_records(&disk, "default");
    conn.flush(&mut shared, &mut disk);
    assert_eq!(conn.count(&shared), count_before);
    assert_eq!(disk.files.len(), files_before);
    assert_eq!(file_records(&disk, "default"), records_before);
}

#[test]
fn clear_then_load_round_trip() {
    let (mut shared, mut disk) = fresh(false, 5);
    let mut conn = State::new(&shared);
    conn.create(&mut shared, &"pairs".to_string());
    conn.use_db(&mut shared, &disk, &"pairs".to_string()).unwrap();
    conn.add(&mut shared, &mut disk, mk(10));
    conn.add(&mut shared, &mut disk, mk(11));
    conn.flush(&mut shared, &mut disk);
    conn.use_db(&mut shared, &disk, &"pairs".to_string()).unwrap();
    let before = entry(&shared, "pairs").buffer.len();
    assert_eq!(before, 2);
    conn.clear(&mut shared, &disk);
    assert_eq!(entry(&shared, "pairs").buffer.len(), 0);
    assert_eq!(conn.count(&shared), 2);
    conn.use_db(&mut shared, &disk, &"pairs".to_string()).unwrap();
    assert_eq!(entry(&shared, "pairs").buffer.len(), before);
    let buf: Vec<u64> = entry(&shared, "pairs").buffer.iter().map(|u| u.ts).collect();
    assert_eq!(buf, vec![10, 11]);
}

#[test]
fn autoflush_fires_on_fifth_insert() {
    let (mut shared, mut disk) = fresh(true, 5);
    let conn = State::new(&shared);
    for i in 0..4 {
        conn.add(&mut shared, &mut disk, mk(i));
    }
    assert_eq!(entry(&shared, "default").buffer.len(), 4);
    assert!(file_records(&disk, "default").is_none());
    conn.add(&mut shared, &mut disk, mk(4));
    assert_eq!(entry(&shared, "default").buffer.len(), 0);
    assert_eq!(file_records(&disk, "default"), Some(vec![0, 1, 2, 3, 4]));
    assert_eq!(conn.count(&shared), 5);
}

#[test]
fn autoflush_disabled_never_fires() {
    let (mut shared, mut disk) = fresh(false, 5);
    let conn = State::new(&shared);
    for i in 0..12 {
        conn.add(&mut shared, &mut disk, mk(i));
    }
    assert_eq!(entry(&shared, "default").buffer.len(), 12);
    assert!(file_records(&disk, "default").is_none());
}

#[test]
fn append_keeps_only_strictly_newer_records() {
    let (mut shared, mut disk) = fresh(false, 5);
    let conn = State::new(&shared);
    conn.add(&mut shared, &mut disk, mk(10));
    conn.flush(&mut shared, &mut disk);
    conn.add(&mut shared, &mut disk, mk(5));
    conn.add(&mut shared, &mut disk, mk(10));
    conn.add(&mut shared, &mut disk, mk(20));
    conn.flush(&mut shared, &mut disk);
    assert_eq!(file_records(&disk, "default"), Some(vec![10, 20]));
}

#[test]
fn paged_read_contract() {
    let (mut shared, mut disk) = fresh(false, 5);
    let conn = State::new(&shared);
    assert!(conn.get(&shared, Some(1)).is_none());
    assert!(conn.get(&shared, Some(0)).is_none());
    conn.add(&mut shared, &mut disk, mk(1));
    conn.add(&mut shared, &mut disk, mk(2));
    assert!(conn.get(&shared, Some(3)).is_none());
    assert!(conn.get(&shared, Some(2)).is_some());
    let whole = conn.get(&shared, None).expect("whole buffer");
    assert_eq!(whole.len(), 8 + 2 * 21);
    let empty_page = conn.get(&shared, Some(0)).expect("empty page of non-empty buffer");
    assert_eq!(empty_page, vec![0, 0, 0, 0, 0, 0, 0, 0]);
}

#[test]
fn wire_bytes_exact() {
    let (mut shared, mut disk) = fresh(false, 5);
    let conn = State::new(&shared);
    let u = Update { ts: 1, seq: 2, is_trade: false, is_bid: true, price_bits: 3, size_bits: 4 };
    conn.add(&mut shared, &mut disk, u);
    let bytes = conn.get(&shared, Some(1)).expect("one record");
    let expected: Vec<u8> = vec![
        0, 0, 0, 0, 0, 0, 0, 1, // record count
        0, 0, 0, 0, 0, 0, 0, 1, // ts
        0, 0, 0, 2, // seq
        2, // flags: bid
        0, 0, 0, 3, // price bits
        0, 0, 0, 4, // size bits
    ];
    assert_eq!(bytes, expected);
}

#[test]
fn json_page_exact() {
    let (mut shared, mut disk) = fresh(false, 5);
    let conn = State::new(&shared);
    let u = Update { ts: 5, seq: 6, is_trade: true, is_bid: false, price_bits: 1, size_bits: 2 };
    conn.add(&mut shared, &mut disk, u);
    let s = conn.get_n_as_json(&shared, None).expect("whole buffer");
    assert_eq!(
        s,
        "[{\"ts\":5,\"seq\":6,\"is_trade\":true,\"is_bid\":false,\"price_bits\":1,\"size_bits\":2}]\n"
    );
    assert!(conn.get_n_as_json(&shared, Some(2)).is_none());
}

#[test]
fn registry_wide_count() {
    let (mut shared, mut disk) = fresh(false, 5);
    let mut conn_a = State::new(&shared);
    conn_a.create(&mut shared, &"btc_eth".to_string());
    let conn_b = State::new(&shared);
    conn_a.insert(&mut shared, &mut disk, mk(1), &"btc_eth".to_string()).unwrap();
    conn_a.insert(&mut shared, &mut disk, mk(2), &"btc_eth".to_string()).unwrap();
    conn_a.add(&mut shared, &mut disk, mk(3));
    conn_a.create(&mut shared, &"ltc".to_string());
    conn_a.insert(&mut shared, &mut disk, mk(4), &"ltc".to_string()).unwrap();
    let sum: u64 = shared
        .vec_store
        .iter()
        .map(|(name, _)| Store::new(name.clone()).count(&shared))
        .sum();
    assert_eq!(conn_b.countall(&shared), sum);
    assert_eq!(conn_b.countall(&shared), 4);
    assert!(!conn_b.store_exists(&"ltc".to_string()));
}

#[test]
fn unknown_store_operations_fail() {
    let (mut shared, mut disk) = fresh(false, 5);
    let mut conn = State::new(&shared);
    assert_eq!(conn.insert(&mut shared, &mut disk, mk(1), &"nope".to_string()), None);
    assert_eq!(conn.use_db(&mut shared, &disk, &"nope".to_string()), None);
    assert!(!conn.store_exists(&"nope".to_string()));
    assert!(conn.store_exists(&"default".to_string()));
}

#[test]
fn create_is_destructive_reset() {
    let (mut shared, mut disk) = fresh(false, 5);
    let mut conn = State::new(&shared);
    conn.create(&mut shared, &"x".to_string());
    conn.insert(&mut shared, &mut disk, mk(1), &"x".to_string()).unwrap();
    assert_eq!(entry(&shared, "x").logical_count, 1);
    conn.create(&mut shared, &"x".to_string());
    assert_eq!(entry(&shared, "x").logical_count, 0);
    assert_eq!(entry(&shared, "x").buffer.len(), 0);
}

#[test]
fn clearall_and_flushall_touch_every_known_store() {
    let (mut shared, mut disk) = fresh(false, 5);
    let mut conn = State::new(&shared);
    conn.create(&mut shared, &"a".to_string());
    conn.create(&mut shared, &"b".to_string());
    conn.insert(&mut shared, &mut disk, mk(1), &"a".to_string()).unwrap();
    conn.insert(&mut shared, &mut disk, mk(2), &"b".to_string()).unwrap();
    conn.add(&mut shared, &mut disk, mk(3));
    conn.flushall(&mut shared, &mut disk);
    assert_eq!(entry(&shared, "a").buffer.len(), 0);
    assert_eq!(entry(&shared, "b").buffer.len(), 0);
    assert_eq!(entry(&shared, "default").buffer.len(), 0);
    assert_eq!(file_records(&disk, "a"), Some(vec![1]));
    assert_eq!(file_records(&disk, "b"), Some(vec![2]));
    assert_eq!(file_records(&disk, "default"), Some(vec![3]));
    // counts survive the flush
    assert_eq!(entry(&shared, "a").logical_count, 1);
    conn.insert(&mut shared, &mut disk, mk(9), &"a".to_string()).unwrap();
    conn.clearall(&mut shared, &disk);
    assert_eq!(entry(&shared, "a").buffer.len(), 0);
    // clear resynchronizes the count from disk truth
    assert_eq!(entry(&shared, "a").logical_count, 1);
    assert_eq!(entry(&shared, "default").logical_count, 1);
}

#[test]
fn info_report_exact() {
    let (mut shared, _disk) = fresh(false, 5);
    let conn = State::new(&shared);
    shared.n_cxns = 1;
    let s = conn.info(&shared, 1508968738);
    let expected = "{\n  \"meta\": {\n    \"cxns\": 1,\n    \"max_threads\": 4,\n    \"ts\": 1508968738,\n    \"autoflush_enabled\": false,\n    \"autoflush_interval\": 5,\n    \"dtf_folder\": \"db\",\n    \"total_count\": 0\n  },\n  \"dbs\": [{\n    \"name\": \"default\",\n    \"in_memory\": false,\n    \"count\": 0\n  }]\n}\n";
    assert_eq!(s, expected);
}

#[test]
fn info_report_two_stores() {
    let (mut shared, mut disk) = fresh(true, 10);
    let mut conn = State::new(&shared);
    conn.create(&mut shared, &"btc_eth".to_string());
    conn.insert(&mut shared, &mut disk, mk(7), &"btc_eth".to_string()).unwrap();
    let s = conn.info(&shared, 42);
    let expected = "{\n  \"meta\": {\n    \"cxns\": 0,\n    \"max_threads\": 4,\n    \"ts\": 42,\n    \"autoflush_enabled\": true,\n    \"autoflush_interval\": 10,\n    \"dtf_folder\": \"db\",\n    \"total_count\": 1\n  },\n  \"dbs\": [{\n    \"name\": \"default\",\n    \"in_memory\": false,\n    \"count\": 0\n  }, {\n    \"name\": \"btc_eth\",\n    \"in_memory\": true,\n    \"count\": 1\n  }]\n}\n";
    assert_eq!(s, expected);
}

#[test]
fn perf_report_exact() {
    let (mut shared, _disk) = fresh(false, 5);
    let conn = State::new(&shared);
    assert_eq!(conn.perf(&shared), "[]\n");
    shared.history.push((
        "default".to_string(),
        vec![HistPoint { ts: 1508968738, size: 0 }, HistPoint { ts: 1508968740, size: 3 }],
    ));
    shared.history.push(("btc_eth".to_string(), vec![HistPoint { ts: 9, size: 1 }]));
    let s = conn.perf(&shared);
    assert_eq!(
        s,
        "[{\"default\": {\"1508968738\":0, \"1508968740\":3}}, {\"btc_eth\": {\"9\":1}}]\n"
    );
}

#[test]
fn store_handle_operations() {
    let (mut shared, mut disk) = fresh(false, 5);
    let st = Store::new("default".to_string());
    assert_eq!(st.name, "default");
    assert_eq!(st.fname, "default");
    assert_eq!(st.count(&shared), 0);
    st.add(&mut shared, &mut disk, mk(1));
    assert_eq!(st.count(&shared), 1);
    st.flush(&mut shared, &mut disk);
    st.load_size_from_file(&mut shared, &disk);
    assert_eq!(st.count(&shared), 1);
    st.clear(&mut shared, &disk);
    assert_eq!(st.count(&shared), 1);
    st.load(&mut shared, &disk);
    assert_eq!(entry(&shared, "default").buffer.len(), 1);
    assert!(entry(&shared, "default").in_memory);
}

#[test]
fn disk_codec_operations() {
    let mut disk = Disk::new();
    let name = "f".to_string();
    assert!(!disk.exists_file(&name));
    assert_eq!(disk.get_size(&name), None);
    assert!(disk.decode(&name, None).is_none());
    disk.encode(&name, &"store".to_string(), &vec![mk(1), mk(5)]);
    assert!(disk.exists_file(&name));
    assert_eq!(disk.get_size(&name), Some(2));
    disk.append(&name, &vec![mk(4), mk(5), mk(6), mk(9)]);
    assert_eq!(disk.get_size(&name), Some(4));
    let all: Vec<u64> = disk.decode(&name, None).unwrap().iter().map(|u| u.ts).collect();
    assert_eq!(all, vec![1, 5, 6, 9]);
    let first: Vec<u64> = disk.decode(&name, Some(2)).unwrap().iter().map(|u| u.ts).collect();
    assert_eq!(first, vec![1, 5]);
    let over: Vec<u64> = disk.decode(&name, Some(10)).unwrap().iter().map(|u| u.ts).collect();
    assert_eq!(over, vec![1, 5, 6, 9]);
}

#[test]
fn load_is_a_noop_when_materialized_or_file_absent() {
    let (mut shared, mut disk) = fresh(false, 5);
    let st = Store::new("default".to_string());
    st.load(&mut shared, &disk);
    assert_eq!(entry(&shared, "default").buffer.len(), 0);
    assert!(!entry(&shared, "default").in_memory);
    st.add(&mut shared, &mut disk, mk(1));
    st.flush(&mut shared, &mut disk);
    st.load(&mut shared, &disk);
    st.load(&mut shared, &disk);
    // materialized once: the second load does not duplicate the records
    assert_eq!(entry(&shared, "default").buffer.len(), 1);
}

#[test]
fn paged_read_returns_exact_prefix() {
    let (mut shared, mut disk) = fresh(false, 5);
    let conn = State::new(&shared);
    for i in 0..4 {
        conn.add(&mut shared, &mut disk, mk(i));
    }
    let two = conn.get(&shared, Some(2)).expect("page of two");
    assert_eq!(two.len(), 8 + 2 * 21);
    // count prefix says two records, and the first frame carries ts 0
    assert_eq!(&two[0..8], &[0, 0, 0, 0, 0, 0, 0, 2]);
    assert_eq!(&two[8..16], &[0, 0, 0, 0, 0, 0, 0, 0]);
    assert_eq!(&two[29..37], &[0, 0, 0, 0, 0, 0, 0, 1]);
}

#[test]
fn new_connection_state_defaults() {
    let (shared, _disk) = fresh(false, 5);
    let conn = State::new(&shared);
    assert_eq!(conn.current_store_name, "default");
    assert!(!conn.is_adding);
    assert!(conn.bulkadd_db.is_none());
    assert_eq!(conn.store.len(), 1);
    assert_eq!(conn.store[0].0, "default");
}
