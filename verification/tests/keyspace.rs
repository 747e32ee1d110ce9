use cluster_session::adapter::SessionRedisClusterPool;
use cluster_session::command::{Command, Request};
use cluster_session::keyspace::Keyspace;
use cluster_session::reply::Reply;

const NOW: u64 = 1_700_000_000;

fn adapter() -> SessionRedisClusterPool<()> {
    SessionRedisClusterPool::from(())
}

fn store(keyspace: &mut Keyspace, id: &str, payload: &str, expires: i64, now: u64) {
    let adapter = adapter();
    let reply = keyspace.serve(&adapter.store_request(id, payload, expires, "sessions"), now);
    assert_eq!(reply, Reply::Bulk(Vec::new()));
    assert_eq!(adapter.store_outcome(Ok(reply)), Ok(()));
}

fn load(keyspace: &mut Keyspace, id: &str, now: u64) -> Option<String> {
    let adapter = adapter();
    let reply = keyspace.serve(&adapter.load_request(id, "sessions"), now);
    adapter.load_outcome(Ok(reply)).unwrap()
}

fn is_there(keyspace: &mut Keyspace, id: &str, now: u64) -> bool {
    let adapter = adapter();
    let reply = keyspace.serve(&adapter.exists_request(id, "sessions"), now);
    adapter.exists_outcome(Ok(reply)).unwrap()
}

fn count(keyspace: &mut Keyspace, now: u64) -> i64 {
    let adapter = adapter();
    let reply = keyspace.serve(&adapter.count_request("sessions"), now);
    adapter.count_outcome(Ok(reply)).unwrap()
}

fn delete(keyspace: &mut Keyspace, id: &str, now: u64) {
    let adapter = adapter();
    let reply = keyspace.serve(&adapter.delete_one_by_id_request(id, "sessions"), now);
    assert_eq!(adapter.delete_one_by_id_outcome(Ok(reply)), Ok(()));
}

fn delete_all(keyspace: &mut Keyspace, now: u64) {
    let adapter = adapter();
    let reply = keyspace.serve(&adapter.delete_all_request("sessions"), now);
    assert_eq!(reply, Reply::Okay);
    assert_eq!(adapter.delete_all_outcome(Ok(reply)), Ok(()));
}

fn ids(keyspace: &mut Keyspace, now: u64) -> Vec<String> {
    let adapter = adapter();
    let reply = keyspace.serve(&adapter.get_ids_request("sessions"), now);
    let mut ids = adapter.get_ids_outcome(Ok(reply)).unwrap();
    ids.sort();
    ids
}

#[test]
fn session_lifecycle() {
    let mut keyspace = Keyspace::new();
    store(&mut keyspace, "sess1", "{\"count\":1}", NOW as i64 + 3600, NOW);
    assert_eq!(load(&mut keyspace, "sess1", NOW), Some("{\"count\":1}".to_string()));
    assert!(is_there(&mut keyspace, "sess1", NOW));
    assert!(count(&mut keyspace, NOW) >= 1);
    delete(&mut keyspace, "sess1", NOW);
    assert_eq!(load(&mut keyspace, "sess1", NOW), None);
}

#[test]
fn round_trip_keeps_the_payload() {
    let payloads = ["", "x", "{\"count\":1}", "line\r\nbreak", "\u{e4}\u{20ac}\u{10348}", "\0"];
    for payload in payloads {
        let mut keyspace = Keyspace::new();
        store(&mut keyspace, "id", payload, NOW as i64 + 1, NOW);
        assert_eq!(load(&mut keyspace, "id", NOW), Some(payload.to_string()));
    }
}

#[test]
fn round_trip_holds_until_the_expiry() {
    let mut keyspace = Keyspace::new();
    store(&mut keyspace, "id", "p", NOW as i64 + 10, NOW);
    assert_eq!(load(&mut keyspace, "id", NOW + 9), Some("p".to_string()));
    assert!(is_there(&mut keyspace, "id", NOW + 9));
    assert_eq!(load(&mut keyspace, "id", NOW + 10), None);
    assert!(!is_there(&mut keyspace, "id", NOW + 10));
    assert_eq!(count(&mut keyspace, NOW + 10), 0);
}

#[test]
fn a_store_replaces_payload_and_expiry() {
    let mut keyspace = Keyspace::new();
    store(&mut keyspace, "id", "old", NOW as i64 + 10, NOW);
    store(&mut keyspace, "id", "new", NOW as i64 + 100, NOW + 5);
    assert_eq!(load(&mut keyspace, "id", NOW + 50), Some("new".to_string()));
    assert_eq!(count(&mut keyspace, NOW + 50), 1);
    assert_eq!(load(&mut keyspace, "id", NOW + 100), None);
}

#[test]
fn an_expiry_in_the_past_removes_at_once() {
    let mut keyspace = Keyspace::new();
    store(&mut keyspace, "id", "p", NOW as i64 - 1, NOW);
    assert_eq!(load(&mut keyspace, "id", NOW), None);
    store(&mut keyspace, "id", "p", NOW as i64, NOW);
    assert_eq!(load(&mut keyspace, "id", NOW), None);
    assert_eq!(count(&mut keyspace, NOW), 0);
}

#[test]
fn an_expiry_before_the_epoch_leaves_no_record() {
    for expires in [-1i64, -3600, i64::MIN] {
        for now in [0u64, 1, NOW, u64::MAX] {
            let mut keyspace = Keyspace::new();
            store(&mut keyspace, "id", "p", expires, now);
            assert_eq!(load(&mut keyspace, "id", now), None);
            assert!(!is_there(&mut keyspace, "id", now));
            assert_eq!(count(&mut keyspace, now), 0);
            assert_eq!(ids(&mut keyspace, now), Vec::<String>::new());
        }
    }
    let mut keyspace = Keyspace::new();
    store(&mut keyspace, "id", "old", NOW as i64 + 10, NOW);
    store(&mut keyspace, "id", "new", -1, NOW);
    assert_eq!(load(&mut keyspace, "id", NOW), None);
}

#[test]
fn an_expiry_beyond_32_bits_is_kept() {
    let mut keyspace = Keyspace::new();
    store(&mut keyspace, "id", "p", 5_000_000_000, 4_999_999_990);
    assert_eq!(load(&mut keyspace, "id", 4_999_999_999), Some("p".to_string()));
    assert_eq!(load(&mut keyspace, "id", 5_000_000_000), None);
}

#[test]
fn an_unknown_id_is_not_found() {
    let mut keyspace = Keyspace::new();
    assert_eq!(load(&mut keyspace, "never", NOW), None);
    assert!(!is_there(&mut keyspace, "never", NOW));
    store(&mut keyspace, "other", "p", NOW as i64 + 5, NOW);
    assert_eq!(load(&mut keyspace, "never", NOW), None);
    assert!(!is_there(&mut keyspace, "never", NOW));
}

#[test]
fn deleting_an_unknown_id_is_no_error() {
    let mut keyspace = Keyspace::new();
    delete(&mut keyspace, "never", NOW);
    store(&mut keyspace, "kept", "p", NOW as i64 + 5, NOW);
    delete(&mut keyspace, "never", NOW);
    delete(&mut keyspace, "never", NOW);
    assert_eq!(load(&mut keyspace, "kept", NOW), Some("p".to_string()));
    assert_eq!(count(&mut keyspace, NOW), 1);
}

#[test]
fn exists_follows_store_and_delete() {
    let mut keyspace = Keyspace::new();
    assert!(!is_there(&mut keyspace, "id", NOW));
    store(&mut keyspace, "id", "p", NOW as i64 + 5, NOW);
    assert!(is_there(&mut keyspace, "id", NOW));
    delete(&mut keyspace, "id", NOW);
    assert!(!is_there(&mut keyspace, "id", NOW));
    assert_eq!(load(&mut keyspace, "id", NOW), None);
}

#[test]
fn delete_all_empties_the_keyspace() {
    let mut keyspace = Keyspace::new();
    store(&mut keyspace, "a", "1", NOW as i64 + 5, NOW);
    store(&mut keyspace, "b", "2", NOW as i64 + 5, NOW);
    assert_eq!(count(&mut keyspace, NOW), 2);
    assert_eq!(ids(&mut keyspace, NOW), vec!["a".to_string(), "b".to_string()]);
    delete_all(&mut keyspace, NOW);
    assert_eq!(count(&mut keyspace, NOW), 0);
    assert_eq!(ids(&mut keyspace, NOW), Vec::<String>::new());
    delete_all(&mut keyspace, NOW);
    assert_eq!(count(&mut keyspace, NOW), 0);
}

#[test]
fn the_sweep_does_nothing_whatever_was_stored() {
    let mut keyspace = Keyspace::new();
    store(&mut keyspace, "a", "1", NOW as i64 + 5, NOW);
    store(&mut keyspace, "b", "2", NOW as i64 - 5, NOW);
    let adapter = adapter();
    assert_eq!(adapter.delete_by_expiry("sessions"), Ok(Vec::new()));
    assert!(adapter.auto_handles_expiry());
    assert_eq!(count(&mut keyspace, NOW), 1);
}

#[test]
fn stores_under_distinct_ids_do_not_touch_each_other() {
    let mut keyspace = Keyspace::new();
    let n = 40;
    for caller in 0..n {
        let id = format!("sess{}", caller);
        let payload = format!("payload of {}", caller);
        store(&mut keyspace, &id, &payload, NOW as i64 + 100 + caller, NOW);
    }
    for caller in (0..n).rev() {
        let id = format!("sess{}", caller);
        assert_eq!(load(&mut keyspace, &id, NOW + 99), Some(format!("payload of {}", caller)));
    }
    assert_eq!(count(&mut keyspace, NOW + 99), n);
    assert_eq!(ids(&mut keyspace, NOW + 99).len(), n as usize);
}

#[test]
fn interleaved_pipelines_do_not_touch_each_other() {
    let mut keyspace = Keyspace::new();
    let commands = [
        Command::SetValue { key: "a".to_string(), value: "1".to_string() },
        Command::SetValue { key: "b".to_string(), value: "2".to_string() },
        Command::ExpireAt { key: "b".to_string(), at: NOW + 20 },
        Command::ExpireAt { key: "a".to_string(), at: NOW + 10 },
    ];
    for command in &commands {
        keyspace.execute(command, NOW);
    }
    assert_eq!(load(&mut keyspace, "a", NOW + 9), Some("1".to_string()));
    assert_eq!(load(&mut keyspace, "b", NOW + 9), Some("2".to_string()));
    assert_eq!(load(&mut keyspace, "a", NOW + 10), None);
    assert_eq!(load(&mut keyspace, "b", NOW + 19), Some("2".to_string()));
}

#[test]
fn every_interleaving_leaves_the_same_table() {
    let set = |key: &str, value: &str| Command::SetValue {
        key: key.to_string(),
        value: value.to_string(),
    };
    let expire = |key: &str, at: u64| Command::ExpireAt { key: key.to_string(), at };
    let orders = [
        vec![set("a", "1"), expire("a", NOW + 10), set("b", "2"), expire("b", NOW + 20)],
        vec![set("b", "2"), expire("b", NOW + 20), set("a", "1"), expire("a", NOW + 10)],
        vec![set("a", "1"), set("b", "2"), expire("a", NOW + 10), expire("b", NOW + 20)],
        vec![set("b", "2"), set("a", "1"), expire("a", NOW + 10), expire("b", NOW + 20)],
        vec![set("a", "1"), set("b", "2"), expire("b", NOW + 20), expire("a", NOW + 10)],
        vec![set("b", "2"), set("a", "1"), expire("b", NOW + 20), expire("a", NOW + 10)],
    ];
    for commands in orders {
        let mut keyspace = Keyspace::new();
        store(&mut keyspace, "kept", "0", NOW as i64 + 5, NOW);
        store(&mut keyspace, "a", "old", NOW as i64 + 500, NOW);
        for command in &commands {
            keyspace.execute(command, NOW);
        }
        assert_eq!(
            ids(&mut keyspace, NOW),
            vec!["a".to_string(), "b".to_string(), "kept".to_string()]
        );
        assert_eq!(load(&mut keyspace, "kept", NOW + 4), Some("0".to_string()));
        assert_eq!(load(&mut keyspace, "kept", NOW + 5), None);
        assert_eq!(load(&mut keyspace, "a", NOW + 9), Some("1".to_string()));
        assert_eq!(load(&mut keyspace, "a", NOW + 10), None);
        assert_eq!(load(&mut keyspace, "b", NOW + 19), Some("2".to_string()));
        assert_eq!(load(&mut keyspace, "b", NOW + 20), None);
    }
}

#[test]
fn each_command_has_its_answer() {
    let mut keyspace = Keyspace::new();
    let key = || "k".to_string();
    assert_eq!(keyspace.execute(&Command::Get { key: key() }, NOW), Reply::Nil);
    assert_eq!(keyspace.execute(&Command::Exists { key: key() }, NOW), Reply::Int(0));
    assert_eq!(keyspace.execute(&Command::Del { key: key() }, NOW), Reply::Int(0));
    assert_eq!(
        keyspace.execute(&Command::ExpireAt { key: key(), at: NOW + 5 }, NOW),
        Reply::Int(0)
    );
    assert_eq!(
        keyspace.execute(&Command::SetValue { key: key(), value: "v".to_string() }, NOW),
        Reply::Okay
    );
    assert_eq!(keyspace.execute(&Command::Get { key: key() }, NOW), Reply::Data(b"v".to_vec()));
    assert_eq!(keyspace.execute(&Command::Exists { key: key() }, NOW), Reply::Int(1));
    assert_eq!(keyspace.execute(&Command::DbSize, NOW), Reply::Int(1));
    assert_eq!(
        keyspace.execute(&Command::Keys, NOW),
        Reply::Bulk(vec![Reply::Data(b"k".to_vec())])
    );
    assert_eq!(
        keyspace.execute(&Command::ExpireAt { key: key(), at: NOW + 5 }, NOW),
        Reply::Int(1)
    );
    assert_eq!(keyspace.execute(&Command::Del { key: key() }, NOW), Reply::Int(1));
    assert_eq!(keyspace.execute(&Command::FlushDb, NOW), Reply::Okay);
    assert_eq!(keyspace.execute(&Command::DbSize, NOW), Reply::Int(0));
    assert_eq!(keyspace.execute(&Command::Keys, NOW), Reply::Bulk(Vec::new()));
}

#[test]
fn a_value_without_expiry_stays() {
    let mut keyspace = Keyspace::new();
    keyspace.execute(&Command::SetValue { key: "k".to_string(), value: "v".to_string() }, NOW);
    assert_eq!(load(&mut keyspace, "k", u64::MAX), Some("v".to_string()));
    let again = Request::One(Command::SetValue { key: "k".to_string(), value: "w".to_string() });
    keyspace.serve(&Request::Batch(vec![Command::ExpireAt { key: "k".to_string(), at: 5 }]), 1);
    assert_eq!(load(&mut keyspace, "k", 4), Some("v".to_string()));
    assert_eq!(keyspace.serve(&again, 4), Reply::Okay);
    assert_eq!(load(&mut keyspace, "k", 5), Some("w".to_string()));
}
