use dustdb::cluster::Cluster;
use dustdb::commands::{classify, dispatch, handle_command, handle_line};
use dustdb::db::Database;
use dustdb::protocol::CommandType;

fn fresh() -> (Database, Cluster) {
    (Database::new(), Cluster::new())
}

#[test]
fn set_then_get() {
    let (mut db, mut cluster) = fresh();
    assert_eq!(handle_command("SET foo bar", &mut db, &mut cluster), "+OK");
    assert_eq!(handle_command("GET foo", &mut db, &mut cluster), "bar");
    assert_eq!(db.get("foo"), Some("bar".to_string()));
}

#[test]
fn get_missing_is_nil() {
    let (mut db, mut cluster) = fresh();
    assert_eq!(handle_command("GET missing", &mut db, &mut cluster), "(nil)");
}

#[test]
fn del_existing_then_again() {
    let (mut db, mut cluster) = fresh();
    handle_command("SET foo bar", &mut db, &mut cluster);
    assert_eq!(handle_command("DEL foo", &mut db, &mut cluster), ":1");
    assert_eq!(handle_command("DEL foo", &mut db, &mut cluster), ":0");
    assert_eq!(handle_command("DEL foo", &mut db, &mut cluster), ":0");
}

#[test]
fn keys_lists_both_keys() {
    let (mut db, mut cluster) = fresh();
    handle_command("SET a 1", &mut db, &mut cluster);
    handle_command("SET b 2", &mut db, &mut cluster);
    let reply = handle_command("KEYS", &mut db, &mut cluster);
    assert!(reply == "a, b" || reply == "b, a");
    assert_eq!(reply, "a, b");
}

#[test]
fn keys_of_empty_store_is_empty_text() {
    let (mut db, mut cluster) = fresh();
    assert_eq!(handle_command("KEYS", &mut db, &mut cluster), "");
}

#[test]
fn keys_of_one_key_has_no_separator() {
    let (mut db, mut cluster) = fresh();
    handle_command("SET only 1", &mut db, &mut cluster);
    assert_eq!(handle_command("KEYS", &mut db, &mut cluster), "only");
}

#[test]
fn keys_ignores_further_tokens() {
    let (mut db, mut cluster) = fresh();
    handle_command("SET a 1", &mut db, &mut cluster);
    assert_eq!(handle_command("KEYS whatever else", &mut db, &mut cluster), "a");
}

#[test]
fn unknown_command_is_an_error() {
    let (mut db, mut cluster) = fresh();
    assert_eq!(handle_command("FROB", &mut db, &mut cluster), "-ERR unknown command");
    assert_eq!(handle_command("FROB a b", &mut db, &mut cluster), "-ERR unknown command");
}

#[test]
fn empty_line_gets_no_reply_and_next_command_is_answered() {
    let (mut db, mut cluster) = fresh();
    assert_eq!(handle_line("", &mut db, &mut cluster), None);
    assert_eq!(handle_line("   \t \r\n", &mut db, &mut cluster), None);
    assert_eq!(handle_line("\u{3000}\u{a0}", &mut db, &mut cluster), None);
    assert_eq!(handle_line("PING", &mut db, &mut cluster), Some("+PONG".to_string()));
    assert_eq!(handle_line("SET a 1\n", &mut db, &mut cluster), Some("+OK".to_string()));
    assert_eq!(handle_line("  GET a  \r\n", &mut db, &mut cluster), Some("1".to_string()));
}

#[test]
fn command_without_tokens_is_unknown() {
    let (mut db, mut cluster) = fresh();
    assert_eq!(handle_command("", &mut db, &mut cluster), "-ERR unknown command");
    assert_eq!(handle_command("   ", &mut db, &mut cluster), "-ERR unknown command");
}

#[test]
fn ping_with_any_arity() {
    let (mut db, mut cluster) = fresh();
    assert_eq!(handle_command("PING", &mut db, &mut cluster), "+PONG");
    assert_eq!(handle_command("PING a b c", &mut db, &mut cluster), "+PONG");
}

#[test]
fn command_name_counts_in_any_case() {
    let (mut db, mut cluster) = fresh();
    assert_eq!(handle_command("ping", &mut db, &mut cluster), "+PONG");
    assert_eq!(handle_command("sEt Key Value", &mut db, &mut cluster), "+OK");
    assert_eq!(handle_command("get Key", &mut db, &mut cluster), "Value");
    assert_eq!(handle_command("get key", &mut db, &mut cluster), "(nil)");
    assert_eq!(handle_command("keys", &mut db, &mut cluster), "Key");
    assert_eq!(handle_command("Del Key", &mut db, &mut cluster), ":1");
    assert_eq!(handle_command("clusterjoin h:1", &mut db, &mut cluster), "+OK peer added");
}

#[test]
fn command_name_is_upper_cased_as_unicode() {
    let (mut db, mut cluster) = fresh();
    assert_eq!(handle_command("p\u{131}ng", &mut db, &mut cluster), "+PONG");
    assert_eq!(handle_command("\u{17f}et a 1", &mut db, &mut cluster), "+OK");
    assert_eq!(db.get("a"), Some("1".to_string()));
}

#[test]
fn set_ignores_tokens_after_the_third() {
    let (mut db, mut cluster) = fresh();
    assert_eq!(handle_command("SET k v extra more", &mut db, &mut cluster), "+OK");
    assert_eq!(db.get("k"), Some("v".to_string()));
    assert_eq!(db.keys(), vec!["k".to_string()]);
}

#[test]
fn wrong_arity_is_an_unknown_command() {
    let (mut db, mut cluster) = fresh();
    db.set("a", "1");
    assert_eq!(handle_command("SET onlykey", &mut db, &mut cluster), "-ERR unknown command");
    assert_eq!(handle_command("SET", &mut db, &mut cluster), "-ERR unknown command");
    assert_eq!(handle_command("GET", &mut db, &mut cluster), "-ERR unknown command");
    assert_eq!(handle_command("GET a b", &mut db, &mut cluster), "-ERR unknown command");
    assert_eq!(handle_command("DEL", &mut db, &mut cluster), "-ERR unknown command");
    assert_eq!(handle_command("DEL a b", &mut db, &mut cluster), "-ERR unknown command");
    assert_eq!(handle_command("CLUSTERJOIN", &mut db, &mut cluster), "-ERR unknown command");
    assert_eq!(handle_command("CLUSTERJOIN a b", &mut db, &mut cluster), "-ERR unknown command");
    assert_eq!(db.keys(), vec!["a".to_string()]);
    assert_eq!(db.get("a"), Some("1".to_string()));
    assert_eq!(cluster.list_peers(), Vec::<String>::new());
}

#[test]
fn tokens_are_split_at_any_whitespace() {
    let (mut db, mut cluster) = fresh();
    assert_eq!(handle_command("\tSET\u{2003}k \u{3000} v\r\n", &mut db, &mut cluster), "+OK");
    assert_eq!(db.get("k"), Some("v".to_string()));
}

#[test]
fn cluster_join_registers_the_peer_once() {
    let (mut db, mut cluster) = fresh();
    assert_eq!(handle_command("CLUSTERJOIN 10.0.0.1:6379", &mut db, &mut cluster), "+OK peer added");
    assert_eq!(handle_command("CLUSTERJOIN 10.0.0.2:6379", &mut db, &mut cluster), "+OK peer added");
    assert_eq!(handle_command("CLUSTERJOIN 10.0.0.1:6379", &mut db, &mut cluster), "+OK peer added");
    assert_eq!(
        cluster.list_peers(),
        vec!["10.0.0.1:6379".to_string(), "10.0.0.2:6379".to_string()]
    );
    assert_eq!(db.keys(), Vec::<String>::new());
}

#[test]
fn get_returns_a_value_that_looks_like_a_reply() {
    let (mut db, mut cluster) = fresh();
    handle_command("SET k (nil)", &mut db, &mut cluster);
    assert_eq!(handle_command("GET k", &mut db, &mut cluster), "(nil)");
    assert_eq!(handle_command("DEL k", &mut db, &mut cluster), ":1");
}

#[test]
fn classify_tells_the_command() {
    assert_eq!(classify("PING", 1), Some(CommandType::Ping));
    assert_eq!(classify("PING", 7), Some(CommandType::Ping));
    assert_eq!(classify("SET", 3), Some(CommandType::SetValue));
    assert_eq!(classify("SET", 4), Some(CommandType::SetValue));
    assert_eq!(classify("SET", 2), None);
    assert_eq!(classify("GET", 2), Some(CommandType::Get));
    assert_eq!(classify("GET", 1), None);
    assert_eq!(classify("GET", 3), None);
    assert_eq!(classify("DEL", 2), Some(CommandType::Del));
    assert_eq!(classify("DEL", 3), None);
    assert_eq!(classify("KEYS", 1), Some(CommandType::Keys));
    assert_eq!(classify("KEYS", 5), Some(CommandType::Keys));
    assert_eq!(classify("CLUSTERJOIN", 2), Some(CommandType::ClusterJoin));
    assert_eq!(classify("CLUSTERJOIN", 1), None);
    assert_eq!(classify("ping", 1), None);
    assert_eq!(classify("", 0), None);
    assert_eq!(classify("PINGS", 1), None);
}

#[test]
fn dispatch_takes_the_name_as_given() {
    let (mut db, mut cluster) = fresh();
    let parts = vec!["whatever", "k", "v"];
    assert_eq!(dispatch("SET", &parts, &mut db, &mut cluster), "+OK");
    assert_eq!(db.get("k"), Some("v".to_string()));
    assert_eq!(dispatch("set", &parts, &mut db, &mut cluster), "-ERR unknown command");
    let two = vec!["x", "k"];
    assert_eq!(dispatch("GET", &two, &mut db, &mut cluster), "v");
    assert_eq!(dispatch("DEL", &two, &mut db, &mut cluster), ":1");
    assert_eq!(dispatch("GET", &two, &mut db, &mut cluster), "(nil)");
    assert_eq!(dispatch("PING", &Vec::new(), &mut db, &mut cluster), "+PONG");
    assert_eq!(dispatch("GET", &Vec::new(), &mut db, &mut cluster), "-ERR unknown command");
}
