use minikv::errors;
use minikv::item::Item;

fn lines(ls: &[&str]) -> Vec<String> {
    ls.iter().map(|l| l.to_string()).collect()
}

#[test]
fn test_split_line_simple() {
    let line = "set key value";
    let split = Item::split_line(line);
    assert_eq!(split, vec!["set", "key", "value"]);
}

#[test]
fn test_split_line_with_quotes() {
    let line = "set \"clave con espacios\" \"valor con espacios\"";
    let split = Item::split_line(line);
    assert_eq!(
        split,
        vec!["set", "clave con espacios", "valor con espacios"]
    );
}

#[test]
fn test_split_line_with_escaped_quotes() {
    let line = "set key \"valor con \\\"comillas\\\"\"";
    let split = Item::split_line(line);
    assert_eq!(split, vec!["set", "key", "valor con \"comillas\""]);
}

#[test]
fn test_split_line_with_backslash() {
    let line = "set key \"valor con \\\\ backslash\"";
    let split = Item::split_line(line);
    assert_eq!(split, vec!["set", "key", "valor con \\ backslash"]);
}

#[test]
fn split_line_edges() {
    assert_eq!(Item::split_line(""), Vec::<String>::new());
    assert_eq!(Item::split_line("   a    b  "), vec!["a", "b"]);
    assert_eq!(Item::split_line("\"\" x"), vec!["x"]);
    assert_eq!(Item::split_line("a\"b c\"d"), vec!["ab cd"]);
    assert_eq!(Item::split_line("ñandú \"á é\""), vec!["ñandú", "á é"]);
    assert_eq!(Item::split_line("tail\\"), vec!["tail"]);
}

#[test]
fn log_line_format() {
    assert_eq!(
        Item::log_line(&["set", "clave1", "valor1"]),
        Some("set clave1 valor1".to_string())
    );
    assert_eq!(Item::log_line(&["set", "clave1"]), Some("set clave1".to_string()));
    assert_eq!(
        Item::log_line(&["set", "a\"b", "c\\d"]),
        Some("set \"a\\\"b\" \"c\\\\d\"".to_string())
    );
    assert_eq!(
        Item::log_line(&["set", "k", "v w", ""]),
        Some("set k \"v w\" \"\"".to_string())
    );
    assert_eq!(Item::log_line(&[]), None);
}

#[test]
fn log_line_read_back() {
    let args = ["set", "clave con espacios", "valor \"raro\" \\ fin"];
    let line = Item::log_line(&args).unwrap();
    assert_eq!(Item::split_line(&line), args.to_vec());
}

#[test]
fn snapshot_lines_restore_the_store() {
    let mut items = Item::new(&[], &[]).unwrap();
    items.set("clave 1".to_string(), "valor \"1\"".to_string());
    items.set("k\\2".to_string(), "v2".to_string());
    items.set("k3".to_string(), "v3".to_string());
    items.unset("k3".to_string());
    let data = items.data_lines();
    assert_eq!(
        data,
        lines(&["\"clave 1\" \"valor \\\"1\\\"\"", "\"k\\\\2\" v2"])
    );
    let back = Item::new(&data, &[]).unwrap();
    assert_eq!(back.length(), 2);
    assert_eq!(back.get("clave 1"), Some(&"valor \"1\"".to_string()));
    assert_eq!(back.get("k\\2"), Some(&"v2".to_string()));
    assert_eq!(back.get("k3"), None);
}

#[test]
fn new_replays_data_then_log() {
    let data = lines(&["a 1", "\"b\" \"2\""]);
    let log = lines(&["set a 10", "set \"b\"", "set c 3", "set a"]);
    let items = Item::new(&data, &log).unwrap();
    assert_eq!(items.length(), 1);
    assert_eq!(items.get("a"), None);
    assert_eq!(items.get("b"), None);
    assert_eq!(items.get("c"), Some(&"3".to_string()));
}

#[test]
fn new_rejects_bad_files() {
    let bad_data = Item::new(&lines(&["a 1", "only_key"]), &[]);
    assert_eq!(bad_data.err(), Some(errors::INVALID_DATA_FILE.to_string()));
    let empty_line = Item::new(&lines(&[""]), &[]);
    assert_eq!(empty_line.err(), Some(errors::INVALID_DATA_FILE.to_string()));
    let bad_log = Item::new(&lines(&["a 1"]), &lines(&["get a"]));
    assert_eq!(bad_log.err(), Some(errors::INVALID_LOG_FILE.to_string()));
    let too_long = Item::new(&[], &lines(&["set a b c"]));
    assert_eq!(too_long.err(), Some(errors::INVALID_LOG_FILE.to_string()));
    let no_key = Item::new(&[], &lines(&["set"]));
    assert_eq!(no_key.err(), Some(errors::INVALID_LOG_FILE.to_string()));
    let blank = Item::new(&[], &lines(&["   "]));
    assert_eq!(blank.err(), Some(errors::INVALID_LOG_FILE.to_string()));
}

#[test]
fn read_data_stops_at_first_bad_line() {
    let mut items = Item::new(&[], &[]).unwrap();
    let r = items.read_data(&lines(&["a 1", "bad", "c 3"]));
    assert_eq!(r, Err(errors::INVALID_DATA_FILE.to_string()));
    assert_eq!(items.get("a"), Some(&"1".to_string()));
    assert_eq!(items.get("c"), None);
}

#[test]
fn read_log_stops_at_first_bad_line() {
    let mut items = Item::new(&[], &[]).unwrap();
    let r = items.read_log(&lines(&["set a 1", "length", "set c 3"]));
    assert_eq!(r, Err(errors::INVALID_LOG_FILE.to_string()));
    assert_eq!(items.get("a"), Some(&"1".to_string()));
    assert_eq!(items.get("c"), None);
    assert_eq!(items.read_log(&lines(&["set c 3"])), Ok(()));
    assert_eq!(items.length(), 2);
}

#[test]
fn store_get_set_unset() {
    let mut items = Item::new(&[], &[]).unwrap();
    assert_eq!(items.length(), 0);
    assert_eq!(items.get("x"), None);
    items.set("x".to_string(), "1".to_string());
    items.set("y".to_string(), "2".to_string());
    items.set("x".to_string(), "3".to_string());
    assert_eq!(items.length(), 2);
    assert_eq!(items.get("x"), Some(&"3".to_string()));
    items.unset("x".to_string());
    items.unset("x".to_string());
    assert_eq!(items.get("x"), None);
    assert_eq!(items.get("y"), Some(&"2".to_string()));
    assert_eq!(items.length(), 1);
}

#[test]
fn snapshot_lines_in_readme_format() {
    let mut items = Item::new(&[], &[]).unwrap();
    items.set("clave1".to_string(), "valor1".to_string());
    items.set("clave2".to_string(), "valor2".to_string());
    let data = items.data_lines();
    assert_eq!(data, lines(&["clave1 valor1", "clave2 valor2"]));
    let back = Item::new(&data, &lines(&["set clave2", "set clave3 valor3"])).unwrap();
    assert_eq!(back.length(), 2);
    assert_eq!(back.get("clave1"), Some(&"valor1".to_string()));
    assert_eq!(back.get("clave2"), None);
    assert_eq!(back.get("clave3"), Some(&"valor3".to_string()));
}
