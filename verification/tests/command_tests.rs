use minikv::command::{Command, Persist};
use minikv::command_type::CommandType;
use minikv::errors;
use minikv::item::Item;
use minikv::protocol::{error_line, reply_line};

fn words(ws: &[&str]) -> Vec<String> {
    ws.iter().map(|w| w.to_string()).collect()
}

fn empty_store() -> Item {
    Item::new(&[], &[]).unwrap()
}

#[test]
fn test_analyze_command_get_valid() {
    let args = vec!["get".to_string(), "mi_clave".to_string()];
    let cmd = Command::analyze_command(&args).unwrap();
    if let Command::Get { key } = cmd {
        assert_eq!(key, "mi_clave");
    } else {
        panic!("Debería ser Command::Get");
    }
}

#[test]
fn test_analyze_command_set_valid() {
    let args = vec!["set".to_string(), "k".to_string(), "v".to_string()];
    let cmd = Command::analyze_command(&args).unwrap();
    if let Command::SetKey { key, value } = cmd {
        assert_eq!(key, "k");
        assert_eq!(value, Some("v".to_string()));
    } else {
        panic!("Debería ser Command::Set");
    }
}

#[test]
fn test_analyze_command_missing_arg() {
    let args = vec!["get".to_string()];
    let res = Command::analyze_command(&args);
    assert!(res.is_err());
    assert_eq!(res.unwrap_err(), errors::MISSING_ARGUMENT);
}

#[test]
fn test_analyze_command_extra_arg() {
    let args = vec!["length".to_string(), "algo_mas".to_string()];
    let res = Command::analyze_command(&args);
    assert!(res.is_err());
    assert_eq!(res.unwrap_err(), errors::EXTRA_ARGUMENT);
}

#[test]
fn analyze_unknown_and_empty() {
    assert_eq!(Command::analyze_command(&[]).unwrap_err(), errors::UNKNOWN_COMMAND);
    assert_eq!(
        Command::analyze_command(&words(&["SET", "k", "v"])).unwrap_err(),
        errors::UNKNOWN_COMMAND
    );
    assert_eq!(
        Command::analyze_command(&words(&["delete", "k"])).unwrap_err(),
        errors::UNKNOWN_COMMAND
    );
}

#[test]
fn analyze_all_shapes() {
    assert!(matches!(Command::analyze_command(&words(&["length"])), Ok(Command::Length)));
    assert!(matches!(Command::analyze_command(&words(&["snapshot"])), Ok(Command::Snapshot)));
    assert_eq!(
        Command::analyze_command(&words(&["snapshot", "x"])).unwrap_err(),
        errors::EXTRA_ARGUMENT
    );
    assert_eq!(
        Command::analyze_command(&words(&["get", "a", "b"])).unwrap_err(),
        errors::EXTRA_ARGUMENT
    );
    assert_eq!(
        Command::analyze_command(&words(&["set"])).unwrap_err(),
        errors::MISSING_ARGUMENT
    );
    assert_eq!(
        Command::analyze_command(&words(&["set", "a", "b", "c"])).unwrap_err(),
        errors::EXTRA_ARGUMENT
    );
    match Command::analyze_command(&words(&["set", "k"])) {
        Ok(Command::SetKey { key, value }) => {
            assert_eq!(key, "k");
            assert_eq!(value, None);
        }
        _ => panic!("expected an unset"),
    }
}

#[test]
fn command_type_keywords() {
    assert_eq!(CommandType::from_keyword("set"), Ok(CommandType::SetKey));
    assert_eq!(CommandType::from_keyword("get"), Ok(CommandType::Get));
    assert_eq!(CommandType::from_keyword("length"), Ok(CommandType::Length));
    assert_eq!(CommandType::from_keyword("snapshot"), Ok(CommandType::Snapshot));
    assert_eq!(
        CommandType::from_keyword("Get"),
        Err(errors::UNKNOWN_COMMAND.to_string())
    );
    assert_eq!("length".parse::<CommandType>(), Ok(CommandType::Length));
    assert_eq!(
        "lengthy".parse::<CommandType>(),
        Err(errors::UNKNOWN_COMMAND.to_string())
    );
}

#[test]
fn execute_readme_session() {
    let mut items = empty_store();
    let run = |items: &mut Item, ws: &[&str]| {
        Command::analyze_command(&words(ws)).unwrap().execute(items)
    };
    assert_eq!(run(&mut items, &["set", "clave1", "valor1"]), Ok(None));
    assert_eq!(run(&mut items, &["set", "clave2", "valor2"]), Ok(None));
    assert_eq!(run(&mut items, &["get", "clave1"]), Ok(Some("valor1".to_string())));
    assert_eq!(run(&mut items, &["length"]), Ok(Some("2".to_string())));
    assert_eq!(run(&mut items, &["set", "clave1"]), Ok(None));
    assert_eq!(
        run(&mut items, &["get", "clave1"]),
        Err(errors::NOT_FOUND.to_string())
    );
    assert_eq!(run(&mut items, &["length"]), Ok(Some("1".to_string())));
    assert_eq!(run(&mut items, &["snapshot"]), Ok(None));
    assert_eq!(run(&mut items, &["get", "clave2"]), Ok(Some("valor2".to_string())));
}

#[test]
fn execute_overwrite_and_unset_missing() {
    let mut items = empty_store();
    let set = |k: &str, v: &str| Command::SetKey { key: k.to_string(), value: Some(v.to_string()) };
    set("a", "1").execute(&mut items).unwrap();
    set("a", "2").execute(&mut items).unwrap();
    assert_eq!(items.get("a"), Some(&"2".to_string()));
    assert_eq!(items.length(), 1);
    Command::SetKey { key: "zz".to_string(), value: None }.execute(&mut items).unwrap();
    assert_eq!(items.length(), 1);
}

#[test]
fn execute_length_counts_many() {
    let mut items = empty_store();
    for i in 0..1234 {
        items.set(format!("k{}", i), "v".to_string());
    }
    assert_eq!(Command::Length.execute(&mut items), Ok(Some("1234".to_string())));
    assert_eq!(Command::Length.execute(&mut empty_store()), Ok(Some("0".to_string())));
}

#[test]
fn pending_write_of_each_command() {
    let mut items = empty_store();
    items.set("a b".to_string(), "say \"hi\"".to_string());
    let set = Command::SetKey { key: "k".to_string(), value: Some("v w".to_string()) };
    match set.pending_write(&items) {
        Persist::AppendLog(line) => assert_eq!(line, "set k \"v w\""),
        _ => panic!("expected a log record"),
    }
    let unset = Command::SetKey { key: "k\\1".to_string(), value: None };
    match unset.pending_write(&items) {
        Persist::AppendLog(line) => assert_eq!(line, "set \"k\\\\1\""),
        _ => panic!("expected a log record"),
    }
    match Command::Snapshot.pending_write(&items) {
        Persist::WriteSnapshot(lines) => {
            assert_eq!(lines, vec!["\"a b\" \"say \\\"hi\\\"\"".to_string()])
        }
        _ => panic!("expected snapshot lines"),
    }
    assert!(matches!(
        Command::Get { key: "a".to_string() }.pending_write(&items),
        Persist::Nothing
    ));
    assert!(matches!(Command::Length.pending_write(&items), Persist::Nothing));
}

#[test]
fn reply_lines() {
    assert_eq!(reply_line(&Ok(None)), "OK");
    assert_eq!(reply_line(&Ok(Some("valor1".to_string()))), "valor1");
    assert_eq!(
        reply_line(&Err(errors::NOT_FOUND.to_string())),
        "ERROR \"NOT FOUND\""
    );
    assert_eq!(error_line(errors::INVALID_ARGS), "ERROR \"INVALID ARGS\"");
}

#[test]
fn commit_after_failed_write_keeps_the_store() {
    let mut items = empty_store();
    items.set("a".to_string(), "1".to_string());
    let set = Command::SetKey { key: "a".to_string(), value: Some("2".to_string()) };
    assert_eq!(
        set.commit(&mut items, Err("disk full".to_string())),
        Err("disk full".to_string())
    );
    assert_eq!(items.get("a"), Some(&"1".to_string()));
    let unset = Command::SetKey { key: "a".to_string(), value: None };
    assert_eq!(unset.commit(&mut items, Err("no log".to_string())), Err("no log".to_string()));
    assert_eq!(items.length(), 1);
}

#[test]
fn commit_after_write_runs_the_command() {
    let mut items = empty_store();
    let set = Command::SetKey { key: "a".to_string(), value: Some("2".to_string()) };
    assert_eq!(set.commit(&mut items, Ok(())), Ok(None));
    assert_eq!(items.get("a"), Some(&"2".to_string()));
    let get = Command::Get { key: "a".to_string() };
    assert_eq!(get.commit(&mut items, Ok(())), Ok(Some("2".to_string())));
    let missing = Command::Get { key: "b".to_string() };
    assert_eq!(missing.commit(&mut items, Ok(())), Err(errors::NOT_FOUND.to_string()));
}
