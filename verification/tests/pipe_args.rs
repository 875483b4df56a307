use htipc::pipe_args::{
    argv_from_json, argv_from_named, argv_from_py, argv_from_values, join, ArgsError, Cli, Commands, JsonInput,
    PipeArgs,
};

fn strings(v: &[&str]) -> Vec<String> {
    v.iter().map(|s| s.to_string()).collect()
}

fn args(commands: Option<&[&str]>, json: Option<bool>) -> PipeArgs {
    PipeArgs {
        addr: "SimpleGui".to_string(),
        commands: commands.map(strings),
        connect_timeout: None,
        read_timeout: None,
        write_timeout: None,
        json,
    }
}

#[test]
fn command_string_by_json_flag() {
    assert_eq!(args(Some(&["draw", "a b"]), None).get_command_string(), "draw a b");
    assert_eq!(args(Some(&["draw", "x"]), Some(false)).get_command_string(), "draw x");
    assert_eq!(
        args(Some(&["draw", "x"]), Some(true)).get_command_string(),
        "[\"draw\",\"x\"]"
    );
    assert_eq!(
        args(Some(&["say \"hi\"", "back\\slash"]), Some(true)).get_command_string(),
        "[\"say \\\"hi\\\"\",\"back\\\\slash\"]"
    );
    assert_eq!(args(Some(&[]), Some(true)).get_command_string(), "[]");
    assert_eq!(
        args(Some(&["a\tb\n", "\u{1}\u{1f}\u{8}\u{c}\r/\u{7f}é", ""]), Some(true)).get_command_string(),
        "[\"a\\tb\\n\",\"\\u0001\\u001f\\b\\f\\r/\u{7f}é\",\"\"]"
    );
    assert_eq!(args(None, Some(true)).get_command_string(), "{}");
    assert_eq!(args(None, Some(false)).get_command_string(), "");
    assert_eq!(args(None, None).get_command_string(), "");
    assert_eq!(args(Some(&[]), None).get_command_string(), "");
}

#[test]
fn address_has_the_pipe_prefix() {
    assert_eq!(args(None, None).get_addr_string(), r"\\.\pipe\SimpleGui");
}

#[test]
fn join_puts_the_separator_between_items() {
    assert_eq!(join(&strings(&[]), ", "), "");
    assert_eq!(join(&strings(&["a"]), ", "), "a");
    assert_eq!(join(&strings(&["a", "", "c"]), ", "), "a, , c");
}

#[test]
fn argv_lists_program_positionals_then_flags() {
    let kw = vec![
        ("json".to_string(), "true".to_string()),
        ("read_timeout".to_string(), "10".to_string()),
    ];
    assert_eq!(
        argv_from_values("PipeArgs", &strings(&["SimpleGui", "draw"]), &kw),
        strings(&["PipeArgs", "SimpleGui", "draw", "--json", "true", "--read_timeout", "10"])
    );
    assert_eq!(argv_from_values("P", &vec![], &vec![]), strings(&["P"]));
}

#[test]
fn argv_from_json_needs_array_and_object() {
    let a = JsonInput::Array(strings(&["\"SimpleGui\""]));
    let o = JsonInput::Object(vec![("json".to_string(), "true".to_string())]);
    assert_eq!(
        argv_from_json(&a, &o).unwrap(),
        strings(&["Cli", "\"SimpleGui\"", "--json", "true"])
    );
    assert_eq!(argv_from_json(&JsonInput::Scalar, &o), Err(ArgsError::NotArray));
    assert_eq!(argv_from_json(&o, &o), Err(ArgsError::NotArray));
    assert_eq!(argv_from_json(&a, &JsonInput::Scalar), Err(ArgsError::NotObject));
}

#[test]
fn unnamed_values_carry_no_flag() {
    let pairs = vec![
        ("".to_string(), "SimpleGui".to_string()),
        ("NA".to_string(), "draw".to_string()),
        ("json".to_string(), "true".to_string()),
        ("N".to_string(), "1".to_string()),
    ];
    assert_eq!(
        argv_from_named("PipeArgs", &pairs),
        strings(&["PipeArgs", "SimpleGui", "draw", "--json", "true", "--N", "1"])
    );
}

#[test]
fn cli_holds_a_command() {
    let cli = Cli { command: Commands::Search { pipename: "*Simple*".to_string() } };
    match cli.command {
        Commands::Search { pipename } => assert_eq!(pipename, "*Simple*"),
        _ => panic!("wrong command"),
    }
    let hello = Commands::Hello { opt: "a".to_string() };
    assert!(matches!(hello, Commands::Hello { .. }));
    let pipe = Commands::PIPE(args(Some(&["draw"]), Some(true)));
    if let Commands::PIPE(p) = pipe {
        assert_eq!(p.get_command_string(), "[\"draw\"]");
    }
}

#[test]
fn python_keyword_values_are_lowercased() {
    let kw = vec![
        ("json".to_string(), "True".to_string()),
        ("Read".to_string(), "ÀB".to_string()),
    ];
    assert_eq!(
        argv_from_py("PipeArgs", &strings(&["SimpleGui", "Draw"]), &kw),
        strings(&["PipeArgs", "SimpleGui", "Draw", "--json", "true", "--Read", "àb"])
    );
}
