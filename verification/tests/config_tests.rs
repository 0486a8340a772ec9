use ragd::config::{add_arguments, settings, variable_arguments, Config};

fn strings(args: &[&str]) -> Vec<String> {
    args.iter().map(|s| s.to_string()).collect()
}

fn no_variables() -> Vec<Option<String>> {
    vec![None; 9]
}

fn required() -> Vec<&'static str> {
    vec![
        "ragd",
        "--data-dir",
        "/tmp/ragd-data",
        "--embed-endpoint",
        "http://localhost:8080/v1",
        "--embed-model",
        "test-embed",
        "--llm-endpoint",
        "http://localhost:8080/v1",
        "--llm-model",
        "test-llm",
    ]
}

fn with(extra: &[&str]) -> Vec<String> {
    let mut args = required();
    args.extend_from_slice(extra);
    strings(&args)
}

#[test]
fn parses_required_flags() {
    let config = Config::parse_from(
        &strings(&[
            "ragd",
            "--data-dir",
            "/tmp/ragd-data",
            "--embed-endpoint",
            "http://localhost:8080/v1",
            "--embed-model",
            "test-embed",
            "--llm-endpoint",
            "http://localhost:8080/v1",
            "--llm-model",
            "test-llm",
        ]),
        &no_variables(),
    )
    .expect("parses");

    assert_eq!(config.data_dir, "/tmp/ragd-data");
    assert_eq!(config.port, 20250);
    assert_eq!(config.embed_api_key, "");
    assert_eq!(config.llm_model, "test-llm");
}

#[test]
fn the_environment_fills_in_and_the_command_line_wins() {
    let mut variables = no_variables();
    variables[0] = Some("/from/env".to_string());
    variables[1] = Some("4000".to_string());
    variables[3] = Some("env-key".to_string());
    let config = Config::parse_from(&with(&["--port", "5000"]), &variables).expect("parses");
    assert_eq!(config.data_dir, "/tmp/ragd-data");
    assert_eq!(config.port, 5000);
    assert_eq!(config.embed_api_key, "env-key");
    assert_eq!(config.llm_api_key, "");
    assert_eq!(config.embed_dim, None);

    let config = Config::parse_from(&with(&["--embed-dim=768"]), &variables).expect("parses");
    assert_eq!(config.port, 4000);
    assert_eq!(config.embed_dim, Some(768));
}

#[test]
fn variables_are_named_like_the_flags() {
    let names: Vec<&str> = settings(true).iter().map(|f| f.value_name).collect();
    assert_eq!(
        names,
        vec![
            "DATA_DIR",
            "PORT",
            "EMBED_ENDPOINT",
            "EMBED_API_KEY",
            "EMBED_MODEL",
            "EMBED_DIM",
            "LLM_ENDPOINT",
            "LLM_API_KEY",
            "LLM_MODEL",
        ]
    );
}

#[test]
fn missing_flags_are_listed() {
    let error = Config::parse_from(&strings(&["ragd", "--data-dir", "/d"]), &no_variables())
        .expect_err("incomplete");
    assert_eq!(error.exit_code, 2);
    let expected = "error: the following required arguments were not provided:\n  \
                    --embed-endpoint <EMBED_ENDPOINT>\n  --embed-model <EMBED_MODEL>\n  \
                    --llm-endpoint <LLM_ENDPOINT>\n  --llm-model <LLM_MODEL>\n\nUsage: ragd ";
    assert!(error.message.starts_with(expected), "{}", error.message);

    let mut variables = no_variables();
    variables[2] = Some("http://e".to_string());
    variables[4] = Some("m".to_string());
    variables[6] = Some("http://l".to_string());
    let error = Config::parse_from(&strings(&["ragd", "--data-dir", "/d"]), &variables)
        .expect_err("incomplete");
    let expected = "error: the following required arguments were not provided:\n  \
                    --llm-model <LLM_MODEL>\n\nUsage: ragd ";
    assert!(error.message.starts_with(expected), "{}", error.message);
}

#[test]
fn a_program_that_opens_the_store_needs_the_dimension() {
    let error = Config::parse(&with(&[]), &no_variables()).expect_err("no dimension");
    assert_eq!(error.exit_code, 2);
    assert!(error.message.contains("\n  --embed-dim <EMBED_DIM>\n"), "{}", error.message);

    let config = Config::parse(&with(&["--embed-dim", "4"]), &no_variables()).expect("parses");
    assert_eq!(config.embed_dim, Some(4));
    let mut variables = no_variables();
    variables[5] = Some("768".to_string());
    let config = Config::parse(&with(&[]), &variables).expect("parses");
    assert_eq!(config.embed_dim, Some(768));
}

#[test]
fn ports_and_dimensions_are_numbers() {
    for (text, port) in [("0", 0), ("+80", 80), ("65535", 65535), ("0080", 80)] {
        let config = Config::parse_from(&with(&["--port", text]), &no_variables()).expect("port");
        assert_eq!(config.port, port);
    }
    let config = Config::parse_from(&with(&["--port=-0"]), &no_variables()).expect("port");
    assert_eq!(config.port, 0);
    for text in ["65536", "x", "", "+", "8 0", "99999999999999999999999"] {
        let argument = format!("--port={text}");
        let error =
            Config::parse_from(&with(&[&argument]), &no_variables()).expect_err("no port");
        assert_eq!(error.exit_code, 2);
        let expected = format!("error: invalid value '{text}' for '--port <PORT>': ");
        assert!(error.message.starts_with(&expected), "{}", error.message);
    }
    let error = Config::parse_from(&with(&["--embed-dim=-1"]), &no_variables())
        .expect_err("no dimension");
    let expected = "error: invalid value '-1' for '--embed-dim <EMBED_DIM>': ";
    assert!(error.message.starts_with(expected), "{}", error.message);
    let config = Config::parse_from(&with(&["--embed-dim=+007"]), &no_variables()).expect("parses");
    assert_eq!(config.embed_dim, Some(7));
}

#[test]
fn values_from_the_environment_are_checked_alike() {
    let mut variables = no_variables();
    variables[1] = Some("eighty".to_string());
    let error = Config::parse_from(&with(&[]), &variables).expect_err("no port");
    assert_eq!(error.exit_code, 2);
    let expected = "error: invalid value 'eighty' for '--port <PORT>': invalid digit found";
    assert!(error.message.starts_with(expected), "{}", error.message);
    // The command line comes first, and the variable is not looked at.
    let config = Config::parse_from(&with(&["--port", "80"]), &variables).expect("parses");
    assert_eq!(config.port, 80);
}

#[test]
fn the_data_directory_is_never_empty() {
    let mut args = required();
    args[2] = "";
    let error = Config::parse_from(&strings(&args), &no_variables()).expect_err("empty");
    assert_eq!(error.exit_code, 2);
    assert!(error.message.contains("'--data-dir <DATA_DIR>'"), "{}", error.message);

    let mut variables = no_variables();
    variables[0] = Some(String::new());
    let args = [&required()[..1], &required()[3..]].concat();
    let error = Config::parse_from(&strings(&args), &variables).expect_err("empty");
    assert!(error.message.contains("'--data-dir <DATA_DIR>'"), "{}", error.message);

    variables[0] = Some("/from/env".to_string());
    let config = Config::parse_from(&strings(&args), &variables).expect("parses");
    assert_eq!(config.data_dir, "/from/env");
}

#[test]
fn an_empty_variable_is_a_value() {
    let mut variables = no_variables();
    variables[1] = Some(String::new());
    let error = Config::parse_from(&with(&[]), &variables).expect_err("no port");
    assert!(error.message.starts_with("error: invalid value '' for '--port <PORT>'"));
    variables[1] = None;
    variables[2] = Some("ignored".to_string());
    variables[3] = Some(String::new());
    let config = Config::parse_from(&with(&[]), &variables).expect("parses");
    assert_eq!(config.embed_endpoint, "http://localhost:8080/v1");
    assert_eq!(config.embed_api_key, "");
}

#[test]
fn the_usage_line_does_not_depend_on_the_environment() {
    let help = |variables: &Vec<Option<String>>| {
        Config::parse(&strings(&["ragd", "--help"]), variables).expect_err("help").message
    };
    let usage = |message: &str| {
        let line = message.lines().find(|line| line.starts_with("Usage: "));
        line.expect("a usage line").to_string()
    };
    let all: Vec<Option<String>> = (1..10).map(|n| Some(n.to_string())).collect();
    assert_eq!(
        usage(&help(&no_variables())),
        "Usage: ragd [OPTIONS] --data-dir <DATA_DIR> --embed-endpoint <EMBED_ENDPOINT> \
         --embed-model <EMBED_MODEL> --embed-dim <EMBED_DIM> --llm-endpoint <LLM_ENDPOINT> \
         --llm-model <LLM_MODEL>"
    );
    assert_eq!(usage(&help(&all)), usage(&help(&no_variables())));

    let config = Config::parse(&strings(&["ragd"]), &all).expect("parses");
    assert_eq!((config.data_dir.as_str(), config.port, config.embed_dim), ("1", 2, Some(6)));
    let error = Config::parse(&strings(&["ragd", "--port", "x"]), &all).expect_err("no port");
    assert!(error.message.starts_with("error: invalid value 'x' for '--port <PORT>'"));
}

#[test]
fn the_command_line_is_looked_at_before_the_environment() {
    // Both values are wrong; that on the command line is reported.
    let mut variables = no_variables();
    variables[1] = Some("eighty".to_string());
    let error = Config::parse_from(&with(&["--embed-dim", "many"]), &variables).expect_err("wrong");
    assert!(error.message.contains("--embed-dim"), "{}", error.message);

    // Nothing but the mark that no flags follow: the variables still count.
    let mut variables = no_variables();
    variables[1] = Some("80".to_string());
    let config = Config::parse_from(&with(&["--"]), &variables).expect("parses");
    assert_eq!(config.port, 80);
    let error = Config::parse_from(&with(&["--", "more"]), &variables).expect_err("unknown");
    assert_eq!(error.exit_code, 2);
    let error = Config::parse_from(&Vec::new(), &variables).expect_err("incomplete");
    assert!(error.message.contains("--data-dir <DATA_DIR>"), "{}", error.message);
}

#[test]
fn variables_become_arguments_where_none_is_given() {
    let table = settings(false);
    let mut values = no_variables();
    let mut variables = no_variables();
    values[0] = Some("/given".to_string());
    variables[0] = Some("/env".to_string());
    variables[1] = Some(String::new());
    variables[8] = Some("a=b".to_string());
    let more = variable_arguments(&table, &values, &variables);
    assert_eq!(more, strings(&["--port=", "--llm-model=a=b"]));
    let joined = add_arguments(&strings(&["ragd", "--x"]), &more);
    assert_eq!(joined, strings(&["ragd", "--x", "--port=", "--llm-model=a=b"]));
    let joined = add_arguments(&strings(&["ragd", "--"]), &more);
    assert_eq!(joined, strings(&["ragd", "--port=", "--llm-model=a=b", "--"]));
    assert_eq!(add_arguments(&strings(&["--"]), &more)[0], "--");
    assert_eq!(add_arguments(&Vec::new(), &more)[0], "ragd");
}

#[test]
fn values_make_a_configuration() {
    let texts = ["/d", "080", "http://e", "", "m", "", "http://l", "k", "n"];
    let mut values: Vec<Option<String>> = texts.iter().map(|t| Some(t.to_string())).collect();
    values[5] = None;
    let config = Config::from_values(&values);
    assert_eq!(config.data_dir, "/d");
    assert_eq!(config.port, 80);
    assert_eq!(config.embed_dim, None);
    assert_eq!(config.llm_api_key, "k");
    values[5] = Some("1024".to_string());
    assert_eq!(Config::from_values(&values).embed_dim, Some(1024));
}

#[test]
fn unknown_arguments_and_help_end_the_program() {
    let error = Config::parse_from(&with(&["--nonsense"]), &no_variables()).expect_err("unknown");
    assert_eq!(error.exit_code, 2);
    assert!(error.message.contains("--nonsense"), "{}", error.message);

    let error = Config::parse_from(&with(&["--port", "1", "--port", "2"]), &no_variables())
        .expect_err("twice");
    assert_eq!(error.exit_code, 2);

    let mut variables = no_variables();
    variables[0] = Some("/data".to_string());
    variables[3] = Some("key".to_string());
    let help = Config::parse_from(&strings(&["ragd", "--help"]), &variables).expect_err("help");
    assert_eq!(help.exit_code, 0);
    for part in [
        "Generic RAG indexing/retrieval daemon\n\nUsage: ragd ",
        "Directory for persistent storage (the LanceDB database lives here) [env: DATA_DIR=/data]\n",
        "Port to listen on for the HTTP API [env: PORT=] [default: 20250]\n",
        "e.g. `http://localhost:8080/v1` [env: EMBED_ENDPOINT=]\n",
        "(may be empty for local servers) [env: EMBED_API_KEY=key] [default: \"\"]\n",
        "(may be empty for local servers) [env: LLM_API_KEY=] [default: \"\"]\n",
        "--llm-model <LLM_MODEL>",
    ] {
        assert!(help.message.contains(part), "{part}: {}", help.message);
    }
}
