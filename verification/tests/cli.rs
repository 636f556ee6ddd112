use copilot_chat::auth::{document_of_config, token_of, AuthError, CopilotAuth};
use copilot_chat::chat::MessageType;
use copilot_chat::cli::{
    ChatSource, Cli, Command, CommandHandler, DirEntry, EntryKind, ExecutionType,
    RequestProtocol,
};
use copilot_chat::json::Json;

fn file(dir: &str, name: &str) -> DirEntry {
    DirEntry {
        name: Some(name.to_string()),
        path: format!("{}/{}", dir, name),
        kind: EntryKind::File,
    }
}

fn directory(parent: &str, name: &str, entries: Vec<DirEntry>) -> DirEntry {
    DirEntry {
        name: Some(name.to_string()),
        path: format!("{}/{}", parent, name),
        kind: EntryKind::Directory(entries),
    }
}

#[test]
fn expand_files() {
    let dir = "/tmp/listing";
    let mut expected_files = vec![];
    let mut listing = vec![];

    for d in vec!["subdir1", "subdir2"].iter() {
        let subdir = format!("{}/{}", dir, d);
        let mut entries = vec![];
        for f in vec!["file1.rs", "file2.rs"].iter() {
            entries.push(file(&subdir, f));
            entries.push(file(&subdir, &format!("{}_ignored.go", f.to_string())));
            expected_files.push(format!("{}/{}", subdir, f));
        }
        entries.push(file(&subdir, "should_be_ignored.py"));
        entries.push(file(&subdir, "randomrs"));
        listing.push(directory(dir, d, entries));
    }

    listing.push(file(dir, "root_file.rs"));
    expected_files.push(format!("{}/root_file.rs", dir));

    listing.push(file(dir, "ignored.rs"));
    listing.push(file(dir, "another.go"));

    let files = Some(vec!["*.rs".to_string()]);
    let exclude = Some(vec!["ignored.rs".to_string()]);

    let result = CommandHandler::expand_files_from_dir(&listing, files.as_ref(), exclude.as_ref());
    let mut expected = expected_files;

    let mut result = result.unwrap();
    result.sort();
    expected.sort();

    assert_eq!(result, expected)
}

#[test]
fn expansion_keeps_plain_arguments_and_their_order() {
    let listing = vec![
        file(".", "b.rs"),
        directory(".", "target", vec![file("./target", "gen.rs")]),
        directory(".", "src", vec![file("./src", "a.rs"), file("./src", "a.go")]),
        DirEntry { name: None, path: "./odd.rs".to_string(), kind: EntryKind::File },
        DirEntry { name: Some("link.rs".to_string()), path: "./link.rs".to_string(), kind: EntryKind::Other },
    ];
    let files = vec!["notes.md".to_string(), "*.rs".to_string(), "./src/a.rs".to_string()];
    let exclude = vec!["target".to_string()];
    assert_eq!(
        CommandHandler::expand_files_from_dir(&listing, Some(&files), Some(&exclude)),
        Some(vec![
            "notes.md".to_string(),
            "./b.rs".to_string(),
            "./odd.rs".to_string(),
            "./src/a.rs".to_string(),
        ])
    );
    assert_eq!(
        CommandHandler::expand_files_from_dir(&listing, Some(&vec!["*.go".to_string()]), None),
        Some(vec!["./src/a.go".to_string()])
    );
    assert_eq!(CommandHandler::expand_files_from_dir(&listing, None, Some(&exclude)), None);
    assert_eq!(
        CommandHandler::expand_files_from_dir(&listing, Some(&vec![]), None),
        Some(vec![])
    );
}

#[test]
fn pattern_without_extension_asks_for_a_trailing_dot() {
    let listing = vec![file(".", "a.rs"), file(".", "dot."), file(".", "x*")];
    assert_eq!(
        CommandHandler::expand_files_from_dir(&listing, Some(&vec!["src/*".to_string()]), None),
        Some(vec!["./dot.".to_string()])
    );
}

fn cli(command: Option<Command>, files: Option<Vec<String>>) -> Cli {
    Cli { command, files, exclude: None, token_path: None, prompt: None, model: None }
}

#[test]
fn plan_follows_the_subcommand() {
    let args = cli(Some(Command::Tcp { port: Some("5000".to_string()) }), None);
    let plan = CommandHandler::new(&args, None).plan();
    assert!(plan.is_tcp);
    assert_eq!(plan.port, "5000");
    assert_eq!(plan.execution_type, ExecutionType::Interactive);

    let args = cli(Some(Command::Tcp { port: None }), None);
    let plan = CommandHandler::new(&args, None).plan();
    assert!(plan.is_tcp);
    assert_eq!(plan.port, "4000");

    let args = cli(Some(Command::Commit), Some(vec!["a.rs".to_string()]));
    let plan = CommandHandler::new(&args, Some("be brief")).plan();
    assert!(!plan.is_tcp);
    assert_eq!(plan.port, "4000");
    assert_eq!(plan.execution_type, ExecutionType::Once);
    match plan.message_type {
        MessageType::Commit(prompt) => assert_eq!(prompt, Some("be brief".to_string())),
        other => panic!("{:?}", other),
    }

    let args = cli(None, Some(vec!["a.rs".to_string()]));
    let handler = CommandHandler::new(&args, Some("explain"));
    assert_eq!(handler.user_prompt, Some("explain"));
    let plan = handler.plan();
    assert_eq!(plan.execution_type, ExecutionType::Exit);
    match plan.message_type {
        MessageType::Code { user_prompt, files } => {
            assert_eq!(user_prompt, Some("explain".to_string()));
            assert_eq!(files, Some(vec!["a.rs".to_string()]));
        }
        other => panic!("{:?}", other),
    }
}

#[test]
fn subcommands_decide_how_a_run_is_carried_out() {
    assert_eq!(ExecutionType::from(&Command::Tcp { port: None }), ExecutionType::Interactive);
    assert_eq!(ExecutionType::from(&Command::Commit), ExecutionType::Once);
    assert_eq!(ExecutionType::from(&Command::Models), ExecutionType::Exit);
    assert_eq!(ExecutionType::from(&Command::Clear), ExecutionType::Exit);
}

#[test]
fn input_names_a_file_before_the_at_sign() {
    let request = RequestProtocol::from_input("src/main.rs:1-5@explain this");
    assert_eq!(request.prompt, "explain this");
    assert_eq!(request.files, Some(vec!["src/main.rs:1-5".to_string()]));

    let request = RequestProtocol::from_input("just a prompt\n");
    assert_eq!(request.prompt, "just a prompt\n");
    assert_eq!(request.files, None);

    let request = RequestProtocol::from_input("@mail me at a@b");
    assert_eq!(request.prompt, "mail me at a@b");
    assert_eq!(request.files, None);

    let request = RequestProtocol::from_input("f@");
    assert_eq!(request.prompt, "");
    assert_eq!(request.files, Some(vec!["f".to_string()]));

    let request = RequestProtocol::from_input("");
    assert_eq!(request.prompt, "");
    assert_eq!(request.files, None);
}

const CONFIG: &str =
    "{\"github.com:Iv1.b507a08c87ecfe98\":{\"user\":\"me\",\"oauth_token\":\"SECRET-REDACTED\",\"githubAppId\":\"Iv1.b507a08c87ecfe98\"}}\n";

#[test]
fn token_is_read_from_the_configuration() {
    let auth = CopilotAuth::new(CONFIG).expect("a configuration");
    assert_eq!(auth.get_token(), Some("SECRET-REDACTED"));
    assert_eq!(
        document_of_config(CONFIG),
        Some(
            "{\"user\":\"me\",\"oauth_token\":\"SECRET-REDACTED\",\"githubAppId\":\"Iv1.b507a08c87ecfe98\"}"
                .to_string()
        )
    );
}

#[test]
fn configuration_without_a_token_gives_none() {
    let config = "{\"github.com:Iv1.b507a08c87ecfe98\": {\"user\":\"me\"} }";
    assert_eq!(CopilotAuth::new(config).expect("a configuration").get_token(), None);
    let config = "{\"github.com:Iv1.b507a08c87ecfe98\":{\"oauth_token\":null}}";
    assert_eq!(CopilotAuth::new(config).expect("a configuration").get_token(), None);
    let bare = "{\"a\":\"no colon after the name\"}";
    assert!(bare.len() >= 14 && !bare[14..].contains(':'));
    assert_eq!(document_of_config(bare), Some(bare.to_string()));
    assert_eq!(CopilotAuth::new(bare).expect("a configuration").get_token(), None);
}

#[test]
fn configuration_of_another_form_is_refused() {
    assert_eq!(CopilotAuth::new("").err(), Some(AuthError::EmptyConfig));
    assert_eq!(CopilotAuth::new("{}").err(), Some(AuthError::Malformed));
    assert_eq!(CopilotAuth::new("{\"github.com:Iv1.b5\":   ").err(), Some(AuthError::Malformed));
    assert_eq!(
        CopilotAuth::new("{\"github.com:Iv1.b5\":{\"oauth_token\":5}}").err(),
        Some(AuthError::Malformed)
    );
    assert_eq!(CopilotAuth::new("{\"github.com:Iv1.b5\":[1]}").err(), Some(AuthError::Malformed));
    assert_eq!(CopilotAuth::new("{\"github.com:Iv1.b5\":{\"a\":1}").err(), Some(AuthError::Malformed));
}

#[test]
fn token_is_taken_from_the_document() {
    let doc = Json::Object(vec![("oauth_token".to_string(), Json::Text("t".to_string()))]);
    assert_eq!(token_of(&Some(doc)), Ok(Some("t".to_string())));
    assert_eq!(token_of(&Some(Json::Object(vec![]))), Ok(None));
    assert_eq!(token_of(&Some(Json::Array(vec![]))), Err(AuthError::Malformed));
    assert_eq!(token_of(&None), Err(AuthError::Malformed));
    assert_eq!(CopilotAuth::with_token(Some("x".to_string())).get_token(), Some("x"));
    assert_eq!(CopilotAuth::with_token(None).get_token(), None);
}

#[test]
fn input_that_says_exit_ends_the_run() {
    assert!(RequestProtocol::from_input("exit\n").asks_to_exit());
    assert!(RequestProtocol::from_input("  \texit \u{a0}\r\n").asks_to_exit());
    assert!(RequestProtocol::from_input("a.rs@ exit").asks_to_exit());
    assert!(!RequestProtocol::from_input("exit now").asks_to_exit());
    assert!(!RequestProtocol::from_input("Exit").asks_to_exit());
    assert!(!RequestProtocol::from_input("").asks_to_exit());
}

#[test]
fn input_becomes_a_request_for_code() {
    match RequestProtocol::from_input("a.rs:1-2@  fix this \n").into_message_type() {
        MessageType::Code { user_prompt, files } => {
            assert_eq!(user_prompt, Some("fix this".to_string()));
            assert_eq!(files, Some(vec!["a.rs:1-2".to_string()]));
        }
        other => panic!("{:?}", other),
    }
    match RequestProtocol::from_input(" \n").into_message_type() {
        MessageType::Code { user_prompt, files } => {
            assert_eq!(user_prompt, Some(String::new()));
            assert_eq!(files, None);
        }
        other => panic!("{:?}", other),
    }
}

#[test]
fn listing_is_needed_only_for_patterns() {
    assert!(CommandHandler::has_pattern(&vec!["a.rs".to_string(), "*.rs".to_string()]));
    assert!(CommandHandler::has_pattern(&vec!["src/*".to_string()]));
    assert!(!CommandHandler::has_pattern(&vec!["a.rs".to_string(), "b.rs:1-2".to_string()]));
    assert!(!CommandHandler::has_pattern(&vec![]));
}

#[test]
fn subcommands_decide_where_the_chat_comes_from() {
    let source = |command| CommandHandler::new(&cli(command, None), None).chat_source();
    assert_eq!(source(Some(Command::Commit)), ChatSource::Fresh);
    assert_eq!(source(Some(Command::Tcp { port: None })), ChatSource::Stored);
    assert_eq!(source(None), ChatSource::Stored);
    assert_eq!(source(Some(Command::Models)), ChatSource::Detached);
    assert_eq!(source(Some(Command::Clear)), ChatSource::Detached);
}
