use bhg::cli::{describe, parse_command, Command};
use bhg::config::{default_document, initialize, parse_variables};
use bhg::failure::Failure;
use bhg::storage::{extension_of, join_path, template_name, StorageRoot};
use bhg::variables::Value;

fn words(ws: &[&str]) -> Vec<String> {
    ws.iter().map(|w| w.to_string()).collect()
}

#[test]
fn extension_is_what_follows_the_last_dot() {
    assert_eq!(extension_of("out.txt"), Ok("txt".to_string()));
    assert_eq!(extension_of("archive.tar.gz"), Ok("gz".to_string()));
    assert_eq!(extension_of("/home/ada/notes/today.md"), Ok("md".to_string()));
    assert_eq!(extension_of("dir/.hidden.txt"), Ok("txt".to_string()));
    assert_eq!(extension_of("a.b/c.d"), Ok("d".to_string()));
    assert_eq!(extension_of("..."), Ok(String::new()));
}

#[test]
fn extension_may_be_empty() {
    assert_eq!(extension_of("out."), Ok(String::new()));
}

#[test]
fn path_without_extension_is_refused() {
    assert_eq!(extension_of("out"), Err(Failure::MissingExtension));
    assert_eq!(extension_of(""), Err(Failure::MissingExtension));
    assert_eq!(extension_of("a.b/out"), Err(Failure::MissingExtension));
    assert_eq!(extension_of("./out"), Err(Failure::MissingExtension));
    assert_eq!(extension_of("dir.d/"), Err(Failure::MissingExtension));
}

#[test]
fn leading_dot_opens_no_extension() {
    assert_eq!(extension_of(".bashrc"), Err(Failure::MissingExtension));
    assert_eq!(extension_of("dir/.bashrc"), Err(Failure::MissingExtension));
    assert_eq!(extension_of("."), Err(Failure::MissingExtension));
}

#[test]
fn parent_directory_has_no_extension() {
    assert_eq!(extension_of(".."), Err(Failure::MissingExtension));
    assert_eq!(extension_of("a/.."), Err(Failure::MissingExtension));
}

#[test]
fn template_is_named_after_the_extension() {
    assert_eq!(template_name("txt"), "base.txt");
    assert_eq!(template_name("md"), "base.md");
    assert_eq!(template_name(""), "base.");
    assert_ne!(template_name("txt"), template_name("md"));
}

#[test]
fn paths_are_joined_with_one_slash() {
    assert_eq!(join_path("/home/ada", "x"), "/home/ada/x");
    assert_eq!(join_path("/home/ada/", "x"), "/home/ada/x");
    assert_eq!(join_path("", "x"), "x");
    assert_eq!(join_path("/", "x"), "/x");
    assert_eq!(join_path("a", ""), "a/");
}

#[test]
fn storage_root_lies_under_the_home_directory() {
    let root = StorageRoot::under_home("/home/ada");
    assert_eq!(root.directory, "/home/ada/.config/bhg");
    assert_eq!(root.variables_path(), "/home/ada/.config/bhg/variables.json");
    assert_eq!(root.template_path("txt"), "/home/ada/.config/bhg/base.txt");
    assert_eq!(StorageRoot::under_home("/").directory, "/.config/bhg");
}

#[test]
fn storage_root_can_be_any_directory() {
    let root = StorageRoot::new("/tmp/injected/");
    assert_eq!(root, StorageRoot { directory: "/tmp/injected/".to_string() });
    assert_eq!(root.variables_path(), "/tmp/injected/variables.json");
    assert_eq!(root.template_path("md"), "/tmp/injected/base.md");
}

#[test]
fn template_for_an_output_path() {
    let root = StorageRoot::new("/cfg");
    assert_eq!(root.template_for("/work/letter.txt"), Ok("/cfg/base.txt".to_string()));
    assert_eq!(root.template_for("/work/letter"), Err(Failure::MissingExtension));
    // Another extension asks for another file: `base.md` does not serve `txt`.
    assert_ne!(root.template_for("a.txt"), root.template_for("a.md"));
}

#[test]
fn command_needs_an_argument() {
    assert_eq!(parse_command(&words(&[])), None);
    assert_eq!(parse_command(&words(&["bhg"])), None);
}

#[test]
fn init_is_asked_for_by_two_flags() {
    assert_eq!(parse_command(&words(&["bhg", "--init"])), Some(Command::Init));
    assert_eq!(parse_command(&words(&["bhg", "-i"])), Some(Command::Init));
    assert_eq!(parse_command(&words(&["bhg", "-i", "ignored"])), Some(Command::Init));
}

#[test]
fn other_arguments_ask_for_a_document() {
    assert_eq!(
        parse_command(&words(&["bhg", "out.txt", "hello,", "world", "!"])),
        Some(Command::Generate {
            output: "out.txt".to_string(),
            description: "hello, world !".to_string(),
        })
    );
    assert_eq!(
        parse_command(&words(&["bhg", "out.txt"])),
        Some(Command::Generate { output: "out.txt".to_string(), description: String::new() })
    );
    assert_eq!(
        parse_command(&words(&["bhg", "--initial", "--init"])),
        Some(Command::Generate {
            output: "--initial".to_string(),
            description: "--init".to_string(),
        })
    );
}

#[test]
fn description_joins_words_with_spaces() {
    let args = words(&["a", "b c", "", "d"]);
    assert_eq!(describe(&args, 0), "a b c  d");
    assert_eq!(describe(&args, 1), "b c  d");
    assert_eq!(describe(&args, 3), "d");
    assert_eq!(describe(&args, 4), "");
}

#[test]
fn configuration_is_read_from_a_json_object() {
    let vars = parse_variables(r#"{"name": "Ada", "count": 5, "flag": true, "none": null}"#).unwrap();
    assert_eq!(vars.len(), 4);
    assert_eq!(vars.get("name"), Some(&Value::Text("Ada".to_string())));
    assert_eq!(vars.get("count"), Some(&Value::Opaque));
    assert_eq!(vars.get("flag"), Some(&Value::Opaque));
    assert_eq!(vars.get("none"), Some(&Value::Opaque));
    assert_eq!(vars.get("other"), None);
}

#[test]
fn configuration_may_be_empty() {
    assert_eq!(parse_variables("{}").unwrap().len(), 0);
}

#[test]
fn configuration_keeps_the_last_of_a_name() {
    let vars = parse_variables(r#"{"a": "1", "a": "2"}"#).unwrap();
    assert_eq!(vars.len(), 1);
    assert_eq!(vars.get("a"), Some(&Value::Text("2".to_string())));
}

#[test]
fn configuration_that_is_no_object_is_refused() {
    for text in ["", "not json", "[1, 2]", "\"text\"", "{\"a\": ", "{\"a\": 1} trailing"] {
        match parse_variables(text) {
            Err(e) => assert_eq!(e, Failure::ConfigParseError, "{:?}", text),
            Ok(_) => panic!("{:?} was read", text),
        }
    }
}

#[test]
fn default_configuration_names_john_doe() {
    assert_eq!(default_document(), "{\n    \"name\": \"John Doe\"\n}");
}

#[test]
fn default_configuration_can_be_read_again() {
    let vars = parse_variables(&default_document()).unwrap();
    assert_eq!(vars.len(), 1);
    assert_eq!(vars.get("name"), Some(&Value::Text("John Doe".to_string())));
}

#[test]
fn initialization_writes_only_once() {
    assert_eq!(initialize(false), Ok(default_document()));
    assert_eq!(initialize(true), Err(Failure::AlreadyInitialized));
}

#[test]
fn failures_name_their_stage() {
    assert_eq!(Failure::ConfigMissing.message(), "failed to read variables");
    assert_eq!(Failure::ConfigParseError.message(), "failed to parse variables");
    assert_eq!(Failure::TemplateNotFound.message(), "failed to read base file");
    assert_eq!(Failure::MissingExtension.message(), "failed to get output file extension");
    assert_eq!(Failure::NonStringVariable.message(), "variable is not a string");
    assert_eq!(Failure::EmptyDocument.message(), "failed to get longest line");
    assert_eq!(Failure::WriteError.message(), "failed to write output file");
    assert_eq!(Failure::AlreadyInitialized.message(), "variables.json already exists");
}

#[test]
fn members_are_bound_in_turn() {
    let members = vec![
        ("a".to_string(), Some("1".to_string())),
        ("b".to_string(), None),
        ("a".to_string(), Some("2".to_string())),
    ];
    let vars = bhg::config::variables_of(Ok(members)).unwrap();
    assert_eq!(vars.len(), 2);
    assert_eq!(vars.find("a"), Some(0));
    assert_eq!(vars.get("a"), Some(&Value::Text("2".to_string())));
    assert_eq!(vars.get("b"), Some(&Value::Opaque));
}

#[test]
fn failure_to_read_is_a_parse_error() {
    let failed = serde_json::from_str::<bool>("no").unwrap_err();
    match bhg::config::variables_of(Err(failed)) {
        Err(e) => assert_eq!(e, Failure::ConfigParseError),
        Ok(_) => panic!("variables from a failure"),
    }
}
