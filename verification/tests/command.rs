use see::command::{chosen, parser, pull, remember, to_record, Command, ParseConfig};
use see::resolver::{resolve, ResolveError};
use see::store::{Data, ListItem};

fn args(a: &[&str]) -> Vec<String> {
    a.iter().map(|s| s.to_string()).collect()
}

fn config(cmd: &str, query: &str, dest: &str) -> ParseConfig {
    ParseConfig { cmd: cmd.to_string(), query: query.to_string(), dest: dest.to_string() }
}

fn store() -> Data {
    Data {
        cookie: Some("tok".to_string()),
        list: Some(vec![
            ListItem { name: "one".to_string(), value: "https://github.com/u/one".to_string() },
            ListItem { name: "bad".to_string(), value: "nothing".to_string() },
        ]),
    }
}

#[test]
fn no_arguments_select_into_the_current_directory() {
    assert_eq!(ParseConfig::new(&args(&[])), config("select", "", "."));
}

#[test]
fn one_argument() {
    assert_eq!(ParseConfig::new(&args(&["select"])), config("select", "", "."));
    assert_eq!(ParseConfig::new(&args(&["user/name"])), config("pull", "user/name", "."));
    assert_eq!(ParseConfig::new(&args(&["pull"])), config("pull", "pull", "."));
}

#[test]
fn two_arguments() {
    assert_eq!(ParseConfig::new(&args(&["user/name", "out"])), config("pull", "user/name", "out"));
    assert_eq!(ParseConfig::new(&args(&["pull", "user/name"])), config("pull", "user/name", "."));
    assert_eq!(ParseConfig::new(&args(&["set-token", "tok"])), config("set-token", "tok", "."));
    assert_eq!(ParseConfig::new(&args(&["select", "out"])), config("select", "out", "out"));
}

#[test]
fn three_arguments_and_more() {
    assert_eq!(
        ParseConfig::new(&args(&["pull", "user/name", "out"])),
        config("pull", "user/name", "out")
    );
    assert_eq!(ParseConfig::new(&args(&["a", "b", "c", "d"])), config("a", "b", "c"));
}

#[test]
fn the_three_verbs() {
    assert!(ParseConfig::is_inner_cmd("select"));
    assert!(ParseConfig::is_inner_cmd("set-token"));
    assert!(ParseConfig::is_inner_cmd("pull"));
    assert!(!ParseConfig::is_inner_cmd("push"));
    assert!(!ParseConfig::is_inner_cmd(""));
    assert!(!ParseConfig::is_inner_cmd("Select"));
}

#[test]
fn select_offers_the_stored_names() {
    assert_eq!(
        parser(&args(&["select", "out"]), &store()),
        Command::Select { options: args(&["one", "bad"]), dest: "out".to_string() }
    );
    assert_eq!(
        parser(&args(&[]), &Data::default()),
        Command::Select { options: vec![], dest: ".".to_string() }
    );
}

#[test]
fn set_token_stores_its_query() {
    assert_eq!(
        parser(&args(&["set-token", "abc"]), &store()),
        Command::SetToken { token: "abc".to_string() }
    );
}

#[test]
fn pull_resolves_before_anything_is_fetched() {
    assert_eq!(
        parser(&args(&["gitlab:grp/proj", "out"]), &store()),
        Command::Pull {
            reference: resolve("gitlab:grp/proj").unwrap(),
            dest: "out".to_string(),
            token: Some("tok".to_string()),
            record: true,
        }
    );
    assert_eq!(
        parser(&args(&["pull", "nothing"]), &store()),
        Command::Reject { error: ResolveError::NotEnoughArguments }
    );
    assert_eq!(
        parser(&args(&["bitbucket:u/r"]), &Data::default()),
        Command::Reject { error: ResolveError::UnsupportedProvider }
    );
    assert_eq!(
        pull("user/.git", ".", &None, true),
        Command::Reject { error: ResolveError::MissingSegment }
    );
}

#[test]
fn unknown_verbs_are_invalid() {
    assert_eq!(
        parser(&args(&["push", "user/name", "out"]), &store()),
        Command::Invalid { cmd: "push".to_string() }
    );
}

#[test]
fn chosen_template_is_pulled() {
    assert_eq!(
        chosen(&store(), Some("one"), "out"),
        Command::Pull {
            reference: resolve("https://github.com/u/one").unwrap(),
            dest: "out".to_string(),
            token: Some("tok".to_string()),
            record: false,
        }
    );
}

#[test]
fn cancelled_prompt_exits_with_code_1() {
    assert_eq!(chosen(&store(), None, "out"), Command::Exit { code: 1 });
}

#[test]
fn unknown_or_bad_template_is_rejected() {
    assert_eq!(
        chosen(&store(), Some("two"), "out"),
        Command::Reject { error: ResolveError::NotEnoughArguments }
    );
    assert_eq!(
        chosen(&store(), Some("bad"), "out"),
        Command::Reject { error: ResolveError::NotEnoughArguments }
    );
}

#[test]
fn pulled_reference_is_remembered() {
    let r = resolve("gitlab:grp/proj.git").unwrap();
    let list = remember(&store(), &r);
    assert_eq!(list.len(), 3);
    assert_eq!(list[0].name, "one");
    assert_eq!(list[1].name, "bad");
    assert_eq!(
        list[2],
        ListItem { name: "proj".to_string(), value: "https://gitlab.com/grp/proj".to_string() }
    );
    assert_eq!(
        remember(&Data::default(), &r),
        vec![ListItem { name: "proj".to_string(), value: "https://gitlab.com/grp/proj".to_string() }]
    );
}

#[test]
fn commands_that_end_the_run() {
    assert_eq!(Command::Reject { error: ResolveError::NotEnoughArguments }.exit_code(), Some(1));
    assert_eq!(Command::Reject { error: ResolveError::UnsupportedProvider }.exit_code(), Some(1));
    assert_eq!(Command::Exit { code: 3 }.exit_code(), Some(3));
    assert_eq!(Command::SetToken { token: "t".to_string() }.exit_code(), None);
    assert_eq!(Command::Invalid { cmd: "x".to_string() }.exit_code(), None);
    assert_eq!(pull("user/name", ".", &None, true).exit_code(), None);
}

#[test]
fn root_of_the_crate_offers_the_entry_points() {
    let data = see::read_from_see(None);
    assert_eq!(data, see::Data { cookie: None, list: None });
    assert_eq!(
        see::parser(&args(&["set-token", "t"]), &data),
        Command::SetToken { token: "t".to_string() }
    );
    let item = see::ListItem { name: "n".to_string(), value: "v".to_string() };
    let written = see::write_to_see(data, "list", see::store::StoreValue::Items(vec![item.clone()]));
    assert_eq!(written, Ok(see::Data { cookie: None, list: Some(vec![item]) }));
}

#[test]
fn pull_by_argument_is_recorded_once_fetched() {
    let data = store();
    let command = parser(&args(&["pull", "gitlab:grp/proj"]), &data);
    let (reference, record) = match command {
        Command::Pull { reference, record, .. } => (reference, record),
        other => panic!("{:?}", other),
    };
    assert!(record);
    assert_eq!(to_record(&data, &reference, record, true), Some(remember(&data, &reference)));
    assert_eq!(to_record(&data, &reference, record, false), None);
}

#[test]
fn selected_template_leaves_the_store_alone() {
    let data = store();
    let (reference, record) = match chosen(&data, Some("one"), "out") {
        Command::Pull { reference, record, .. } => (reference, record),
        other => panic!("{:?}", other),
    };
    assert!(!record);
    assert_eq!(to_record(&data, &reference, record, true), None);
    assert_eq!(to_record(&data, &reference, record, false), None);
}
