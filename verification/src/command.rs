//! The commands of the tool: what the arguments ask for, and what is done for
//! each of `select`, `pull` and `set-token`. The prompt, the store and the
//! fetch are the caller's; a reference is resolved here before anything is
//! fetched.

use crate::resolver::{resolve, resolve_spec, RepositoryRef, RepositoryRefView, ResolveError};
use crate::store::{
    copy_items, items, items_of, lookup, names, names_of, value_of, Data, DataView, ItemView,
    ListItem,
};
use crate::text::{same_text, text_of, texts};
use vstd::prelude::*;
use vstd::string::*;

verus! {

/// The command record: a verb, what it is applied to, and a destination.
#[derive(Debug, Clone, PartialEq, Eq)]
pub struct ParseConfig {
    pub cmd: String,
    pub query: String,
    pub dest: String,
}

/// What a [`ParseConfig`] holds, as sequences of characters.
pub struct ConfigView {
    pub cmd: Seq<char>,
    pub query: Seq<char>,
    pub dest: Seq<char>,
}

impl View for ParseConfig {
    type V = ConfigView;

    open spec fn view(&self) -> ConfigView {
        ConfigView { cmd: self.cmd@, query: self.query@, dest: self.dest@ }
    }
}

/// Whether `cmd` is one of the three verbs.
pub open spec fn is_inner(cmd: Seq<char>) -> bool {
    cmd == "select"@ || cmd == "set-token"@ || cmd == "pull"@
}

/// The record that the arguments stand for. Without arguments, or with the
/// single argument `select`, a template is selected into the current
/// directory. A single other argument is pulled into it. Of two arguments the
/// first is the verb if it is one (the second is then its query, and for
/// `select` the destination too), else the two are the reference to pull and
/// the destination. Of three or more, the first three are taken as they come.
pub open spec fn config_of(args: Seq<Seq<char>>) -> ConfigView {
    if args.len() == 0 {
        ConfigView { cmd: "select"@, query: ""@, dest: "."@ }
    } else if args.len() == 1 {
        if args[0] == "select"@ {
            ConfigView { cmd: "select"@, query: ""@, dest: "."@ }
        } else {
            ConfigView { cmd: "pull"@, query: args[0], dest: "."@ }
        }
    } else if args.len() == 2 {
        if !is_inner(args[0]) {
            ConfigView { cmd: "pull"@, query: args[0], dest: args[1] }
        } else {
            ConfigView {
                cmd: args[0],
                query: args[1],
                dest: if args[0] == "select"@ {
                    args[1]
                } else {
                    "."@
                },
            }
        }
    } else {
        ConfigView { cmd: args[0], query: args[1], dest: args[2] }
    }
}

impl ParseConfig {
    /// The record that the arguments stand for.
    pub fn new(args: &[String]) -> (c: ParseConfig)
        ensures
            c@ == config_of(texts(args@)),
    {
        let n = args.len();
        if n == 0 {
            ParseConfig {
                cmd: String::from_str("select"),
                query: String::from_str(""),
                dest: String::from_str("."),
            }
        } else if n == 1 {
            if same_text(args[0].as_str(), "select") {
                ParseConfig {
                    cmd: String::from_str("select"),
                    query: String::from_str(""),
                    dest: String::from_str("."),
                }
            } else {
                ParseConfig {
                    cmd: String::from_str("pull"),
                    query: args[0].clone(),
                    dest: String::from_str("."),
                }
            }
        } else if n == 2 {
            if !ParseConfig::is_inner_cmd(args[0].as_str()) {
                ParseConfig {
                    cmd: String::from_str("pull"),
                    query: args[0].clone(),
                    dest: args[1].clone(),
                }
            } else {
                let dest = if same_text(args[0].as_str(), "select") {
                    args[1].clone()
                } else {
                    String::from_str(".")
                };
                ParseConfig { cmd: args[0].clone(), query: args[1].clone(), dest }
            }
        } else {
            ParseConfig { cmd: args[0].clone(), query: args[1].clone(), dest: args[2].clone() }
        }
    }

    /// Whether `cmd` is one of the three verbs.
    pub fn is_inner_cmd(cmd: &str) -> (b: bool)
        ensures
            b == is_inner(cmd@),
    {
        same_text(cmd, "select") || same_text(cmd, "set-token") || same_text(cmd, "pull")
    }
}

/// What is to be done.
#[derive(Debug, Clone, PartialEq, Eq)]
pub enum Command {
    /// Ask the user for one of the stored names, to be fetched into `dest`.
    Select { options: Vec<String>, dest: String },
    /// Store the token.
    SetToken { token: String },
    /// Fetch the archive of `reference` into `dest`; once it is fetched, the
    /// reference is written to the store if `record` is set.
    Pull { reference: RepositoryRef, dest: String, token: Option<String>, record: bool },
    /// The reference did not resolve: report it and exit with code 1.
    Reject { error: ResolveError },
    /// Exit with this code.
    Exit { code: i32 },
    /// The verb is none of the three: say so, and do nothing.
    Invalid { cmd: String },
}

/// What a [`Command`] holds, as sequences of characters.
pub enum CommandView {
    Select { options: Seq<Seq<char>>, dest: Seq<char> },
    SetToken { token: Seq<char> },
    Pull {
        reference: RepositoryRefView,
        dest: Seq<char>,
        token: Option<Seq<char>>,
        record: bool,
    },
    Reject { error: ResolveError },
    Exit { code: i32 },
    Invalid { cmd: Seq<char> },
}

impl View for Command {
    type V = CommandView;

    open spec fn view(&self) -> CommandView {
        match *self {
            Command::Select { options, dest } => CommandView::Select {
                options: texts(options@),
                dest: dest@,
            },
            Command::SetToken { token } => CommandView::SetToken { token: token@ },
            Command::Pull { reference, dest, token, record } => CommandView::Pull {
                reference: reference@,
                dest: dest@,
                token: text_of(token),
                record,
            },
            Command::Reject { error } => CommandView::Reject { error },
            Command::Exit { code } => CommandView::Exit { code },
            Command::Invalid { cmd } => CommandView::Invalid { cmd: cmd@ },
        }
    }
}

/// The code that the run ends with at once: 1 after a reference that did
/// not resolve, the code given for an exit, and none for any other command.
pub open spec fn exit_code_spec(c: CommandView) -> Option<i32> {
    match c {
        CommandView::Reject { .. } => Some(1),
        CommandView::Exit { code } => Some(code),
        _ => None,
    }
}

impl Command {
    /// The code that the run ends with at once, if this command ends it.
    pub fn exit_code(&self) -> (code: Option<i32>)
        ensures
            code == exit_code_spec(self@),
    {
        match self {
            Command::Reject { .. } => Some(1),
            Command::Exit { code } => Some(*code),
            _ => None,
        }
    }
}

/// The command for a reference that is to be pulled: the fetch of what it
/// resolves to, or its rejection.
pub open spec fn pull_of(
    query: Seq<char>,
    dest: Seq<char>,
    token: Option<Seq<char>>,
    record: bool,
) -> CommandView {
    match resolve_spec(query) {
        Ok(reference) => CommandView::Pull { reference, dest, token, record },
        Err(error) => CommandView::Reject { error },
    }
}

/// The command that the arguments stand for, given the store.
pub open spec fn command_of(args: Seq<Seq<char>>, data: DataView) -> CommandView {
    let config = config_of(args);
    if config.cmd == "select"@ {
        CommandView::Select { options: names_of(data), dest: config.dest }
    } else if config.cmd == "set-token"@ {
        CommandView::SetToken { token: config.query }
    } else if config.cmd == "pull"@ {
        pull_of(config.query, config.dest, data.cookie, true)
    } else {
        CommandView::Invalid { cmd: config.cmd }
    }
}

/// The command after the user was asked for a template: the run ends with
/// code 1 where the prompt gave no answer; else the reference stored under
/// the chosen name is pulled, and `not found` in its place where none is.
/// What was selected from the store is not written to it again.
pub open spec fn chosen_of(data: DataView, answer: Option<Seq<char>>, dest: Seq<char>) -> CommandView {
    match answer {
        None => CommandView::Exit { code: 1 },
        Some(name) => pull_of(
            match value_of(data, name) {
                Some(v) => v,
                None => "not found"@,
            },
            dest,
            data.cookie,
            false,
        ),
    }
}

/// The list to store after `reference` was pulled: the stored references and
/// one more, the name of the repository with its address.
pub open spec fn remembered(data: DataView, reference: RepositoryRefView) -> Seq<ItemView> {
    match data.list {
        Some(l) => l,
        None => Seq::empty(),
    }.push(ItemView { name: reference.name, value: reference.canonical_url })
}

fn copy_token(token: &Option<String>) -> (r: Option<String>)
    ensures
        text_of(r) == text_of(*token),
{
    match token {
        Some(t) => Some(t.clone()),
        None => None,
    }
}

/// What is written under `list` after a pull: the list with the reference in
/// it where the pull was to be recorded and the archive was fetched, and
/// nothing else.
pub open spec fn record_spec(
    data: DataView,
    reference: RepositoryRefView,
    record: bool,
    fetched: bool,
) -> Option<Seq<ItemView>> {
    if record && fetched {
        Some(remembered(data, reference))
    } else {
        None
    }
}

/// Resolves the reference to pull. Nothing is fetched for one that does not
/// resolve.
pub fn pull(query: &str, dest: &str, token: &Option<String>, record: bool) -> (c: Command)
    ensures
        c@ == pull_of(query@, dest@, text_of(*token), record),
{
    match resolve(query) {
        Ok(reference) => Command::Pull {
            reference,
            dest: String::from_str(dest),
            token: copy_token(token),
            record,
        },
        Err(error) => Command::Reject { error },
    }
}

/// Decides what the arguments ask for.
pub fn parser(args: &[String], data: &Data) -> (c: Command)
    ensures
        c@ == command_of(texts(args@), data@),
{
    let config = ParseConfig::new(args);
    if same_text(config.cmd.as_str(), "select") {
        Command::Select { options: names(data), dest: config.dest }
    } else if same_text(config.cmd.as_str(), "set-token") {
        Command::SetToken { token: config.query }
    } else if same_text(config.cmd.as_str(), "pull") {
        pull(config.query.as_str(), config.dest.as_str(), &data.cookie, true)
    } else {
        Command::Invalid { cmd: config.cmd }
    }
}

/// Decides what follows the prompt for a template: `answer` is the name
/// chosen, or `None` where the prompt gave none.
pub fn chosen(data: &Data, answer: Option<&str>, dest: &str) -> (c: Command)
    ensures
        c@ == chosen_of(
            data@,
            match answer {
                Some(a) => Some(a@),
                None => None,
            },
            dest@,
        ),
{
    match answer {
        None => Command::Exit { code: 1 },
        Some(name) => {
            let value = match lookup(data, name) {
                Some(v) => v,
                None => String::from_str("not found"),
            };
            pull(value.as_str(), dest, &data.cookie, false)
        },
    }
}

/// The list to store after `reference` was pulled.
pub fn remember(data: &Data, reference: &RepositoryRef) -> (r: Vec<ListItem>)
    ensures
        items(r@) == remembered(data@, reference@),
{
    let mut list = match &data.list {
        Some(l) => copy_items(l),
        None => {
            let l: Vec<ListItem> = Vec::new();
            assert(items(l@) =~= Seq::<ItemView>::empty());
            l
        },
    };
    let ghost before = items(list@);
    let item = ListItem { name: reference.name.clone(), value: reference.canonical_url.clone() };
    list.push(item);
    assert(items(list@) =~= before.push(item@));
    list
}

/// Decides what a pull leaves in the store: `record` is the mark of the
/// command, `fetched` whether the archive was fetched and unpacked. The list
/// given is to be written under `list`; nothing is written where none is
/// given.
pub fn to_record(data: &Data, reference: &RepositoryRef, record: bool, fetched: bool) -> (r: Option<
    Vec<ListItem>,
>)
    ensures
        r is Some <==> record && fetched,
        items_of(r) == record_spec(data@, reference@, record, fetched),
{
    if record && fetched {
        Some(remember(data, reference))
    } else {
        None
    }
}

/// A reference without `/` that is to be pulled is rejected for want of
/// arguments: no fetch is asked for.
pub proof fn law_malformed_pull_is_rejected(query: Seq<char>, dest: Seq<char>, data: DataView)
    requires
        forall|i: int| 0 <= i < query.len() ==> #[trigger] query[i] != '/',
    ensures
        command_of(seq!["pull"@, query, dest], data) == (CommandView::Reject {
            error: ResolveError::NotEnoughArguments,
        }),
        forall|record: bool|
            #[trigger] pull_of(query, dest, data.cookie, record) == (CommandView::Reject {
                error: ResolveError::NotEnoughArguments,
            }),
{
    reveal_strlit("pull");
    reveal_strlit("select");
    reveal_strlit("set-token");
    crate::resolver::law_no_separator_is_rejected(query);
    let args = seq!["pull"@, query, dest];
    assert(args.len() == 3 && args[0] == "pull"@ && args[1] == query && args[2] == dest);
    assert("pull"@.len() != "select"@.len());
    assert("pull"@.len() != "set-token"@.len());
    assert(config_of(args) == ConfigView { cmd: "pull"@, query, dest });
}

/// A name that the store does not hold leads to no fetch: what stands in for
/// its reference does not resolve.
pub proof fn law_unknown_template_is_rejected(data: DataView, name: Seq<char>, dest: Seq<char>)
    requires
        value_of(data, name) is None,
    ensures
        chosen_of(data, Some(name), dest) == (CommandView::Reject {
            error: ResolveError::NotEnoughArguments,
        }),
{
    reveal_strlit("not found");
    crate::resolver::law_no_separator_is_rejected("not found"@);
}

/// A template that was selected is fetched with the stored token, and the
/// store stays as it was: the command is not marked for the record, and
/// without the mark nothing is written, fetched or not.
pub proof fn law_select_stores_nothing(
    data: DataView,
    name: Seq<char>,
    dest: Seq<char>,
    fetched: bool,
)
    ensures
        chosen_of(data, Some(name), dest) matches CommandView::Pull {
            reference,
            dest: to,
            token,
            record,
        } ==> {
            &&& !record
            &&& to == dest
            &&& token == data.cookie
            &&& record_spec(data, reference, record, fetched) is None
        },
        value_of(data, name) matches Some(v) ==> chosen_of(data, Some(name), dest) == pull_of(
            v,
            dest,
            data.cookie,
            false,
        ),
{
}

/// A reference pulled by its argument is written to the store exactly where
/// its archive was fetched: the stored list gains the name of the repository
/// with its address.
pub proof fn law_pull_is_recorded_once_fetched(
    args: Seq<Seq<char>>,
    data: DataView,
    fetched: bool,
)
    ensures
        command_of(args, data) matches CommandView::Pull { reference, record, .. } ==> {
            &&& record
            &&& record_spec(data, reference, record, fetched) == if fetched {
                Some(remembered(data, reference))
            } else {
                None
            }
        },
{
}

} // verus!
