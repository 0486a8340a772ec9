//! Command-line and environment configuration.

use crate::text::{
    chars_of, number_of, numeral, opt_text, opt_texts, read_number, same_text, texts,
    write_numeral,
};
use clap::builder::{
    NonEmptyStringValueParser, RangedU64ValueParser, TypedValueParser, ValueParserFactory,
};
use clap::{Arg, Command};
use vstd::prelude::*;
use vstd::string::*;

verus! {

/// Runtime configuration, from command-line flags or environment variables.
#[derive(Debug, Clone, PartialEq, Eq)]
pub struct Config {
    /// Directory for persistent storage (the LanceDB database lives here).
    pub data_dir: String,
    /// Port to listen on for the HTTP API.
    pub port: u16,
    /// OpenAI-compatible embeddings endpoint, e.g. `http://localhost:8080/v1`.
    pub embed_endpoint: String,
    /// API key for the embeddings endpoint (may be empty for local servers).
    pub embed_api_key: String,
    /// Embedding model name.
    pub embed_model: String,
    /// Dimensionality of the embedding model's output vectors.
    pub embed_dim: Option<usize>,
    /// OpenAI-compatible chat-completions endpoint.
    pub llm_endpoint: String,
    /// API key for the chat-completions endpoint (may be empty for local servers).
    pub llm_api_key: String,
    /// Chat/LLM model name.
    pub llm_model: String,
}

/// What a [`Config`] holds.
pub struct ConfigView {
    pub data_dir: Seq<char>,
    pub port: u16,
    pub embed_endpoint: Seq<char>,
    pub embed_api_key: Seq<char>,
    pub embed_model: Seq<char>,
    pub embed_dim: Option<usize>,
    pub llm_endpoint: Seq<char>,
    pub llm_api_key: Seq<char>,
    pub llm_model: Seq<char>,
}

impl View for Config {
    type V = ConfigView;

    open spec fn view(&self) -> ConfigView {
        ConfigView {
            data_dir: self.data_dir@,
            port: self.port,
            embed_endpoint: self.embed_endpoint@,
            embed_api_key: self.embed_api_key@,
            embed_model: self.embed_model@,
            embed_dim: self.embed_dim,
            llm_endpoint: self.llm_endpoint@,
            llm_api_key: self.llm_api_key@,
            llm_model: self.llm_model@,
        }
    }
}

/// Why a command line gives no configuration: the text to print, and the code
/// to exit with. A request for help is one such reason, with exit code zero.
#[derive(Debug, Clone, PartialEq, Eq)]
pub struct UsageError {
    pub message: String,
    pub exit_code: i32,
}

/// What a [`UsageError`] holds.
pub struct UsageView {
    pub message: Seq<char>,
    pub exit_code: i32,
}

impl View for UsageError {
    type V = UsageView;

    open spec fn view(&self) -> UsageView {
        UsageView { message: self.message@, exit_code: self.exit_code }
    }
}

/// What the value of a flag has to be.
#[derive(Debug, Clone, Copy, PartialEq, Eq, Structural)]
pub enum ValueKind {
    /// Any text.
    Text,
    /// A path, which is never empty.
    Path,
    /// A port number.
    Port,
    /// A number of elements.
    Size,
}

/// A setting of the program: a command-line flag, also available as the
/// environment variable of its value's name.
#[derive(Debug, Clone, Copy, PartialEq, Eq)]
pub struct Setting {
    pub name: &'static str,
    pub value_name: &'static str,
    pub help: &'static str,
    pub required: bool,
    pub default: Option<&'static str>,
    pub kind: ValueKind,
}

/// What a [`Setting`] holds.
pub struct SettingView {
    pub name: Seq<char>,
    pub value_name: Seq<char>,
    pub help: Seq<char>,
    pub required: bool,
    pub default: Option<Seq<char>>,
    pub kind: ValueKind,
}

impl View for Setting {
    type V = SettingView;

    open spec fn view(&self) -> SettingView {
        SettingView {
            name: self.name@,
            value_name: self.value_name@,
            help: self.help@,
            required: self.required,
            default: match self.default {
                Some(text) => Some(text@),
                None => None,
            },
            kind: self.kind,
        }
    }
}

/// What each setting holds, in turn.
pub open spec fn setting_views(settings: Seq<Setting>) -> Seq<SettingView> {
    settings.map_values(|s: Setting| s@)
}

/// A setting without a default.
pub open spec fn plain_setting(
    name: Seq<char>,
    value_name: Seq<char>,
    help: Seq<char>,
    required: bool,
    kind: ValueKind,
) -> SettingView {
    SettingView { name, value_name, help, required, default: None, kind }
}

/// A setting with a default.
pub open spec fn default_setting(
    name: Seq<char>,
    value_name: Seq<char>,
    help: Seq<char>,
    default: Seq<char>,
    kind: ValueKind,
) -> SettingView {
    SettingView { name, value_name, help, required: false, default: Some(default), kind }
}

/// The settings, in the order of the configuration's fields. Whether the
/// dimension of the embeddings has to be given depends on the use.
pub open spec fn setting_table(needs_dim: bool) -> Seq<SettingView> {
    seq![
        plain_setting(
            "data-dir"@,
            "DATA_DIR"@,
            "Directory for persistent storage (the LanceDB database lives here)"@,
            true,
            ValueKind::Path,
        ),
        default_setting(
            "port"@,
            "PORT"@,
            "Port to listen on for the HTTP API"@,
            "20250"@,
            ValueKind::Port,
        ),
        plain_setting(
            "embed-endpoint"@,
            "EMBED_ENDPOINT"@,
            "OpenAI-compatible embeddings endpoint, e.g. `http://localhost:8080/v1`"@,
            true,
            ValueKind::Text,
        ),
        default_setting(
            "embed-api-key"@,
            "EMBED_API_KEY"@,
            "API key for the embeddings endpoint (may be empty for local servers)"@,
            ""@,
            ValueKind::Text,
        ),
        plain_setting(
            "embed-model"@,
            "EMBED_MODEL"@,
            "Embedding model name"@,
            true,
            ValueKind::Text,
        ),
        plain_setting(
            "embed-dim"@,
            "EMBED_DIM"@,
            "Dimensionality of the embedding model's output vectors"@,
            needs_dim,
            ValueKind::Size,
        ),
        plain_setting(
            "llm-endpoint"@,
            "LLM_ENDPOINT"@,
            "OpenAI-compatible chat-completions endpoint"@,
            true,
            ValueKind::Text,
        ),
        default_setting(
            "llm-api-key"@,
            "LLM_API_KEY"@,
            "API key for the chat-completions endpoint (may be empty for local servers)"@,
            ""@,
            ValueKind::Text,
        ),
        plain_setting("llm-model"@, "LLM_MODEL"@, "Chat/LLM model name"@, true, ValueKind::Text),
    ]
}

fn plain(
    name: &'static str,
    value_name: &'static str,
    help: &'static str,
    required: bool,
    kind: ValueKind,
) -> (r: Setting)
    ensures
        r@ == plain_setting(name@, value_name@, help@, required, kind),
{
    Setting { name, value_name, help, required, default: None, kind }
}

fn defaulted(
    name: &'static str,
    value_name: &'static str,
    help: &'static str,
    default: &'static str,
    kind: ValueKind,
) -> (r: Setting)
    ensures
        r@ == default_setting(name@, value_name@, help@, default@, kind),
{
    Setting { name, value_name, help, required: false, default: Some(default), kind }
}

/// The settings, in the order of the configuration's fields. The value name
/// of each is also the name of its environment variable.
pub fn settings(needs_dim: bool) -> (r: Vec<Setting>)
    ensures
        setting_views(r@) == setting_table(needs_dim),
{
    let r = vec![
        plain(
            "data-dir",
            "DATA_DIR",
            "Directory for persistent storage (the LanceDB database lives here)",
            true,
            ValueKind::Path,
        ),
        defaulted(
            "port",
            "PORT",
            "Port to listen on for the HTTP API",
            "20250",
            ValueKind::Port,
        ),
        plain(
            "embed-endpoint",
            "EMBED_ENDPOINT",
            "OpenAI-compatible embeddings endpoint, e.g. `http://localhost:8080/v1`",
            true,
            ValueKind::Text,
        ),
        defaulted(
            "embed-api-key",
            "EMBED_API_KEY",
            "API key for the embeddings endpoint (may be empty for local servers)",
            "",
            ValueKind::Text,
        ),
        plain("embed-model", "EMBED_MODEL", "Embedding model name", true, ValueKind::Text),
        plain(
            "embed-dim",
            "EMBED_DIM",
            "Dimensionality of the embedding model's output vectors",
            needs_dim,
            ValueKind::Size,
        ),
        plain(
            "llm-endpoint",
            "LLM_ENDPOINT",
            "OpenAI-compatible chat-completions endpoint",
            true,
            ValueKind::Text,
        ),
        defaulted(
            "llm-api-key",
            "LLM_API_KEY",
            "API key for the chat-completions endpoint (may be empty for local servers)",
            "",
            ValueKind::Text,
        ),
        plain("llm-model", "LLM_MODEL", "Chat/LLM model name", true, ValueKind::Text),
    ];
    assert(setting_views(r@) =~= setting_table(needs_dim));
    r
}

/// A flag of the command line, as the parser of arguments is told of it.
struct Flag {
    name: &'static str,
    value_name: &'static str,
    help: String,
    required: bool,
    default: Option<&'static str>,
}

/// A flag of the command line: its name, how its value is shown, its line in
/// the help, whether a value has to be given, the value that it has
/// otherwise, and what its value has to be.
pub struct FlagView {
    pub name: Seq<char>,
    pub value_name: Seq<char>,
    pub help: Seq<char>,
    pub required: bool,
    pub default: Option<Seq<char>>,
    pub kind: ValueKind,
}

impl Flag {
    spec fn of_kind(self, kind: ValueKind) -> FlagView {
        FlagView {
            name: self.name@,
            value_name: self.value_name@,
            help: self.help@,
            required: self.required,
            default: match self.default {
                Some(text) => Some(text@),
                None => None,
            },
            kind,
        }
    }
}

/// A program's command line: its name, what it is and its flags.
pub struct CommandView {
    pub name: Seq<char>,
    pub about: Seq<char>,
    pub flags: Seq<FlagView>,
}

/// The line of a setting in the help, with its environment variable and that
/// variable's value.
pub open spec fn help_line(setting: SettingView, variable: Option<Seq<char>>) -> Seq<char> {
    let line = setting.help + " [env: "@ + setting.value_name + "="@;
    match variable {
        None => line + "]"@,
        Some(value) => line + value + "]"@,
    }
}

/// The flag of a setting.
pub open spec fn flag_of(setting: SettingView, variable: Option<Seq<char>>) -> FlagView {
    FlagView {
        name: setting.name,
        value_name: setting.value_name,
        help: help_line(setting, variable),
        required: setting.required,
        default: setting.default,
        kind: setting.kind,
    }
}

/// The flag of a setting, with any value or none.
pub open spec fn loose_flag_of(setting: SettingView) -> FlagView {
    FlagView {
        name: setting.name,
        value_name: setting.value_name,
        help: setting.help,
        required: false,
        default: None,
        kind: ValueKind::Text,
    }
}

/// The flags of the first `n` settings.
pub open spec fn flags_of(
    settings: Seq<SettingView>,
    variables: Seq<Option<Seq<char>>>,
    n: int,
) -> Seq<FlagView> {
    Seq::new(n as nat, |i: int| flag_of(settings[i], variables[i]))
}

/// The flags of the first `n` settings, each with any value or none.
pub open spec fn loose_flags_of(settings: Seq<SettingView>, n: int) -> Seq<FlagView> {
    Seq::new(n as nat, |i: int| loose_flag_of(settings[i]))
}

/// The program's command line with the given flags.
pub open spec fn program_with(flags: Seq<FlagView>) -> CommandView {
    CommandView { name: "ragd"@, about: "Generic RAG indexing/retrieval daemon"@, flags }
}

/// The program's command line in an environment.
pub open spec fn program(needs_dim: bool, variables: Seq<Option<Seq<char>>>) -> CommandView {
    let table = setting_table(needs_dim);
    program_with(flags_of(table, variables, table.len() as int))
}

/// The program's command line, to see which flags are given and no more.
pub open spec fn loose_program(needs_dim: bool) -> CommandView {
    let table = setting_table(needs_dim);
    program_with(loose_flags_of(table, table.len() as int))
}

/// The arguments that give the first `n` settings the values of their
/// environment variables, where these are set and the command line gives none.
pub open spec fn arguments_from(
    settings: Seq<SettingView>,
    values: Seq<Option<Seq<char>>>,
    variables: Seq<Option<Seq<char>>>,
    n: int,
) -> Seq<Seq<char>>
    decreases n,
{
    if n <= 0 {
        seq![]
    } else {
        let before = arguments_from(settings, values, variables, n - 1);
        match (values[n - 1], variables[n - 1]) {
            (None, Some(value)) => before.push("--"@ + settings[n - 1].name + "="@ + value),
            _ => before,
        }
    }
}

/// The command line with further arguments behind those given; in front of the
/// mark, if there is one, that no flags follow.
pub open spec fn with_arguments(args: Seq<Seq<char>>, more: Seq<Seq<char>>) -> Seq<Seq<char>> {
    if args.len() == 0 {
        seq!["ragd"@] + more
    } else if args.len() > 1 && args.last() == "--"@ {
        args.drop_last() + more + seq!["--"@]
    } else {
        args + more
    }
}

/// The value of each setting, or why there is none: that on the command line
/// or else in the environment or else the default. A command line that cannot
/// be read whatever the values are is refused as it is.
pub open spec fn values_of(
    needs_dim: bool,
    args: Seq<Seq<char>>,
    variables: Seq<Option<Seq<char>>>,
) -> Result<Seq<Option<Seq<char>>>, UsageView> {
    let table = setting_table(needs_dim);
    match flag_values(loose_program(needs_dim), args) {
        Ok(given) => flag_values(
            program(needs_dim, variables),
            with_arguments(args, arguments_from(table, given, variables, table.len() as int)),
        ),
        Err(_) => flag_values(program(needs_dim, variables), args),
    }
}

#[verifier::external_type_specification]
#[verifier::external_body]
pub struct ExArg(Arg);

#[verifier::external_type_specification]
#[verifier::external_body]
pub struct ExCommand(Command);

/// The flag that an `Arg` of `clap` stands for.
pub uninterp spec fn arg_flag(arg: Arg) -> FlagView;

/// The flags that a `Command` of `clap` has been given, with its name and
/// what it says of itself.
pub uninterp spec fn command_line(command: Command) -> CommandView;

/// The value that a command line gives to each flag of a command, or why it
/// cannot be read.
pub uninterp spec fn flag_values(command: CommandView, args: Seq<Seq<char>>) -> Result<
    Seq<Option<Seq<char>>>,
    UsageView,
>;

/// `Arg::new` of `clap` and the methods that fill one in make a flag of that
/// name with one value, of any text.
#[verifier::external_body]
fn new_arg(flag: &Flag) -> (r: Arg)
    ensures
        arg_flag(r) == flag.of_kind(ValueKind::Text),
{
    Arg::new(flag.name)
        .long(flag.name)
        .value_name(flag.value_name)
        .help(&flag.help)
        .required(flag.required)
        .default_value(flag.default)
}

/// `Arg::value_parser` of `clap`, with its `NonEmptyStringValueParser`, makes
/// the flag refuse an empty value, as its parser of paths does.
#[verifier::external_body]
fn take_path(arg: Arg) -> (r: Arg)
    ensures
        arg_flag(r) == (FlagView { kind: ValueKind::Path, ..arg_flag(arg) }),
{
    arg.value_parser(NonEmptyStringValueParser::new())
}

/// `Arg::value_parser` of `clap`, with its parser of `u16`, makes the flag
/// refuse a value that is no port number. The number comes out as its
/// numeral.
#[verifier::external_body]
fn take_port(arg: Arg) -> (r: Arg)
    ensures
        arg_flag(r) == (FlagView { kind: ValueKind::Port, ..arg_flag(arg) }),
{
    arg.value_parser(<u16 as ValueParserFactory>::value_parser().map(port_text))
}

/// `Arg::value_parser` of `clap`, with its `RangedU64ValueParser` over all of
/// `usize`, makes the flag refuse a value that is no such number. The number
/// comes out as its numeral.
#[verifier::external_body]
fn take_size(arg: Arg) -> (r: Arg)
    ensures
        arg_flag(r) == (FlagView { kind: ValueKind::Size, ..arg_flag(arg) }),
{
    arg.value_parser(RangedU64ValueParser::<usize>::new().map(size_text))
}

/// `Command::new` and `Command::about` of `clap` make a command without
/// flags.
#[verifier::external_body]
fn new_command(name: &'static str, about: &'static str) -> (r: Command)
    ensures
        command_line(r) == (CommandView { name: name@, about: about@, flags: seq![] }),
{
    Command::new(name).about(about)
}

/// `Command::arg` of `clap` gives a command one more flag. Reading arguments
/// with two flags of one name, or with a name that is not one for a flag,
/// would panic, so only the program's own flags go in, in their order.
#[verifier::external_body]
fn add_arg(command: Command, arg: Arg) -> (r: Command)
    requires
        command_line(command).flags.len() < setting_table(true).len(),
        arg_flag(arg).name == setting_table(true)[command_line(command).flags.len() as int].name,
    ensures
        command_line(r) == (CommandView {
            flags: command_line(command).flags.push(arg_flag(arg)),
            ..command_line(command)
        }),
{
    command.arg(arg)
}

/// Whether a value is one that the flag takes: never an empty path, and the
/// numeral of a number in range for a port or a size.
pub open spec fn is_taken(kind: ValueKind, value: Seq<char>) -> bool {
    match kind {
        ValueKind::Text => true,
        ValueKind::Path => value.len() > 0,
        ValueKind::Port => number_of(value) is Some && number_of(value)->0 <= u16::MAX,
        ValueKind::Size => number_of(value) is Some && number_of(value)->0 <= usize::MAX,
    }
}

/// Whether `values` hold one value for each flag, or none where none has to
/// be there, each of them one that its flag takes.
pub open spec fn answers(flags: Seq<FlagView>, values: Seq<Option<Seq<char>>>) -> bool {
    &&& values.len() == flags.len()
    &&& forall|i: int|
        0 <= i < flags.len() ==> match #[trigger] values[i] {
            Some(value) => is_taken(flags[i].kind, value),
            None => !flags[i].required && flags[i].default is None,
        }
}

/// What reading the command line gave.
pub open spec fn values_view(r: Result<Vec<Option<String>>, UsageError>) -> Result<
    Seq<Option<Seq<char>>>,
    UsageView,
> {
    match r {
        Ok(values) => Ok(opt_texts(values@)),
        Err(e) => Err(e@),
    }
}

/// `Command::try_get_matches_from` of `clap` reads the arguments, the first
/// of them the program's name, against the command's flags, and hands out the
/// value that each flag got: the one on the command line or else the default.
/// A required flag that is missing, a value that its flag does not take, an
/// argument that is no flag, a flag given twice or without its value, and a
/// request for help are its errors. It depends on the flags and the arguments
/// alone: no flag is tied to an environment variable.
#[verifier::external_body]
fn read_arguments(command: Command, args: &Vec<String>) -> (r: Result<
    Vec<Option<String>>,
    UsageError,
>)
    ensures
        values_view(r) == flag_values(command_line(command), texts(args@)),
        r matches Ok(values) ==> answers(command_line(command).flags, opt_texts(values@)),
{
    let ids: Vec<clap::Id> = command.get_arguments().map(|a| a.get_id().clone()).collect();
    match command.try_get_matches_from(args) {
        Ok(found) => Ok(
            ids.iter().map(|id| found.get_one::<String>(id.as_str()).cloned()).collect(),
        ),
        Err(e) => Err(UsageError { message: e.render().to_string(), exit_code: e.exit_code() }),
    }
}

fn port_text(n: u16) -> (r: String)
    ensures
        r@ == numeral(n as nat, 10),
{
    write_numeral(n as u64, 10)
}

fn size_text(n: usize) -> (r: String)
    ensures
        r@ == numeral(n as nat, 10),
{
    write_numeral(n as u64, 10)
}

fn write_help(setting: &Setting, variable: &Option<String>) -> (r: String)
    ensures
        r@ == help_line(setting@, opt_text(*variable)),
{
    let line = setting.help.to_owned().concat(" [env: ").concat(setting.value_name).concat("=");
    match variable {
        None => line.concat("]"),
        Some(value) => line.concat(value.as_str()).concat("]"),
    }
}

fn make_arg(setting: &Setting, variable: &Option<String>) -> (r: Arg)
    ensures
        arg_flag(r) == flag_of(setting@, opt_text(*variable)),
{
    let arg = new_arg(
        &Flag {
            name: setting.name,
            value_name: setting.value_name,
            help: write_help(setting, variable),
            required: setting.required,
            default: setting.default,
        },
    );
    match setting.kind {
        ValueKind::Text => arg,
        ValueKind::Path => take_path(arg),
        ValueKind::Port => take_port(arg),
        ValueKind::Size => take_size(arg),
    }
}

fn make_loose_arg(setting: &Setting) -> (r: Arg)
    ensures
        arg_flag(r) == loose_flag_of(setting@),
{
    new_arg(
        &Flag {
            name: setting.name,
            value_name: setting.value_name,
            help: setting.help.to_owned(),
            required: false,
            default: None,
        },
    )
}

fn make_program(needs_dim: bool, variables: &Vec<Option<String>>) -> (r: Command)
    requires
        variables@.len() == setting_table(needs_dim).len(),
    ensures
        command_line(r) == program(needs_dim, opt_texts(variables@)),
{
    let table = settings(needs_dim);
    let ghost views = setting_table(needs_dim);
    let ghost values = opt_texts(variables@);
    let mut command = new_command("ragd", "Generic RAG indexing/retrieval daemon");
    assert(flags_of(views, values, 0) =~= seq![]);
    for i in 0..table.len()
        invariant
            setting_views(table@) == views,
            views == setting_table(needs_dim),
            views.len() == variables@.len(),
            values == opt_texts(variables@),
            command_line(command) == program_with(flags_of(views, values, i as int)),
    {
        assert(views[i as int] == table@[i as int]@);
        assert(views[i as int].name == setting_table(true)[i as int].name);
        let arg = make_arg(&table[i], &variables[i]);
        command = add_arg(command, arg);
        assert(flags_of(views, values, i as int).push(flag_of(views[i as int], values[i as int]))
            =~= flags_of(views, values, i + 1));
    }
    command
}

fn make_loose_program(needs_dim: bool) -> (r: Command)
    ensures
        command_line(r) == loose_program(needs_dim),
{
    let table = settings(needs_dim);
    let ghost views = setting_table(needs_dim);
    let mut command = new_command("ragd", "Generic RAG indexing/retrieval daemon");
    assert(loose_flags_of(views, 0) =~= seq![]);
    for i in 0..table.len()
        invariant
            setting_views(table@) == views,
            views == setting_table(needs_dim),
            views.len() == table@.len(),
            command_line(command) == program_with(loose_flags_of(views, i as int)),
    {
        assert(views[i as int] == table@[i as int]@);
        assert(views[i as int].name == setting_table(true)[i as int].name);
        let arg = make_loose_arg(&table[i]);
        command = add_arg(command, arg);
        assert(loose_flags_of(views, i as int).push(loose_flag_of(views[i as int]))
            =~= loose_flags_of(views, i + 1));
    }
    command
}

/// The arguments that stand for the environment variables of the settings to
/// which the command line gives no value.
pub fn variable_arguments(
    table: &Vec<Setting>,
    values: &Vec<Option<String>>,
    variables: &Vec<Option<String>>,
) -> (r: Vec<String>)
    requires
        values@.len() == table@.len(),
        variables@.len() == table@.len(),
    ensures
        texts(r@) == arguments_from(
            setting_views(table@),
            opt_texts(values@),
            opt_texts(variables@),
            table@.len() as int,
        ),
{
    let ghost views = setting_views(table@);
    let ghost given = opt_texts(values@);
    let ghost set = opt_texts(variables@);
    let mut r: Vec<String> = Vec::new();
    assert(texts(r@) =~= seq![]);
    for i in 0..table.len()
        invariant
            values@.len() == table@.len(),
            variables@.len() == table@.len(),
            views == setting_views(table@),
            given == opt_texts(values@),
            set == opt_texts(variables@),
            texts(r@) == arguments_from(views, given, set, i as int),
    {
        assert(views[i as int] == table@[i as int]@);
        assert(given[i as int] == opt_text(values@[i as int]));
        assert(set[i as int] == opt_text(variables@[i as int]));
        if values[i].is_none() {
            if let Some(value) = &variables[i] {
                let ghost before = r@;
                let argument = "--".to_owned().concat(table[i].name).concat("=").concat(
                    value.as_str(),
                );
                r.push(argument);
                assert(texts(r@) =~= texts(before).push(argument@));
            }
        }
    }
    r
}

fn copy_texts(r: &mut Vec<String>, parts: &Vec<String>, count: usize)
    requires
        count <= parts@.len(),
    ensures
        texts(final(r)@) == texts(old(r)@) + texts(parts@).take(count as int),
{
    let ghost before = texts(r@);
    assert(texts(parts@).take(0) =~= seq![]);
    assert(before + texts(parts@).take(0) =~= before);
    for i in 0..count
        invariant
            count <= parts@.len(),
            texts(r@) == before + texts(parts@).take(i as int),
    {
        let ghost so_far = r@;
        let part = parts[i].clone();
        r.push(part);
        assert(texts(parts@)[i as int] == part@);
        assert(texts(r@) =~= texts(so_far).push(part@));
        assert(texts(parts@).take(i + 1) =~= texts(parts@).take(i as int).push(part@));
        assert(texts(r@) =~= before + texts(parts@).take(i + 1));
    }
}

/// The command line with further arguments.
pub fn add_arguments(args: &Vec<String>, more: &Vec<String>) -> (r: Vec<String>)
    ensures
        texts(r@) == with_arguments(texts(args@), texts(more@)),
{
    let ghost given = texts(args@);
    let mut r: Vec<String> = Vec::new();
    assert(texts(r@) =~= seq![]);
    assert(texts(more@).take(more@.len() as int) =~= texts(more@));
    assert(given.take(args@.len() as int) =~= given);
    if args.len() == 0 {
        r.push("ragd".to_owned());
        assert(texts(r@) =~= seq!["ragd"@]);
        copy_texts(&mut r, more, more.len());
        return r;
    }
    let count: usize = args.len();
    assert(given.last() == args@[count - 1]@);
    if count > 1 && same_text(args[count - 1].as_str(), "--") {
        copy_texts(&mut r, args, count - 1);
        copy_texts(&mut r, more, more.len());
        let ghost before = r@;
        r.push("--".to_owned());
        assert(given.take(count - 1) =~= given.drop_last());
        assert(texts(r@) =~= texts(before).push("--"@));
        assert(texts(r@) =~= with_arguments(given, texts(more@)));
    } else {
        copy_texts(&mut r, args, count);
        copy_texts(&mut r, more, more.len());
        assert(texts(r@) =~= with_arguments(given, texts(more@)));
    }
    r
}

/// Whether `values` hold what a configuration takes, one for each setting in
/// turn: a port number, for the dimension a number or nothing, and any other
/// value.
pub open spec fn is_configuration(values: Seq<Option<Seq<char>>>) -> bool {
    &&& values.len() == 9
    &&& forall|i: int| 0 <= i < 9 && i != 5 ==> #[trigger] values[i] is Some
    &&& is_taken(ValueKind::Port, values[1]->0)
    &&& values[5] is Some ==> is_taken(ValueKind::Size, values[5]->0)
}

/// The configuration that the values of the flags make.
pub open spec fn config_of(values: Seq<Option<Seq<char>>>) -> ConfigView {
    ConfigView {
        data_dir: values[0]->0,
        port: number_of(values[1]->0)->0 as u16,
        embed_endpoint: values[2]->0,
        embed_api_key: values[3]->0,
        embed_model: values[4]->0,
        embed_dim: match values[5] {
            Some(text) => Some(number_of(text)->0 as usize),
            None => None,
        },
        llm_endpoint: values[6]->0,
        llm_api_key: values[7]->0,
        llm_model: values[8]->0,
    }
}

/// What making a configuration gave.
pub open spec fn config_view(r: Result<Config, UsageError>) -> Result<ConfigView, UsageView> {
    match r {
        Ok(config) => Ok(config@),
        Err(e) => Err(e@),
    }
}

/// What a command line and an environment come to.
pub open spec fn configured(
    needs_dim: bool,
    args: Seq<Seq<char>>,
    variables: Seq<Option<Seq<char>>>,
) -> Result<ConfigView, UsageView> {
    match values_of(needs_dim, args, variables) {
        Ok(values) => Ok(config_of(values)),
        Err(e) => Err(e),
    }
}

fn known(value: &Option<String>) -> (r: String)
    requires
        value is Some,
    ensures
        r@ == opt_text(*value)->0,
{
    match value {
        Some(text) => text.clone(),
        None => String::new(),
    }
}

fn number_in(text: &str, max: u64) -> (r: u64)
    requires
        number_of(text@) is Some,
        number_of(text@)->0 <= max,
    ensures
        r == number_of(text@)->0,
{
    let chars = chars_of(text);
    assert(chars@.skip(0) =~= text@);
    match read_number(&chars, 0, max) {
        Some(n) => n,
        None => 0,
    }
}

impl Config {
    /// The configuration that the values of the flags make.
    pub fn from_values(values: &Vec<Option<String>>) -> (r: Config)
        requires
            is_configuration(opt_texts(values@)),
        ensures
            r@ == config_of(opt_texts(values@)),
    {
        let ghost views = opt_texts(values@);
        assert forall|i: int| 0 <= i < 9 implies opt_text(#[trigger] values@[i]) == views[i] by {}
        let port_text = known(&values[1]);
        let port: u16 = number_in(port_text.as_str(), u16::MAX as u64) as u16;
        let embed_dim: Option<usize> = match &values[5] {
            Some(text) => Some(number_in(text.as_str(), usize::MAX as u64) as usize),
            None => None,
        };
        Config {
            data_dir: known(&values[0]),
            port,
            embed_endpoint: known(&values[2]),
            embed_api_key: known(&values[3]),
            embed_model: known(&values[4]),
            embed_dim,
            llm_endpoint: known(&values[6]),
            llm_api_key: known(&values[7]),
            llm_model: known(&values[8]),
        }
    }

    fn read(needs_dim: bool, args: &Vec<String>, variables: &Vec<Option<String>>) -> (r: Result<
        Config,
        UsageError,
    >)
        requires
            variables@.len() == setting_table(needs_dim).len(),
        ensures
            config_view(r) == configured(needs_dim, texts(args@), opt_texts(variables@)),
            r matches Ok(config) ==> (needs_dim ==> config.embed_dim is Some),
            r matches Ok(config) ==> config.data_dir@.len() > 0,
    {
        let table = settings(needs_dim);
        let loose = make_loose_program(needs_dim);
        let command = make_program(needs_dim, variables);
        let read = match read_arguments(loose, args) {
            Ok(given) => {
                let more = variable_arguments(&table, &given, variables);
                let completed = add_arguments(args, &more);
                read_arguments(command, &completed)
            },
            Err(_) => read_arguments(command, args),
        };
        match read {
            Ok(values) => {
                proof {
                    let views = opt_texts(values@);
                    let flags = program(needs_dim, opt_texts(variables@)).flags;
                    let table = setting_table(needs_dim);
                    assert forall|i: int|
                        0 <= i < 9 && i != 5 implies #[trigger] views[i] is Some by {
                        assert(flags[i] == flag_of(table[i], opt_texts(variables@)[i]));
                        assert(table[i].required || table[i].default is Some);
                    }
                    assert(views[1] is Some && views[0] is Some);
                    assert(flags[1].kind == ValueKind::Port);
                    assert(flags[0].kind == ValueKind::Path);
                    assert(flags[5].kind == ValueKind::Size);
                    assert(views[5] is None ==> !flags[5].required);
                }
                Ok(Config::from_values(&values))
            },
            Err(e) => Err(e),
        }
    }

    /// Reads the configuration from the command line, the program's name
    /// first, and the values of the environment variables of the settings, in
    /// the order of the settings. The command line comes before the
    /// environment, and the environment before the default.
    pub fn parse_from(args: &Vec<String>, variables: &Vec<Option<String>>) -> (r: Result<
        Config,
        UsageError,
    >)
        requires
            variables@.len() == setting_table(false).len(),
        ensures
            config_view(r) == configured(false, texts(args@), opt_texts(variables@)),
            r matches Ok(config) ==> config.data_dir@.len() > 0,
    {
        Config::read(false, args, variables)
    }

    /// Reads the configuration that a program which opens the store needs:
    /// the dimension of the embeddings has to be given.
    pub fn parse(args: &Vec<String>, variables: &Vec<Option<String>>) -> (r: Result<
        Config,
        UsageError,
    >)
        requires
            variables@.len() == setting_table(true).len(),
        ensures
            config_view(r) == configured(true, texts(args@), opt_texts(variables@)),
            r matches Ok(config) ==> config.data_dir@.len() > 0 && config.embed_dim is Some,
    {
        Config::read(true, args, variables)
    }
}

} // verus!
