//! What holds of the configuration: which settings there are, where their
//! values come from, and which part of the configuration each becomes.

use crate::config::{
    arguments_from, config_of, flag_values, help_line, is_configuration, is_taken, loose_program,
    program, setting_table, values_of, with_arguments, Config, SettingView, UsageView, ValueKind,
};
use crate::text::numeral;
use crate::text_laws::{
    law_digits_are_read_as_their_number, law_numerals_are_read_back, positional,
};
use vstd::prelude::*;

verus! {

/// Whether a setting has that name and is of that kind, has to be given, and
/// has that value otherwise.
pub open spec fn is_setting(
    setting: SettingView,
    name: Seq<char>,
    kind: ValueKind,
    required: bool,
    default: Option<Seq<char>>,
) -> bool {
    &&& setting.name == name
    &&& setting.kind == kind
    &&& setting.required == required
    &&& setting.default == default
}

/// There is a setting for each part of the configuration. The port is 20250
/// unless it is given, the keys may be left out, and the dimension may where
/// the use allows; everything else has to be given.
pub proof fn law_settings_are_these(needs_dim: bool)
    ensures
        setting_table(needs_dim).len() == 9,
        is_setting(setting_table(needs_dim)[0], "data-dir"@, ValueKind::Path, true, None),
        is_setting(
            setting_table(needs_dim)[1],
            "port"@,
            ValueKind::Port,
            false,
            Some(seq!['2', '0', '2', '5', '0']),
        ),
        is_setting(setting_table(needs_dim)[2], "embed-endpoint"@, ValueKind::Text, true, None),
        is_setting(
            setting_table(needs_dim)[3],
            "embed-api-key"@,
            ValueKind::Text,
            false,
            Some(Seq::<char>::empty()),
        ),
        is_setting(setting_table(needs_dim)[4], "embed-model"@, ValueKind::Text, true, None),
        is_setting(setting_table(needs_dim)[5], "embed-dim"@, ValueKind::Size, needs_dim, None),
        is_setting(setting_table(needs_dim)[6], "llm-endpoint"@, ValueKind::Text, true, None),
        is_setting(
            setting_table(needs_dim)[7],
            "llm-api-key"@,
            ValueKind::Text,
            false,
            Some(Seq::<char>::empty()),
        ),
        is_setting(setting_table(needs_dim)[8], "llm-model"@, ValueKind::Text, true, None),
{
    reveal_strlit("20250");
    reveal_strlit("");
    assert("20250"@ =~= seq!['2', '0', '2', '5', '0']);
    assert(""@ =~= Seq::<char>::empty());
}

/// Whether a character of a variable's name stands for that of a flag's name:
/// the capital for the letter, and an underscore for a hyphen.
pub open spec fn stands_for(capital: char, letter: char) -> bool {
    if letter == '-' {
        capital == '_'
    } else {
        'A' <= capital <= 'Z' && capital as u32 + 32 == letter as u32
    }
}

/// The environment variable of a setting has the name of its flag, in
/// capitals and with underscores.
pub proof fn law_variables_are_named_after_their_flags(needs_dim: bool, i: int, j: int)
    requires
        0 <= i < 9,
    ensures
        setting_table(needs_dim)[i].value_name.len() == setting_table(needs_dim)[i].name.len(),
        0 <= j < setting_table(needs_dim)[i].name.len() ==> stands_for(
            setting_table(needs_dim)[i].value_name[j],
            setting_table(needs_dim)[i].name[j],
        ),
{
    reveal_strlit("data-dir");
    reveal_strlit("DATA_DIR");
    reveal_strlit("port");
    reveal_strlit("PORT");
    reveal_strlit("embed-endpoint");
    reveal_strlit("EMBED_ENDPOINT");
    reveal_strlit("embed-api-key");
    reveal_strlit("EMBED_API_KEY");
    reveal_strlit("embed-model");
    reveal_strlit("EMBED_MODEL");
    reveal_strlit("embed-dim");
    reveal_strlit("EMBED_DIM");
    reveal_strlit("llm-endpoint");
    reveal_strlit("LLM_ENDPOINT");
    reveal_strlit("llm-api-key");
    reveal_strlit("LLM_API_KEY");
    reveal_strlit("llm-model");
    reveal_strlit("LLM_MODEL");
    assert(setting_table(needs_dim).len() == 9);
    assert(i == 0 || i == 1 || i == 2 || i == 3 || i == 4 || i == 5 || i == 6 || i == 7 || i == 8);
}

proof fn lemma_names_differ(needs_dim: bool)
    ensures
        forall|i: int, j: int|
            0 <= i < 9 && 0 <= j < 9 && (#[trigger] setting_table(needs_dim)[i]).name == (
            #[trigger] setting_table(needs_dim)[j]).name ==> i == j,
{
    reveal_strlit("data-dir");
    reveal_strlit("port");
    reveal_strlit("embed-endpoint");
    reveal_strlit("embed-api-key");
    reveal_strlit("embed-model");
    reveal_strlit("embed-dim");
    reveal_strlit("llm-endpoint");
    reveal_strlit("llm-api-key");
    reveal_strlit("llm-model");
    assert("data-dir"@.len() == 8 && "port"@.len() == 4 && "embed-endpoint"@.len() == 14
        && "embed-api-key"@.len() == 13 && "embed-model"@.len() == 11 && "embed-dim"@.len() == 9
        && "llm-endpoint"@.len() == 12 && "llm-api-key"@.len() == 11 && "llm-model"@.len() == 9);
    assert("embed-model"@[0] == 'e' && "embed-dim"@[0] == 'e' && "llm-api-key"@[0] == 'l'
        && "llm-model"@[0] == 'l');
}

/// Each part of the configuration is the value of the setting of its name:
/// the text as it is, or the number that the digits come to.
pub proof fn law_values_become_the_parts_of_their_name(
    needs_dim: bool,
    values: Seq<Option<Seq<char>>>,
    i: int,
)
    requires
        is_configuration(values),
        0 <= i < 9,
    ensures
        ({
            let name = setting_table(needs_dim)[i].name;
            let config = config_of(values);
            &&& name == "data-dir"@ ==> values[i] == Some(config.data_dir)
            &&& name == "port"@ ==> config.port == positional(values[i]->0, 10)
            &&& name == "embed-endpoint"@ ==> values[i] == Some(config.embed_endpoint)
            &&& name == "embed-api-key"@ ==> values[i] == Some(config.embed_api_key)
            &&& name == "embed-model"@ ==> values[i] == Some(config.embed_model)
            &&& name == "embed-dim"@ ==> match (values[i], config.embed_dim) {
                (Some(text), Some(dim)) => dim == positional(text, 10),
                (None, None) => true,
                _ => false,
            }
            &&& name == "llm-endpoint"@ ==> values[i] == Some(config.llm_endpoint)
            &&& name == "llm-api-key"@ ==> values[i] == Some(config.llm_api_key)
            &&& name == "llm-model"@ ==> values[i] == Some(config.llm_model)
        }),
{
    lemma_names_differ(needs_dim);
    let table = setting_table(needs_dim);
    assert(table[0].name == "data-dir"@ && table[1].name == "port"@ && table[2].name
        == "embed-endpoint"@ && table[3].name == "embed-api-key"@ && table[4].name
        == "embed-model"@ && table[5].name == "embed-dim"@ && table[6].name == "llm-endpoint"@
        && table[7].name == "llm-api-key"@ && table[8].name == "llm-model"@);
    assert(values[0] is Some && values[1] is Some && values[2] is Some && values[3] is Some
        && values[4] is Some && values[6] is Some && values[7] is Some && values[8] is Some);
    law_digits_are_read_as_their_number(values[1]->0);
    if let Some(text) = values[5] {
        law_digits_are_read_as_their_number(text);
    }
}

/// What is said of a configuration is what its fields hold, each under its
/// own name.
pub proof fn law_configurations_are_what_they_hold(config: Config)
    ensures
        config@.data_dir == config.data_dir@,
        config@.port == config.port,
        config@.embed_endpoint == config.embed_endpoint@,
        config@.embed_api_key == config.embed_api_key@,
        config@.embed_model == config.embed_model@,
        config@.embed_dim == config.embed_dim,
        config@.llm_endpoint == config.llm_endpoint@,
        config@.llm_api_key == config.llm_api_key@,
        config@.llm_model == config.llm_model@,
{
}

/// A path is taken unless it is empty, a number if it is in range, and any
/// other text as it is.
pub proof fn law_values_are_taken_by_kind(value: Seq<char>, n: nat)
    ensures
        is_taken(ValueKind::Text, value),
        is_taken(ValueKind::Path, value) <==> value.len() > 0,
        is_taken(ValueKind::Port, numeral(n, 10)) <==> n <= 65535,
        is_taken(ValueKind::Size, numeral(n, 10)) <==> n <= usize::MAX,
        !(forall|i: int| 0 <= i < value.len() ==> '0' <= #[trigger] value[i] <= '9') ==> !is_taken(
            ValueKind::Port,
            value,
        ) && !is_taken(ValueKind::Size, value),
{
    law_numerals_are_read_back(n);
    law_digits_are_read_as_their_number(value);
}

/// How many of the first `n` settings have a variable that is set and no value
/// on the command line.
pub open spec fn left_to_variables(
    values: Seq<Option<Seq<char>>>,
    variables: Seq<Option<Seq<char>>>,
    n: int,
) -> nat
    decreases n,
{
    if n <= 0 {
        0
    } else if values[n - 1] is None && variables[n - 1] is Some {
        left_to_variables(values, variables, n - 1) + 1
    } else {
        left_to_variables(values, variables, n - 1)
    }
}

/// Whether the argument at that place gives the setting the value of its
/// variable.
pub open spec fn gives(
    arguments: Seq<Seq<char>>,
    place: nat,
    name: Seq<char>,
    variable: Option<Seq<char>>,
) -> bool {
    &&& place < arguments.len()
    &&& variable matches Some(value) && arguments[place as int] == seq!['-', '-'] + name + seq!['=']
        + value
}

/// Just the settings that the command line leaves to their variables get an
/// argument from these, in the order of the settings: the flag of the setting
/// with the value of its variable.
pub proof fn law_variables_fill_in_what_is_missing(
    settings: Seq<SettingView>,
    values: Seq<Option<Seq<char>>>,
    variables: Seq<Option<Seq<char>>>,
    n: int,
)
    requires
        n <= values.len(),
        n <= variables.len(),
        n <= settings.len(),
    ensures
        arguments_from(settings, values, variables, n).len() == left_to_variables(
            values,
            variables,
            n,
        ),
        forall|i: int|
            0 <= i < n && #[trigger] values[i] is None && variables[i] is Some ==> gives(
                arguments_from(settings, values, variables, n),
                left_to_variables(values, variables, i),
                settings[i].name,
                variables[i],
            ),
    decreases n,
{
    if n > 0 {
        law_variables_fill_in_what_is_missing(settings, values, variables, n - 1);
        reveal_strlit("--");
        reveal_strlit("=");
        assert("--"@ =~= seq!['-', '-']);
        assert("="@ =~= seq!['=']);
        let before = arguments_from(settings, values, variables, n - 1);
        let all = arguments_from(settings, values, variables, n);
        assert(all.len() >= before.len() && all.take(before.len() as int) =~= before);
        assert forall|i: int|
            0 <= i < n && #[trigger] values[i] is None && variables[i] is Some implies gives(
            all,
            left_to_variables(values, variables, i),
            settings[i].name,
            variables[i],
        ) by {
            let place = left_to_variables(values, variables, i);
            if i < n - 1 {
                assert(gives(before, place, settings[i].name, variables[i]));
                assert(all[place as int] == all.take(before.len() as int)[place as int]);
            } else {
                assert(all == before.push("--"@ + settings[i].name + "="@ + variables[i]->0));
            }
        }
    }
}

/// Where further arguments go: behind those given, but in front of a mark at
/// the end that no flags follow.
pub open spec fn insertion_point(args: Seq<Seq<char>>) -> int {
    if args.len() > 1 && args[args.len() - 1] == seq!['-', '-'] {
        args.len() - 1
    } else {
        args.len() as int
    }
}

/// Further arguments are put in all together at one place, and what was given
/// stays as it is on both sides. A command line without even the program's
/// name is given it.
pub proof fn law_arguments_are_put_in_one_place(args: Seq<Seq<char>>, more: Seq<Seq<char>>)
    ensures
        args.len() > 0 ==> {
            let at = insertion_point(args);
            let all = with_arguments(args, more);
            &&& all.len() == args.len() + more.len()
            &&& all.take(at) == args.take(at)
            &&& all.subrange(at, at + more.len()) == more
            &&& all.skip(at + more.len()) == args.skip(at)
        },
        args.len() == 0 ==> {
            let all = with_arguments(args, more);
            &&& all.len() == 1 + more.len()
            &&& all[0] == seq!['r', 'a', 'g', 'd']
            &&& all.skip(1) == more
        },
        args.len() > 0 ==> with_arguments(args, seq![]) == args,
{
    reveal_strlit("--");
    reveal_strlit("ragd");
    assert("--"@ =~= seq!['-', '-']);
    assert("ragd"@ =~= seq!['r', 'a', 'g', 'd']);
    let at = insertion_point(args);
    let all = with_arguments(args, more);
    if args.len() > 0 {
        assert(all.take(at) =~= args.take(at));
        assert(all.subrange(at, at + more.len()) =~= more);
        assert(all.skip(at + more.len()) =~= args.skip(at));
        assert(with_arguments(args, seq![]) =~= args);
    } else {
        assert(all.skip(1) =~= more);
    }
}

/// The command line comes before the environment: where it gives every setting
/// a value, or cannot be read, it is read as it stands, whatever the variables
/// are.
pub proof fn law_command_line_comes_first(
    needs_dim: bool,
    args: Seq<Seq<char>>,
    variables: Seq<Option<Seq<char>>>,
)
    requires
        args.len() > 0,
        variables.len() == 9,
        flag_values(loose_program(needs_dim), args) matches Ok(given) ==> given.len() == 9
            && forall|i: int|
            0 <= i < 9 ==> (#[trigger] given[i]) is Some || variables[i] is None,
    ensures
        values_of(needs_dim, args, variables) == flag_values(program(needs_dim, variables), args),
{
    assert(setting_table(needs_dim).len() == 9);
    if let Ok(given) = flag_values(loose_program(needs_dim), args) {
        lemma_nothing_left(given, variables, 9);
        law_variables_fill_in_what_is_missing(setting_table(needs_dim), given, variables, 9);
        assert(arguments_from(setting_table(needs_dim), given, variables, 9) =~= seq![]);
        law_arguments_are_put_in_one_place(args, seq![]);
    }
}

proof fn lemma_nothing_left(
    values: Seq<Option<Seq<char>>>,
    variables: Seq<Option<Seq<char>>>,
    n: int,
)
    requires
        forall|i: int| 0 <= i < n ==> (#[trigger] values[i]) is Some || variables[i] is None,
    ensures
        left_to_variables(values, variables, n) == 0,
    decreases n,
{
    if n > 0 {
        assert(values[n - 1] is Some || variables[n - 1] is None);
        lemma_nothing_left(values, variables, n - 1);
    }
}

proof fn lemma_put_in_one_place(args: Seq<Seq<char>>, more: Seq<Seq<char>>)
    requires
        args.len() > 0,
    ensures
        with_arguments(args, more) == args.take(insertion_point(args)) + more + args.skip(
            insertion_point(args),
        ),
{
    reveal_strlit("--");
    assert("--"@ =~= seq!['-', '-']);
    if insertion_point(args) < args.len() {
        assert(args.take(insertion_point(args)) =~= args.drop_last());
        assert(args.skip(insertion_point(args)) =~= seq!["--"@]);
    } else {
        assert(args.take(insertion_point(args)) =~= args);
        assert(args.skip(insertion_point(args)) =~= seq![]);
        assert(args + more + Seq::<Seq<char>>::empty() =~= args + more);
    }
}

proof fn lemma_arguments_put_in(
    table: Seq<SettingView>,
    args: Seq<Seq<char>>,
    variables: Seq<Option<Seq<char>>>,
    given: Seq<Option<Seq<char>>>,
) -> (more: Seq<Seq<char>>)
    requires
        args.len() > 0,
        table.len() == 9,
        variables.len() == 9,
        given.len() == 9,
    ensures
        more == arguments_from(table, given, variables, table.len() as int),
        with_arguments(args, more) == args.take(insertion_point(args)) + more + args.skip(
            insertion_point(args),
        ),
        more.len() == left_to_variables(given, variables, 9),
        forall|i: int|
            0 <= i < 9 && #[trigger] given[i] is None && variables[i] is Some ==> gives(
                more,
                left_to_variables(given, variables, i),
                table[i].name,
                variables[i],
            ),
{
    let more = arguments_from(table, given, variables, 9);
    law_variables_fill_in_what_is_missing(table, given, variables, 9);
    lemma_put_in_one_place(args, more);
    more
}

/// The environment comes before the defaults: a command line that leaves a
/// setting out is read as if it gave the setting the value of its variable.
/// Gives the arguments that are put in.
pub proof fn law_environment_comes_next(
    needs_dim: bool,
    args: Seq<Seq<char>>,
    variables: Seq<Option<Seq<char>>>,
    given: Seq<Option<Seq<char>>>,
) -> (more: Seq<Seq<char>>)
    requires
        args.len() > 0,
        variables.len() == 9,
        given.len() == 9,
        flag_values(loose_program(needs_dim), args) == Ok::<Seq<Option<Seq<char>>>, UsageView>(
            given,
        ),
    ensures
        ({
            let at = insertion_point(args);
            values_of(needs_dim, args, variables) == flag_values(
                program(needs_dim, variables),
                args.take(at) + more + args.skip(at),
            )
        }),
        more.len() == left_to_variables(given, variables, 9),
        forall|i: int|
            0 <= i < 9 && #[trigger] given[i] is None && variables[i] is Some ==> gives(
                more,
                left_to_variables(given, variables, i),
                setting_table(needs_dim)[i].name,
                variables[i],
            ),
{
    let table = setting_table(needs_dim);
    assert(table.len() == 9);
    let more = lemma_arguments_put_in(table, args, variables, given);
    more
}

/// The program's command line has a flag for each setting, with the setting's
/// name, kind and default, required as the setting is; its line of help is the
/// setting's, with the variable and what that is set to.
pub proof fn law_every_setting_has_its_flag(
    needs_dim: bool,
    variables: Seq<Option<Seq<char>>>,
    i: int,
)
    requires
        0 <= i < 9,
    ensures
        ({
            let setting = setting_table(needs_dim)[i];
            let command = program(needs_dim, variables);
            let flag = command.flags[i];
            &&& command.name == "ragd"@
            &&& command.flags.len() == 9
            &&& flag.name == setting.name
            &&& flag.value_name == setting.value_name
            &&& flag.required == setting.required
            &&& flag.default == setting.default
            &&& flag.kind == setting.kind
            &&& flag.help == help_line(setting, variables[i])
            &&& flag.help.take(setting.help.len() as int) == setting.help
            &&& flag.help.skip(setting.help.len() as int) == " [env: "@ + (setting.value_name + (
            "="@ + (match variables[i] {
                Some(value) => value,
                None => seq![],
            } + "]"@)))
        }),
{
    let setting = setting_table(needs_dim)[i];
    let help = program(needs_dim, variables).flags[i].help;
    let value = match variables[i] {
        Some(value) => value,
        None => seq![],
    };
    assert(setting_table(needs_dim).len() == 9);
    assert(help.take(setting.help.len() as int) =~= setting.help);
    assert(help.skip(setting.help.len() as int) =~= " [env: "@ + (setting.value_name + ("="@ + (
    value + "]"@))));
}

/// To see which flags are given, the same flags are read with nothing
/// required, nothing filled in and any value allowed.
pub proof fn law_given_flags_are_read_without_demands(needs_dim: bool, i: int)
    requires
        0 <= i < 9,
    ensures
        ({
            let command = loose_program(needs_dim);
            let flag = command.flags[i];
            &&& command.name == "ragd"@
            &&& command.flags.len() == 9
            &&& flag.name == setting_table(needs_dim)[i].name
            &&& !flag.required
            &&& flag.default is None
            &&& flag.kind == ValueKind::Text
        }),
{
    assert(setting_table(needs_dim).len() == 9);
}

} // verus!
