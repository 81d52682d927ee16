//! Settings: named values that come from the process's environment, from files and from the
//! command line.
//!
//! A name may be written in either case and with dashes or underscores. A setting is stored under
//! the upper case, dashed form of its name.

use crate::text::{chars_of, text_equal};
use vstd::prelude::*;

verus! {

/// The variables of an environment, in order. A name may occur more than once; the first
/// occurrence counts.
#[derive(Debug)]
pub struct Environment {
    pub vars: Vec<(String, String)>,
}

impl View for Environment {
    type V = Seq<(Seq<char>, Seq<char>)>;

    open spec fn view(&self) -> Seq<(Seq<char>, Seq<char>)> {
        pairs(self.vars@)
    }
}

/// The views of pairs of strings.
pub open spec fn pairs(list: Seq<(String, String)>) -> Seq<(Seq<char>, Seq<char>)> {
    list.map_values(|pair: (String, String)| (pair.0@, pair.1@))
}

/// The view of a string that may be missing.
pub open spec fn text_view(text: Option<String>) -> Option<Seq<char>> {
    match text {
        Some(s) => Some(s@),
        None => None,
    }
}

/// What `str::to_uppercase` makes of `s`.
pub uninterp spec fn uppercase(s: Seq<char>) -> Seq<char>;

/// What `str::to_lowercase` makes of `s`.
pub uninterp spec fn lowercase(s: Seq<char>) -> Seq<char>;

/// `s` with upper case letters, where its letters are those of ASCII.
pub open spec fn ascii_upper(s: Seq<char>) -> Seq<char> {
    s.map_values(|c: char| if 'a' <= c <= 'z' { (c as u32 - 32) as char } else { c })
}

/// `s` with lower case letters, where its letters are those of ASCII.
pub open spec fn ascii_lower(s: Seq<char>) -> Seq<char> {
    s.map_values(|c: char| if 'A' <= c <= 'Z' { (c as u32 + 32) as char } else { c })
}

/// `s` with `to` in place of every `from`.
pub open spec fn replaced(s: Seq<char>, from: char, to: char) -> Seq<char> {
    s.map_values(|c: char| if c == from { to } else { c })
}

/// `s` in upper case.
pub open spec fn upper(s: Seq<char>) -> Seq<char> {
    if vstd::utf8::is_ascii_chars(s) {
        ascii_upper(s)
    } else {
        uppercase(s)
    }
}

/// `s` in lower case.
pub open spec fn lower(s: Seq<char>) -> Seq<char> {
    if vstd::utf8::is_ascii_chars(s) {
        ascii_lower(s)
    } else {
        lowercase(s)
    }
}

/// The form of a name under which a setting is stored: in upper case, with dashes.
pub open spec fn normal_name(name: Seq<char>) -> Seq<char> {
    replaced(upper(name), '_', '-')
}

/// The first variable with this name: its place, or the number of variables where there is none.
pub open spec fn place_of(vars: Seq<(Seq<char>, Seq<char>)>, name: Seq<char>) -> nat
    decreases vars.len(),
{
    if vars.len() == 0 || vars[0].0 == name {
        0
    } else {
        1 + place_of(vars.drop_first(), name)
    }
}

/// The value of the variable with exactly this name.
pub open spec fn lookup(vars: Seq<(Seq<char>, Seq<char>)>, name: Seq<char>) -> Option<Seq<char>> {
    let place = place_of(vars, name) as int;
    if place < vars.len() {
        Some(vars[place].1)
    } else {
        None
    }
}

/// The environment after a variable was set.
pub open spec fn with_var(
    vars: Seq<(Seq<char>, Seq<char>)>,
    name: Seq<char>,
    value: Seq<char>,
) -> Seq<(Seq<char>, Seq<char>)> {
    let place = place_of(vars, name) as int;
    if place < vars.len() {
        vars.update(place, (name, value))
    } else {
        vars.push((name, value))
    }
}

/// The environment after a list of settings was set, one after the other.
pub open spec fn with_settings(
    vars: Seq<(Seq<char>, Seq<char>)>,
    settings: Seq<(Seq<char>, Seq<char>)>,
) -> Seq<(Seq<char>, Seq<char>)>
    decreases settings.len(),
{
    if settings.len() == 0 {
        vars
    } else {
        with_var(
            with_settings(vars, settings.drop_last()),
            normal_name(settings.last().0),
            settings.last().1,
        )
    }
}

/// The arguments of a command line that have a value, each with its first.
pub open spec fn given(args: Seq<(String, Vec<String>)>) -> Seq<(Seq<char>, Seq<char>)>
    decreases args.len(),
{
    if args.len() == 0 {
        seq![]
    } else {
        let front = given(args.drop_last());
        let (name, values) = args.last();
        if values@.len() == 0 {
            front
        } else {
            front.push((name@, values@[0]@))
        }
    }
}

/// The argument has a value, and names the setting that is asked for.
pub open spec fn gives(arg: (String, Vec<String>), asked: Seq<char>) -> bool {
    arg.1@.len() > 0 && normal_name(arg.0@) == normal_name(asked)
}

/// The pair names the setting that is asked for.
pub open spec fn sets(pair: (String, String), asked: Seq<char>) -> bool {
    normal_name(pair.0@) == normal_name(asked)
}

/// `a` comes before `b` where the first byte in which they differ is smaller, or where `a` ends
/// first.
pub open spec fn comes_before(a: Seq<u8>, b: Seq<u8>) -> bool
    decreases a.len(),
{
    if a.len() == 0 || b.len() == 0 {
        a.len() < b.len()
    } else if a[0] != b[0] {
        a[0] < b[0]
    } else {
        comes_before(a.drop_first(), b.drop_first())
    }
}

/// Among the variables whose name has the form `dashed`, the one whose name comes first; among
/// those of the same name, the first.
pub open spec fn first_spelling(
    vars: Seq<(Seq<char>, Seq<char>)>,
    dashed: Seq<char>,
) -> Option<(Seq<char>, Seq<char>)>
    decreases vars.len(),
{
    if vars.len() == 0 {
        None
    } else {
        let front = first_spelling(vars.drop_last(), dashed);
        let last = vars.last();
        if normal_name(last.0) != dashed {
            front
        } else {
            match front {
                Some(best) => if comes_before(
                    vstd::utf8::encode_utf8(last.0),
                    vstd::utf8::encode_utf8(best.0),
                ) {
                    Some(last)
                } else {
                    Some(best)
                },
                None => Some(last),
            }
        }
    }
}

/// The value of the setting `name`: that of the variable with the dashed name, with the underscored
/// name, or with one of these in lower case, in this order; or else that of a variable whose name
/// has the same form in some other spelling.
pub open spec fn arg_value(vars: Seq<(Seq<char>, Seq<char>)>, name: Seq<char>) -> Option<
    Seq<char>,
> {
    let dashed = normal_name(name);
    let underscored = replaced(dashed, '-', '_');
    if lookup(vars, dashed) is Some {
        lookup(vars, dashed)
    } else if lookup(vars, underscored) is Some {
        lookup(vars, underscored)
    } else if lookup(vars, lower(dashed)) is Some {
        lookup(vars, lower(dashed))
    } else if lookup(vars, lower(underscored)) is Some {
        lookup(vars, lower(underscored))
    } else {
        match first_spelling(vars, dashed) {
            Some(var) => Some(var.1),
            None => None,
        }
    }
}

/// `str::to_uppercase`. Its result is named `uppercase`; of a text in ASCII it changes the
/// letters `a` to `z` alone.
#[verifier::external_body]
fn to_upper(s: &str) -> (result: String)
    ensures
        result@ == uppercase(s@),
        vstd::utf8::is_ascii_chars(s@) ==> result@ == ascii_upper(s@),
{
    s.to_uppercase()
}

/// `str::to_lowercase`. Its result is named `lowercase`; of a text in ASCII it changes the
/// letters `A` to `Z` alone.
#[verifier::external_body]
fn to_lower(s: &str) -> (result: String)
    ensures
        result@ == lowercase(s@),
        vstd::utf8::is_ascii_chars(s@) ==> result@ == ascii_lower(s@),
{
    s.to_lowercase()
}

fn replace_char(s: &str, from: char, to: char) -> (result: String)
    ensures
        result@ == replaced(s@, from, to),
{
    let chars = chars_of(s);
    let mut result = String::new();
    assert(result@ =~= replaced(s@.take(0), from, to));
    for i in 0..chars.len()
        invariant
            chars@ == s@,
            result@ == replaced(s@.take(i as int), from, to),
    {
        let c = if chars[i] == from {
            to
        } else {
            chars[i]
        };
        result.push(c);
        assert(result@ =~= replaced(s@.take(i + 1), from, to));
    }
    assert(s@.take(s@.len() as int) =~= s@);
    result
}

/// The form of a name under which a setting is stored: in upper case, with dashes.
pub fn arg_name(name: &str) -> (normal: String)
    ensures
        normal@ == normal_name(name@),
{
    let capitals = to_upper(name);
    replace_char(capitals.as_str(), '_', '-')
}

fn find_var(env: &Environment, name: &str) -> (place: usize)
    ensures
        place == place_of(env@, name@),
        place <= env@.len(),
{
    let mut place: usize = 0;
    assert(env@.skip(0) =~= env@);
    while place < env.vars.len() && !text_equal(env.vars[place].0.as_str(), name)
        invariant
            place <= env.vars@.len(),
            place_of(env@, name@) == place + place_of(env@.skip(place as int), name@),
        decreases env.vars@.len() - place,
    {
        assert(env@.skip(place as int).drop_first() =~= env@.skip(place + 1));
        place = place + 1;
    }
    place
}

/// The value of the variable with exactly this name.
pub fn get_var(env: &Environment, name: &str) -> (value: Option<String>)
    ensures
        text_view(value) == lookup(env@, name@),
{
    let place = find_var(env, name);
    if place < env.vars.len() {
        Some(env.vars[place].1.clone())
    } else {
        None
    }
}

/// Sets a setting.
pub fn set_arg(env: &mut Environment, name: &str, value: &str)
    ensures
        final(env)@ == with_var(old(env)@, normal_name(name@), value@),
        forall|asked: Seq<char>| #[trigger]
            normal_name(asked) == normal_name(name@) ==> arg_value(final(env)@, asked) == Some(
                value@,
            ),
        forall|other: Seq<char>|
            other != normal_name(name@) ==> #[trigger] lookup(final(env)@, other) == lookup(
                old(env)@,
                other,
            ),
{
    proof {
        assert forall|asked: Seq<char>| #[trigger]
            normal_name(asked) == normal_name(name@) implies arg_value(
            with_var(env@, normal_name(name@), value@),
            asked,
        ) == Some(value@) by {
            law_set_then_get(env@, name@, value@, asked);
        }
        assert forall|other: Seq<char>| other != normal_name(name@) implies #[trigger] lookup(
            with_var(env@, normal_name(name@), value@),
            other,
        ) == lookup(env@, other) by {
            law_set_leaves_others(env@, normal_name(name@), value@, other);
        }
    }
    let normal = arg_name(name);
    let place = find_var(env, normal.as_str());
    let ghost before = env@;
    if place < env.vars.len() {
        env.vars[place] = (normal, value.to_owned());
        assert(env@ =~= before.update(place as int, (normal_name(name@), value@)));
    } else {
        env.vars.push((normal, value.to_owned()));
        assert(env@ =~= before.push((normal_name(name@), value@)));
    }
}

fn bytes_before(a: &[u8], b: &[u8]) -> (before: bool)
    ensures
        before == comes_before(a@, b@),
{
    let mut i: usize = 0;
    assert(a@.skip(0) =~= a@);
    assert(b@.skip(0) =~= b@);
    while i < a.len() && i < b.len() && a[i] == b[i]
        invariant
            i <= a@.len(),
            i <= b@.len(),
            comes_before(a@, b@) == comes_before(a@.skip(i as int), b@.skip(i as int)),
        decreases a@.len() - i,
    {
        assert(a@.skip(i as int).drop_first() =~= a@.skip(i + 1));
        assert(b@.skip(i as int).drop_first() =~= b@.skip(i + 1));
        i = i + 1;
    }
    if i == a.len() || i == b.len() {
        a.len() < b.len()
    } else {
        a[i] < b[i]
    }
}

/// The value of the variable that `first_spelling` finds.
fn find_spelling(env: &Environment, dashed: &str) -> (value: Option<String>)
    ensures
        text_view(value) == (match first_spelling(env@, dashed@) {
            Some(var) => Some(var.1),
            None => None,
        }),
{
    let mut best: Option<usize> = None;
    for i in 0..env.vars.len()
        invariant
            match best {
                Some(b) => b < i && first_spelling(env@.take(i as int), dashed@) == Some(
                    env@[b as int],
                ),
                None => first_spelling(env@.take(i as int), dashed@) is None,
            },
    {
        let ghost prefix = env@.take(i + 1);
        assert(prefix.drop_last() =~= env@.take(i as int));
        assert(prefix.last() == env@[i as int]);
        let normal = arg_name(env.vars[i].0.as_str());
        if text_equal(normal.as_str(), dashed) {
            best = match best {
                Some(b) => if bytes_before(
                    env.vars[i].0.as_str().as_bytes(),
                    env.vars[b].0.as_str().as_bytes(),
                ) {
                    Some(i)
                } else {
                    Some(b)
                },
                None => Some(i),
            };
        }
    }
    assert(env@.take(env@.len() as int) =~= env@);
    match best {
        Some(b) => Some(env.vars[b].1.clone()),
        None => None,
    }
}

/// The value of the setting `name`, if it is set.
pub fn get_arg_opt(env: &Environment, name: &str) -> (value: Option<String>)
    ensures
        text_view(value) == arg_value(env@, name@),
{
    let dashed = arg_name(name);
    let underscored = replace_char(dashed.as_str(), '-', '_');
    let lower_dashed = to_lower(dashed.as_str());
    let lower_underscored = to_lower(underscored.as_str());
    match get_var(env, dashed.as_str()) {
        Some(value) => {
            return Some(value);
        },
        None => {},
    }
    match get_var(env, underscored.as_str()) {
        Some(value) => {
            return Some(value);
        },
        None => {},
    }
    match get_var(env, lower_dashed.as_str()) {
        Some(value) => {
            return Some(value);
        },
        None => {},
    }
    match get_var(env, lower_underscored.as_str()) {
        Some(value) => {
            return Some(value);
        },
        None => {},
    }
    find_spelling(env, dashed.as_str())
}

/// The value of the setting `name`, or `default` if it is not set.
pub fn get_arg_or(env: &Environment, name: &str, default: String) -> (value: String)
    ensures
        value@ == (match arg_value(env@, name@) {
            Some(v) => v,
            None => default@,
        }),
{
    match get_arg_opt(env, name) {
        Some(value) => value,
        None => default,
    }
}

/// The value of the setting `name`, or nothing if it is not set.
pub fn get_arg(env: &Environment, name: &str) -> (value: String)
    ensures
        value@ == (match arg_value(env@, name@) {
            Some(v) => v,
            None => seq![],
        }),
{
    get_arg_or(env, name, String::new())
}

fn set_args(env: &mut Environment, settings: &Vec<(String, String)>)
    ensures
        final(env)@ == with_settings(old(env)@, pairs(settings@)),
{
    let ghost before = env@;
    let ghost all = pairs(settings@);
    for i in 0..settings.len()
        invariant
            all == pairs(settings@),
            env@ == with_settings(before, all.take(i as int)),
    {
        assert(all.take(i + 1).drop_last() =~= all.take(i as int));
        assert(all.take(i + 1).last() == all[i as int]);
        set_arg(env, settings[i].0.as_str(), settings[i].1.as_str());
    }
    assert(all.take(all.len() as int) =~= all);
}

/// Sets the settings that a server starts with: those of the file `.env`, then those of the
/// configuration file, then the arguments of the command line that have a value.
pub fn init_args(
    env: &mut Environment,
    env_file: &Vec<(String, String)>,
    config_file: &Vec<(String, String)>,
    args: &Vec<(String, Vec<String>)>,
)
    ensures
        final(env)@ == with_settings(
            old(env)@,
            pairs(env_file@) + pairs(config_file@) + given(args@),
        ),
        forall|i: int, asked: Seq<char>|
            #![trigger args@[i], normal_name(asked)]
            0 <= i < args@.len() && gives(args@[i], asked) && (forall|j: int|
                i < j < args@.len() ==> !gives(#[trigger] args@[j], asked)) ==> arg_value(
                final(env)@,
                asked,
            ) == Some(args@[i].1@[0]@),
        forall|i: int, asked: Seq<char>|
            #![trigger config_file@[i], normal_name(asked)]
            0 <= i < config_file@.len() && sets(config_file@[i], asked) && (forall|j: int|
                i < j < config_file@.len() ==> !sets(#[trigger] config_file@[j], asked)) && (
            forall|j: int| 0 <= j < args@.len() ==> !gives(#[trigger] args@[j], asked))
                ==> arg_value(final(env)@, asked) == Some(config_file@[i].1@),
        forall|i: int, asked: Seq<char>|
            #![trigger env_file@[i], normal_name(asked)]
            0 <= i < env_file@.len() && sets(env_file@[i], asked) && (forall|j: int|
                i < j < env_file@.len() ==> !sets(#[trigger] env_file@[j], asked)) && (forall|
                j: int,
            |
                0 <= j < config_file@.len() ==> !sets(#[trigger] config_file@[j], asked)) && (
            forall|j: int| 0 <= j < args@.len() ==> !gives(#[trigger] args@[j], asked))
                ==> arg_value(final(env)@, asked) == Some(env_file@[i].1@),
{
    let ghost before = env@;
    let ghost files = pairs(env_file@) + pairs(config_file@);
    set_args(env, env_file);
    set_args(env, config_file);
    proof {
        lemma_settings_in_turn(before, pairs(env_file@), pairs(config_file@));
        assert(files + given(args@.take(0)) =~= files);
    }
    for i in 0..args.len()
        invariant
            env@ == with_settings(before, files + given(args@.take(i as int))),
    {
        assert(args@.take(i + 1).drop_last() =~= args@.take(i as int));
        assert(args@.take(i + 1).last() == args@[i as int]);
        if args[i].1.len() > 0 {
            let ghost last = (args@[i as int].0@, args@[i as int].1@[0]@);
            set_arg(env, args[i].0.as_str(), args[i].1[0].as_str());
            proof {
                let settings = files + given(args@.take(i + 1));
                assert(settings.drop_last() =~= files + given(args@.take(i as int)));
                assert(settings.last() == last);
            }
        }
    }
    assert(args@.take(args@.len() as int) =~= args@);
    proof {
        assert forall|i: int, asked: Seq<char>|
            #![trigger args@[i], normal_name(asked)]
            0 <= i < args@.len() && gives(args@[i], asked) && (forall|j: int|
                i < j < args@.len() ==> !gives(#[trigger] args@[j], asked)) implies arg_value(
            env@,
            asked,
        ) == Some(args@[i].1@[0]@) by {
            law_command_line_wins(before, env_file@, config_file@, args@, asked, i);
        }
        assert forall|i: int, asked: Seq<char>|
            #![trigger config_file@[i], normal_name(asked)]
            0 <= i < config_file@.len() && sets(config_file@[i], asked) && (forall|j: int|
                i < j < config_file@.len() ==> !sets(#[trigger] config_file@[j], asked)) && (
            forall|j: int|
                0 <= j < args@.len() ==> !gives(#[trigger] args@[j], asked)) implies arg_value(
            env@,
            asked,
        ) == Some(config_file@[i].1@) by {
            law_config_file_comes_next(before, env_file@, config_file@, args@, asked, i);
        }
        assert forall|i: int, asked: Seq<char>|
            #![trigger env_file@[i], normal_name(asked)]
            0 <= i < env_file@.len() && sets(env_file@[i], asked) && (forall|j: int|
                i < j < env_file@.len() ==> !sets(#[trigger] env_file@[j], asked)) && (forall|
                j: int,
            |
                0 <= j < config_file@.len() ==> !sets(#[trigger] config_file@[j], asked)) && (
            forall|j: int|
                0 <= j < args@.len() ==> !gives(#[trigger] args@[j], asked)) implies arg_value(
            env@,
            asked,
        ) == Some(env_file@[i].1@) by {
            law_env_file_comes_last(before, env_file@, config_file@, args@, asked, i);
        }
    }
}

proof fn lemma_settings_in_turn(
    vars: Seq<(Seq<char>, Seq<char>)>,
    a: Seq<(Seq<char>, Seq<char>)>,
    b: Seq<(Seq<char>, Seq<char>)>,
)
    ensures
        with_settings(with_settings(vars, a), b) == with_settings(vars, a + b),
    decreases b.len(),
{
    if b.len() == 0 {
        assert(a + b =~= a);
    } else {
        assert((a + b).drop_last() =~= a + b.drop_last());
        lemma_settings_in_turn(vars, a, b.drop_last());
    }
}

proof fn lemma_place(vars: Seq<(Seq<char>, Seq<char>)>, name: Seq<char>)
    ensures
        place_of(vars, name) <= vars.len(),
        forall|j: int| 0 <= j < place_of(vars, name) ==> (#[trigger] vars[j]).0 != name,
        place_of(vars, name) < vars.len() ==> vars[place_of(vars, name) as int].0 == name,
    decreases vars.len(),
{
    if vars.len() > 0 && vars[0].0 != name {
        let rest = vars.drop_first();
        lemma_place(rest, name);
        assert forall|j: int| 0 <= j < place_of(vars, name) implies (#[trigger] vars[j]).0 != name by {
            if j > 0 {
                assert(vars[j] == rest[j - 1]);
            }
        }
        if place_of(vars, name) < vars.len() {
            assert(vars[place_of(vars, name) as int] == rest[place_of(rest, name) as int]);
        }
    }
}

proof fn lemma_place_is(vars: Seq<(Seq<char>, Seq<char>)>, name: Seq<char>, place: int)
    requires
        0 <= place < vars.len(),
        vars[place].0 == name,
        forall|j: int| 0 <= j < place ==> (#[trigger] vars[j]).0 != name,
    ensures
        place_of(vars, name) == place,
{
    lemma_place(vars, name);
    let found = place_of(vars, name) as int;
    if found < place {
        assert(vars[found].0 != name);
    }
}

/// What was set is read back: after a setting was set, it has the value that it was given, under
/// every name of the same form.
pub proof fn law_set_then_get(
    vars: Seq<(Seq<char>, Seq<char>)>,
    name: Seq<char>,
    value: Seq<char>,
    asked: Seq<char>,
)
    ensures
        normal_name(asked) == normal_name(name) ==> arg_value(
            with_var(vars, normal_name(name), value),
            asked,
        ) == Some(value),
{
    let dashed = normal_name(name);
    let place = place_of(vars, dashed) as int;
    let after = with_var(vars, dashed, value);
    lemma_place(vars, dashed);
    assert forall|j: int| 0 <= j < place implies (#[trigger] after[j]).0 != dashed by {
        assert(after[j] == vars[j]);
    }
    lemma_place_is(after, dashed, place);
}

/// Setting a variable leaves the others alone: a variable of another name keeps its value.
pub proof fn law_set_leaves_others(
    vars: Seq<(Seq<char>, Seq<char>)>,
    name: Seq<char>,
    value: Seq<char>,
    other: Seq<char>,
)
    ensures
        other != name ==> lookup(with_var(vars, name, value), other) == lookup(vars, other),
{
    if other != name {
        let after = with_var(vars, name, value);
        let changed = place_of(vars, name) as int;
        let place = place_of(vars, other) as int;
        lemma_place(vars, name);
        lemma_place(vars, other);
        lemma_place(after, other);
        if place < vars.len() {
            assert(after[place] == vars[place]);
            assert forall|j: int| 0 <= j < place implies (#[trigger] after[j]).0 != other by {
                if j != changed {
                    assert(after[j] == vars[j]);
                }
            }
            lemma_place_is(after, other, place);
        } else {
            let found = place_of(after, other) as int;
            if found < after.len() {
                if found != changed {
                    assert(after[found] == vars[found]);
                }
            }
        }
    }
}

/// The later setting wins: after a list of settings was set, a setting has the value that comes
/// last in the list. With the order in which `init_args` sets them, the command line wins over
/// the configuration file, and that over the file `.env`.
pub proof fn law_later_setting_wins(
    vars: Seq<(Seq<char>, Seq<char>)>,
    settings: Seq<(Seq<char>, Seq<char>)>,
    i: int,
    asked: Seq<char>,
)
    requires
        0 <= i < settings.len(),
    ensures
        normal_name(settings[i].0) == normal_name(asked) && (forall|j: int|
            i < j < settings.len() ==> normal_name((#[trigger] settings[j]).0) != normal_name(
                asked,
            )) ==> arg_value(with_settings(vars, settings), asked) == Some(settings[i].1),
{
    if normal_name(settings[i].0) == normal_name(asked) && (forall|j: int|
        i < j < settings.len() ==> normal_name((#[trigger] settings[j]).0) != normal_name(asked)) {
        lemma_last_setting_is_stored(vars, settings, i, normal_name(asked));
    }
}

proof fn lemma_last_setting_is_stored(
    vars: Seq<(Seq<char>, Seq<char>)>,
    settings: Seq<(Seq<char>, Seq<char>)>,
    i: int,
    dashed: Seq<char>,
)
    requires
        0 <= i < settings.len(),
        normal_name(settings[i].0) == dashed,
        forall|j: int|
            i < j < settings.len() ==> normal_name((#[trigger] settings[j]).0) != dashed,
    ensures
        lookup(with_settings(vars, settings), dashed) == Some(settings[i].1),
    decreases settings.len(),
{
    let front = settings.drop_last();
    let last = settings.last();
    let before = with_settings(vars, front);
    if i == settings.len() - 1 {
        let place = place_of(before, dashed) as int;
        let after = with_var(before, dashed, last.1);
        lemma_place(before, dashed);
        assert forall|j: int| 0 <= j < place implies (#[trigger] after[j]).0 != dashed by {
            assert(after[j] == before[j]);
        }
        lemma_place_is(after, dashed, place);
    } else {
        assert(front[i] == settings[i]);
        assert forall|j: int| i < j < front.len() implies normal_name((#[trigger] front[j]).0)
            != dashed by {
            assert(front[j] == settings[j]);
        }
        lemma_last_setting_is_stored(vars, front, i, dashed);
        law_set_leaves_others(before, normal_name(last.0), last.1, dashed);
    }
}

/// The same letter, whatever its case, or one of the two separators in either place.
pub open spec fn same_letter(a: char, b: char) -> bool {
    ||| a == b
    ||| 'a' <= a <= 'z' && b == (a as u32 - 32) as char
    ||| 'a' <= b <= 'z' && a == (b as u32 - 32) as char
    ||| (a == '-' || a == '_') && (b == '-' || b == '_')
}

/// The names differ in case and separators alone.
pub open spec fn same_but_for_case_and_separator(a: Seq<char>, b: Seq<char>) -> bool {
    &&& a.len() == b.len()
    &&& forall|i: int| 0 <= i < a.len() ==> same_letter(#[trigger] a[i], b[i])
}

/// Names in ASCII ignore case and separator: two names that differ in these alone name the same
/// setting.
pub proof fn law_names_ignore_case_and_separator(
    vars: Seq<(Seq<char>, Seq<char>)>,
    a: Seq<char>,
    b: Seq<char>,
)
    requires
        vstd::utf8::is_ascii_chars(a),
        same_but_for_case_and_separator(a, b),
    ensures
        normal_name(a) == normal_name(b),
        arg_value(vars, a) == arg_value(vars, b),
{
    assert forall|i: int| 0 <= i < b.len() implies '\0' <= #[trigger] b[i] <= '\u{7f}' by {
        assert(same_letter(a[i], b[i]));
    }
    assert forall|i: int| 0 <= i < a.len() implies normal_name(a)[i] == normal_name(b)[i] by {
        assert(same_letter(a[i], b[i]));
    }
    assert(normal_name(a) =~= normal_name(b));
}

/// The usual spellings of a name in ASCII: the dashed name has no small letter and no underscore,
/// all four are in ASCII, and all have the form of the name.
pub proof fn law_usual_spellings(name: Seq<char>)
    requires
        vstd::utf8::is_ascii_chars(name),
    ensures
        ({
            let dashed = normal_name(name);
            let underscored = replaced(dashed, '-', '_');
            &&& dashed == replaced(ascii_upper(name), '_', '-')
            &&& lower(dashed) == ascii_lower(dashed)
            &&& lower(underscored) == ascii_lower(underscored)
            &&& normal_name(dashed) == dashed
            &&& normal_name(underscored) == dashed
            &&& normal_name(lower(dashed)) == dashed
            &&& normal_name(lower(underscored)) == dashed
            &&& forall|i: int|
                0 <= i < dashed.len() ==> !('a' <= #[trigger] dashed[i] <= 'z') && dashed[i] != '_'
        }),
{
    let dashed = normal_name(name);
    let underscored = replaced(dashed, '-', '_');
    assert forall|i: int| 0 <= i < dashed.len() implies !('a' <= #[trigger] dashed[i] <= 'z')
        && dashed[i] != '_' by {
        assert(dashed[i] == (if ascii_upper(name)[i] == '_' {
            '-'
        } else {
            ascii_upper(name)[i]
        }));
    }
    assert(vstd::utf8::is_ascii_chars(dashed));
    assert(vstd::utf8::is_ascii_chars(underscored));
    assert(vstd::utf8::is_ascii_chars(ascii_lower(dashed)));
    assert(vstd::utf8::is_ascii_chars(ascii_lower(underscored)));
    assert(normal_name(dashed) =~= dashed);
    assert(normal_name(underscored) =~= dashed);
    assert(normal_name(lower(dashed)) =~= dashed);
    assert(normal_name(lower(underscored)) =~= dashed);
}

/// The variable in this place has this name, and none before it has.
pub open spec fn is_first_with(
    vars: Seq<(Seq<char>, Seq<char>)>,
    i: int,
    name: Seq<char>,
) -> bool {
    &&& 0 <= i < vars.len()
    &&& vars[i].0 == name
    &&& forall|j: int| 0 <= j < i ==> (#[trigger] vars[j]).0 != name
}

/// No variable has this name.
pub open spec fn is_absent(vars: Seq<(Seq<char>, Seq<char>)>, name: Seq<char>) -> bool {
    forall|j: int| 0 <= j < vars.len() ==> (#[trigger] vars[j]).0 != name
}

proof fn lemma_first_spelling(
    vars: Seq<(Seq<char>, Seq<char>)>,
    dashed: Seq<char>,
)
    ensures
        match first_spelling(vars, dashed) {
            Some(var) => {
                &&& normal_name(var.0) == dashed
                &&& exists|i: int| #[trigger]
                    is_first_with(vars, i, var.0) && vars[i] == var
                &&& forall|j: int|
                    0 <= j < vars.len() && normal_name((#[trigger] vars[j]).0) == dashed
                        ==> !comes_before(
                        vstd::utf8::encode_utf8(vars[j].0),
                        vstd::utf8::encode_utf8(var.0),
                    )
            },
            None => forall|j: int|
                0 <= j < vars.len() ==> normal_name((#[trigger] vars[j]).0) != dashed,
        },
    decreases vars.len(),
{
    if vars.len() > 0 {
        let front = vars.drop_last();
        let last = vars.last();
        lemma_first_spelling(front, dashed);
        match first_spelling(vars, dashed) {
            Some(var) => {
                match first_spelling(front, dashed) {
                    Some(best) => {
                        let k = choose|k: int| #[trigger]
                            is_first_with(front, k, best.0) && front[k] == best;
                        assert(vars[k] == best);
                        assert forall|j: int| 0 <= j < k implies (#[trigger] vars[j]).0
                            != best.0 by {
                            assert(front[j] == vars[j]);
                        }
                        assert(is_first_with(vars, k, best.0));
                    },
                    None => {},
                }
                assert(vars[vars.len() - 1] == last);
                if var == last {
                    assert forall|j: int| 0 <= j < vars.len() - 1 && first_spelling(front, dashed)
                        != Some(last) implies (#[trigger] vars[j]).0 != last.0 by {
                        assert(front[j] == vars[j]);
                    }
                    if first_spelling(front, dashed) != Some(last) {
                        assert(is_first_with(vars, vars.len() - 1, last.0));
                    }
                }
                assert forall|j: int|
                    0 <= j < vars.len() && normal_name((#[trigger] vars[j]).0)
                        == dashed implies !comes_before(
                    vstd::utf8::encode_utf8(vars[j].0),
                    vstd::utf8::encode_utf8(var.0),
                ) by {
                    let name = vstd::utf8::encode_utf8(vars[j].0);
                    if j < front.len() {
                        assert(front[j] == vars[j]);
                        match first_spelling(front, dashed) {
                            Some(best) => {
                                if comes_before(name, vstd::utf8::encode_utf8(last.0))
                                    && comes_before(
                                    vstd::utf8::encode_utf8(last.0),
                                    vstd::utf8::encode_utf8(best.0),
                                ) {
                                    lemma_comes_before_transitive(
                                        name,
                                        vstd::utf8::encode_utf8(last.0),
                                        vstd::utf8::encode_utf8(best.0),
                                    );
                                }
                            },
                            None => {},
                        }
                    } else {
                        lemma_comes_before_irreflexive(name);
                    }
                }
            },
            None => {
                assert forall|j: int| 0 <= j < vars.len() implies normal_name((#[trigger] vars[j]).0)
                    != dashed by {
                    if j < front.len() {
                        assert(front[j] == vars[j]);
                    }
                }
            },
        }
    }
}

proof fn lemma_comes_before_irreflexive(a: Seq<u8>)
    ensures
        !comes_before(a, a),
    decreases a.len(),
{
    if a.len() > 0 {
        lemma_comes_before_irreflexive(a.drop_first());
    }
}

proof fn lemma_comes_before_transitive(a: Seq<u8>, b: Seq<u8>, c: Seq<u8>)
    requires
        comes_before(a, b),
        comes_before(b, c),
    ensures
        comes_before(a, c),
    decreases a.len(),
{
    if a.len() > 0 && b.len() > 0 && c.len() > 0 && a[0] == b[0] && b[0] == c[0] {
        lemma_comes_before_transitive(a.drop_first(), b.drop_first(), c.drop_first());
    }
}

proof fn lemma_other_spellings_stay(
    vars: Seq<(Seq<char>, Seq<char>)>,
    dashed: Seq<char>,
    place: int,
    var: (Seq<char>, Seq<char>),
)
    requires
        0 <= place < vars.len(),
        normal_name(vars[place].0) != dashed,
        normal_name(var.0) != dashed,
    ensures
        first_spelling(vars.update(place, var), dashed) == first_spelling(vars, dashed),
    decreases vars.len(),
{
    let after = vars.update(place, var);
    if place == vars.len() - 1 {
        assert(after.drop_last() =~= vars.drop_last());
    } else {
        assert(after.drop_last() =~= vars.drop_last().update(place, var));
        lemma_other_spellings_stay(vars.drop_last(), dashed, place, var);
    }
}

/// Setting one setting leaves the other settings alone: one whose name has another form keeps its
/// value, in whatever spelling it is found. Both names are in ASCII; the other variables may have
/// any.
pub proof fn law_set_leaves_other_settings(
    vars: Seq<(Seq<char>, Seq<char>)>,
    name: Seq<char>,
    value: Seq<char>,
    other: Seq<char>,
)
    requires
        vstd::utf8::is_ascii_chars(name),
        vstd::utf8::is_ascii_chars(other),
    ensures
        normal_name(other) != normal_name(name) ==> arg_value(
            with_var(vars, normal_name(name), value),
            other,
        ) == arg_value(vars, other),
{
    if normal_name(other) != normal_name(name) {
        let stored = normal_name(name);
        let dashed = normal_name(other);
        let underscored = replaced(dashed, '-', '_');
        law_usual_spellings(name);
        law_usual_spellings(other);
        law_set_leaves_others(vars, stored, value, dashed);
        law_set_leaves_others(vars, stored, value, underscored);
        law_set_leaves_others(vars, stored, value, lower(dashed));
        law_set_leaves_others(vars, stored, value, lower(underscored));
        lemma_place(vars, stored);
        let place = place_of(vars, stored) as int;
        if place < vars.len() {
            lemma_other_spellings_stay(vars, dashed, place, (stored, value));
        } else {
            assert(vars.push((stored, value)).drop_last() =~= vars);
        }
    }
}

/// Every spelling is found: a setting with a name in ASCII has a value exactly where some
/// variable's name has the form of its name, and the value is that of such a variable. The
/// variables may have any names.
pub proof fn law_every_spelling_is_found(vars: Seq<(Seq<char>, Seq<char>)>, name: Seq<char>)
    requires
        vstd::utf8::is_ascii_chars(name),
    ensures
        match arg_value(vars, name) {
            Some(value) => exists|i: int|
                0 <= i < vars.len() && normal_name((#[trigger] vars[i]).0) == normal_name(name)
                    && vars[i].1 == value,
            None => forall|i: int|
                0 <= i < vars.len() ==> normal_name((#[trigger] vars[i]).0) != normal_name(name),
        },
{
    let dashed = normal_name(name);
    let underscored = replaced(dashed, '-', '_');
    law_usual_spellings(name);
    lemma_place(vars, dashed);
    lemma_place(vars, underscored);
    lemma_place(vars, lower(dashed));
    lemma_place(vars, lower(underscored));
    lemma_first_spelling(vars, dashed);
}

/// Among spellings other than the usual ones, the name that comes first decides.
pub proof fn law_first_name_decides(
    vars: Seq<(Seq<char>, Seq<char>)>,
    dashed: Seq<char>,
    j: int,
)
    requires
        0 <= j < vars.len(),
    ensures
        normal_name(vars[j].0) == dashed ==> (first_spelling(vars, dashed) matches Some(var)
            && normal_name(var.0) == dashed && !comes_before(
            vstd::utf8::encode_utf8(vars[j].0),
            vstd::utf8::encode_utf8(var.0),
        )),
{
    lemma_first_spelling(vars, dashed);
}

/// A variable is looked up by its exact name, and the first of that name counts.
pub proof fn law_lookup(vars: Seq<(Seq<char>, Seq<char>)>, name: Seq<char>, i: int)
    ensures
        is_first_with(vars, i, name) ==> lookup(vars, name) == Some(vars[i].1),
        is_absent(vars, name) <==> lookup(vars, name) is None,
{
    lemma_place(vars, name);
    if is_first_with(vars, i, name) {
        lemma_place_is(vars, name, i);
    }
}

/// Setting a variable replaces its value in its place, or adds it behind the others.
pub proof fn law_variable_is_set_in_place(
    vars: Seq<(Seq<char>, Seq<char>)>,
    name: Seq<char>,
    value: Seq<char>,
    i: int,
)
    ensures
        is_first_with(vars, i, name) ==> with_var(vars, name, value) == vars.update(
            i,
            (name, value),
        ),
        is_absent(vars, name) ==> with_var(vars, name, value) == vars.push((name, value)),
{
    law_lookup(vars, name, i);
    lemma_place(vars, name);
    if is_first_with(vars, i, name) {
        lemma_place_is(vars, name, i);
    }
}

/// A name with `separator` for its separators, and with its letters of ASCII as capitals or not.
pub open spec fn spelled(name: Seq<char>, separator: char, capital: bool) -> Seq<char> {
    Seq::new(
        name.len(),
        |i: int|
            if name[i] == '-' || name[i] == '_' {
                separator
            } else if capital && 'a' <= name[i] <= 'z' {
                (name[i] as u32 - 32) as char
            } else if !capital && 'A' <= name[i] <= 'Z' {
                (name[i] as u32 + 32) as char
            } else {
                name[i]
            },
    )
}

/// The form of a name in ASCII has capitals and dashes; the other usual spellings have underscores,
/// or small letters, or both.
pub proof fn law_spellings_of_a_name(name: Seq<char>)
    requires
        vstd::utf8::is_ascii_chars(name),
    ensures
        ({
            let dashed = normal_name(name);
            let underscored = replaced(dashed, '-', '_');
            &&& dashed == spelled(name, '-', true)
            &&& underscored == spelled(name, '_', true)
            &&& lower(dashed) == spelled(name, '-', false)
            &&& lower(underscored) == spelled(name, '_', false)
        }),
{
    let dashed = normal_name(name);
    let underscored = replaced(dashed, '-', '_');
    law_usual_spellings(name);
    assert(dashed =~= spelled(name, '-', true));
    assert(underscored =~= spelled(name, '_', true));
    assert(lower(dashed) =~= spelled(name, '-', false));
    assert(lower(underscored) =~= spelled(name, '_', false));
}

/// The usual spellings are asked for in order: with capitals and dashes, with capitals and
/// underscores, with small letters and dashes, with small letters and underscores. The first
/// variable of the first of these names that there is has the value.
pub proof fn law_usual_spellings_in_order(
    vars: Seq<(Seq<char>, Seq<char>)>,
    name: Seq<char>,
    i: int,
)
    requires
        vstd::utf8::is_ascii_chars(name),
    ensures
        is_first_with(vars, i, spelled(name, '-', true)) ==> arg_value(vars, name) == Some(
            vars[i].1,
        ),
        is_absent(vars, spelled(name, '-', true)) && is_first_with(
            vars,
            i,
            spelled(name, '_', true),
        ) ==> arg_value(vars, name) == Some(vars[i].1),
        is_absent(vars, spelled(name, '-', true)) && is_absent(vars, spelled(name, '_', true))
            && is_first_with(vars, i, spelled(name, '-', false)) ==> arg_value(vars, name) == Some(
            vars[i].1,
        ),
        is_absent(vars, spelled(name, '-', true)) && is_absent(vars, spelled(name, '_', true))
            && is_absent(vars, spelled(name, '-', false)) && is_first_with(
            vars,
            i,
            spelled(name, '_', false),
        ) ==> arg_value(vars, name) == Some(vars[i].1),
{
    law_spellings_of_a_name(name);
    law_lookup(vars, spelled(name, '-', true), i);
    law_lookup(vars, spelled(name, '_', true), i);
    law_lookup(vars, spelled(name, '-', false), i);
    law_lookup(vars, spelled(name, '_', false), i);
}

/// `a` sorts before `b`: they agree up to a place where `a` ends, or has the smaller byte.
pub open spec fn sorts_before(a: Seq<u8>, b: Seq<u8>) -> bool {
    exists|p: int| #[trigger] parts_at(a, b, p)
}

/// `a` and `b` agree up to a place, and there `a` ends, or has the smaller byte.
pub open spec fn parts_at(a: Seq<u8>, b: Seq<u8>, p: int) -> bool {
    &&& 0 <= p < b.len()
    &&& p <= a.len()
    &&& forall|i: int| 0 <= i < p ==> #[trigger] a[i] == b[i]
    &&& p < a.len() ==> a[p] < b[p]
}

/// Names are ordered by their bytes.
pub proof fn law_order_of_names(a: Seq<u8>, b: Seq<u8>)
    ensures
        comes_before(a, b) <==> sorts_before(a, b),
    decreases a.len(),
{
    if a.len() == 0 || b.len() == 0 {
        if a.len() < b.len() {
            assert(parts_at(a, b, 0));
        }
    } else if a[0] != b[0] {
        if a[0] < b[0] {
            assert(parts_at(a, b, 0));
        }
        if sorts_before(a, b) {
            let p = choose|p: int| #[trigger] parts_at(a, b, p);
            assert(p == 0);
        }
    } else {
        let x = a.drop_first();
        let y = b.drop_first();
        law_order_of_names(x, y);
        if sorts_before(x, y) {
            let p = choose|p: int| #[trigger] parts_at(x, y, p);
            assert forall|i: int| 0 <= i < p + 1 implies #[trigger] a[i] == b[i] by {
                if i > 0 {
                    assert(x[i - 1] == y[i - 1]);
                }
            }
            assert(parts_at(a, b, p + 1));
        }
        if sorts_before(a, b) {
            let p = choose|p: int| #[trigger] parts_at(a, b, p);
            assert forall|i: int| 0 <= i < p - 1 implies #[trigger] x[i] == y[i] by {
                assert(a[i + 1] == b[i + 1]);
            }
            assert(parts_at(x, y, p - 1));
        }
    }
}

/// The name of the variable in this place has this form, and sorts before that of every other with
/// the form; among those of the same name the variable is the first.
pub open spec fn sorts_first(
    vars: Seq<(Seq<char>, Seq<char>)>,
    i: int,
    dashed: Seq<char>,
) -> bool {
    &&& 0 <= i < vars.len()
    &&& normal_name(vars[i].0) == dashed
    &&& forall|j: int|
        0 <= j < vars.len() && j != i && normal_name((#[trigger] vars[j]).0) == dashed
            ==> sorts_before(
            vstd::utf8::encode_utf8(vars[i].0),
            vstd::utf8::encode_utf8(vars[j].0),
        ) || vars[j].0 == vars[i].0 && i < j
}

/// Where there is no variable of a usual spelling, the one whose name sorts first among those of
/// the same form has the value; among those of the same name, the first.
pub proof fn law_unusual_spelling(vars: Seq<(Seq<char>, Seq<char>)>, name: Seq<char>, i: int)
    requires
        vstd::utf8::is_ascii_chars(name),
        is_absent(vars, spelled(name, '-', true)),
        is_absent(vars, spelled(name, '_', true)),
        is_absent(vars, spelled(name, '-', false)),
        is_absent(vars, spelled(name, '_', false)),
    ensures
        sorts_first(vars, i, spelled(name, '-', true)) ==> arg_value(vars, name) == Some(
            vars[i].1,
        ),
{
    law_spellings_of_a_name(name);
    law_names_in_order(vars, name, i);
}

/// Every setting that the command line gives comes from an argument with a value.
proof fn lemma_given_by(args: Seq<(String, Vec<String>)>, k: int) -> (j: int)
    requires
        0 <= k < given(args).len(),
    ensures
        0 <= j < args.len(),
        args[j].1@.len() > 0,
        given(args)[k].0 == args[j].0@,
    decreases args.len(),
{
    let front = args.drop_last();
    if k < given(front).len() {
        let j = lemma_given_by(front, k);
        assert(front[j] == args[j]);
        j
    } else {
        args.len() - 1
    }
}

/// Where the argument `i` stands among the settings that the command line gives: those behind it
/// come from later arguments.
proof fn lemma_given_at(args: Seq<(String, Vec<String>)>, i: int) -> (k: int)
    requires
        0 <= i < args.len(),
        args[i].1@.len() > 0,
    ensures
        0 <= k < given(args).len(),
        given(args)[k] == (args[i].0@, args[i].1@[0]@),
        forall|m: int|
            k < m < given(args).len() ==> exists|j: int|
                i < j < args.len() && (#[trigger] args[j]).1@.len() > 0 && (#[trigger] given(
                    args,
                )[m]).0 == args[j].0@,
    decreases args.len(),
{
    let front = args.drop_last();
    if i == args.len() - 1 {
        given(front).len() as int
    } else {
        let k = lemma_given_at(front, i);
        assert forall|m: int| k < m < given(args).len() implies exists|j: int|
            i < j < args.len() && (#[trigger] args[j]).1@.len() > 0 && (#[trigger] given(
                args,
            )[m]).0 == args[j].0@ by {
            if m < given(front).len() {
                assert(given(args)[m] == given(front)[m]);
                let j = choose|j: int|
                    i < j < front.len() && (#[trigger] front[j]).1@.len() > 0 && given(front)[m].0
                        == front[j].0@;
                assert(front[j] == args[j]);
            } else {
                assert(args[args.len() - 1].1@.len() > 0);
            }
        }
        k
    }
}

proof fn lemma_settings_leave_others(
    vars: Seq<(Seq<char>, Seq<char>)>,
    settings: Seq<(Seq<char>, Seq<char>)>,
    asked: Seq<char>,
)
    requires
        vstd::utf8::is_ascii_chars(asked),
        forall|j: int|
            0 <= j < settings.len() ==> vstd::utf8::is_ascii_chars((#[trigger] settings[j]).0),
        forall|j: int|
            0 <= j < settings.len() ==> normal_name((#[trigger] settings[j]).0) != normal_name(
                asked,
            ),
    ensures
        arg_value(with_settings(vars, settings), asked) == arg_value(vars, asked),
    decreases settings.len(),
{
    if settings.len() > 0 {
        let front = settings.drop_last();
        assert forall|j: int| 0 <= j < front.len() implies vstd::utf8::is_ascii_chars(
            (#[trigger] front[j]).0,
        ) && normal_name(front[j].0) != normal_name(asked) by {
            assert(front[j] == settings[j]);
        }
        lemma_settings_leave_others(vars, front, asked);
        assert(settings[settings.len() - 1] == settings.last());
        law_set_leaves_other_settings(
            with_settings(vars, front),
            settings.last().0,
            settings.last().1,
            asked,
        );
    }
}

/// The command line wins: after the start, a setting has the first value of the last argument that
/// names it and has a value, whatever the environment and the two files hold.
pub proof fn law_command_line_wins(
    vars: Seq<(Seq<char>, Seq<char>)>,
    env_file: Seq<(String, String)>,
    config_file: Seq<(String, String)>,
    args: Seq<(String, Vec<String>)>,
    asked: Seq<char>,
    i: int,
)
    requires
        0 <= i < args.len(),
    ensures
        args[i].1@.len() > 0 && normal_name(args[i].0@) == normal_name(asked) && (forall|j: int|
            i < j < args.len() ==> !((#[trigger] args[j]).1@.len() > 0
                && normal_name(args[j].0@) == normal_name(asked))) ==> arg_value(
            with_settings(vars, pairs(env_file) + pairs(config_file) + given(args)),
            asked,
        ) == Some(args[i].1@[0]@),
{
    if args[i].1@.len() > 0 && normal_name(args[i].0@) == normal_name(asked) && (forall|j: int|
        i < j < args.len() ==> !((#[trigger] args[j]).1@.len() > 0
            && normal_name(args[j].0@) == normal_name(asked))) {
        let files = pairs(env_file) + pairs(config_file);
        let settings = files + given(args);
        let k = lemma_given_at(args, i);
        let place = files.len() + k;
        assert(settings[place] == given(args)[k]);
        assert forall|m: int| place < m < settings.len() implies normal_name(
            (#[trigger] settings[m]).0,
        ) != normal_name(asked) by {
            assert(settings[m] == given(args)[m - files.len()]);
            let j = choose|j: int|
                i < j < args.len() && (#[trigger] args[j]).1@.len() > 0 && given(args)[m
                    - files.len()].0 == args[j].0@;
        }
        law_later_setting_wins(vars, settings, place, asked);
    }
}

/// Where the command line does not name a setting, the configuration file decides: the setting has
/// the last value that it gives.
pub proof fn law_config_file_comes_next(
    vars: Seq<(Seq<char>, Seq<char>)>,
    env_file: Seq<(String, String)>,
    config_file: Seq<(String, String)>,
    args: Seq<(String, Vec<String>)>,
    asked: Seq<char>,
    i: int,
)
    requires
        0 <= i < config_file.len(),
    ensures
        normal_name(config_file[i].0@) == normal_name(asked) && (forall|j: int|
            i < j < config_file.len() ==> normal_name((#[trigger] config_file[j]).0@)
                != normal_name(asked)) && (forall|
            j: int,
        |
            0 <= j < args.len() ==> !((#[trigger] args[j]).1@.len() > 0
                && normal_name(args[j].0@) == normal_name(asked))) ==> arg_value(
            with_settings(vars, pairs(env_file) + pairs(config_file) + given(args)),
            asked,
        ) == Some(config_file[i].1@),
{
    if normal_name(config_file[i].0@) == normal_name(asked) && (forall|j: int|
        i < j < config_file.len() ==> normal_name((#[trigger] config_file[j]).0@)
            != normal_name(asked)) && (forall|j: int|
        0 <= j < args.len() ==> !((#[trigger] args[j]).1@.len() > 0
            && normal_name(args[j].0@) == normal_name(asked))) {
        let settings = pairs(env_file) + pairs(config_file) + given(args);
        let n = env_file.len() as int;
        let o = n + config_file.len();
        assert(settings[n + i] == pairs(config_file)[i]);
        assert forall|m: int| n + i < m < settings.len() implies normal_name(
            (#[trigger] settings[m]).0,
        ) != normal_name(asked) by {
            if m < o {
                assert(settings[m] == pairs(config_file)[m - n]);
                assert(normal_name(config_file[m - n].0@) != normal_name(asked));
            } else {
                assert(settings[m] == given(args)[m - o]);
                let j = lemma_given_by(args, m - o);
                }
        }
        law_later_setting_wins(vars, settings, n + i, asked);
    }
}

/// Where neither the command line nor the configuration file names a setting, the file `.env`
/// decides: the setting has the last value that it gives.
pub proof fn law_env_file_comes_last(
    vars: Seq<(Seq<char>, Seq<char>)>,
    env_file: Seq<(String, String)>,
    config_file: Seq<(String, String)>,
    args: Seq<(String, Vec<String>)>,
    asked: Seq<char>,
    i: int,
)
    requires
        0 <= i < env_file.len(),
    ensures
        normal_name(env_file[i].0@) == normal_name(asked) && (forall|j: int|
            i < j < env_file.len() ==> normal_name((#[trigger] env_file[j]).0@)
                != normal_name(asked)) && (forall|j: int|
            0 <= j < config_file.len() ==> normal_name((#[trigger] config_file[j]).0@)
                != normal_name(asked)) && (forall|
            j: int,
        |
            0 <= j < args.len() ==> !((#[trigger] args[j]).1@.len() > 0
                && normal_name(args[j].0@) == normal_name(asked))) ==> arg_value(
            with_settings(vars, pairs(env_file) + pairs(config_file) + given(args)),
            asked,
        ) == Some(env_file[i].1@),
{
    if normal_name(env_file[i].0@) == normal_name(asked) && (forall|j: int|
        i < j < env_file.len() ==> normal_name((#[trigger] env_file[j]).0@)
            != normal_name(asked)) && (forall|j: int|
        0 <= j < config_file.len() ==> normal_name((#[trigger] config_file[j]).0@)
            != normal_name(asked)) && (forall|j: int|
        0 <= j < args.len() ==> !((#[trigger] args[j]).1@.len() > 0
            && normal_name(args[j].0@) == normal_name(asked))) {
        let settings = pairs(env_file) + pairs(config_file) + given(args);
        let n = env_file.len() as int;
        let o = n + config_file.len();
        assert(settings[i] == pairs(env_file)[i]);
        assert forall|m: int| i < m < settings.len() implies normal_name((#[trigger] settings[m]).0)
            != normal_name(asked) by {
            if m < n {
                assert(settings[m] == pairs(env_file)[m]);
                assert(normal_name(env_file[m].0@) != normal_name(asked));
            } else if m < o {
                assert(settings[m] == pairs(config_file)[m - n]);
                assert(normal_name(config_file[m - n].0@) != normal_name(asked));
            } else {
                assert(settings[m] == given(args)[m - o]);
                let j = lemma_given_by(args, m - o);
                }
        }
        law_later_setting_wins(vars, settings, i, asked);
    }
}

/// What nothing names at the start stays as it was. The names are in ASCII; the variables may have
/// any.
pub proof fn law_other_settings_stay_at_the_start(
    vars: Seq<(Seq<char>, Seq<char>)>,
    env_file: Seq<(String, String)>,
    config_file: Seq<(String, String)>,
    args: Seq<(String, Vec<String>)>,
    asked: Seq<char>,
)
    requires
        vstd::utf8::is_ascii_chars(asked),
        forall|j: int|
            0 <= j < env_file.len() ==> vstd::utf8::is_ascii_chars((#[trigger] env_file[j]).0@),
        forall|j: int|
            0 <= j < config_file.len() ==> vstd::utf8::is_ascii_chars(
                (#[trigger] config_file[j]).0@,
            ),
        forall|j: int| 0 <= j < args.len() ==> vstd::utf8::is_ascii_chars((#[trigger] args[j]).0@),
    ensures
        (forall|j: int| 0 <= j < env_file.len() ==> normal_name((#[trigger] env_file[j]).0@)
            != normal_name(asked)) && (
        forall|j: int| 0 <= j < config_file.len() ==> normal_name((#[trigger] config_file[j]).0@)
            != normal_name(asked)) && (
        forall|j: int| 0 <= j < args.len() ==> !((#[trigger] args[j]).1@.len() > 0
            && normal_name(args[j].0@) == normal_name(asked))) ==> arg_value(
            with_settings(vars, pairs(env_file) + pairs(config_file) + given(args)),
            asked,
        ) == arg_value(vars, asked),
{
    if (forall|j: int| 0 <= j < env_file.len() ==> normal_name((#[trigger] env_file[j]).0@)
        != normal_name(asked)) && (
    forall|j: int| 0 <= j < config_file.len() ==> normal_name((#[trigger] config_file[j]).0@)
        != normal_name(asked)) && (
    forall|j: int| 0 <= j < args.len() ==> !((#[trigger] args[j]).1@.len() > 0
        && normal_name(args[j].0@) == normal_name(asked))) {
        let settings = pairs(env_file) + pairs(config_file) + given(args);
        let n = env_file.len() as int;
        let o = n + config_file.len();
        assert forall|m: int| 0 <= m < settings.len() implies vstd::utf8::is_ascii_chars(
            (#[trigger] settings[m]).0,
        ) && normal_name(settings[m].0) != normal_name(asked) by {
            if m < n {
                assert(settings[m] == pairs(env_file)[m]);
                assert(normal_name(env_file[m].0@) != normal_name(asked));
            } else if m < o {
                assert(settings[m] == pairs(config_file)[m - n]);
                assert(normal_name(config_file[m - n].0@) != normal_name(asked));
            } else {
                assert(settings[m] == given(args)[m - o]);
                let j = lemma_given_by(args, m - o);
                }
        }
        lemma_settings_leave_others(vars, settings, asked);
    }
}

/// The view of an environment holds the names and values of its variables, in order.
pub proof fn law_view_of_environment(env: Environment, text: String)
    ensures
        env@.len() == env.vars@.len(),
        forall|i: int|
            0 <= i < env.vars@.len() ==> #[trigger] env@[i] == (
                env.vars@[i].0@,
                env.vars@[i].1@,
            ),
        text_view(Some(text)) == Some(text@),
        text_view(None) is None,
{
}

/// What is asked of an environment is answered by `arg_value`; where a setting is not set, there is
/// no answer, the default, or nothing.
pub proof fn law_answers(
    env: &Environment,
    name: &str,
    default: String,
    found: Option<String>,
    or_default: String,
    or_nothing: String,
)
    requires
        call_ensures(get_arg_opt, (env, name), found),
        call_ensures(get_arg_or, (env, name, default), or_default),
        call_ensures(get_arg, (env, name), or_nothing),
    ensures
        match arg_value(env@, name@) {
            Some(value) => {
                &&& found matches Some(text) && text@ == value
                &&& or_default@ == value
                &&& or_nothing@ == value
            },
            None => {
                &&& found is None
                &&& or_default@ == default@
                &&& or_nothing@.len() == 0
            },
        },
{
}

/// Replacing a character puts the other in its places and leaves the rest.
pub proof fn law_replaced(s: Seq<char>, from: char, to: char)
    ensures
        replaced(s, from, to).len() == s.len(),
        forall|i: int|
            0 <= i < s.len() ==> #[trigger] replaced(s, from, to)[i] == if s[i] == from {
                to
            } else {
                s[i]
            },
{
}

/// The form of a name outside ASCII is what `str::to_uppercase` makes of it, with dashes for
/// underscores; its small letters are those of `str::to_lowercase`.
pub proof fn law_names_outside_ascii(name: Seq<char>)
    requires
        !vstd::utf8::is_ascii_chars(name),
    ensures
        lower(name) == lowercase(name),
        normal_name(name).len() == uppercase(name).len(),
        forall|i: int|
            0 <= i < uppercase(name).len() ==> #[trigger] normal_name(name)[i] == if uppercase(
                name,
            )[i] == '_' {
                '-'
            } else {
                uppercase(name)[i]
            },
{
}

/// Whatever the name: the form of the name is asked for first, then it with underscores, then each
/// of the two in lower case, and the first variable of the first of these names that there is has
/// the value. Without any of them, the variable of the same form whose name sorts first has it; and
/// without any of that form, there is none.
pub proof fn law_names_in_order(vars: Seq<(Seq<char>, Seq<char>)>, name: Seq<char>, i: int)
    ensures
        ({
            let dashed = normal_name(name);
            let underscored = replaced(dashed, '-', '_');
            let found = arg_value(vars, name) == Some(vars[i].1);
            &&& is_first_with(vars, i, dashed) ==> found
            &&& is_absent(vars, dashed) ==> {
                &&& is_first_with(vars, i, underscored) ==> found
                &&& is_absent(vars, underscored) ==> {
                    &&& is_first_with(vars, i, lower(dashed)) ==> found
                    &&& is_absent(vars, lower(dashed)) ==> {
                        &&& is_first_with(vars, i, lower(underscored)) ==> found
                        &&& is_absent(vars, lower(underscored)) ==> {
                            &&& sorts_first(vars, i, dashed) ==> found
                            &&& (forall|j: int|
                                0 <= j < vars.len() ==> normal_name((#[trigger] vars[j]).0)
                                    != dashed) ==> arg_value(vars, name) is None
                        }
                    }
                }
            }
        }),
{
    let dashed = normal_name(name);
    let underscored = replaced(dashed, '-', '_');
    law_lookup(vars, dashed, i);
    law_lookup(vars, underscored, i);
    law_lookup(vars, lower(dashed), i);
    law_lookup(vars, lower(underscored), i);
    lemma_first_spelling(vars, dashed);
    if sorts_first(vars, i, dashed) {
        let var = first_spelling(vars, dashed)->0;
        let k = choose|k: int| #[trigger] is_first_with(vars, k, var.0) && vars[k] == var;
        law_order_of_names(
            vstd::utf8::encode_utf8(vars[i].0),
            vstd::utf8::encode_utf8(vars[k].0),
        );
        assert(normal_name(vars[k].0) == dashed);
        assert(k == i);
    }
}

/// Names and variables: a name is brought into its form, and a variable is read by its exact name.
pub proof fn law_names_and_variables(
    env: &Environment,
    name: &str,
    normal: String,
    value: Option<String>,
)
    requires
        call_ensures(arg_name, (name,), normal),
        call_ensures(get_var, (env, name), value),
    ensures
        normal@ == normal_name(name@),
        match value {
            Some(text) => exists|i: int| #[trigger]
                is_first_with(env@, i, name@) && env@[i].1 == text@,
            None => is_absent(env@, name@),
        },
{
    lemma_place(env@, name@);
    law_lookup(env@, name@, 0);
    let place = place_of(env@, name@) as int;
    if place < env@.len() {
        assert(is_first_with(env@, place, name@));
    }
}

} // verus!
