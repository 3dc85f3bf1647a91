use vstd::prelude::*;
use vstd::string::StrSliceExecFns;
use vstd::string::StringExecFns;

use crate::errors::CliplyError;

verus! {

/// One declared flag: its name, its help text, and whether a data token
/// must follow it.
#[derive(Clone, Debug)]
pub struct Flag {
    pub name: String,
    pub help: String,
    pub takes_data: bool,
}

/// An application's identity and the flags it declares.
#[derive(Clone, Debug)]
pub struct App {
    pub name: String,
    pub version: String,
    pub author: String,
    pub args: Vec<Flag>,
}

/// The argument list as sequences of characters.
pub open spec fn tokens(args: Seq<String>) -> Seq<Seq<char>> {
    args.map_values(|s: String| s@)
}

/// Single-dash form of a flag: a dash and the name's first character.
pub open spec fn short_form(name: Seq<char>) -> Seq<char> {
    "-"@ + name.subrange(0, 1)
}

/// Double-dash form of a flag: two dashes and the whole name.
pub open spec fn long_form(name: Seq<char>) -> Seq<char> {
    "--"@ + name
}

/// `tok` stands somewhere in the argument list after the program name.
pub open spec fn occurs(args: Seq<Seq<char>>, tok: Seq<char>) -> bool {
    exists|j: int| 1 <= j < args.len() && #[trigger] args[j] == tok
}

/// Index of the first occurrence of `tok` at or after `i`, or -1.
pub open spec fn position_from(args: Seq<Seq<char>>, tok: Seq<char>, i: int) -> int
    decreases args.len() - i,
{
    if i < 0 || i >= args.len() {
        -1
    } else if args[i] == tok {
        i
    } else {
        position_from(args, tok, i + 1)
    }
}

/// Index of the first occurrence of `tok` after the program name, or -1.
pub open spec fn position(args: Seq<Seq<char>>, tok: Seq<char>) -> int {
    position_from(args, tok, 1)
}

/// Any of the three forms of `name` (short, long, bare) was given.
pub open spec fn flag_used(args: Seq<Seq<char>>, name: Seq<char>) -> bool {
    occurs(args, short_form(name)) || occurs(args, long_form(name)) || occurs(args, name)
}

/// Message for a flag token that is the last argument.
pub open spec fn no_data_msg(tok: Seq<char>) -> Seq<char> {
    "No data supplied to \""@ + tok + "\"."@
}

/// Message for a name that was never declared.
pub open spec fn unknown_msg(name: Seq<char>) -> Seq<char> {
    "Unknown flag \""@ + name + "\"."@
}

/// Message for a data request on a flag that takes none.
pub open spec fn no_data_flag_msg(name: Seq<char>) -> Seq<char> {
    "Flag \""@ + name + "\" takes no data."@
}

/// The token that follows the first occurrence of `tok`, or the error when
/// that occurrence is the last argument.
pub open spec fn data_after(args: Seq<Seq<char>>, tok: Seq<char>) -> Result<Seq<char>, Seq<char>> {
    let p = position(args, tok);
    if p + 1 < args.len() {
        Ok(args[p + 1])
    } else {
        Err(no_data_msg(tok))
    }
}

/// A result of this library seen as character sequences.
pub open spec fn result_view(r: Result<String, CliplyError>) -> Result<Seq<char>, Seq<char>> {
    match r {
        Ok(s) => Ok(s@),
        Err(e) => Err(e.details@),
    }
}

proof fn lemma_position_from(args: Seq<Seq<char>>, tok: Seq<char>, i: int)
    requires
        0 <= i,
    ensures
        position_from(args, tok, i) == -1 <==> (forall|j: int|
            i <= j < args.len() ==> args[j] != tok),
        position_from(args, tok, i) != -1 ==> {
            let p = position_from(args, tok, i);
            &&& i <= p < args.len()
            &&& args[p] == tok
        },
    decreases args.len() - i,
{
    if i < args.len() && args[i] != tok {
        lemma_position_from(args, tok, i + 1);
    }
}

/// `position` finds an occurrence exactly when `occurs` holds.
proof fn lemma_position(args: Seq<Seq<char>>, tok: Seq<char>)
    ensures
        occurs(args, tok) <==> position(args, tok) != -1,
        position(args, tok) != -1 ==> 1 <= position(args, tok) < args.len() && args[position(
            args,
            tok,
        )] == tok,
{
    lemma_position_from(args, tok, 1);
    if occurs(args, tok) {
        let j = choose|j: int| 1 <= j < args.len() && #[trigger] args[j] == tok;
        assert(args[j] == tok);
    }
}

proof fn lemma_position_first(args: Seq<Seq<char>>, tok: Seq<char>, k: int, i: int)
    requires
        1 <= k <= i < args.len(),
        args[i] == tok,
        forall|j: int| 1 <= j < i ==> args[j] != tok,
    ensures
        position_from(args, tok, k) == i,
    decreases i - k,
{
    if k < i {
        lemma_position_first(args, tok, k + 1, i);
    }
}

/// Index of the first occurrence of `tok` after the program name.
fn find_token(args: &Vec<String>, tok: &String) -> (r: Option<usize>)
    ensures
        match r {
            Some(i) => 1 <= i < args@.len() && i as int == position(tokens(args@), tok@),
            None => position(tokens(args@), tok@) == -1,
        },
{
    let ghost t = tokens(args@);
    let mut i: usize = 1;
    while i < args.len()
        invariant
            1 <= i,
            t == tokens(args@),
            position(t, tok@) == position_from(t, tok@, i as int),
        decreases args.len() - i,
    {
        if args[i] == *tok {
            assert(t[i as int] == tok@);
            return Some(i);
        }
        assert(t[i as int] != tok@);
        i = i + 1;
    }
    None
}

/// Whether `tok` stands in the argument list after the program name.
fn has_token(args: &Vec<String>, tok: &String) -> (r: bool)
    ensures
        r == occurs(tokens(args@), tok@),
{
    let r = find_token(args, tok);
    proof {
        lemma_position(tokens(args@), tok@);
    }
    r.is_some()
}

/// What a declared flag records: its help text and whether it takes data.
pub open spec fn info(f: Flag) -> (Seq<char>, bool) {
    (f.help@, f.takes_data)
}

/// The declared flags as a map from name to help text and data kind.
pub open spec fn flag_map(flags: Seq<Flag>) -> Map<Seq<char>, (Seq<char>, bool)>
    decreases flags.len(),
{
    if flags.len() == 0 {
        Map::empty()
    } else {
        flag_map(flags.drop_last()).insert(flags.last().name@, info(flags.last()))
    }
}

/// No two flags share a name, and no name is empty.
pub open spec fn names_ok(flags: Seq<Flag>) -> bool {
    &&& forall|i: int| 0 <= i < flags.len() ==> (#[trigger] flags[i]).name@.len() > 0
    &&& forall|i: int, j: int|
        0 <= i < j < flags.len() ==> (#[trigger] flags[i]).name@ != (#[trigger] flags[j]).name@
}

proof fn lemma_map_keys(flags: Seq<Flag>, k: Seq<char>)
    ensures
        flag_map(flags).contains_key(k) <==> exists|j: int|
            0 <= j < flags.len() && (#[trigger] flags[j]).name@ == k,
    decreases flags.len(),
{
    if flags.len() > 0 {
        let d = flags.drop_last();
        lemma_map_keys(d, k);
        if flag_map(d).contains_key(k) {
            let j = choose|j: int| 0 <= j < d.len() && (#[trigger] d[j]).name@ == k;
            assert(flags[j] == d[j]);
        }
        if exists|j: int| 0 <= j < flags.len() && (#[trigger] flags[j]).name@ == k {
            let j = choose|j: int| 0 <= j < flags.len() && (#[trigger] flags[j]).name@ == k;
            if j < flags.len() - 1 {
                assert(d[j] == flags[j]);
            }
        }
    }
}

proof fn lemma_map_value(flags: Seq<Flag>, j: int)
    requires
        names_ok(flags),
        0 <= j < flags.len(),
    ensures
        flag_map(flags).contains_key(flags[j].name@),
        flag_map(flags)[flags[j].name@] == info(flags[j]),
    decreases flags.len(),
{
    if j < flags.len() - 1 {
        let d = flags.drop_last();
        assert(d[j] == flags[j]);
        assert(names_ok(d)) by {
            assert forall|a: int| 0 <= a < d.len() implies (#[trigger] d[a]).name@.len() > 0 by {
                assert(d[a] == flags[a]);
            }
            assert forall|a: int, b: int| 0 <= a < b < d.len() implies (#[trigger] d[a]).name@
                != (#[trigger] d[b]).name@ by {
                assert(d[a] == flags[a]);
                assert(d[b] == flags[b]);
            }
        }
        lemma_map_value(d, j);
        assert(flags[j].name@ != flags[flags.len() - 1].name@);
    }
}

proof fn lemma_map_update(flags: Seq<Flag>, i: int, f: Flag)
    requires
        names_ok(flags),
        0 <= i < flags.len(),
        flags[i].name@ == f.name@,
    ensures
        names_ok(flags.update(i, f)),
        flag_map(flags.update(i, f)) == flag_map(flags).insert(f.name@, info(f)),
{
    let u = flags.update(i, f);
    assert(names_ok(u)) by {
        assert forall|a: int| 0 <= a < u.len() implies (#[trigger] u[a]).name@.len() > 0 by {
            assert(u[a].name@ == flags[a].name@);
        }
        assert forall|a: int, b: int| 0 <= a < b < u.len() implies (#[trigger] u[a]).name@
            != (#[trigger] u[b]).name@ by {
            assert(u[a].name@ == flags[a].name@);
            assert(u[b].name@ == flags[b].name@);
        }
    }
    let m = flag_map(flags).insert(f.name@, info(f));
    assert forall|k: Seq<char>| #[trigger] flag_map(u).contains_key(k) <==> m.contains_key(k) by {
        lemma_map_keys(u, k);
        lemma_map_keys(flags, k);
        if exists|j: int| 0 <= j < flags.len() && (#[trigger] flags[j]).name@ == k {
            let j = choose|j: int| 0 <= j < flags.len() && (#[trigger] flags[j]).name@ == k;
            assert(u[j].name@ == k);
        }
        if exists|j: int| 0 <= j < u.len() && (#[trigger] u[j]).name@ == k {
            let j = choose|j: int| 0 <= j < u.len() && (#[trigger] u[j]).name@ == k;
            assert(flags[j].name@ == k);
        }
    }
    assert forall|k: Seq<char>| #[trigger] flag_map(u).contains_key(k) implies flag_map(u)[k]
        == m[k] by {
        lemma_map_keys(u, k);
        let j = choose|j: int| 0 <= j < u.len() && (#[trigger] u[j]).name@ == k;
        lemma_map_value(u, j);
        if j != i {
            assert(u[j] == flags[j]);
            lemma_map_value(flags, j);
            assert(flags[i].name@ != flags[j].name@);
        }
    }
    assert(flag_map(u) =~= m);
}

proof fn lemma_map_push(flags: Seq<Flag>, f: Flag)
    requires
        names_ok(flags),
        f.name@.len() > 0,
        forall|j: int| 0 <= j < flags.len() ==> (#[trigger] flags[j]).name@ != f.name@,
    ensures
        names_ok(flags.push(f)),
        flag_map(flags.push(f)) == flag_map(flags).insert(f.name@, info(f)),
{
    let p = flags.push(f);
    assert(p.drop_last() =~= flags);
    assert(names_ok(p)) by {
        assert forall|a: int| 0 <= a < p.len() implies (#[trigger] p[a]).name@.len() > 0 by {
            if a < flags.len() {
                assert(p[a] == flags[a]);
            }
        }
        assert forall|a: int, b: int| 0 <= a < b < p.len() implies (#[trigger] p[a]).name@
            != (#[trigger] p[b]).name@ by {
            assert(p[a] == flags[a]);
            if b < flags.len() {
                assert(p[b] == flags[b]);
            }
        }
    }
}

/// What a data request for `name` yields over the declared flags and the
/// argument list. Forms are tried in the order short, long, bare; a form
/// that is absent passes to the next, and when none is present the result
/// is an empty string.
pub open spec fn data_outcome(
    flags: Map<Seq<char>, (Seq<char>, bool)>,
    name: Seq<char>,
    args: Seq<Seq<char>>,
) -> Result<Seq<char>, Seq<char>> {
    if !flags.contains_key(name) {
        Err(unknown_msg(name))
    } else if !flags[name].1 {
        Err(no_data_flag_msg(name))
    } else if occurs(args, short_form(name)) {
        data_after(args, short_form(name))
    } else if occurs(args, long_form(name)) {
        data_after(args, long_form(name))
    } else if occurs(args, name) {
        data_after(args, name)
    } else {
        Ok(Seq::empty())
    }
}

/// The single-dash token of a flag name.
fn short_token(name: &str) -> (r: String)
    requires
        name@.len() > 0,
    ensures
        r@ == short_form(name@),
{
    let mut r = String::from_str("-");
    r.append(name.substring_char(0, 1));
    r
}

/// The double-dash token of a flag name.
fn long_token(name: &str) -> (r: String)
    ensures
        r@ == long_form(name@),
{
    let mut r = String::from_str("--");
    r.append(name);
    r
}

/// An error whose message is `pre`, then `mid`, then `post`.
fn message(pre: &str, mid: &str, post: &str) -> (r: CliplyError)
    ensures
        r.details@ == pre@ + mid@ + post@,
{
    let mut m = String::from_str(pre);
    m.append(mid);
    m.append(post);
    CliplyError { details: m }
}

/// The data after the first occurrence of `tok`, or `None` where `tok` is
/// absent.
fn data_following(args: &Vec<String>, tok: &String) -> (r: Option<Result<String, CliplyError>>)
    ensures
        r is None <==> !occurs(tokens(args@), tok@),
        r matches Some(x) ==> result_view(x) == data_after(tokens(args@), tok@),
{
    let ghost t = tokens(args@);
    proof {
        lemma_position(t, tok@);
    }
    match find_token(args, tok) {
        None => None,
        Some(p) => {
            if p < args.len() - 1 {
                assert(t[p + 1] == args@[p + 1]@);
                Some(Ok(args[p + 1].clone()))
            } else {
                Some(Err(message("No data supplied to \"", tok.as_str(), "\".")))
            }
        },
    }
}

/// Exactly one argument follows the program name, and it asks for the
/// version.
pub open spec fn version_requested(args: Seq<Seq<char>>) -> bool {
    args.len() == 2 && (args[1] == "--version"@ || args[1] == "-v"@ || args[1] == "version"@)
}

/// Exactly one argument follows the program name, and it asks for help.
pub open spec fn help_requested(args: Seq<Seq<char>>) -> bool {
    args.len() == 2 && (args[1] == "--help"@ || args[1] == "-h"@ || args[1] == "help"@)
}

/// The version text: name, version and author.
pub open spec fn version_text(name: Seq<char>, version: Seq<char>, author: Seq<char>) -> Seq<
    char,
> {
    name + " v."@ + version + "\nby "@ + author + "."@
}

/// The help line of one declared flag.
pub open spec fn flag_line(f: Flag) -> Seq<char> {
    short_form(f.name@) + " --"@ + f.name@ + " "@ + f.name@ + (if f.takes_data {
        " DATA  "@
    } else {
        "        "@
    }) + f.help@
}

/// The help lines of the given flags, each ended by a line break.
pub open spec fn flag_lines(flags: Seq<Flag>) -> Seq<char>
    decreases flags.len(),
{
    if flags.len() == 0 {
        Seq::empty()
    } else {
        flag_lines(flags.drop_last()) + flag_line(flags.last()) + "\n"@
    }
}

/// The help text: one line per declared flag, in declaration order, then
/// the lines of the built-in help and version flags.
pub open spec fn help_text(flags: Seq<Flag>) -> Seq<char> {
    flag_lines(flags) + "-h --help help           displays this message"@ + "\n"@
        + "-v --version version     displays app info"@
}

/// For a declared flag that takes data, whose short form is absent: where
/// its long form first stands at `i` and a token follows it, the data
/// requested for the flag is that token.
pub proof fn lemma_long_form_data(app: App, name: Seq<char>, args: Seq<Seq<char>>, i: int)
    requires
        app.flags().contains_key(name),
        app.flags()[name].1,
        !occurs(args, short_form(name)),
        1 <= i < args.len() - 1,
        args[i] == long_form(name),
        forall|j: int| 1 <= j < i ==> args[j] != long_form(name),
    ensures
        data_outcome(app.flags(), name, args) == Ok::<Seq<char>, Seq<char>>(args[i + 1]),
{
    assert(args[i] == long_form(name));
    lemma_position_first(args, long_form(name), 1, i);
}

/// For a declared flag that takes data: where the form of it that is looked
/// at (short; else long, the short being absent; else bare, both others
/// being absent) stands only as the last argument, the data request fails
/// with the no-data message for that form.
pub proof fn lemma_last_form_no_data(
    app: App,
    name: Seq<char>,
    args: Seq<Seq<char>>,
    tok: Seq<char>,
)
    requires
        app.flags().contains_key(name),
        app.flags()[name].1,
        tok == short_form(name) || (tok == long_form(name) && !occurs(args, short_form(name))) || (
        tok == name && !occurs(args, short_form(name)) && !occurs(args, long_form(name))),
        args.len() >= 2,
        args.last() == tok,
        forall|j: int| 1 <= j < args.len() - 1 ==> args[j] != tok,
    ensures
        data_outcome(app.flags(), name, args) == Err::<Seq<char>, Seq<char>>(no_data_msg(tok)),
{
    let n = args.len() - 1;
    assert(args[n] == tok);
    lemma_position_first(args, tok, 1, n);
}

/// Version and help are never both requested, and neither is unless
/// exactly one argument follows the program name.
pub proof fn lemma_requests_exclusive(args: Seq<Seq<char>>)
    ensures
        !(version_requested(args) && help_requested(args)),
        args.len() != 2 ==> !version_requested(args) && !help_requested(args),
{
    reveal_strlit("--version");
    reveal_strlit("-v");
    reveal_strlit("version");
    reveal_strlit("--help");
    reveal_strlit("-h");
    reveal_strlit("help");
    assert("--version"@.len() == 9);
    assert("-v"@.len() == 2 && "-v"@[1] == 'v');
    assert("version"@.len() == 7);
    assert("--help"@.len() == 6);
    assert("-h"@.len() == 2 && "-h"@[1] == 'h');
    assert("help"@.len() == 4);
}

/// Each query is a function of the application and the argument list: two
/// calls on an unchanged list give the same answers.
pub proof fn lemma_queries_repeat(
    app: App,
    name: Seq<char>,
    args: Seq<Seq<char>>,
    first: Result<String, CliplyError>,
    second: Result<String, CliplyError>,
    used: (bool, bool),
    version: (bool, bool),
    help: (bool, bool),
)
    requires
        result_view(first) == data_outcome(app.flags(), name, args),
        result_view(second) == data_outcome(app.flags(), name, args),
        used.0 == flag_used(args, name),
        used.1 == flag_used(args, name),
        version.0 == version_requested(args),
        version.1 == version_requested(args),
        help.0 == help_requested(args),
        help.1 == help_requested(args),
    ensures
        result_view(first) == result_view(second),
        used.0 == used.1,
        version.0 == version.1,
        help.0 == help.1,
{
}

/// Whether `a` holds the text `lit`.
fn is_token(a: &String, lit: &str) -> (r: bool)
    ensures
        r == (a@ == lit@),
{
    *a == String::from_str(lit)
}

/// The help line of one flag.
fn render_flag(f: &Flag) -> (r: String)
    requires
        f.name@.len() > 0,
    ensures
        r@ == flag_line(*f),
{
    let mut r = short_token(f.name.as_str());
    r.append(" --");
    r.append(f.name.as_str());
    r.append(" ");
    r.append(f.name.as_str());
    if f.takes_data {
        r.append(" DATA  ");
    } else {
        r.append("        ");
    }
    r.append(f.help.as_str());
    r
}

impl App {
    /// The declared flags, by name.
    pub open spec fn flags(&self) -> Map<Seq<char>, (Seq<char>, bool)> {
        flag_map(self.args@)
    }

    /// Flag names are unique and non-empty.
    pub open spec fn wf(&self) -> bool {
        names_ok(self.args@)
    }

    /// Makes an application with the given identity and no flags.
    pub fn new(name: &str, version: &str, author: &str) -> (r: App)
        ensures
            r.name@ == name@,
            r.version@ == version@,
            r.author@ == author@,
            r.args@.len() == 0,
            r.flags() == Map::<Seq<char>, (Seq<char>, bool)>::empty(),
            r.wf(),
    {
        App {
            name: String::from_str(name),
            version: String::from_str(version),
            author: String::from_str(author),
            args: Vec::new(),
        }
    }

    /// Declares the flag `name`, replacing an earlier declaration of the
    /// same name. The flag takes data exactly when `data` is `"true"`.
    pub fn add_arg(&mut self, name: &str, help: &str, data: &str)
        requires
            old(self).wf(),
            name@.len() > 0,
        ensures
            final(self).wf(),
            final(self).name == old(self).name,
            final(self).version == old(self).version,
            final(self).author == old(self).author,
            final(self).flags() == old(self).flags().insert(name@, (help@, data@ == "true"@)),
    {
        let key = String::from_str(name);
        let takes_data = String::from_str(data) == String::from_str("true");
        let flag = Flag { name: key, help: String::from_str(help), takes_data };
        let mut i: usize = 0;
        while i < self.args.len()
            invariant
                i <= self.args@.len(),
                self.wf(),
                self.args@ == old(self).args@,
                self.name == old(self).name,
                self.version == old(self).version,
                self.author == old(self).author,
                flag.name@ == name@,
                flag.help@ == help@,
                flag.takes_data == (data@ == "true"@),
                forall|j: int| 0 <= j < i ==> (#[trigger] self.args@[j]).name@ != name@,
            decreases self.args.len() - i,
        {
            if self.args[i].name == flag.name {
                proof {
                    lemma_map_update(self.args@, i as int, flag);
                }
                self.args.set(i, flag);
                return;
            }
            i = i + 1;
        }
        proof {
            lemma_map_push(self.args@, flag);
        }
        self.args.push(flag);
    }

    /// Whether the short, long or bare form of `arg` stands in `args` after
    /// the program name.
    pub fn arg_was_used(&self, arg: &str, args: &Vec<String>) -> (r: bool)
        requires
            arg@.len() > 0,
        ensures
            r == flag_used(tokens(args@), arg@),
    {
        let minus_arg = short_token(arg);
        let minus_minus_arg = long_token(arg);
        let bare = String::from_str(arg);
        has_token(args, &minus_arg) || has_token(args, &minus_minus_arg) || has_token(args, &bare)
    }

    /// Index of the declared flag called `name`.
    fn flag_index(&self, name: &str) -> (r: Option<usize>)
        requires
            self.wf(),
        ensures
            match r {
                Some(i) => i < self.args@.len() && self.args@[i as int].name@ == name@,
                None => !self.flags().contains_key(name@),
            },
    {
        let key = String::from_str(name);
        let mut i: usize = 0;
        while i < self.args.len()
            invariant
                i <= self.args@.len(),
                key@ == name@,
                forall|j: int| 0 <= j < i ==> (#[trigger] self.args@[j]).name@ != name@,
            decreases self.args.len() - i,
        {
            if self.args[i].name == key {
                return Some(i);
            }
            i = i + 1;
        }
        proof {
            lemma_map_keys(self.args@, name@);
        }
        None
    }

    /// The data token given to the flag `name`: the token after the first
    /// occurrence of its short form, else of its long form, else of its bare
    /// name; an empty string where none of them is given.
    pub fn get_arg_data(&self, name: &str, args: &Vec<String>) -> (r: Result<String, CliplyError>)
        requires
            self.wf(),
        ensures
            result_view(r) == data_outcome(self.flags(), name@, tokens(args@)),
    {
        let i = match self.flag_index(name) {
            None => {
                return Err(message("Unknown flag \"", name, "\"."));
            },
            Some(i) => i,
        };
        proof {
            lemma_map_value(self.args@, i as int);
        }
        if !self.args[i].takes_data {
            return Err(message("Flag \"", name, "\" takes no data."));
        }
        assert(name@.len() > 0);
        let minus_arg = short_token(name);
        if let Some(r) = data_following(args, &minus_arg) {
            return r;
        }
        let minus_minus_arg = long_token(name);
        if let Some(r) = data_following(args, &minus_minus_arg) {
            return r;
        }
        let bare = String::from_str(name);
        if let Some(r) = data_following(args, &bare) {
            return r;
        }
        Ok(String::new())
    }

    /// Whether the arguments ask for the version: `--version`, `-v` or
    /// `version` as the one argument after the program name.
    pub fn version_is(&self, args: &Vec<String>) -> (r: bool)
        ensures
            r == version_requested(tokens(args@)),
    {
        args.len() == 2 && (is_token(&args[1], "--version") || is_token(&args[1], "-v")
            || is_token(&args[1], "version"))
    }

    /// Whether the arguments ask for help: `--help`, `-h` or `help` as the
    /// one argument after the program name.
    pub fn help_is(&self, args: &Vec<String>) -> (r: bool)
        ensures
            r == help_requested(tokens(args@)),
    {
        args.len() == 2 && (is_token(&args[1], "--help") || is_token(&args[1], "-h")
            || is_token(&args[1], "help"))
    }

    /// The version text: `<name> v.<version>`, a line break, `by <author>.`
    pub fn version_info(&self) -> (r: String)
        ensures
            r@ == version_text(self.name@, self.version@, self.author@),
    {
        let mut r = self.name.clone();
        r.append(" v.");
        r.append(self.version.as_str());
        r.append("\nby ");
        r.append(self.author.as_str());
        r.append(".");
        r
    }

    /// The help text: a line for each declared flag, then the lines of the
    /// built-in help and version flags.
    pub fn help_info(&self) -> (r: String)
        requires
            self.wf(),
        ensures
            r@ == help_text(self.args@),
    {
        let mut r = String::new();
        let mut i: usize = 0;
        while i < self.args.len()
            invariant
                i <= self.args@.len(),
                self.wf(),
                r@ == flag_lines(self.args@.take(i as int)),
            decreases self.args.len() - i,
        {
            assert(self.args@.take(i as int + 1).drop_last() =~= self.args@.take(i as int));
            let line = render_flag(&self.args[i]);
            r.append(line.as_str());
            r.append("\n");
            i = i + 1;
        }
        assert(self.args@.take(i as int) =~= self.args@);
        r.append("-h --help help           displays this message");
        r.append("\n");
        r.append("-v --version version     displays app info");
        r
    }
}

} // verus!
