//! The layers of variables, and the expansion of a policy against them.

use indexmap::IndexMap;
use vstd::prelude::*;
use vstd::string::*;

use crate::config;
use crate::config::SteelbxConfig;
use crate::driver::args;
use crate::driver::args::{Init, InitStep};
use crate::error;
use crate::error::{failure, failure_under, quote, Error};
use crate::expand;
use crate::expand::expand_env;
use crate::results;
use crate::table;
use crate::table::{new_table, table_at, table_clone, table_insert, table_len, table_set};
use crate::text;
use crate::text::{decimal_of, split_on, split_once, starts_with, strip_prefix, trim};
use crate::validate;
use crate::validate::{is_valid_env_name, no_resolution};
use crate::vars::Vars;

verus! {

// ---------------------------------------------------------------------
// Env files
// ---------------------------------------------------------------------

/// What a line of an env file says.
pub enum Line {
    /// Nothing: it is blank or a comment.
    Nothing,
    /// A variable and its value.
    Pair(Seq<char>, Seq<char>),
    /// Something else than `KEY=VALUE`: what stands there.
    NoPair(Seq<char>),
    /// A value for what is no variable name.
    NoName(Seq<char>),
}

/// The text behind a leading `export `, if there is one.
pub open spec fn after_export(line: Seq<char>) -> Seq<char> {
    match text::after_prefix(line, "export "@) {
        Some(rest) => text::trimmed(rest),
        None => text::trimmed(line),
    }
}

/// What a line says: nothing if it is blank or starts with `#`; else
/// `KEY=VALUE`, after an optional `export `, with white space around the
/// key and the value that does not count. The value is what follows the
/// first `=`.
pub open spec fn line_meaning(line: Seq<char>) -> Line {
    let bare = text::trimmed(line);
    if bare.len() == 0 || text::starts(bare, "#"@) {
        Line::Nothing
    } else {
        match text::cut(after_export(bare), '=') {
            None => Line::NoPair(after_export(bare)),
            Some((k, v)) => if validate::valid_env_name(text::trimmed(k)) {
                Line::Pair(text::trimmed(k), text::trimmed(v))
            } else {
                Line::NoName(text::trimmed(k))
            },
        }
    }
}

/// The place of a line in messages.
pub open spec fn line_place(path: Seq<char>, number: nat) -> Seq<char> {
    path + ":"@ + text::decimal(number) + ": "@
}

/// The pairs of a table after the lines were read into it, and the
/// complaint about the first line that cannot be: reading stops there.
/// `number` is the number of the first line.
pub open spec fn lines_read(
    lines: Seq<Seq<char>>,
    number: nat,
    path: Seq<char>,
    pairs: Seq<(Seq<char>, Seq<char>)>,
) -> (Seq<(Seq<char>, Seq<char>)>, Option<error::Fault>)
    decreases lines.len(),
{
    if lines.len() == 0 {
        (pairs, None)
    } else {
        match line_meaning(lines[0]) {
            Line::Nothing => lines_read(lines.skip(1), number + 1, path, pairs),
            Line::Pair(k, v) => lines_read(
                lines.skip(1),
                number + 1,
                path,
                table::put(pairs, k, v),
            ),
            Line::NoPair(line) => (
                pairs,
                Some(
                    error::said(
                        line_place(path, number) + "expected KEY=VALUE (got "@ + error::quoted(
                            line,
                        ) + ")"@,
                    ),
                ),
            ),
            Line::NoName(key) => (
                pairs,
                Some(
                    error::said(
                        line_place(path, number) + error::quoted(key)
                            + " is not a valid variable name"@,
                    ),
                ),
            ),
        }
    }
}

/// The pairs of a table after an env file was read into it.
pub open spec fn env_file_read(
    content: Seq<char>,
    path: Seq<char>,
    pairs: Seq<(Seq<char>, Seq<char>)>,
) -> (Seq<(Seq<char>, Seq<char>)>, Option<error::Fault>) {
    lines_read(text::split(content, '\n'), 1, path, pairs)
}

/// Sets a variable: in place if it is there, else at the end.
pub fn put_env(out: &mut IndexMap<String, String>, key: &str, value: String)
    ensures
        table::entries(*final(out)) == table::put(table::entries(*old(out)), key@, value@),
{
    table_insert(out, key.to_owned(), value);
}

/// Reads an env file into a table: a later line overrides an earlier one
/// in its place. The values are taken as they stand.
pub fn parse_env_file(content: &str, path: &str, out: &mut IndexMap<String, String>) -> (r: Result<
    (),
    Error,
>)
    ensures
        (table::entries(*final(out)), error::fault(r)) == env_file_read(
            content@,
            path@,
            table::entries(*old(out)),
        ),
{
    let lines = split_on(content, '\n');
    let ghost all = text::texts(lines@);
    let ghost start = table::entries(*out);
    let mut i: usize = 0;
    proof {
        assert(all.skip(0) == all);
    }
    while i < lines.len()
        invariant
            i <= lines@.len(),
            all == text::texts(lines@),
            all == text::split(content@, '\n'),
            start == table::entries(*old(out)),
            lines_read(all, 1, path@, start) == lines_read(
                all.skip(i as int),
                (i + 1) as nat,
                path@,
                table::entries(*out),
            ),
        decreases lines.len() - i,
    {
        proof {
            assert(all.skip(i as int)[0] == lines@[i as int]@);
            assert(all.skip(i as int).skip(1) == all.skip(i + 1));
        }
        let bare = trim(lines[i].as_str());
        if !bare.as_str().is_empty() && !starts_with(bare.as_str(), "#") {
            let line = match strip_prefix(bare.as_str(), "export ") {
                Some(rest) => trim(rest.as_str()),
                None => trim(bare.as_str()),
            };
            match split_once(line.as_str(), '=') {
                None => {
                    return Err(
                        failure(
                            path.to_owned().concat(":").concat(
                                decimal_of(i + 1).as_str(),
                            ).concat(": ").concat("expected KEY=VALUE (got ").concat(
                                quote(line.as_str()).as_str(),
                            ).concat(")"),
                        ),
                    );
                },
                Some((k, v)) => {
                    let key = trim(k.as_str());
                    if !is_valid_env_name(key.as_str()) {
                        return Err(
                            failure(
                                path.to_owned().concat(":").concat(
                                    decimal_of(i + 1).as_str(),
                                ).concat(": ").concat(quote(key.as_str()).as_str()).concat(
                                    " is not a valid variable name",
                                ),
                            ),
                        );
                    }
                    put_env(out, key.as_str(), trim(v.as_str()));
                },
            }
        }
        i += 1;
    }
    Ok(())
}

// ---------------------------------------------------------------------
// The expansion of values
// ---------------------------------------------------------------------

/// The variables after the pairs were set in them, in order.
pub open spec fn layered(
    vars: Map<Seq<char>, Seq<char>>,
    pairs: Seq<(Seq<char>, Seq<char>)>,
) -> Map<Seq<char>, Seq<char>>
    decreases pairs.len(),
{
    if pairs.len() == 0 {
        vars
    } else {
        layered(vars, pairs.drop_last()).insert(pairs.last().0, pairs.last().1)
    }
}

/// Sets the variables of a table.
pub fn merge_ctx(ctx: &mut Vars, src: &IndexMap<String, String>)
    ensures
        final(ctx)@ == layered(old(ctx)@, table::entries(*src)),
{
    let ghost all = table::entries(*src);
    let ghost start = ctx@;
    let n = table_len(src);
    let mut i: usize = 0;
    while i < n
        invariant
            i <= n,
            n == all.len(),
            all == table::entries(*src),
            start == old(ctx)@,
            ctx@ == layered(start, all.take(i as int)),
        decreases n - i,
    {
        if let Some((k, v)) = table_at(src, i) {
            ctx.insert(k.clone(), v.clone());
            proof {
                let more = all.take(i + 1);
                assert(more.drop_last() == all.take(i as int));
                assert(more.last() == all[i as int]);
            }
        }
        i += 1;
    }
    proof {
        assert(all.take(n as int) == all);
    }
}

/// The place of a variable of a table in messages.
pub open spec fn variable_place(field: Seq<char>, key: Seq<char>) -> Seq<char> {
    field + "."@ + key
}

/// The place of an element of a list in messages.
pub open spec fn element_place(field: Seq<char>, i: int) -> Seq<char> {
    field + "["@ + text::decimal(i as nat) + "]"@
}

/// The expansion of one variable of a table. Its key stays.
pub open spec fn pair_expansion(
    field: Seq<char>,
    vars: Map<Seq<char>, Seq<char>>,
) -> spec_fn(int, (Seq<char>, Seq<char>)) -> Result<(Seq<char>, Seq<char>), error::Fault> {
    |i: int, pair: (Seq<char>, Seq<char>)|
        match expand::expansion(pair.1, vars, variable_place(field, pair.0)) {
            Ok(v) => Ok((pair.0, v)),
            Err(e) => Err(e),
        }
}

/// The expansion of the values of a table. Keys and order stay.
pub open spec fn table_expansion(
    pairs: Seq<(Seq<char>, Seq<char>)>,
    field: Seq<char>,
    vars: Map<Seq<char>, Seq<char>>,
) -> Result<Seq<(Seq<char>, Seq<char>)>, error::Fault> {
    results::collected(pairs, pair_expansion(field, vars))
}

/// The expansion of one element of a list.
pub open spec fn element_expansion(
    field: Seq<char>,
    vars: Map<Seq<char>, Seq<char>>,
) -> spec_fn(int, Seq<char>) -> Result<Seq<char>, error::Fault> {
    |i: int, s: Seq<char>| expand::expansion(s, vars, element_place(field, i))
}

/// The expansion of the elements of a list.
pub open spec fn list_expansion(
    items: Seq<Seq<char>>,
    field: Seq<char>,
    vars: Map<Seq<char>, Seq<char>>,
) -> Result<Seq<Seq<char>>, error::Fault> {
    results::collected(items, element_expansion(field, vars))
}

/// The expansion of an optional value.
pub open spec fn slot_expansion(
    slot: Option<Seq<char>>,
    field: Seq<char>,
    vars: Map<Seq<char>, Seq<char>>,
) -> Result<Option<Seq<char>>, error::Fault> {
    match slot {
        None => Ok(None),
        Some(v) => match expand::expansion(v, vars, field) {
            Ok(s) => Ok(Some(s)),
            Err(e) => Err(e),
        },
    }
}

/// The expansion of the arguments of an init step; its verb stays.
pub open spec fn step_expansion(
    vars: Map<Seq<char>, Seq<char>>,
) -> spec_fn(int, args::StepView) -> Result<args::StepView, error::Fault> {
    |i: int, step: args::StepView|
        match step {
            args::StepView::Exec(argv) => match list_expansion(
                argv,
                element_place("init"@, i),
                vars,
            ) {
                Ok(done) => Ok(args::StepView::Exec(done)),
                Err(e) => Err(e),
            },
            args::StepView::Cp(host, dest) => match expand::expansion(
                host,
                vars,
                element_place("init"@, i) + ".0"@,
            ) {
                Err(e) => Err(e),
                Ok(h) => match expand::expansion(
                    dest,
                    vars,
                    element_place("init"@, i) + ".1"@,
                ) {
                    Err(e) => Err(e),
                    Ok(d) => Ok(args::StepView::Cp(h, d)),
                },
            },
        }
}

/// The expansion of the init steps.
pub open spec fn init_expansion(
    init: Option<Seq<args::StepView>>,
    vars: Map<Seq<char>, Seq<char>>,
) -> Result<Option<Seq<args::StepView>>, error::Fault> {
    match init {
        None => Ok(None),
        Some(all) => match results::collected(all, step_expansion(vars)) {
            Ok(done) => Ok(Some(done)),
            Err(e) => Err(e),
        },
    }
}

/// The values of a table, expanded.
pub fn expand_table(
    src: &IndexMap<String, String>,
    vars: &Vars,
    field: &str,
) -> (r: Result<IndexMap<String, String>, Error>)
    ensures
        match r {
            Ok(t) => table_expansion(table::entries(*src), field@, vars@) == Ok::<
                Seq<(Seq<char>, Seq<char>)>,
                error::Fault,
            >(table::entries(t)),
            Err(e) => table_expansion(table::entries(*src), field@, vars@) == Err::<
                Seq<(Seq<char>, Seq<char>)>,
                error::Fault,
            >(e@),
        },
{
    let ghost all = table::entries(*src);
    let ghost f = pair_expansion(field@, vars@);
    let mut out = table_clone(src);
    let n = table_len(src);
    let mut i: usize = 0;
    proof {
        assert(all.take(0) == Seq::<(Seq<char>, Seq<char>)>::empty());
        assert(all.skip(0) == all);
        assert(Seq::<(Seq<char>, Seq<char>)>::empty() + all == all);
    }
    while i < n
        invariant
            i <= n,
            n == all.len(),
            all == table::entries(*src),
            f == pair_expansion(field@, vars@),
            results::collected(all.take(i as int), f) is Ok,
            results::collected(all.take(i as int), f)->Ok_0.len() == i,
            table::entries(out) == results::collected(all.take(i as int), f)->Ok_0 + all.skip(
                i as int,
            ),
        decreases n - i,
    {
        let ghost done = results::collected(all.take(i as int), f)->Ok_0;
        proof {
            results::lemma_collected_next(all, f, i as int);
            assert(table::entries(out)[i as int] == all[i as int]);
        }
        if let Some((k, v)) = table_at(src, i) {
            let place = field.to_owned().concat(".").concat(k.as_str());
            match expand_env(v.as_str(), vars, place.as_str()) {
                Err(e) => return Err(e),
                Ok(s) => {
                    let ghost pair = (k@, s@);
                    table_set(&mut out, i, s);
                    proof {
                        assert(table::entries(out) == done.push(pair) + all.skip(i + 1));
                    }
                },
            }
        }
        i += 1;
    }
    proof {
        assert(all.take(n as int) == all);
        assert(all.skip(n as int) == Seq::<(Seq<char>, Seq<char>)>::empty());
        let done = results::collected(all, f)->Ok_0;
        assert(done + Seq::<(Seq<char>, Seq<char>)>::empty() == done);
    }
    Ok(out)
}

/// The elements of a list, expanded.
pub fn expand_list(items: &[String], vars: &Vars, field: &str) -> (r: Result<Vec<String>, Error>)
    ensures
        match r {
            Ok(v) => list_expansion(text::texts(items@), field@, vars@) == Ok::<
                Seq<Seq<char>>,
                error::Fault,
            >(text::texts(v@)),
            Err(e) => list_expansion(text::texts(items@), field@, vars@) == Err::<
                Seq<Seq<char>>,
                error::Fault,
            >(e@),
        },
{
    let ghost all = text::texts(items@);
    let ghost f = element_expansion(field@, vars@);
    let mut out: Vec<String> = Vec::new();
    let mut i: usize = 0;
    proof {
        assert(all.take(0) == Seq::<Seq<char>>::empty());
        assert(text::texts(out@) == Seq::<Seq<char>>::empty());
    }
    while i < items.len()
        invariant
            i <= items@.len(),
            all == text::texts(items@),
            f == element_expansion(field@, vars@),
            results::collected(all.take(i as int), f) == Ok::<Seq<Seq<char>>, error::Fault>(
                text::texts(out@),
            ),
        decreases items.len() - i,
    {
        proof {
            results::lemma_collected_next(all, f, i as int);
            assert(all[i as int] == items@[i as int]@);
        }
        let place = field.to_owned().concat("[").concat(decimal_of(i).as_str()).concat("]");
        match expand_env(items[i].as_str(), vars, place.as_str()) {
            Err(e) => return Err(e),
            Ok(s) => {
                proof {
                    text::lemma_texts_push(out@, s);
                }
                out.push(s);
            },
        }
        i += 1;
    }
    proof {
        assert(all.take(i as int) == all);
    }
    Ok(out)
}

/// An optional value, expanded.
pub fn expand_slot(slot: &Option<String>, vars: &Vars, path: &str) -> (r: Result<
    Option<String>,
    Error,
>)
    ensures
        match r {
            Ok(v) => slot_expansion(text::opt_text(*slot), path@, vars@) == Ok::<
                Option<Seq<char>>,
                error::Fault,
            >(text::opt_text(v)),
            Err(e) => slot_expansion(text::opt_text(*slot), path@, vars@) == Err::<
                Option<Seq<char>>,
                error::Fault,
            >(e@),
        },
{
    match slot {
        None => Ok(None),
        Some(v) => match expand_env(v.as_str(), vars, path) {
            Ok(s) => Ok(Some(s)),
            Err(e) => Err(e),
        },
    }
}

/// An init step with its arguments expanded; its verb stays.
fn expand_step(step: &InitStep, i: usize, vars: &Vars) -> (r: Result<InitStep, Error>)
    ensures
        match r {
            Ok(s) => step_expansion(vars@)(i as int, step@) == Ok::<args::StepView, error::Fault>(
                s@,
            ),
            Err(e) => step_expansion(vars@)(i as int, step@) == Err::<args::StepView, error::Fault>(
                e@,
            ),
        },
{
    let place = "init".to_owned().concat("[").concat(decimal_of(i).as_str()).concat("]");
    match step {
        InitStep::Exec(argv) => match expand_list(argv, vars, place.as_str()) {
            Ok(done) => Ok(InitStep::Exec(done)),
            Err(e) => Err(e),
        },
        InitStep::Cp { host, dest } => {
            let h = match expand_env(
                host.as_str(),
                vars,
                place.clone().concat(".0").as_str(),
            ) {
                Ok(h) => h,
                Err(e) => return Err(e),
            };
            let d = match expand_env(dest.as_str(), vars, place.concat(".1").as_str()) {
                Ok(d) => d,
                Err(e) => return Err(e),
            };
            Ok(InitStep::Cp { host: h, dest: d })
        },
    }
}

/// The init steps with their arguments expanded.
pub fn expand_init(init: &Option<Init>, vars: &Vars) -> (r: Result<Option<Init>, Error>)
    ensures
        match r {
            Ok(v) => init_expansion(args::opt_steps(*init), vars@) == Ok::<
                Option<Seq<args::StepView>>,
                error::Fault,
            >(args::opt_steps(v)),
            Err(e) => init_expansion(args::opt_steps(*init), vars@) == Err::<
                Option<Seq<args::StepView>>,
                error::Fault,
            >(e@),
        },
{
    match init {
        None => Ok(None),
        Some(v) => {
            let ghost all = args::steps(v@);
            let ghost f = step_expansion(vars@);
            let mut out: Init = Vec::new();
            let mut i: usize = 0;
            proof {
                assert(all.take(0) == Seq::<args::StepView>::empty());
                assert(args::steps(out@) == Seq::<args::StepView>::empty());
            }
            while i < v.len()
                invariant
                    i <= v@.len(),
                    *init == Some(*v),
                    all == args::steps(v@),
                    f == step_expansion(vars@),
                    results::collected(all.take(i as int), f) == Ok::<
                        Seq<args::StepView>,
                        error::Fault,
                    >(args::steps(out@)),
                decreases v.len() - i,
            {
                proof {
                    results::lemma_collected_next(all, f, i as int);
                    assert(all[i as int] == v@[i as int]@);
                }
                match expand_step(&v[i], i, vars) {
                    Err(e) => return Err(e),
                    Ok(s) => {
                        let ghost before = args::steps(out@);
                        out.push(s);
                        proof {
                            assert(args::steps(out@) == before.push(s@));
                        }
                    },
                }
                i += 1;
            }
            proof {
                assert(all.take(i as int) == all);
            }
            Ok(Some(out))
        },
    }
}

/// What was found where an env file was looked for.
#[derive(Debug)]
pub enum EnvFile {
    /// Its path does not resolve, for this reason.
    Missing { why: String },
    /// What is at the canonical path cannot be read, for this reason.
    Unreadable { path: String, why: String },
    /// The file at the canonical path, and what it holds.
    Content { path: String, content: String },
}

/// What was found where an env file was looked for, as text.
pub enum EnvFileView {
    Missing(Seq<char>),
    Unreadable(Seq<char>, Seq<char>),
    Content(Seq<char>, Seq<char>),
}

impl View for EnvFile {
    type V = EnvFileView;

    open spec fn view(&self) -> EnvFileView {
        match self {
            EnvFile::Missing { why } => EnvFileView::Missing(why@),
            EnvFile::Unreadable { path, why } => EnvFileView::Unreadable(path@, why@),
            EnvFile::Content { path, content } => EnvFileView::Content(path@, content@),
        }
    }
}

/// What was found for the path at a position; nothing, if nobody looked.
pub open spec fn found(files: Seq<EnvFile>, i: int) -> EnvFileView {
    if 0 <= i < files.len() {
        files[i]@
    } else {
        EnvFileView::Missing("nothing was looked for"@)
    }
}

/// The pairs of a table after the env file of one path was read into it.
pub open spec fn file_read(
    raw: Seq<char>,
    file: EnvFileView,
    caller: Map<Seq<char>, Seq<char>>,
    pairs: Seq<(Seq<char>, Seq<char>)>,
) -> Result<Seq<(Seq<char>, Seq<char>)>, error::Fault> {
    match expand::expansion(raw, caller, "env_files"@) {
        Err(e) => Err(e),
        Ok(path) => match file {
            EnvFileView::Missing(why) => Err(validate::unresolved(path, why)),
            EnvFileView::Unreadable(p, why) => Err(
                error::under("reading env file "@ + p, error::said(why)),
            ),
            EnvFileView::Content(p, content) => match env_file_read(content, p, pairs) {
                (_, Some(message)) => Err(message),
                (read, None) => Ok(read),
            },
        },
    }
}

/// The table of the first `n` env files, read in order.
pub open spec fn files_read(
    raw: Seq<Seq<char>>,
    files: Seq<EnvFile>,
    caller: Map<Seq<char>, Seq<char>>,
    n: nat,
) -> Result<Seq<(Seq<char>, Seq<char>)>, error::Fault>
    decreases n,
{
    if n == 0 {
        Ok(Seq::empty())
    } else {
        match files_read(raw, files, caller, (n - 1) as nat) {
            Err(e) => Err(e),
            Ok(pairs) => file_read(raw[n - 1], found(files, n - 1), caller, pairs),
        }
    }
}

/// The variables of the env files, expanded against the caller's
/// environment.
pub open spec fn file_env(
    raw: Seq<Seq<char>>,
    files: Seq<EnvFile>,
    caller: Map<Seq<char>, Seq<char>>,
) -> Result<Seq<(Seq<char>, Seq<char>)>, error::Fault> {
    match files_read(raw, files, caller, raw.len()) {
        Err(e) => Err(e),
        Ok(pairs) => table_expansion(pairs, "env_files"@, caller),
    }
}

/// The path of an env file, expanded: where to look for it.
pub fn env_file_path(raw: &str, caller: &Vars) -> (r: Result<String, Error>)
    ensures
        expand::expanded(r) == expand::expansion(raw@, caller@, "env_files"@),
{
    expand_env(raw, caller, "env_files")
}

proof fn lemma_files_read_fails(
    raw: Seq<Seq<char>>,
    files: Seq<EnvFile>,
    caller: Map<Seq<char>, Seq<char>>,
    n: nat,
    m: nat,
)
    requires
        n <= m,
        files_read(raw, files, caller, n) is Err,
    ensures
        files_read(raw, files, caller, m) == files_read(raw, files, caller, n),
    decreases m,
{
    if n < m {
        lemma_files_read_fails(raw, files, caller, n, (m - 1) as nat);
    }
}

/// The variables of the env files. `found_files` holds, for each path, what was
/// found where `env_file_path` says to look. A later file overrides an
/// earlier one, and the values expand against the caller's environment. A
/// path that does not resolve, a file that cannot be read, and a line that
/// is not `KEY=VALUE` are errors.
pub fn load_env_files_env(paths: &[String], caller: &Vars, found_files: &[EnvFile]) -> (r: Result<
    IndexMap<String, String>,
    Error,
>)
    ensures
        match r {
            Ok(t) => file_env(text::texts(paths@), found_files@, caller@) == Ok::<
                Seq<(Seq<char>, Seq<char>)>,
                error::Fault,
            >(table::entries(t)),
            Err(e) => file_env(text::texts(paths@), found_files@, caller@) == Err::<
                Seq<(Seq<char>, Seq<char>)>,
                error::Fault,
            >(e@),
        },
{
    let ghost raw = text::texts(paths@);
    let mut out = new_table();
    let mut i: usize = 0;
    while i < paths.len()
        invariant
            i <= paths@.len(),
            raw == text::texts(paths@),
            files_read(raw, found_files@, caller@, i as nat) == Ok::<
                Seq<(Seq<char>, Seq<char>)>,
                error::Fault,
            >(table::entries(out)),
        decreases paths.len() - i,
    {
        let ghost next = files_read(raw, found_files@, caller@, (i + 1) as nat);
        proof {
            assert(raw[i as int] == paths@[i as int]@);
            assert(next == file_read(
                raw[i as int],
                found(found_files@, i as int),
                caller@,
                table::entries(out),
            ));
            if next is Err {
                lemma_files_read_fails(raw, found_files@, caller@, (i + 1) as nat, raw.len());
            }
        }
        let path = match env_file_path(paths[i].as_str(), caller) {
            Ok(path) => path,
            Err(e) => return Err(e),
        };
        if i >= found_files.len() {
            return Err(no_resolution(path.as_str(), "nothing was looked for"));
        }
        match &found_files[i] {
            EnvFile::Missing { why } => {
                return Err(no_resolution(path.as_str(), why.as_str()));
            },
            EnvFile::Unreadable { path: at, why } => {
                return Err(
                    failure_under(
                        "reading env file ".to_owned().concat(at.as_str()),
                        failure(why.clone()),
                    ),
                );
            },
            EnvFile::Content { path: at, content } => {
                if let Err(e) = parse_env_file(content.as_str(), at.as_str(), &mut out) {
                    return Err(e);
                }
            },
        }
        i += 1;
    }
    expand_table(&out, caller, "env_files")
}

// ---------------------------------------------------------------------
// The expansion of a policy
// ---------------------------------------------------------------------

/// A policy whose `[env]` is expanded, with the other values expanded.
pub open spec fn values_expanded(c: config::ConfigView, vars: Map<Seq<char>, Seq<char>>) -> Result<
    config::ConfigView,
    error::Fault,
> {
    let network = slot_expansion(c.network, "network"@, vars);
    let image = slot_expansion(c.image, "image"@, vars);
    let cgroupns = slot_expansion(c.cgroupns, "cgroupns"@, vars);
    let ipc = slot_expansion(c.ipc, "ipc"@, vars);
    let pid = slot_expansion(c.pid, "pid"@, vars);
    let userns = slot_expansion(c.userns, "userns"@, vars);
    let user = slot_expansion(c.user, "user"@, vars);
    let workdir = slot_expansion(c.workdir, "workdir"@, vars);
    let ulimits = list_expansion(c.ulimits, "ulimits"@, vars);
    let entry = list_expansion(c.entry, "entry"@, vars);
    let init = init_expansion(c.init, vars);
    let extra_hosts = list_expansion(c.extra_hosts, "extra_hosts"@, vars);
    let security_opts = list_expansion(c.security_opts, "security_opts"@, vars);
    let mounts = list_expansion(c.mounts, "mounts"@, vars);
    if network is Err {
        Err(network->Err_0)
    } else if image is Err {
        Err(image->Err_0)
    } else if cgroupns is Err {
        Err(cgroupns->Err_0)
    } else if ipc is Err {
        Err(ipc->Err_0)
    } else if pid is Err {
        Err(pid->Err_0)
    } else if userns is Err {
        Err(userns->Err_0)
    } else if user is Err {
        Err(user->Err_0)
    } else if workdir is Err {
        Err(workdir->Err_0)
    } else if ulimits is Err {
        Err(ulimits->Err_0)
    } else if entry is Err {
        Err(entry->Err_0)
    } else if init is Err {
        Err(init->Err_0)
    } else if extra_hosts is Err {
        Err(extra_hosts->Err_0)
    } else if security_opts is Err {
        Err(security_opts->Err_0)
    } else if mounts is Err {
        Err(mounts->Err_0)
    } else {
        Ok(
            config::ConfigView {
                network: network->Ok_0,
                image: image->Ok_0,
                cgroupns: cgroupns->Ok_0,
                ipc: ipc->Ok_0,
                pid: pid->Ok_0,
                userns: userns->Ok_0,
                user: user->Ok_0,
                workdir: workdir->Ok_0,
                ulimits: ulimits->Ok_0,
                entry: entry->Ok_0,
                init: init->Ok_0,
                extra_hosts: extra_hosts->Ok_0,
                security_opts: security_opts->Ok_0,
                mounts: mounts->Ok_0,
                ..c
            },
        )
    }
}

/// A policy with its values expanded: those of `[env]` against the
/// caller's environment and the variables of the env files, all others
/// against that and the expanded `[env]`.
pub open spec fn config_expanded(
    c: config::ConfigView,
    caller: Map<Seq<char>, Seq<char>>,
    files: Seq<(Seq<char>, Seq<char>)>,
) -> Result<config::ConfigView, error::Fault> {
    match table_expansion(c.env, "env"@, layered(caller, files)) {
        Err(e) => Err(e),
        Ok(env) => values_expanded(
            config::ConfigView { env, ..c },
            layered(layered(caller, files), env),
        ),
    }
}

/// The policy with its values expanded. `files` are the variables of the
/// env files.
fn expand_values(cfg: &SteelbxConfig, caller: &Vars, files: &IndexMap<String, String>) -> (r:
    Result<SteelbxConfig, Error>)
    ensures
        match r {
            Ok(c) => config_expanded(cfg@, caller@, table::entries(*files)) == Ok::<
                config::ConfigView,
                error::Fault,
            >(c@),
            Err(e) => config_expanded(cfg@, caller@, table::entries(*files)) == Err::<
                config::ConfigView,
                error::Fault,
            >(e@),
        },
{
    let mut ctx = caller.copy();
    merge_ctx(&mut ctx, files);
    let env = match expand_table(&cfg.env, &ctx, "env") {
        Ok(t) => t,
        Err(e) => return Err(e),
    };
    merge_ctx(&mut ctx, &env);
    let network = match expand_slot(&cfg.network, &ctx, "network") {
        Ok(v) => v,
        Err(e) => return Err(e),
    };
    let image = match expand_slot(&cfg.image, &ctx, "image") {
        Ok(v) => v,
        Err(e) => return Err(e),
    };
    let cgroupns = match expand_slot(&cfg.cgroupns, &ctx, "cgroupns") {
        Ok(v) => v,
        Err(e) => return Err(e),
    };
    let ipc = match expand_slot(&cfg.ipc, &ctx, "ipc") {
        Ok(v) => v,
        Err(e) => return Err(e),
    };
    let pid = match expand_slot(&cfg.pid, &ctx, "pid") {
        Ok(v) => v,
        Err(e) => return Err(e),
    };
    let userns = match expand_slot(&cfg.userns, &ctx, "userns") {
        Ok(v) => v,
        Err(e) => return Err(e),
    };
    let user = match expand_slot(&cfg.user, &ctx, "user") {
        Ok(v) => v,
        Err(e) => return Err(e),
    };
    let workdir = match expand_slot(&cfg.workdir, &ctx, "workdir") {
        Ok(v) => v,
        Err(e) => return Err(e),
    };
    let ulimits = match expand_list(&cfg.ulimits, &ctx, "ulimits") {
        Ok(v) => v,
        Err(e) => return Err(e),
    };
    let entry = match expand_list(&cfg.entry, &ctx, "entry") {
        Ok(v) => v,
        Err(e) => return Err(e),
    };
    let init = match expand_init(&cfg.init, &ctx) {
        Ok(v) => v,
        Err(e) => return Err(e),
    };
    let extra_hosts = match expand_list(&cfg.extra_hosts, &ctx, "extra_hosts") {
        Ok(v) => v,
        Err(e) => return Err(e),
    };
    let security_opts = match expand_list(&cfg.security_opts, &ctx, "security_opts") {
        Ok(v) => v,
        Err(e) => return Err(e),
    };
    let mounts = match expand_list(&cfg.mounts, &ctx, "mounts") {
        Ok(v) => v,
        Err(e) => return Err(e),
    };
    Ok(
        SteelbxConfig {
            image,
            network,
            extra_hosts,
            env,
            env_files: cfg.env_files.clone(),
            runtime_env: cfg.runtime_env.clone(),
            security_opts,
            mounts,
            cgroupns,
            ipc,
            pid,
            userns,
            user,
            privileged: cfg.privileged,
            no_hosts: cfg.no_hosts,
            ulimits,
            entry,
            workdir,
            init,
        },
    )
}

/// A policy with its values expanded, the env files and what they hold
/// included. `found_files` is what was found where the env files were looked for.
pub open spec fn policy_expanded(
    c: config::ConfigView,
    caller: Map<Seq<char>, Seq<char>>,
    found_files: Seq<EnvFile>,
) -> Result<config::ConfigView, error::Fault> {
    match file_env(c.env_files, found_files, caller) {
        Err(e) => Err(e),
        Ok(files) => config_expanded(c, caller, files),
    }
}

/// The policy with its values expanded. `found_files` holds, for each of
/// its env files, what was found where `env_file_path` says to look.
pub fn expand_with(cfg: &SteelbxConfig, caller: &Vars, found_files: &[EnvFile]) -> (r: Result<
    SteelbxConfig,
    Error,
>)
    ensures
        match r {
            Ok(c) => policy_expanded(cfg@, caller@, found_files@) == Ok::<
                config::ConfigView,
                error::Fault,
            >(c@),
            Err(e) => policy_expanded(cfg@, caller@, found_files@) == Err::<
                config::ConfigView,
                error::Fault,
            >(e@),
        },
{
    match load_env_files_env(&cfg.env_files, caller, found_files) {
        Err(e) => Err(e),
        Ok(files) => expand_values(cfg, caller, &files),
    }
}

// ---------------------------------------------------------------------
// Laws
// ---------------------------------------------------------------------

/// The last value that the lines give to a key.
pub open spec fn last_value(lines: Seq<Seq<char>>, key: Seq<char>) -> Option<Seq<char>>
    decreases lines.len(),
{
    if lines.len() == 0 {
        None
    } else {
        match last_value(lines.skip(1), key) {
            Some(v) => Some(v),
            None => match line_meaning(lines[0]) {
                Line::Pair(k, v) => if k == key {
                    Some(v)
                } else {
                    None
                },
                _ => None,
            },
        }
    }
}

proof fn lemma_last_line_wins(
    lines: Seq<Seq<char>>,
    number: nat,
    path: Seq<char>,
    pairs: Seq<(Seq<char>, Seq<char>)>,
    key: Seq<char>,
)
    requires
        lines_read(lines, number, path, pairs).1 is None,
    ensures
        table::value_of(lines_read(lines, number, path, pairs).0, key) == match last_value(
            lines,
            key,
        ) {
            Some(v) => Some(v),
            None => table::value_of(pairs, key),
        },
    decreases lines.len(),
{
    if lines.len() > 0 {
        match line_meaning(lines[0]) {
            Line::Nothing => {
                lemma_last_line_wins(lines.skip(1), number + 1, path, pairs, key);
            },
            Line::Pair(k, v) => {
                table::law_put_sets_one_key(pairs, k, v, key);
                lemma_last_line_wins(
                    lines.skip(1),
                    number + 1,
                    path,
                    table::put(pairs, k, v),
                    key,
                );
            },
            _ => {},
        }
    }
}

/// After an env file was read, a key has the last value that the file gives
/// to it; a key that the file does not set has the value it had.
pub proof fn law_last_line_of_an_env_file_wins(
    content: Seq<char>,
    path: Seq<char>,
    pairs: Seq<(Seq<char>, Seq<char>)>,
    key: Seq<char>,
)
    requires
        env_file_read(content, path, pairs).1 is None,
    ensures
        table::value_of(env_file_read(content, path, pairs).0, key) == match last_value(
            text::split(content, '\n'),
            key,
        ) {
            Some(v) => Some(v),
            None => table::value_of(pairs, key),
        },
{
    lemma_last_line_wins(text::split(content, '\n'), 1, path, pairs, key);
}

/// Where the first `n` env files were read, a key that the last of them
/// sets has its value, and any other key has the value that the files
/// before it gave.
pub proof fn law_later_env_file_wins(
    raw: Seq<Seq<char>>,
    files: Seq<EnvFile>,
    caller: Map<Seq<char>, Seq<char>>,
    n: nat,
    key: Seq<char>,
)
    requires
        0 < n <= raw.len(),
        files_read(raw, files, caller, n) is Ok,
    ensures
        files_read(raw, files, caller, (n - 1) as nat) is Ok,
        found(files, n - 1) matches EnvFileView::Content(path, content) && table::value_of(
            files_read(raw, files, caller, n)->Ok_0,
            key,
        ) == match last_value(text::split(content, '\n'), key) {
            Some(v) => Some(v),
            None => table::value_of(
                files_read(raw, files, caller, (n - 1) as nat)->Ok_0,
                key,
            ),
        },
{
    let before = files_read(raw, files, caller, (n - 1) as nat)->Ok_0;
    if let EnvFileView::Content(path, content) = found(files, n - 1) {
        law_last_line_of_an_env_file_wins(content, path, before, key);
    }
}

/// An env file leaves no key twice where none was.
pub proof fn law_env_file_keeps_keys_distinct(
    lines: Seq<Seq<char>>,
    number: nat,
    path: Seq<char>,
    pairs: Seq<(Seq<char>, Seq<char>)>,
)
    requires
        table::distinct_keys(pairs),
    ensures
        table::distinct_keys(lines_read(lines, number, path, pairs).0),
    decreases lines.len(),
{
    if lines.len() > 0 {
        match line_meaning(lines[0]) {
            Line::Nothing => {
                law_env_file_keeps_keys_distinct(lines.skip(1), number + 1, path, pairs);
            },
            Line::Pair(k, v) => {
                table::law_put_keeps_keys_distinct(pairs, k, v);
                law_env_file_keeps_keys_distinct(
                    lines.skip(1),
                    number + 1,
                    path,
                    table::put(pairs, k, v),
                );
            },
            _ => {},
        }
    }
}

/// A pair as a line of an env file.
pub open spec fn env_line(pair: (Seq<char>, Seq<char>)) -> Seq<char> {
    pair.0 + seq!['='] + pair.1
}

/// Pairs as an env file, with a line for each.
pub open spec fn env_file_of(pairs: Seq<(Seq<char>, Seq<char>)>) -> Seq<char> {
    text::joined(pairs.map_values(|p: (Seq<char>, Seq<char>)| env_line(p)), seq!['\n'])
}

/// A pair that a line of an env file can hold: the value stays on its line
/// and has no white space around it.
pub open spec fn fits_a_line(pair: (Seq<char>, Seq<char>)) -> bool {
    &&& validate::valid_env_name(pair.0)
    &&& text::trimmed(pair.1) == pair.1
    &&& !pair.1.contains('\n')
}

proof fn lemma_env_line_means_the_pair(k: Seq<char>, v: Seq<char>)
    requires
        fits_a_line((k, v)),
    ensures
        line_meaning(env_line((k, v))) == Line::Pair(k, v),
        !env_line((k, v)).contains('\n'),
{
    let line = env_line((k, v));
    let n = k.len();
    assert(text::is_word(k[0]));
    assert(text::is_word(k[n - 1]));
    text::lemma_trimmed_ends(v);
    assert(line[0] == k[0]);
    assert(line[n as int] == '=');
    if v.len() > 0 {
        assert(line.last() == v.last());
    } else {
        assert(line.last() == '=');
    }
    text::lemma_trimmed_is(line);
    text::lemma_trimmed_is(k);
    reveal_strlit("#");
    if text::starts(line, "#"@) {
        assert(line.subrange(0, 1)[0] == "#"@[0]);
    }
    reveal_strlit("export ");
    if text::starts(line, "export "@) {
        let part = line.subrange(0, 7);
        if n <= 6 {
            assert(part[n as int] == '=');
        } else {
            assert(text::is_word(k[6]));
            assert(part[6] == k[6]);
        }
    }
    assert(after_export(line) == line);
    let p = text::other_than('=');
    assert forall|j: int| 0 <= j < n implies p(#[trigger] line[j]) by {
        assert(text::is_word(k[j]));
        assert(line[j] == k[j]);
    }
    text::lemma_run_is(line, p, n);
    assert(line.take(n as int) == k);
    assert(line.skip(n as int + 1) == v);
    assert forall|j: int| 0 <= j < line.len() implies line[j] != '\n' by {
        if j < n {
            assert(text::is_word(k[j]));
        } else if j > n {
            assert(v.contains(v[j - n - 1]));
        }
    }
}

proof fn lemma_written_lines_read_back(
    pairs: Seq<(Seq<char>, Seq<char>)>,
    n: int,
    number: nat,
    path: Seq<char>,
)
    requires
        0 <= n <= pairs.len(),
        table::distinct_keys(pairs),
        forall|i: int| 0 <= i < pairs.len() ==> fits_a_line(#[trigger] pairs[i]),
    ensures
        lines_read(
            pairs.map_values(|p: (Seq<char>, Seq<char>)| env_line(p)).skip(n),
            number,
            path,
            pairs.take(n),
        ) == (pairs, None::<error::Fault>),
    decreases pairs.len() - n,
{
    let lines = pairs.map_values(|p: (Seq<char>, Seq<char>)| env_line(p));
    let done = pairs.take(n);
    if n < pairs.len() {
        let (k, v) = pairs[n];
        assert(fits_a_line(pairs[n]));
        lemma_env_line_means_the_pair(k, v);
        assert(lines.skip(n)[0] == env_line(pairs[n]));
        assert(lines.skip(n).skip(1) == lines.skip(n + 1));
        assert forall|i: int| 0 <= i < done.len() implies (#[trigger] done[i]).0 != k by {
            assert(done[i] == pairs[i]);
            assert(pairs[i].0 != pairs[n].0);
        }
        table::lemma_key_index(done, k);
        assert(table::put(done, k, v) == pairs.take(n + 1));
        lemma_written_lines_read_back(pairs, n + 1, number + 1, path);
    } else {
        assert(done == pairs);
        assert(lines.skip(n).len() == 0);
    }
}

/// An env file that was written from pairs reads back as those pairs, in
/// their order.
pub proof fn law_written_env_file_reads_back(
    pairs: Seq<(Seq<char>, Seq<char>)>,
    path: Seq<char>,
)
    requires
        table::distinct_keys(pairs),
        forall|i: int| 0 <= i < pairs.len() ==> fits_a_line(#[trigger] pairs[i]),
    ensures
        env_file_read(env_file_of(pairs), path, Seq::empty()) == (pairs, None::<error::Fault>),
{
    let lines = pairs.map_values(|p: (Seq<char>, Seq<char>)| env_line(p));
    if pairs.len() == 0 {
        let nothing = env_file_of(pairs);
        assert(text::split(nothing, '\n') == seq![nothing]);
        text::lemma_trimmed_is(nothing);
        assert(line_meaning(nothing) is Nothing);
        assert(seq![nothing].skip(1).len() == 0);
        assert(lines_read(seq![nothing].skip(1), 2, path, Seq::empty()) == (
            Seq::<(Seq<char>, Seq<char>)>::empty(),
            None::<error::Fault>,
        ));
        assert(pairs == Seq::<(Seq<char>, Seq<char>)>::empty());
    } else {
        assert forall|i: int| 0 <= i < lines.len() implies !(#[trigger] lines[i]).contains(
            '\n',
        ) by {
            assert(fits_a_line(pairs[i]));
            lemma_env_line_means_the_pair(pairs[i].0, pairs[i].1);
        }
        text::lemma_split_joined(lines, '\n');
        assert(lines.skip(0) == lines);
        assert(pairs.take(0) == Seq::<(Seq<char>, Seq<char>)>::empty());
        lemma_written_lines_read_back(pairs, 0, 1, path);
    }
}

/// In a layer of variables, those of the layer win, and all others are what
/// they were below it.
pub proof fn law_upper_layer_wins(
    vars: Map<Seq<char>, Seq<char>>,
    pairs: Seq<(Seq<char>, Seq<char>)>,
    key: Seq<char>,
)
    requires
        table::distinct_keys(pairs),
    ensures
        match table::value_of(pairs, key) {
            Some(v) => layered(vars, pairs).contains_key(key) && layered(vars, pairs)[key] == v,
            None => {
                &&& layered(vars, pairs).contains_key(key) == vars.contains_key(key)
                &&& vars.contains_key(key) ==> layered(vars, pairs)[key] == vars[key]
            },
        },
    decreases pairs.len(),
{
    table::lemma_key_index(pairs, key);
    if pairs.len() > 0 {
        let front = pairs.drop_last();
        assert(table::distinct_keys(front)) by {
            assert forall|i: int, j: int| 0 <= i < j < front.len() implies (
            #[trigger] front[i]).0 != (#[trigger] front[j]).0 by {
                assert(pairs[i].0 != pairs[j].0);
            }
        }
        law_upper_layer_wins(vars, front, key);
        table::lemma_key_index(front, key);
        let i = table::key_index(pairs, key);
        let j = table::key_index(front, key);
        if i < pairs.len() - 1 {
            assert(front[i as int] == pairs[i as int]);
            if j < i {
                assert(pairs[j as int].0 != key);
            } else if i < j {
                assert(front[i as int].0 != key);
            }
            assert(pairs[i as int].0 != pairs[pairs.len() - 1].0);
        } else {
            if j < front.len() {
                assert(pairs[j as int].0 == key);
                assert(j >= i);
            }
        }
    }
}

/// A value of `[env]` becomes what it expands to against the caller's
/// environment and the env files; no other value of `[env]` has a part in
/// that.
pub proof fn law_env_values_expand_on_their_own(
    env: Seq<(Seq<char>, Seq<char>)>,
    vars: Map<Seq<char>, Seq<char>>,
    i: int,
)
    requires
        table_expansion(env, "env"@, vars) is Ok,
        0 <= i < env.len(),
    ensures
        table_expansion(env, "env"@, vars)->Ok_0.len() == env.len(),
        table_expansion(env, "env"@, vars)->Ok_0[i].0 == env[i].0,
        expand::expansion(env[i].1, vars, variable_place("env"@, env[i].0)) == Ok::<
            Seq<char>,
            error::Fault,
        >(table_expansion(env, "env"@, vars)->Ok_0[i].1),
{
    results::lemma_collected_items(env, pair_expansion("env"@, vars));
    let done = table_expansion(env, "env"@, vars)->Ok_0;
    assert(pair_expansion("env"@, vars)(i, env[i]) == Ok::<(Seq<char>, Seq<char>), error::Fault>(
        done[i],
    ));
}

/// A value of `[env]` that refers to a variable that neither the caller nor
/// an env file sets is an error, though `[env]` itself may set it.
pub proof fn law_env_values_do_not_see_each_other(
    env: Seq<(Seq<char>, Seq<char>)>,
    vars: Map<Seq<char>, Seq<char>>,
    i: int,
    name: Seq<char>,
)
    requires
        0 <= i < env.len(),
        validate::valid_env_name(name),
        env[i].1 == seq!['$'] + name,
        !vars.contains_key(name),
    ensures
        table_expansion(env, "env"@, vars) is Err,
{
    let place = variable_place("env"@, env[i].0);
    expand::law_bare_reference(name, Seq::empty(), vars, place);
    assert(seq!['$'] + name + Seq::<char>::empty() == env[i].1);
    if table_expansion(env, "env"@, vars) is Ok {
        law_env_values_expand_on_their_own(env, vars, i);
    }
}

/// A reference to a variable that `[env]` sets, in any value but those of
/// `[env]`, stands for what `[env]` sets it to, whatever the caller or the
/// env files set.
pub proof fn law_profile_env_wins(
    caller: Map<Seq<char>, Seq<char>>,
    files: Seq<(Seq<char>, Seq<char>)>,
    env: Seq<(Seq<char>, Seq<char>)>,
    i: int,
    place: Seq<char>,
)
    requires
        table::distinct_keys(env),
        0 <= i < env.len(),
        validate::valid_env_name(env[i].0),
    ensures
        expand::expansion(
            seq!['$'] + env[i].0,
            layered(layered(caller, files), env),
            place,
        ) == Ok::<Seq<char>, error::Fault>(env[i].1),
{
    let vars = layered(layered(caller, files), env);
    law_upper_layer_wins(layered(caller, files), env, env[i].0);
    table::lemma_key_index(env, env[i].0);
    let n = table::key_index(env, env[i].0);
    if n < i {
        assert(env[n as int].0 != env[i].0);
    } else if i < n {
        assert(env[i].0 != env[i].0);
    }
    expand::law_bare_reference(env[i].0, Seq::empty(), vars, place);
    assert(seq!['$'] + env[i].0 + Seq::<char>::empty() == seq!['$'] + env[i].0);
    assert(env[i].1 + Seq::<char>::empty() == env[i].1);
}

/// Expansion changes no name and no switch: the names of `[env]` and their
/// order, the runtime env, the paths of the env files and the two switches
/// stay. So what an env file sets is never passed to the box.
pub proof fn law_expansion_changes_values_only(
    c: config::ConfigView,
    caller: Map<Seq<char>, Seq<char>>,
    found_files: Seq<EnvFile>,
)
    requires
        policy_expanded(c, caller, found_files) is Ok,
    ensures
        ({
            let d = policy_expanded(c, caller, found_files)->Ok_0;
            &&& validate::keys(d.env) == validate::keys(c.env)
            &&& d.runtime_env == c.runtime_env
            &&& d.env_files == c.env_files
            &&& d.privileged == c.privileged
            &&& d.no_hosts == c.no_hosts
        }),
{
    let files = file_env(c.env_files, found_files, caller)->Ok_0;
    let vars = layered(caller, files);
    results::lemma_collected_items(c.env, pair_expansion("env"@, vars));
    let env = table_expansion(c.env, "env"@, vars)->Ok_0;
    assert forall|i: int| 0 <= i < c.env.len() implies (#[trigger] env[i]).0 == c.env[i].0 by {
        assert(pair_expansion("env"@, vars)(i, c.env[i]) == Ok::<
            (Seq<char>, Seq<char>),
            error::Fault,
        >(env[i]));
    }
    assert(validate::keys(env) == validate::keys(c.env));
}

/// Expansion keeps what is declared and how often: an absent value stays
/// absent, a list keeps its length, and the init steps keep their number
/// and their verbs.
pub proof fn law_expansion_keeps_the_structure(
    c: config::ConfigView,
    vars: Map<Seq<char>, Seq<char>>,
)
    requires
        values_expanded(c, vars) is Ok,
    ensures
        ({
            let d = values_expanded(c, vars)->Ok_0;
            &&& d.image is Some == c.image is Some
            &&& d.network is Some == c.network is Some
            &&& d.cgroupns is Some == c.cgroupns is Some
            &&& d.ipc is Some == c.ipc is Some
            &&& d.pid is Some == c.pid is Some
            &&& d.userns is Some == c.userns is Some
            &&& d.user is Some == c.user is Some
            &&& d.workdir is Some == c.workdir is Some
            &&& d.ulimits.len() == c.ulimits.len()
            &&& d.entry.len() == c.entry.len()
            &&& d.extra_hosts.len() == c.extra_hosts.len()
            &&& d.security_opts.len() == c.security_opts.len()
            &&& d.mounts.len() == c.mounts.len()
            &&& d.env == c.env
            &&& match (d.init, c.init) {
                (None, None) => true,
                (Some(a), Some(b)) => {
                    &&& a.len() == b.len()
                    &&& forall|i: int|
                        0 <= i < a.len() ==> (#[trigger] a[i] is Exec) == (b[i] is Exec)
                },
                _ => false,
            }
        }),
{
    let d = values_expanded(c, vars)->Ok_0;
    results::lemma_collected_items(c.ulimits, element_expansion("ulimits"@, vars));
    results::lemma_collected_items(c.entry, element_expansion("entry"@, vars));
    results::lemma_collected_items(c.extra_hosts, element_expansion("extra_hosts"@, vars));
    results::lemma_collected_items(c.security_opts, element_expansion("security_opts"@, vars));
    results::lemma_collected_items(c.mounts, element_expansion("mounts"@, vars));
    if let Some(b) = c.init {
        results::lemma_collected_items(b, step_expansion(vars));
        let a = d.init->Some_0;
        assert forall|i: int| 0 <= i < a.len() implies (#[trigger] a[i] is Exec) == (
        b[i] is Exec) by {
            assert(step_expansion(vars)(i, b[i]) == Ok::<args::StepView, error::Fault>(a[i]));
        }
    }
}

/// A list whose elements hold no dollar sign is its own expansion, under
/// any variables.
pub proof fn law_plain_list_is_unchanged(
    items: Seq<Seq<char>>,
    field: Seq<char>,
    vars: Map<Seq<char>, Seq<char>>,
)
    requires
        forall|i: int| 0 <= i < items.len() ==> !(#[trigger] items[i]).contains('$'),
    ensures
        list_expansion(items, field, vars) == Ok::<Seq<Seq<char>>, error::Fault>(items),
{
    let f = element_expansion(field, vars);
    assert forall|i: int| 0 <= i < items.len() implies f(i, #[trigger] items[i]) == Ok::<
        Seq<char>,
        error::Fault,
    >(items[i]) by {
        expand::law_plain_text_is_unchanged(items[i], vars, element_place(field, i));
    }
    results::lemma_collected_ok(items, f);
    results::lemma_collected_items(items, f);
    let done = results::collected(items, f)->Ok_0;
    assert forall|i: int| 0 <= i < items.len() implies #[trigger] done[i] == items[i] by {
        assert(f(i, items[i]) == Ok::<Seq<char>, error::Fault>(done[i]));
    }
    assert(done == items);
}

/// No part of an init step holds a dollar sign.
pub open spec fn is_plain_step(step: args::StepView) -> bool {
    match step {
        args::StepView::Exec(argv) => forall|i: int|
            0 <= i < argv.len() ==> !(#[trigger] argv[i]).contains('$'),
        args::StepView::Cp(host, dest) => !host.contains('$') && !dest.contains('$'),
    }
}

/// The value, if there is one, holds no dollar sign.
pub open spec fn is_plain_slot(slot: Option<Seq<char>>) -> bool {
    slot matches Some(v) ==> !v.contains('$')
}

/// No element holds a dollar sign.
pub open spec fn is_plain_list(items: Seq<Seq<char>>) -> bool {
    forall|i: int| 0 <= i < items.len() ==> !(#[trigger] items[i]).contains('$')
}

/// No value of the policy, but for those of `[env]`, holds a dollar sign.
pub open spec fn is_plain(c: config::ConfigView) -> bool {
    &&& is_plain_slot(c.network)
    &&& is_plain_slot(c.image)
    &&& is_plain_slot(c.cgroupns)
    &&& is_plain_slot(c.ipc)
    &&& is_plain_slot(c.pid)
    &&& is_plain_slot(c.userns)
    &&& is_plain_slot(c.user)
    &&& is_plain_slot(c.workdir)
    &&& is_plain_list(c.ulimits)
    &&& is_plain_list(c.entry)
    &&& is_plain_list(c.extra_hosts)
    &&& is_plain_list(c.security_opts)
    &&& is_plain_list(c.mounts)
    &&& c.init matches Some(steps) ==> forall|i: int|
        0 <= i < steps.len() ==> is_plain_step(#[trigger] steps[i])
}

proof fn lemma_plain_slot(
    slot: Option<Seq<char>>,
    field: Seq<char>,
    vars: Map<Seq<char>, Seq<char>>,
)
    requires
        is_plain_slot(slot),
    ensures
        slot_expansion(slot, field, vars) == Ok::<Option<Seq<char>>, error::Fault>(slot),
{
    if let Some(v) = slot {
        expand::law_plain_text_is_unchanged(v, vars, field);
    }
}

proof fn lemma_plain_steps(steps: Seq<args::StepView>, vars: Map<Seq<char>, Seq<char>>)
    requires
        forall|i: int| 0 <= i < steps.len() ==> is_plain_step(#[trigger] steps[i]),
    ensures
        results::collected(steps, step_expansion(vars)) == Ok::<
            Seq<args::StepView>,
            error::Fault,
        >(steps),
{
    let f = step_expansion(vars);
    assert forall|i: int| 0 <= i < steps.len() implies f(i, #[trigger] steps[i]) == Ok::<
        args::StepView,
        error::Fault,
    >(steps[i]) by {
        let place = element_place("init"@, i);
        match steps[i] {
            args::StepView::Exec(argv) => {
                law_plain_list_is_unchanged(argv, place, vars);
            },
            args::StepView::Cp(host, dest) => {
                expand::law_plain_text_is_unchanged(host, vars, place + ".0"@);
                expand::law_plain_text_is_unchanged(dest, vars, place + ".1"@);
            },
        }
    }
    results::lemma_collected_ok(steps, f);
    results::lemma_collected_items(steps, f);
    let done = results::collected(steps, f)->Ok_0;
    assert forall|i: int| 0 <= i < steps.len() implies #[trigger] done[i] == steps[i] by {
        assert(f(i, steps[i]) == Ok::<args::StepView, error::Fault>(done[i]));
    }
    assert(done == steps);
}

/// A policy whose values hold no dollar sign is its own expansion, under
/// any variables.
pub proof fn law_plain_policy_is_unchanged(
    c: config::ConfigView,
    vars: Map<Seq<char>, Seq<char>>,
)
    requires
        is_plain(c),
    ensures
        values_expanded(c, vars) == Ok::<config::ConfigView, error::Fault>(c),
{
    lemma_plain_slot(c.network, "network"@, vars);
    lemma_plain_slot(c.image, "image"@, vars);
    lemma_plain_slot(c.cgroupns, "cgroupns"@, vars);
    lemma_plain_slot(c.ipc, "ipc"@, vars);
    lemma_plain_slot(c.pid, "pid"@, vars);
    lemma_plain_slot(c.userns, "userns"@, vars);
    lemma_plain_slot(c.user, "user"@, vars);
    lemma_plain_slot(c.workdir, "workdir"@, vars);
    law_plain_list_is_unchanged(c.ulimits, "ulimits"@, vars);
    law_plain_list_is_unchanged(c.entry, "entry"@, vars);
    law_plain_list_is_unchanged(c.extra_hosts, "extra_hosts"@, vars);
    law_plain_list_is_unchanged(c.security_opts, "security_opts"@, vars);
    law_plain_list_is_unchanged(c.mounts, "mounts"@, vars);
    if let Some(steps) = c.init {
        lemma_plain_steps(steps, vars);
    }
}

} // verus!
