//! The command prompt: its mode, its table of commands, and how a typed
//! command is checked before it runs.
use vstd::prelude::*;
use crate::db::csv::{lowercased, push_all, to_lowercase};
use crate::db::types::DbType;
use crate::http::{char_is_whitespace, is_white_space};
use crate::text::{chars_of, decimal_value, digits_len, lemma_digits_prefix, rest_is, string_from_chars};

verus! {

/// The mode of the prompt: no table open, or a table open.
#[derive(Copy, Clone, Debug, PartialEq, Eq, Structural)]
pub enum Mode {
    TopLevel,
    TableOpen,
}

/// The mode of a prompt with or without an open table.
pub fn get_mode(has_open_table: bool) -> (m: Mode)
    ensures
        m == (if has_open_table {
            Mode::TableOpen
        } else {
            Mode::TopLevel
        }),
{
    if has_open_table {
        Mode::TableOpen
    } else {
        Mode::TopLevel
    }
}

/// A command of the prompt: the names it answers to (the last one is shown
/// in its usage), what it does, its arguments, and the mode it is
/// available in (all modes when none).
pub struct Command {
    pub names: Vec<&'static str>,
    pub description: &'static str,
    pub args: Vec<&'static str>,
    pub mode: Option<Mode>,
}

impl Command {
    /// The command can be used in mode `m`: it belongs to no mode, or to `m`.
    pub fn is_available(&self, m: Mode) -> (b: bool)
        ensures
            b == (self.mode is None || self.mode == Some(m)),
    {
        match self.mode {
            None => true,
            Some(x) => x == m,
        }
    }
}

fn command(
    names: Vec<&'static str>,
    description: &'static str,
    args: Vec<&'static str>,
    mode: Option<Mode>,
) -> (c: Command)
    ensures
        c.names == names,
        c.description == description,
        c.args == args,
        c.mode == mode,
{
    Command { names, description, args, mode }
}

/// The number of arguments each command of [`command_table`] takes.
pub open spec fn table_arg_counts() -> Seq<nat> {
    seq![0, 0, 0, 0, 1, 1, 2, 2, 1, 2, 2, 0, 0, 0, 1, 2, 0]
}

/// The mode each command of [`command_table`] is available in.
pub open spec fn table_modes() -> Seq<Option<Mode>> {
    let t = Some(Mode::TopLevel);
    let o = Some(Mode::TableOpen);
    seq![None, None, None, t, t, t, t, t, t, t, t, o, o, o, o, o, o]
}

/// The names each command of [`command_table`] answers to.
pub open spec fn table_names() -> Seq<Seq<&'static str>> {
    seq![
        seq!["help"],
        seq!["clear"],
        seq!["exit"],
        seq!["ls"],
        seq!["new"],
        seq!["rm"],
        seq!["mv"],
        seq!["cp"],
        seq!["o", "open"],
        seq!["load"],
        seq!["save"],
        seq!["c", "close"],
        seq!["p", "print"],
        seq!["ar", "add-row"],
        seq!["ars", "add-rows"],
        seq!["ac", "add-col"],
        seq!["s", "select"],
    ]
}

/// The commands of the prompt, in the order `help` lists them.
pub fn command_table() -> (cmds: Vec<Command>)
    ensures
        cmds@.len() == 17,
        forall|i: int| 0 <= i < 17 ==> #[trigger] cmds@[i].names@ == table_names()[i],
        forall|i: int| 0 <= i < 17 ==> #[trigger] cmds@[i].args@.len() == table_arg_counts()[i],
        forall|i: int| 0 <= i < 17 ==> #[trigger] cmds@[i].mode == table_modes()[i],
{
    let t = Some(Mode::TopLevel);
    let o = Some(Mode::TableOpen);
    let cmds = vec![
        command(vec!["help"], "show help menu", vec![], None),
        command(vec!["clear"], "clear the screen", vec![], None),
        command(vec!["exit"], "exit table / application", vec![], None),
        command(vec!["ls"], "list tables", vec![], t),
        command(vec!["new"], "create a new table", vec!["TABLE"], t),
        command(vec!["rm"], "delete a table", vec!["TABLE"], t),
        command(vec!["mv"], "rename a table", vec!["SRC", "DST"], t),
        command(vec!["cp"], "copy a table", vec!["SRC", "DST"], t),
        command(vec!["o", "open"], "open or create a table", vec!["TABLE"], t),
        command(vec!["load"], "load table from a csv file", vec!["FILE", "TABLE"], t),
        command(vec!["save"], "save table to a csv file", vec!["TABLE", "FILE"], t),
        command(vec!["c", "close"], "close current table", vec![], o),
        command(vec!["p", "print"], "print the entire table", vec![], o),
        command(vec!["ar", "add-row"], "add one row", vec![], o),
        command(vec!["ars", "add-rows"], "add multiple rows", vec!["COUNT"], o),
        command(vec!["ac", "add-col"], "create a new column", vec!["NAME", "TYPE"], o),
        command(vec!["s", "select"], "execute a select query", vec![], o),
    ];
    assert(table_arg_counts().len() == 17 && table_modes().len() == 17 && table_names().len() == 17);
    cmds
}

/// The two strings hold the same characters.
fn same_text(a: &str, b: &str) -> (r: bool)
    ensures
        r == (a@ == b@),
{
    let x = chars_of(a);
    let y = chars_of(b);
    if x.len() != y.len() {
        assert(a@.len() != b@.len());
        return false;
    }
    let mut i: usize = 0;
    while i < x.len()
        invariant
            x.len() == y.len(),
            x@ == a@,
            y@ == b@,
            i <= x.len(),
            forall|j: int| 0 <= j < i ==> x@[j] == y@[j],
        decreases x.len() - i,
    {
        if x[i] != y[i] {
            assert(a@[i as int] != b@[i as int]);
            return false;
        }
        i = i + 1;
    }
    assert(x@ =~= y@);
    true
}

/// The command answers to `name`.
pub open spec fn answers_to(c: Command, name: Seq<char>) -> bool {
    exists|j: int| 0 <= j < c.names@.len() && (#[trigger] c.names@[j])@ == name
}

/// What the prompt does with a typed command.
#[derive(Copy, Clone, Debug, PartialEq, Eq, Structural)]
pub enum Dispatch {
    /// No command answers to the name.
    Unrecognized,
    /// The command is not available in this mode; it is in the one given.
    Unavailable(Mode),
    /// The command takes another number of arguments; its usage is shown.
    Usage(usize),
    /// The command at this index runs.
    Run(usize),
}

/// The first command that answers to `name`, if any.
pub open spec fn first_answering(cmds: Seq<Command>, name: Seq<char>) -> Option<int> {
    if exists|i: int| 0 <= i < cmds.len() && answers_to(#[trigger] cmds[i], name) {
        Some(
            choose|i: int|
                0 <= i < cmds.len() && answers_to(#[trigger] cmds[i], name) && forall|k: int|
                    0 <= k < i ==> !answers_to(#[trigger] cmds[k], name),
        )
    } else {
        None
    }
}

/// Looks up a typed command (its lower-cased name and its number of
/// arguments) in the prompt's mode: the first command answering to the
/// name runs when it is available in this mode and takes that many
/// arguments.
pub fn dispatch(cmds: &Vec<Command>, mode: Mode, name: &str, nargs: usize) -> (d: Dispatch)
    ensures
        d matches Dispatch::Unrecognized ==> forall|i: int|
            0 <= i < cmds@.len() ==> !answers_to(#[trigger] cmds@[i], name@),
        d matches Dispatch::Unavailable(m) ==> exists|i: int|
            0 <= i < cmds@.len() && first_is(cmds@, name@, i) && cmds@[i].mode == Some(m) && m
                != mode,
        d matches Dispatch::Usage(i) ==> first_is(cmds@, name@, i as int) && (cmds@[i as int].mode
            is None || cmds@[i as int].mode == Some(mode)) && cmds@[i as int].args@.len() != nargs,
        d matches Dispatch::Run(i) ==> first_is(cmds@, name@, i as int) && (cmds@[i as int].mode
            is None || cmds@[i as int].mode == Some(mode)) && cmds@[i as int].args@.len() == nargs,
{
    let mut i: usize = 0;
    while i < cmds.len()
        invariant
            i <= cmds@.len(),
            forall|k: int| 0 <= k < i ==> !answers_to(#[trigger] cmds@[k], name@),
        decreases cmds.len() - i,
    {
        let c = &cmds[i];
        let mut j: usize = 0;
        let mut found = false;
        while j < c.names.len()
            invariant
                j <= c.names@.len(),
                i < cmds@.len(),
                c == cmds@[i as int],
                found == exists|jj: int| 0 <= jj < j && (#[trigger] c.names@[jj])@ == name@,
            decreases c.names.len() - j,
        {
            if same_text(c.names[j], name) {
                found = true;
            }
            j = j + 1;
        }
        if found {
            assert(first_is(cmds@, name@, i as int));
            match c.mode {
                Some(m) => {
                    if m != mode {
                        return Dispatch::Unavailable(m);
                    }
                },
                None => {},
            }
            if c.args.len() != nargs {
                return Dispatch::Usage(i);
            }
            return Dispatch::Run(i);
        }
        i = i + 1;
    }
    Dispatch::Unrecognized
}

/// Command `i` is the first that answers to `name`.
pub open spec fn first_is(cmds: Seq<Command>, name: Seq<char>, i: int) -> bool {
    &&& 0 <= i < cmds.len()
    &&& answers_to(cmds[i], name)
    &&& forall|k: int| 0 <= k < i ==> !answers_to(#[trigger] cmds[k], name)
}

/// The arguments of a usage line: each in square brackets, separated by
/// single spaces (empty when there are none).
pub open spec fn bracketed(args: Seq<Seq<char>>) -> Seq<char>
    decreases args.len(),
{
    if args.len() == 0 {
        seq![]
    } else if args.len() == 1 {
        seq!['['] + args[0] + seq![']']
    } else {
        bracketed(args.drop_last()) + seq![' ', '['] + args.last() + seq![']']
    }
}

/// The texts of a command's arguments.
pub open spec fn arg_texts(c: Command) -> Seq<Seq<char>> {
    c.args@.map_values(|a: &'static str| a@)
}

/// The arguments part of a command's usage line, such as `[table] [n]`.
pub fn usage_args(cmd: &Command) -> (s: String)
    ensures
        s@ == bracketed(arg_texts(*cmd)),
{
    let ghost args = arg_texts(*cmd);
    let mut out: Vec<char> = Vec::new();
    let mut i: usize = 0;
    while i < cmd.args.len()
        invariant
            i <= cmd.args@.len(),
            args == arg_texts(*cmd),
            out@ == bracketed(args.take(i as int)),
        decreases cmd.args.len() - i,
    {
        let a = chars_of(cmd.args[i]);
        if i > 0 {
            out.push(' ');
        }
        out.push('[');
        push_all(&mut out, &a);
        out.push(']');
        proof {
            let t = args.take(i + 1);
            assert(t.drop_last() =~= args.take(i as int));
            assert(t.last() == a@);
            if i == 0 {
                assert(t =~= seq![a@]);
            }
        }
        i = i + 1;
    }
    assert(args.take(i as int) =~= args);
    string_from_chars(out)
}

/// The column type a type word names: `s`, `str`, `string`; `i`, `int`,
/// `integer`; `b`, `bool`, `boolean`; `d`, `double`.
pub open spec fn type_of_word(w: Seq<char>) -> Option<DbType> {
    if w == seq!['s'] || w == seq!['s', 't', 'r'] || w == seq!['s', 't', 'r', 'i', 'n', 'g'] {
        Some(DbType::String)
    } else if w == seq!['i'] || w == seq!['i', 'n', 't'] || w == seq!['i', 'n', 't', 'e', 'g', 'e', 'r'] {
        Some(DbType::Integer)
    } else if w == seq!['b'] || w == seq!['b', 'o', 'o', 'l'] || w == seq![
        'b',
        'o',
        'o',
        'l',
        'e',
        'a',
        'n',
    ] {
        Some(DbType::Boolean)
    } else if w == seq!['d'] || w == seq!['d', 'o', 'u', 'b', 'l', 'e'] {
        Some(DbType::Double)
    } else {
        None
    }
}

/// The column type a word names, in any case (see [`type_of_word`]).
pub fn parse_db_type(word: &str) -> (r: Option<DbType>)
    ensures
        r == type_of_word(lowercased(word@)),
{
    let lower = to_lowercase(word);
    let w = chars_of(lower.as_str());
    proof {
        assert(w@.skip(0) == w@);
    }
    let s1 = ['s'];
    let s2 = ['s', 't', 'r'];
    let s3 = ['s', 't', 'r', 'i', 'n', 'g'];
    let i1 = ['i'];
    let i2 = ['i', 'n', 't'];
    let i3 = ['i', 'n', 't', 'e', 'g', 'e', 'r'];
    let b1 = ['b'];
    let b2 = ['b', 'o', 'o', 'l'];
    let b3 = ['b', 'o', 'o', 'l', 'e', 'a', 'n'];
    let d1 = ['d'];
    let d2 = ['d', 'o', 'u', 'b', 'l', 'e'];
    proof {
        assert(s1@ == seq!['s']);
        assert(s2@ == seq!['s', 't', 'r']);
        assert(s3@ == seq!['s', 't', 'r', 'i', 'n', 'g']);
        assert(i1@ == seq!['i']);
        assert(i2@ == seq!['i', 'n', 't']);
        assert(i3@ == seq!['i', 'n', 't', 'e', 'g', 'e', 'r']);
        assert(b1@ == seq!['b']);
        assert(b2@ == seq!['b', 'o', 'o', 'l']);
        assert(b3@ == seq!['b', 'o', 'o', 'l', 'e', 'a', 'n']);
        assert(d1@ == seq!['d']);
        assert(d2@ == seq!['d', 'o', 'u', 'b', 'l', 'e']);
    }
    if rest_is(&w, 0, &s1) || rest_is(&w, 0, &s2) || rest_is(&w, 0, &s3) {
        Some(DbType::String)
    } else if rest_is(&w, 0, &i1) || rest_is(&w, 0, &i2) || rest_is(&w, 0, &i3) {
        Some(DbType::Integer)
    } else if rest_is(&w, 0, &b1) || rest_is(&w, 0, &b2) || rest_is(&w, 0, &b3) {
        Some(DbType::Boolean)
    } else if rest_is(&w, 0, &d1) || rest_is(&w, 0, &d2) {
        Some(DbType::Double)
    } else {
        None
    }
}

/// The text of a `usize`: an optional `+`, then one or more ASCII digits
/// whose value fits.
pub open spec fn usize_text_value(t: Seq<char>) -> Option<nat> {
    let digits = if t.len() > 0 && t[0] == '+' {
        t.skip(1)
    } else {
        t
    };
    if digits.len() > 0 && digits_len(digits) == digits.len() && decimal_value(digits)
        <= usize::MAX {
        Some(decimal_value(digits))
    } else {
        None
    }
}

/// Reads a count of rows (see [`usize_text_value`]).
pub fn parse_count(s: &str) -> (r: Option<usize>)
    ensures
        r == match usize_text_value(s@) {
            Some(v) => Some(v as usize),
            None => None::<usize>,
        },
{
    let cs = chars_of(s);
    let start: usize = if cs.len() > 0 && cs[0] == '+' {
        1
    } else {
        0
    };
    let ghost t = cs@.skip(start as int);
    assert(t == if s@.len() > 0 && s@[0] == '+' {
        s@.skip(1)
    } else {
        s@
    });
    if start == cs.len() {
        return None;
    }
    let mut i = start;
    let mut value: usize = 0;
    while i < cs.len()
        invariant
            start <= i <= cs.len(),
            t == cs@.skip(start as int),
            cs@ == s@,
            t == if s@.len() > 0 && s@[0] == '+' {
                s@.skip(1)
            } else {
                s@
            },
            forall|j: int| 0 <= j < i - start ==> crate::text::is_digit(#[trigger] t[j]),
            value == decimal_value(t.take(i - start)),
        decreases cs.len() - i,
    {
        let c = cs[i];
        if !('0' <= c && c <= '9') {
            proof {
                assert(t[i - start] == c);
                lemma_not_all_digits(t, i - start);
            }
            return None;
        }
        let d = (c as usize) - ('0' as usize);
        proof {
            assert(t[i - start] == c);
            assert(t.take(i - start + 1).drop_last() == t.take(i - start));
        }
        if value > (usize::MAX - d) / 10 {
            proof {
                assert(decimal_value(t.take(i - start + 1)) == value * 10 + d);
                assert(value * 10 + d > usize::MAX) by (nonlinear_arith)
                    requires
                        value > (usize::MAX - d) / 10,
                        d <= 9,
                ;
                if digits_len(t) == t.len() {
                    lemma_digits_prefix(t, t.len() as int);
                    lemma_value_monotone(t, i - start + 1, t.len() as int);
                    assert(t.take(t.len() as int) == t);
                }
            }
            return None;
        }
        proof {
            assert(value * 10 + d <= usize::MAX) by (nonlinear_arith)
                requires
                    value <= (usize::MAX - d) / 10,
                    d <= 9,
            ;
        }
        value = value * 10 + d;
        i = i + 1;
    }
    proof {
        assert(t.take(t.len() as int) == t);
        lemma_all_digits(t);
    }
    Some(value)
}

proof fn lemma_not_all_digits(t: Seq<char>, k: int)
    requires
        0 <= k < t.len(),
        !crate::text::is_digit(t[k]),
    ensures
        digits_len(t) != t.len(),
    decreases k,
{
    if k > 0 && crate::text::is_digit(t[0]) {
        assert(t.drop_first()[k - 1] == t[k]);
        lemma_not_all_digits(t.drop_first(), k - 1);
        crate::text::lemma_digits_len_bound(t.drop_first());
    }
}

proof fn lemma_all_digits(t: Seq<char>)
    requires
        forall|j: int| 0 <= j < t.len() ==> crate::text::is_digit(#[trigger] t[j]),
    ensures
        digits_len(t) == t.len(),
    decreases t.len(),
{
    if t.len() > 0 {
        assert forall|j: int| 0 <= j < t.drop_first().len() implies crate::text::is_digit(
            #[trigger] t.drop_first()[j],
        ) by {
            assert(t.drop_first()[j] == t[j + 1]);
        }
        lemma_all_digits(t.drop_first());
    }
}

proof fn lemma_value_monotone(t: Seq<char>, k: int, m: int)
    requires
        0 <= k <= m <= t.len(),
        forall|j: int| 0 <= j < m ==> crate::text::is_digit(#[trigger] t[j]),
    ensures
        decimal_value(t.take(m)) >= decimal_value(t.take(k)),
    decreases m - k,
{
    if k < m {
        lemma_value_monotone(t, k, m - 1);
        assert(t.take(m).drop_last() == t.take(m - 1));
        let a = decimal_value(t.take(m - 1));
        assert(a * 10 >= a) by (nonlinear_arith);
    }
}

/// The words of `s`: its longest runs of characters that are not white
/// space, in order.
pub open spec fn words(s: Seq<char>) -> Seq<Seq<char>>
    decreases s.len(),
{
    if s.len() == 0 {
        seq![]
    } else {
        let w = words(s.drop_last());
        if is_white_space(s.last()) {
            w
        } else if s.len() >= 2 && !is_white_space(s[s.len() - 2]) {
            w.update(w.len() - 1, w.last().push(s.last()))
        } else {
            w.push(seq![s.last()])
        }
    }
}

/// A character in ASCII lower case: `A` to `Z` become `a` to `z`.
pub open spec fn ascii_lower_char(c: char) -> char {
    if 'A' <= c && c <= 'Z' {
        ((c as u8) + 32) as char
    } else {
        c
    }
}

/// A text in ASCII lower case.
pub open spec fn ascii_lower(s: Seq<char>) -> Seq<char> {
    s.map_values(|c: char| ascii_lower_char(c))
}

/// The words of a line of characters (see [`words`]).
fn split_words(cs: &Vec<char>) -> (ws: Vec<Vec<char>>)
    ensures
        ws@.map_values(|w: Vec<char>| w@) == words(cs@),
{
    let mut done: Vec<Vec<char>> = Vec::new();
    let mut cur: Vec<char> = Vec::new();
    let mut in_word = false;
    let mut i: usize = 0;
    while i < cs.len()
        invariant
            i <= cs@.len(),
            words(cs@.take(i as int)) == if in_word {
                done@.map_values(|w: Vec<char>| w@).push(cur@)
            } else {
                done@.map_values(|w: Vec<char>| w@)
            },
            in_word ==> i > 0 && !is_white_space(cs@[i - 1]),
            !in_word ==> i == 0 || is_white_space(cs@[i - 1]),
        decreases cs.len() - i,
    {
        let c = cs[i];
        let ghost before = done@.map_values(|w: Vec<char>| w@);
        proof {
            assert(cs@.take(i + 1).drop_last() =~= cs@.take(i as int));
            assert(cs@.take(i + 1).last() == c);
            if i > 0 {
                assert(cs@.take(i + 1)[i - 1] == cs@[i - 1]);
            }
        }
        if char_is_whitespace(c) {
            if in_word {
                let w = cur;
                done.push(w);
                cur = Vec::new();
                in_word = false;
                assert(done@.map_values(|w: Vec<char>| w@) =~= before.push(w@));
            }
        } else {
            if in_word {
                let ghost old_cur = cur@;
                cur.push(c);
                assert(before.push(cur@) =~= before.push(old_cur).update(
                    before.len() as int,
                    old_cur.push(c),
                ));
            } else {
                cur = Vec::new();
                cur.push(c);
                in_word = true;
                assert(cur@ =~= seq![c]);
            }
        }
        i = i + 1;
    }
    assert(cs@.take(i as int) =~= cs@);
    if in_word {
        let ghost before = done@.map_values(|w: Vec<char>| w@);
        done.push(cur);
        assert(done@.map_values(|w: Vec<char>| w@) =~= before.push(cur@));
    }
    done
}

/// A string of the characters of `v`.
fn copy_to_string(v: &Vec<char>) -> (s: String)
    ensures
        s@ == v@,
{
    let mut w: Vec<char> = Vec::new();
    let mut i: usize = 0;
    while i < v.len()
        invariant
            i <= v@.len(),
            w@ == v@.take(i as int),
        decreases v.len() - i,
    {
        w.push(v[i]);
        i = i + 1;
        assert(w@ =~= v@.take(i as int));
    }
    assert(v@.take(i as int) =~= v@);
    string_from_chars(w)
}

/// What a line read at the prompt asks for.
#[derive(Debug, PartialEq, Eq)]
pub enum LineStep {
    /// The input ended with a table open: close it.
    CloseTable,
    /// The input ended with no table open: leave the prompt.
    Quit,
    /// A blank line: nothing to do.
    Skip,
    /// A command: its name, the first word in ASCII lower case, and its
    /// arguments, the other words.
    Command(String, Vec<String>),
}

/// Reads one line typed at the prompt: an empty read (the input ended)
/// closes the open table or leaves, a blank line is skipped, and else the
/// first word names the command and the others are its arguments.
pub fn read_line_step(input: &str, has_open_table: bool) -> (r: LineStep)
    ensures
        input@.len() == 0 ==> r == (if has_open_table {
            LineStep::CloseTable
        } else {
            LineStep::Quit
        }),
        input@.len() > 0 && words(input@).len() == 0 ==> r == LineStep::Skip,
        words(input@).len() > 0 ==> (r matches LineStep::Command(name, args) && name@ == ascii_lower(
            words(input@)[0],
        ) && args@.map_values(|a: String| a@) == words(input@).drop_first()),
{
    let cs = chars_of(input);
    if cs.len() == 0 {
        return if has_open_table {
            LineStep::CloseTable
        } else {
            LineStep::Quit
        };
    }
    let ws = split_words(&cs);
    let ghost wv = words(input@);
    if ws.len() == 0 {
        return LineStep::Skip;
    }
    proof {
        assert(ws@[0]@ == wv[0]);
    }
    let first = &ws[0];
    let mut lower: Vec<char> = Vec::new();
    let mut k: usize = 0;
    while k < first.len()
        invariant
            k <= first@.len(),
            first@ == wv[0],
            lower@ == ascii_lower(first@.take(k as int)),
        decreases first.len() - k,
    {
        let c = first[k];
        let l = if 'A' <= c && c <= 'Z' {
            ((c as u8) + 32) as char
        } else {
            c
        };
        lower.push(l);
        k = k + 1;
        assert(lower@ =~= ascii_lower(first@.take(k as int)));
    }
    assert(first@.take(k as int) =~= first@);
    let name = string_from_chars(lower);
    let mut args: Vec<String> = Vec::new();
    let mut j: usize = 1;
    while j < ws.len()
        invariant
            1 <= j <= ws@.len(),
            ws@.map_values(|w: Vec<char>| w@) == wv,
            args@.map_values(|a: String| a@) == wv.subrange(1, j as int),
        decreases ws.len() - j,
    {
        let a = copy_to_string(&ws[j]);
        let ghost before = args@.map_values(|a: String| a@);
        proof {
            assert(ws@[j as int]@ == wv[j as int]);
            assert(wv.subrange(1, j + 1) =~= wv.subrange(1, j as int).push(wv[j as int]));
        }
        args.push(a);
        assert(args@.map_values(|a: String| a@) =~= before.push(a@));
        j = j + 1;
    }
    assert(wv.subrange(1, j as int) =~= wv.drop_first());
    LineStep::Command(name, args)
}

} // verus!
