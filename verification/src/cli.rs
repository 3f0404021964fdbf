//! The command line: its grammar and a parser for it.
//!
//! ```text
//! neo add <url>
//! neo pop [index] [--open]
//! neo delete <url>
//! neo size
//! neo frontier start|switch|delete <name>
//! neo frontier rename <name> <new_name>
//! neo frontier list
//! neo directory
//! ```
//!
//! A word of two or more characters that starts with `-` is an option;
//! the only option is `--open`, after `pop`, and it may be given once. A
//! lone `--` makes every later word an argument. An index is a decimal
//! number, optionally preceded by `+`, that fits in a `usize`.

use vstd::prelude::*;
use crate::error::{ErrorKind, NeoError};
use crate::lines::views;
use crate::text::{chars_of, str_eq};

verus! {

/// The commands of the program.
#[derive(Debug, PartialEq, Eq)]
pub enum Cli {
    Add(AddArgs),
    Pop(PopArgs),
    Delete(DeleteArgs),
    Size,
    Frontier(FrontierArgs),
    Directory,
}

#[derive(Debug, PartialEq, Eq)]
pub struct AddArgs {
    pub url: String,
}

#[derive(Debug, PartialEq, Eq)]
pub struct PopArgs {
    pub index: Option<usize>,
    pub open: bool,
}

#[derive(Debug, PartialEq, Eq)]
pub struct DeleteArgs {
    pub url: String,
}

#[derive(Debug, PartialEq, Eq)]
pub struct FrontierArgs {
    pub command: FrontierCommand,
}

/// The commands on frontiers.
#[derive(Debug, PartialEq, Eq)]
pub enum FrontierCommand {
    Start(NameArgs),
    Switch(NameArgs),
    Rename(RenameArgs),
    List,
    Delete(NameArgs),
}

#[derive(Debug, PartialEq, Eq)]
pub struct NameArgs {
    pub name: String,
}

#[derive(Debug, PartialEq, Eq)]
pub struct RenameArgs {
    pub name: String,
    pub new_name: String,
}

/// A command over character sequences.
pub enum CliView {
    Add(Seq<char>),
    Pop(Option<usize>, bool),
    Delete(Seq<char>),
    Size,
    FrontierStart(Seq<char>),
    FrontierSwitch(Seq<char>),
    FrontierRename(Seq<char>, Seq<char>),
    FrontierList,
    FrontierDelete(Seq<char>),
    Directory,
}

impl View for Cli {
    type V = CliView;

    open spec fn view(&self) -> CliView {
        match self {
            Cli::Add(a) => CliView::Add(a.url@),
            Cli::Pop(p) => CliView::Pop(p.index, p.open),
            Cli::Delete(d) => CliView::Delete(d.url@),
            Cli::Size => CliView::Size,
            Cli::Frontier(f) => match &f.command {
                FrontierCommand::Start(n) => CliView::FrontierStart(n.name@),
                FrontierCommand::Switch(n) => CliView::FrontierSwitch(n.name@),
                FrontierCommand::Rename(r) => CliView::FrontierRename(r.name@, r.new_name@),
                FrontierCommand::List => CliView::FrontierList,
                FrontierCommand::Delete(n) => CliView::FrontierDelete(n.name@),
            },
            Cli::Directory => CliView::Directory,
        }
    }
}

// ---------------------------------------------------------------------------
// The grammar

/// An option word: two or more characters, starting with `-`.
pub open spec fn is_option(word: Seq<char>) -> bool {
    word.len() > 1 && word[0] == '-'
}

/// The arguments read so far, whether `--open` was seen, and whether a
/// `--` was seen; `None` once a word is refused.
pub type ScanState = Option<(Seq<Seq<char>>, bool, bool)>;

/// Reading one more word. After `--` every word is an argument; before
/// it, `--` itself switches to that mode, `--open` is taken once where
/// `open_allowed` (a second one is refused), any other option is refused,
/// and anything else is an argument.
pub open spec fn scan_word(state: ScanState, word: Seq<char>, open_allowed: bool) -> ScanState {
    match state {
        None => None,
        Some((args, open, raw)) => {
            if raw {
                Some((args.push(word), open, raw))
            } else if word == "--"@ {
                Some((args, open, true))
            } else if open_allowed && word == "--open"@ {
                if open {
                    None
                } else {
                    Some((args, true, raw))
                }
            } else if is_option(word) {
                None
            } else {
                Some((args.push(word), open, raw))
            }
        },
    }
}

/// Reading all of `words`.
pub open spec fn scan_words(words: Seq<Seq<char>>, open_allowed: bool) -> ScanState
    decreases words.len(),
{
    if words.len() == 0 {
        Some((Seq::empty(), false, false))
    } else {
        scan_word(scan_words(words.drop_last(), open_allowed), words.last(), open_allowed)
    }
}

/// Whether `c` is an ASCII decimal digit.
pub open spec fn is_digit(c: char) -> bool {
    '0' <= c && c <= '9'
}

/// The number written by the decimal digits `ds`.
pub open spec fn digits_value(ds: Seq<char>) -> nat
    decreases ds.len(),
{
    if ds.len() == 0 {
        0
    } else {
        digits_value(ds.drop_last()) * 10 + ((ds.last() as u32) - 48) as nat
    }
}

/// The digits of an index: the word without one leading `+`.
pub open spec fn index_digits(word: Seq<char>) -> Seq<char> {
    if word.len() > 0 && word[0] == '+' {
        word.drop_first()
    } else {
        word
    }
}

/// Whether every character is a decimal digit.
pub open spec fn all_digits(ds: Seq<char>) -> bool {
    forall|i: int| 0 <= i < ds.len() ==> is_digit(#[trigger] ds[i])
}

/// An index as `usize::from_str` reads it: an optional `+`, then one or
/// more decimal digits, of a value that fits.
pub open spec fn index_value(word: Seq<char>) -> Option<usize> {
    let ds = index_digits(word);
    if ds.len() > 0 && all_digits(ds) && digits_value(ds) <= usize::MAX {
        Some(digits_value(ds) as usize)
    } else {
        None
    }
}

/// The arguments of a command that takes no option, if there are exactly `n`.
pub open spec fn exact_args(words: Seq<Seq<char>>, n: nat) -> Option<Seq<Seq<char>>> {
    match scan_words(words, false) {
        Some((args, _, _)) => if args.len() == n { Some(args) } else { None },
        None => None,
    }
}

/// The `pop` command from the words after it.
pub open spec fn pop_command(words: Seq<Seq<char>>) -> Option<CliView> {
    match scan_words(words, true) {
        Some((args, open, _)) => if args.len() == 0 {
            Some(CliView::Pop(None, open))
        } else if args.len() == 1 {
            match index_value(args[0]) {
                Some(i) => Some(CliView::Pop(Some(i), open)),
                None => None,
            }
        } else {
            None
        },
        None => None,
    }
}

/// A frontier command from the words after `frontier`.
pub open spec fn frontier_command(words: Seq<Seq<char>>) -> Option<CliView> {
    if words.len() == 0 {
        None
    } else {
        let sub = words[0];
        let rest = words.skip(1);
        if sub == "start"@ {
            match exact_args(rest, 1) {
                Some(a) => Some(CliView::FrontierStart(a[0])),
                None => None,
            }
        } else if sub == "switch"@ {
            match exact_args(rest, 1) {
                Some(a) => Some(CliView::FrontierSwitch(a[0])),
                None => None,
            }
        } else if sub == "rename"@ {
            match exact_args(rest, 2) {
                Some(a) => Some(CliView::FrontierRename(a[0], a[1])),
                None => None,
            }
        } else if sub == "list"@ {
            match exact_args(rest, 0) {
                Some(a) => Some(CliView::FrontierList),
                None => None,
            }
        } else if sub == "delete"@ {
            match exact_args(rest, 1) {
                Some(a) => Some(CliView::FrontierDelete(a[0])),
                None => None,
            }
        } else {
            None
        }
    }
}

/// The command that the words of a command line (the program's name left
/// out) give, or `None` if the grammar refuses them.
pub open spec fn parse_command(words: Seq<Seq<char>>) -> Option<CliView> {
    if words.len() == 0 {
        None
    } else {
        let cmd = words[0];
        let rest = words.skip(1);
        if cmd == "add"@ {
            match exact_args(rest, 1) {
                Some(a) => Some(CliView::Add(a[0])),
                None => None,
            }
        } else if cmd == "pop"@ {
            pop_command(rest)
        } else if cmd == "delete"@ {
            match exact_args(rest, 1) {
                Some(a) => Some(CliView::Delete(a[0])),
                None => None,
            }
        } else if cmd == "size"@ {
            match exact_args(rest, 0) {
                Some(a) => Some(CliView::Size),
                None => None,
            }
        } else if cmd == "frontier"@ {
            frontier_command(rest)
        } else if cmd == "directory"@ {
            match exact_args(rest, 0) {
                Some(a) => Some(CliView::Directory),
                None => None,
            }
        } else {
            None
        }
    }
}

/// The text of the error for a command line the grammar refuses.
pub open spec fn usage_text() -> Seq<char> {
    "invalid command line; usage: neo add <url> | pop [index] [--open] | delete <url> | size | frontier start|switch|delete <name> | frontier rename <name> <new_name> | frontier list | directory"@
}

} // verus!

verus! {

proof fn lemma_scan_refused_stays(words: Seq<Seq<char>>, k: int, open_allowed: bool)
    requires
        0 <= k <= words.len(),
        scan_words(words.take(k), open_allowed) is None,
    ensures
        scan_words(words, open_allowed) is None,
    decreases words.len() - k,
{
    if k == words.len() {
        assert(words.take(k) =~= words);
    } else {
        assert(words.drop_last().take(k) =~= words.take(k));
        lemma_scan_refused_stays(words.drop_last(), k, open_allowed);
    }
}

/// Reads the words of `args` from position `start` on: the arguments and
/// whether `--open` was seen, or `None` if a word is refused.
fn scan(args: &Vec<String>, start: usize, open_allowed: bool) -> (r: Option<(Vec<String>, bool)>)
    requires
        start <= args.len(),
    ensures
        scan_words(views(args@).skip(start as int), open_allowed) is None ==> r is None,
        scan_words(views(args@).skip(start as int), open_allowed) matches Some(st) ==> (r matches Some(
            res,
        ) && views(res.0@) == st.0 && res.1 == st.1),
{
    let ghost words = views(args@).skip(start as int);
    let mut found: Vec<String> = Vec::new();
    let mut open = false;
    let mut raw = false;
    let mut i: usize = start;
    assert(words.take(0) =~= Seq::<Seq<char>>::empty());
    assert(views(found@) =~= Seq::<Seq<char>>::empty());
    while i < args.len()
        invariant
            start <= i <= args.len(),
            words == views(args@).skip(start as int),
            scan_words(words.take(i - start), open_allowed) == Some((views(found@), open, raw)),
        decreases args.len() - i,
    {
        proof {
            assert(words.take(i - start + 1).drop_last() =~= words.take(i - start));
            assert(words.take(i - start + 1).last() == args@[i as int]@);
        }
        let word = args[i].as_str();
        let wv = chars_of(word);
        if raw {
            found.push(args[i].clone());
        } else if str_eq(word, "--") {
            raw = true;
        } else if open_allowed && str_eq(word, "--open") {
            if open {
                proof {
                    lemma_scan_refused_stays(words, i - start + 1, open_allowed);
                }
                return None;
            }
            open = true;
        } else if wv.len() > 1 && wv[0] == '-' {
            proof {
                lemma_scan_refused_stays(words, i - start + 1, open_allowed);
            }
            return None;
        } else {
            found.push(args[i].clone());
        }
        i = i + 1;
        proof {
            assert(views(found@) =~= scan_words(words.take(i - start), open_allowed).unwrap().0);
        }
    }
    proof {
        assert(words.take(i - start) =~= words);
    }
    Some((found, open))
}

proof fn lemma_digits_value_grows(ds: Seq<char>, j: int)
    requires
        0 <= j <= ds.len(),
        forall|i: int| 0 <= i < ds.len() ==> is_digit(#[trigger] ds[i]),
    ensures
        digits_value(ds) >= digits_value(ds.take(j)),
    decreases ds.len() - j,
{
    if j == ds.len() {
        assert(ds.take(j) =~= ds);
    } else {
        assert(ds.drop_last().take(j) =~= ds.take(j));
        assert forall|i: int| 0 <= i < ds.drop_last().len() implies is_digit(#[trigger] ds.drop_last()[i]) by {
            assert(ds.drop_last()[i] == ds[i]);
        }
        lemma_digits_value_grows(ds.drop_last(), j);
        assert(is_digit(ds[ds.len() - 1]));
    }
}

/// Reads an index: an optional `+` and decimal digits that fit in a `usize`.
fn parse_index(word: &String) -> (r: Option<usize>)
    ensures
        r == index_value(word@),
{
    let v = chars_of(word.as_str());
    let first: usize = if v.len() > 0 && v[0] == '+' { 1 } else { 0 };
    let ghost ds = index_digits(word@);
    assert(ds =~= word@.skip(first as int));
    if v.len() == first {
        return None;
    }
    let mut value: usize = 0;
    let mut j: usize = first;
    assert(ds.take(0) =~= Seq::<char>::empty());
    while j < v.len()
        invariant
            v@ == word@,
            first <= j <= v.len(),
            ds == word@.skip(first as int),
            ds == index_digits(word@),
            forall|i: int| 0 <= i < j - first ==> is_digit(#[trigger] ds[i]),
            value as nat == digits_value(ds.take(j - first)),
        decreases v.len() - j,
    {
        let c = v[j];
        assert(ds[j - first] == c);
        if !('0' <= c && c <= '9') {
            assert(!is_digit(ds[j - first]));
            assert(!all_digits(ds));
            return None;
        }
        let d = (c as u32 - 48) as usize;
        assert(ds.take(j - first + 1).drop_last() =~= ds.take(j - first));
        if value > (usize::MAX - d) / 10 {
            proof {
                assert(digits_value(ds.take(j - first + 1)) > usize::MAX) by (nonlinear_arith)
                    requires
                        digits_value(ds.take(j - first + 1)) == value as nat * 10 + d as nat,
                        value > (usize::MAX - d) / 10,
                        d <= 9,
                ;
                if all_digits(ds) {
                    lemma_digits_value_grows(ds, j - first + 1);
                    assert(digits_value(ds) > usize::MAX);
                }
            }
            return None;
        }
        value = value * 10 + d;
        j = j + 1;
    }
    assert(ds.take(j - first) =~= ds);
    Some(value)
}

fn usage_error() -> (e: NeoError)
    ensures
        e@ == (ErrorKind::Usage, usage_text()),
{
    NeoError::Usage(
        String::from_str(
            "invalid command line; usage: neo add <url> | pop [index] [--open] | delete <url> | size | frontier start|switch|delete <name> | frontier rename <name> <new_name> | frontier list | directory",
        ),
    )
}

impl Cli {
    /// Parses the words of a command line, the program's name left out.
    pub fn parse(args: Vec<String>) -> (r: Result<Cli, NeoError>)
        ensures
            parse_command(views(args@)) matches Some(c) ==> (r matches Ok(cli) && cli@ == c),
            parse_command(views(args@)) is None ==> (r matches Err(e) && e@ == (
                ErrorKind::Usage,
                usage_text(),
            )),
    {
        if args.len() == 0 {
            return Err(usage_error());
        }
        let ghost words = views(args@);
        assert(words[0] == args@[0]@);
        let cmd = args[0].as_str();
        if str_eq(cmd, "add") {
            match scan(&args, 1, false) {
                Some((found, _)) => if found.len() == 1 {
                    return Ok(Cli::Add(AddArgs { url: found[0].clone() }));
                },
                None => {},
            }
            return Err(usage_error());
        } else if str_eq(cmd, "pop") {
            match scan(&args, 1, true) {
                Some((found, open)) => {
                    if found.len() == 0 {
                        return Ok(Cli::Pop(PopArgs { index: None, open }));
                    } else if found.len() == 1 {
                        match parse_index(&found[0]) {
                            Some(i) => {
                                return Ok(Cli::Pop(PopArgs { index: Some(i), open }));
                            },
                            None => {},
                        }
                    }
                },
                None => {},
            }
            return Err(usage_error());
        } else if str_eq(cmd, "delete") {
            match scan(&args, 1, false) {
                Some((found, _)) => if found.len() == 1 {
                    return Ok(Cli::Delete(DeleteArgs { url: found[0].clone() }));
                },
                None => {},
            }
            return Err(usage_error());
        } else if str_eq(cmd, "size") {
            match scan(&args, 1, false) {
                Some((found, _)) => if found.len() == 0 {
                    return Ok(Cli::Size);
                },
                None => {},
            }
            return Err(usage_error());
        } else if str_eq(cmd, "frontier") {
            return Self::parse_frontier(&args);
        } else if str_eq(cmd, "directory") {
            match scan(&args, 1, false) {
                Some((found, _)) => if found.len() == 0 {
                    return Ok(Cli::Directory);
                },
                None => {},
            }
            return Err(usage_error());
        }
        Err(usage_error())
    }

    fn parse_frontier(args: &Vec<String>) -> (r: Result<Cli, NeoError>)
        requires
            args.len() > 0,
        ensures
            frontier_command(views(args@).skip(1)) matches Some(c) ==> (r matches Ok(cli) && cli@ == c),
            frontier_command(views(args@).skip(1)) is None ==> (r matches Err(e) && e@ == (
                ErrorKind::Usage,
                usage_text(),
            )),
    {
        if args.len() < 2 {
            return Err(usage_error());
        }
        let ghost rest = views(args@).skip(1);
        assert(rest[0] == args@[1]@);
        assert(rest.skip(1) =~= views(args@).skip(2));
        let sub = args[1].as_str();
        if str_eq(sub, "start") {
            match Self::single_name(args) {
                Some(name) => Ok(Cli::Frontier(FrontierArgs { command: FrontierCommand::Start(name) })),
                None => Err(usage_error()),
            }
        } else if str_eq(sub, "switch") {
            match Self::single_name(args) {
                Some(name) => Ok(Cli::Frontier(FrontierArgs { command: FrontierCommand::Switch(name) })),
                None => Err(usage_error()),
            }
        } else if str_eq(sub, "rename") {
            match scan(args, 2, false) {
                Some((found, _)) => if found.len() == 2 {
                    return Ok(
                        Cli::Frontier(
                            FrontierArgs {
                                command: FrontierCommand::Rename(
                                    RenameArgs { name: found[0].clone(), new_name: found[1].clone() },
                                ),
                            },
                        ),
                    );
                },
                None => {},
            }
            Err(usage_error())
        } else if str_eq(sub, "list") {
            match scan(args, 2, false) {
                Some((found, _)) => if found.len() == 0 {
                    return Ok(Cli::Frontier(FrontierArgs { command: FrontierCommand::List }));
                },
                None => {},
            }
            Err(usage_error())
        } else if str_eq(sub, "delete") {
            match Self::single_name(args) {
                Some(name) => Ok(Cli::Frontier(FrontierArgs { command: FrontierCommand::Delete(name) })),
                None => Err(usage_error()),
            }
        } else {
            Err(usage_error())
        }
    }

    /// The one argument after `frontier <command>`, if there is exactly one.
    fn single_name(args: &Vec<String>) -> (r: Option<NameArgs>)
        requires
            args.len() >= 2,
        ensures
            exact_args(views(args@).skip(2), 1) matches Some(a) ==> (r matches Some(n) && n.name@ == a[0]),
            exact_args(views(args@).skip(2), 1) is None ==> r is None,
    {
        match scan(args, 2, false) {
            Some((found, _)) => if found.len() == 1 {
                return Some(NameArgs { name: found[0].clone() });
            },
            None => {},
        }
        None
    }
}


/// Every word of one or more decimal digits whose value fits in a `usize`,
/// zero included, is an index of that value, with or without one leading
/// `+`; and `pop` followed by such a word is a pop at that index.
pub proof fn lemma_digit_words_are_indexes(ds: Seq<char>)
    requires
        ds.len() > 0,
        all_digits(ds),
        digits_value(ds) <= usize::MAX,
    ensures
        index_value(ds) == Some(digits_value(ds) as usize),
        index_value(seq!['+'] + ds) == Some(digits_value(ds) as usize),
        parse_command(seq!["pop"@, ds]) == Some(CliView::Pop(Some(digits_value(ds) as usize), false)),
        parse_command(seq!["pop"@, seq!['+'] + ds]) == Some(
            CliView::Pop(Some(digits_value(ds) as usize), false),
        ),
{
    reveal_strlit("pop");
    reveal_strlit("--");
    reveal_strlit("--open");
    assert(is_digit(ds[0]));
    assert(index_digits(ds) == ds);
    assert((seq!['+'] + ds).drop_first() =~= ds);
    assert(index_digits(seq!['+'] + ds) == ds);
    lemma_scan_one_argument(ds);
    lemma_scan_one_argument(seq!['+'] + ds);
    reveal_strlit("add");
    assert("add"@ != "pop"@) by {
        assert("add"@[0] != "pop"@[0]);
    }
    let words = seq!["pop"@, ds];
    assert(words[0] == "pop"@);
    assert(words.skip(1) =~= seq![ds]);
    assert(pop_command(seq![ds]) == Some(CliView::Pop(Some(digits_value(ds) as usize), false)));
    let words2 = seq!["pop"@, seq!['+'] + ds];
    assert(words2[0] == "pop"@);
    assert(words2.skip(1) =~= seq![seq!['+'] + ds]);
    assert(pop_command(seq![seq!['+'] + ds]) == Some(CliView::Pop(Some(digits_value(ds) as usize), false)));
}

/// A word that is neither an option nor `--` is read as one argument.
proof fn lemma_scan_one_argument(w: Seq<char>)
    requires
        w.len() > 0,
        w[0] != '-',
    ensures
        scan_words(seq![w], true) == Some((seq![w], false, false)),
{
    reveal_strlit("--");
    reveal_strlit("--open");
    let words = seq![w];
    assert(words.drop_last() =~= Seq::<Seq<char>>::empty());
    assert(words.last() == w);
    assert(scan_words(words.drop_last(), true) == Some((Seq::<Seq<char>>::empty(), false, false)));
    assert("--"@[0] == '-');
    assert("--open"@[0] == '-');
    assert(w != "--"@);
    assert(w != "--open"@);
    assert(!is_option(w));
    assert(Seq::<Seq<char>>::empty().push(w) =~= seq![w]);
}

} // verus!
