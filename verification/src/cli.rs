//! The command line: what a run is asked to do.

use vstd::prelude::*;
use crate::text::{chars_of, extend_chars, string_of};

verus! {

/// What a run is asked to do.
#[derive(Debug, PartialEq, Eq)]
pub enum Command {
    /// Write the default configuration.
    Init,
    /// Write the document for `output`, with `description` as its
    /// description.
    Generate { output: String, description: String },
}

/// What a command stands for: nothing for `Init`, and the output path and
/// the description for `Generate`.
pub type CommandView = Option<(Seq<char>, Seq<char>)>;

impl View for Command {
    type V = CommandView;

    open spec fn view(&self) -> CommandView {
        match self {
            Command::Init => None,
            Command::Generate { output, description } => Some((output@, description@)),
        }
    }
}

/// The strings that `v` holds, as sequences of characters.
pub open spec fn texts(v: Seq<String>) -> Seq<Seq<char>> {
    Seq::new(v.len(), |i: int| v[i]@)
}

/// The words `ws`, with one space between each two neighbours.
pub open spec fn join_words(ws: Seq<Seq<char>>) -> Seq<char>
    decreases ws.len(),
{
    if ws.len() == 0 {
        Seq::empty()
    } else if ws.len() == 1 {
        ws[0]
    } else {
        join_words(ws.drop_last()) + seq![' '] + ws.last()
    }
}

/// Whether `word` asks for the default configuration.
pub open spec fn is_init_flag(word: Seq<char>) -> bool {
    word == "--init"@ || word == "-i"@
}

/// The command that the arguments `args` ask for, the program's name being
/// the first of them; none where nothing follows the name.
pub open spec fn command_of(args: Seq<Seq<char>>) -> Option<CommandView> {
    if args.len() < 2 {
        None
    } else if is_init_flag(args[1]) {
        Some(None)
    } else {
        Some(Some((args[1], join_words(args.skip(2)))))
    }
}

/// The words of `words` from `from` on, with one space between each two
/// neighbours.
pub fn describe(words: &Vec<String>, from: usize) -> (out: String)
    requires
        from <= words.len(),
    ensures
        out@ == join_words(texts(words@).skip(from as int)),
{
    let ghost ws = texts(words@).skip(from as int);
    let mut out: Vec<char> = Vec::new();
    let mut i: usize = from;
    while i < words.len()
        invariant
            from <= i <= words.len(),
            ws == texts(words@).skip(from as int),
            out@ == join_words(ws.take(i - from)),
        decreases words.len() - i,
    {
        proof {
            let done = ws.take(i - from + 1);
            assert(done.drop_last() == ws.take(i - from));
            assert(done.last() == words@[i as int]@);
        }
        if i > from {
            out.push(' ');
        }
        extend_chars(&mut out, &chars_of(words[i].as_str()));
        i += 1;
    }
    assert(ws.take(ws.len() as int) == ws);
    string_of(&out)
}

/// Reads the command from the arguments of the process, the program's name
/// being the first of them.
///
/// Gives none exactly where nothing follows the name.
pub fn parse_command(args: &Vec<String>) -> (out: Option<Command>)
    ensures
        match out {
            Some(command) => command_of(texts(args@)) == Some(command@),
            None => command_of(texts(args@)) is None,
        },
{
    if args.len() < 2 {
        return None;
    }
    let first = &args[1];
    let long: String = "--init".to_owned();
    let short: String = "-i".to_owned();
    if *first == long || *first == short {
        return Some(Command::Init);
    }
    Some(Command::Generate { output: first.clone(), description: describe(args, 2) })
}

} // verus!
