//! The words of the command line.
use vstd::prelude::*;
use vstd::string::StringExecFns;

verus! {

/// What the command line asked for.
pub struct Options {
    /// Show the usage page.
    pub help: bool,
    /// Start the service.
    pub start: bool,
    /// Reload the service.
    pub reload: bool,
    /// Show the settings.
    pub show: bool,
    /// Stop the service.
    pub stop: bool,
    /// The words that are no option.
    pub unknown: Vec<String>,
    /// No word was given.
    pub empty: bool,
}

/// Whether `word` asks for the usage page.
pub open spec fn is_help(word: Seq<char>) -> bool {
    word == "h"@ || word == "help"@
}

/// Whether `word` asks to start the service.
pub open spec fn is_start(word: Seq<char>) -> bool {
    word == "s"@ || word == "start"@
}

/// Whether `word` is taken as asking to reload the service: `show` and `stop`
/// are, as are `r` and `reload`.
pub open spec fn is_reload(word: Seq<char>) -> bool {
    word == "r"@ || word == "reload"@ || word == "show"@ || word == "stop"@
}

/// Whether `word` is an option.
pub open spec fn is_known(word: Seq<char>) -> bool {
    is_help(word) || is_start(word) || is_reload(word)
}

/// The test for a word that is no option.
pub open spec fn is_unknown() -> spec_fn(String) -> bool {
    |word: String| !is_known(word@)
}

impl Options {
    /// Nothing asked for.
    pub fn new() -> (options: Self)
        ensures
            !options.help,
            !options.start,
            !options.reload,
            !options.show,
            !options.stop,
            options.unknown@ == Seq::<String>::empty(),
            !options.empty,
    {
        Options {
            help: false,
            start: false,
            reload: false,
            show: false,
            stop: false,
            unknown: Vec::new(),
            empty: false,
        }
    }
}

/// No word names two options.
proof fn lemma_words_differ()
    ensures
        forall|word: Seq<char>| !(#[trigger] is_help(word) && is_start(word)),
        forall|word: Seq<char>| !(#[trigger] is_help(word) && is_reload(word)),
        forall|word: Seq<char>| !(#[trigger] is_start(word) && is_reload(word)),
{
    reveal_strlit("h");
    reveal_strlit("help");
    reveal_strlit("s");
    reveal_strlit("start");
    reveal_strlit("r");
    reveal_strlit("reload");
    reveal_strlit("show");
    reveal_strlit("stop");
    assert("h"@[0] == 'h' && "help"@[0] == 'h' && "s"@[0] == 's' && "start"@[0] == 's');
    assert("r"@[0] == 'r' && "reload"@[0] == 'r' && "show"@[1] == 'h' && "stop"@[1] == 't');
    assert("start"@[1] == 't' && "show"@.len() == 4 && "stop"@.len() == 4 && "start"@.len() == 5);
}

/// Whether `word` is the literal `literal`.
fn is_word(word: &String, literal: &str) -> (same: bool)
    ensures
        same == (word@ == literal@),
{
    *word == String::from_str(literal)
}

/// Reads the command line `args`, whose first word is the name of the
/// program.
///
/// Each of the other words sets the option that it names, and the words that
/// name none are collected in `unknown`, in their order. `empty` says that
/// there was no other word. No word sets `show` or `stop`.
pub fn get_options(args: Vec<String>) -> (options: Options)
    requires
        args@.len() >= 1,
    ensures
        options.empty == (args@.len() == 1),
        options.help == exists|i: int| 1 <= i < args@.len() && is_help(#[trigger] args@[i]@),
        options.start == exists|i: int| 1 <= i < args@.len() && is_start(#[trigger] args@[i]@),
        options.reload == exists|i: int| 1 <= i < args@.len() && is_reload(#[trigger] args@[i]@),
        !options.show,
        !options.stop,
        options.unknown@ == args@.skip(1).filter(is_unknown()),
{
    let mut options = Options::new();
    if args.len() == 1 {
        options.empty = true;
    }
    let mut i: usize = 1;
    proof {
        reveal(Seq::filter);
        assert(args@.skip(1).take(0) =~= Seq::<String>::empty());
    }
    while i < args.len()
        invariant
            1 <= i <= args@.len(),
            options.empty == (args@.len() == 1),
            options.help == exists|j: int| 1 <= j < i && is_help(#[trigger] args@[j]@),
            options.start == exists|j: int| 1 <= j < i && is_start(#[trigger] args@[j]@),
            options.reload == exists|j: int| 1 <= j < i && is_reload(#[trigger] args@[j]@),
            !options.show,
            !options.stop,
            options.unknown@ == args@.skip(1).take(i - 1).filter(is_unknown()),
        decreases args@.len() - i,
    {
        let word = &args[i];
        proof {
            reveal(Seq::filter);
            let before = args@.skip(1).take(i - 1);
            let with = args@.skip(1).take(i as int);
            assert(with.drop_last() =~= before);
            assert(with.last() == args@[i as int]);
            lemma_words_differ();
            let w = args@[i as int]@;
            assert(!(is_help(w) && is_start(w)));
            assert(!(is_help(w) && is_reload(w)));
            assert(!(is_start(w) && is_reload(w)));
        }
        if is_word(word, "h") || is_word(word, "help") {
            options.help = true;
        } else if is_word(word, "s") || is_word(word, "start") {
            options.start = true;
        } else if is_word(word, "r") || is_word(word, "reload") || is_word(word, "show") || is_word(
            word,
            "stop",
        ) {
            options.reload = true;
        } else {
            options.unknown.push(word.clone());
        }
        i += 1;
    }
    assert(args@.skip(1).take(args@.len() - 1) =~= args@.skip(1));
    options
}

} // verus!
