//! The debugger's commands, as read from a line of words.
use vstd::prelude::*;
use vstd::string::*;

verus! {

/// A command of the debugger.
pub enum DebuggerCommand {
    Quit,
    /// Start the target afresh, with these arguments.
    Run(Vec<String>),
    Continue,
    Backtrace,
    /// Set a breakpoint: `*<address>`, a line number or a function name.
    Break(String),
    Print,
    /// Run to the next source line.
    Next,
}

/// Whether `s` and `t` hold the same characters.
pub fn same_chars(s: &str, t: &str) -> (r: bool)
    ensures
        r == (s@ == t@),
{
    let n = s.unicode_len();
    if n != t.unicode_len() {
        return false;
    }
    let mut i: usize = 0;
    while i < n
        invariant
            n == s@.len() == t@.len(),
            i <= n,
            s@.subrange(0, i as int) == t@.subrange(0, i as int),
        decreases n - i,
    {
        if s.get_char(i) != t.get_char(i) {
            assert(s@[i as int] != t@[i as int]);
            return false;
        }
        assert(s@.subrange(0, i + 1) == s@.subrange(0, i as int).push(s@[i as int]));
        assert(t@.subrange(0, i + 1) == t@.subrange(0, i as int).push(t@[i as int]));
        i = i + 1;
    }
    assert(s@ == s@.subrange(0, n as int));
    assert(t@ == t@.subrange(0, n as int));
    true
}

fn is_one_of(s: &str, w1: &str, w2: &str, w3: &str) -> (r: bool)
    ensures
        r == (s@ == w1@ || s@ == w2@ || s@ == w3@),
{
    same_chars(s, w1) || same_chars(s, w2) || same_chars(s, w3)
}

/// The command that the words `t` spell, if any: the first word names it
/// (`q`/`quit`, `r`/`run`, `c`/`cont`/`continue`, `bk`/`back`/`backtrace`,
/// `b`/`break`, `p`/`print`, `n`/`next`); `run` takes the other words as
/// arguments, `break` exactly one word.
pub open spec fn command_of(t: Seq<Seq<char>>, c: Option<DebuggerCommand>) -> bool {
    let w = t[0];
    if w == "q"@ || w == "quit"@ {
        c == Some(DebuggerCommand::Quit)
    } else if w == "r"@ || w == "run"@ {
        c matches Some(DebuggerCommand::Run(args)) && args@.len() == t.len() - 1
            && forall|i: int| 0 <= i < args@.len() ==> (#[trigger] args@[i])@ == t[i + 1]
    } else if w == "c"@ || w == "cont"@ || w == "continue"@ {
        c matches Some(DebuggerCommand::Continue)
    } else if w == "bk"@ || w == "back"@ || w == "backtrace"@ {
        c matches Some(DebuggerCommand::Backtrace)
    } else if w == "b"@ || w == "break"@ {
        if t.len() == 2 {
            c matches Some(DebuggerCommand::Break(s)) && s@ == t[1]
        } else {
            c.is_none()
        }
    } else if w == "p"@ || w == "print"@ {
        c matches Some(DebuggerCommand::Print)
    } else if w == "n"@ || w == "next"@ {
        c matches Some(DebuggerCommand::Next)
    } else {
        c.is_none()
    }
}

/// The words of a slice of tokens, as character sequences.
pub open spec fn words(tokens: Seq<&str>) -> Seq<Seq<char>> {
    tokens.map_values(|s: &str| s@)
}

impl DebuggerCommand {
    /// Reads a command from the words of a line.
    pub fn from_tokens(tokens: &Vec<&str>) -> (r: Option<DebuggerCommand>)
        requires
            tokens@.len() > 0,
        ensures
            command_of(words(tokens@), r),
    {
        proof {
            reveal_strlit("q");
            reveal_strlit("quit");
            reveal_strlit("r");
            reveal_strlit("run");
            reveal_strlit("c");
            reveal_strlit("cont");
            reveal_strlit("continue");
            reveal_strlit("bk");
            reveal_strlit("back");
            reveal_strlit("backtrace");
            reveal_strlit("b");
            reveal_strlit("break");
            reveal_strlit("p");
            reveal_strlit("print");
            reveal_strlit("n");
            reveal_strlit("next");
        }
        let ghost t = words(tokens@);
        let w = tokens[0];
        assert(t[0] == w@);
        if is_one_of(w, "q", "quit", "quit") {
            Some(DebuggerCommand::Quit)
        } else if is_one_of(w, "r", "run", "run") {
            let mut args: Vec<String> = Vec::new();
            let mut i: usize = 1;
            while i < tokens.len()
                invariant
                    1 <= i <= tokens@.len(),
                    t == words(tokens@),
                    args@.len() == i - 1,
                    forall|k: int| 0 <= k < args@.len() ==> (#[trigger] args@[k])@ == t[k + 1],
                decreases tokens@.len() - i,
            {
                args.push(tokens[i].to_owned());
                i = i + 1;
            }
            Some(DebuggerCommand::Run(args))
        } else if is_one_of(w, "c", "cont", "continue") {
            Some(DebuggerCommand::Continue)
        } else if is_one_of(w, "bk", "back", "backtrace") {
            Some(DebuggerCommand::Backtrace)
        } else if is_one_of(w, "b", "break", "break") {
            if tokens.len() == 2 {
                assert(t[1] == tokens@[1]@);
                Some(DebuggerCommand::Break(tokens[1].to_owned()))
            } else {
                None
            }
        } else if is_one_of(w, "p", "print", "print") {
            Some(DebuggerCommand::Print)
        } else if is_one_of(w, "n", "next", "next") {
            Some(DebuggerCommand::Next)
        } else {
            None
        }
    }
}

} // verus!
