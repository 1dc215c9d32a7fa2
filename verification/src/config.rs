//! How a program under test is run and compiled: commands that may differ
//! by operating system.

use vstd::prelude::*;

verus! {

/// The operating system that a command is chosen for.
#[derive(Clone, Copy, Debug, PartialEq, Eq, Structural)]
pub enum TargetOs {
    Windows,
    MacOs,
    /// Linux and every other system.
    Other,
}

/// A command, either the same on every system or given per system.
#[derive(Clone, Debug, PartialEq, Eq)]
pub enum OsSpecific {
    Unified(String),
    UnixWin { unix: String, win: String },
    LinuxMacWin { linux: String, mac: String, win: String },
}

impl OsSpecific {
    /// The command for `os`.
    pub open spec fn command_for(self, os: TargetOs) -> Seq<char> {
        match self {
            OsSpecific::Unified(run) => run@,
            OsSpecific::UnixWin { unix, win } => if os == TargetOs::Windows {
                win@
            } else {
                unix@
            },
            OsSpecific::LinuxMacWin { linux, mac, win } => if os == TargetOs::Windows {
                win@
            } else if os == TargetOs::MacOs {
                mac@
            } else {
                linux@
            },
        }
    }

    /// The command for `os`: the unified one, or the Windows one on
    /// Windows, the macOS one on macOS (where given), and the Unix or Linux
    /// one elsewhere.
    pub fn get(&self, os: TargetOs) -> (r: &str)
        ensures
            r@ == self.command_for(os),
    {
        match self {
            OsSpecific::Unified(run) => run.as_str(),
            OsSpecific::UnixWin { unix, win } => {
                if let TargetOs::Windows = os {
                    win.as_str()
                } else {
                    unix.as_str()
                }
            },
            OsSpecific::LinuxMacWin { linux, mac, win } => {
                match os {
                    TargetOs::Windows => win.as_str(),
                    TargetOs::MacOs => mac.as_str(),
                    TargetOs::Other => linux.as_str(),
                }
            },
        }
    }
}

/// How to run a program under test, and optionally compile it first, with
/// the paths to watch for changes and to ignore.
#[derive(Clone, Debug, PartialEq, Eq)]
pub struct RunOption {
    pub run: OsSpecific,
    pub compile: Option<OsSpecific>,
    pub watch: Vec<String>,
    pub ignore: Vec<String>,
}

impl RunOption {
    /// The run command for `os`.
    pub fn run(&self, os: TargetOs) -> (r: &str)
        ensures
            r@ == self.run.command_for(os),
    {
        self.run.get(os)
    }

    /// The compile command for `os`, if there is one.
    pub fn compile(&self, os: TargetOs) -> (r: Option<&str>)
        ensures
            r is Some <==> self.compile is Some,
            r matches Some(c) ==> c@ == self.compile->0.command_for(os),
    {
        match &self.compile {
            Some(c) => Some(c.get(os)),
            None => None,
        }
    }
}

/// The text of `s` before its first space: the program that a command line
/// names.
pub open spec fn first_word(s: Seq<char>) -> Seq<char>
    decreases s.len(),
{
    if s.len() == 0 {
        s
    } else if s[0] == ' ' {
        seq![]
    } else {
        seq![s[0]] + first_word(s.drop_first())
    }
}

/// The first word of a text is the text up to its first space: a prefix of
/// the text that holds no space, which is the whole text or is followed in
/// it by a space.
pub proof fn lemma_first_word(s: Seq<char>)
    ensures
        first_word(s).len() <= s.len(),
        first_word(s) == s.take(first_word(s).len() as int),
        forall|i: int| 0 <= i < first_word(s).len() ==> #[trigger] s[i] != ' ',
        first_word(s).len() == s.len() || s[first_word(s).len() as int] == ' ',
    decreases s.len(),
{
    if s.len() > 0 && s[0] != ' ' {
        let t = s.drop_first();
        lemma_first_word(t);
        let w = first_word(t);
        assert(first_word(s) == seq![s[0]] + w);
        assert(s.take(w.len() + 1 as int) =~= seq![s[0]] + t.take(w.len() as int));
        assert forall|i: int| 0 <= i < first_word(s).len() implies #[trigger] s[i] != ' ' by {
            if i > 0 {
                assert(s[i] == t[i - 1]);
            }
        }
        if w.len() < t.len() {
            assert(s[w.len() + 1 as int] == t[w.len() as int]);
        }
    } else if s.len() > 0 {
        assert(s.take(0) =~= Seq::<char>::empty());
    }
}

/// The program of a command line: its text before the first space (all of
/// it where it has none).
pub fn program_of(command: &str) -> (r: &str)
    ensures
        r@ == first_word(command@),
        r@ == command@.take(r@.len() as int),
        forall|i: int| 0 <= i < r@.len() ==> #[trigger] r@[i] != ' ',
        r@.len() == command@.len() || command@[r@.len() as int] == ' ',
{
    let r = first_word_of(command);
    proof {
        lemma_first_word(command@);
        assert forall|i: int| 0 <= i < r@.len() implies #[trigger] r@[i] != ' ' by {
            assert(r@[i] == command@[i]);
        }
    }
    r
}

fn first_word_of(command: &str) -> (r: &str)
    ensures
        r@ == first_word(command@),
{
    let n = command.unicode_len();
    let mut i: usize = 0;
    assert(command@.take(0) + command@.skip(0) =~= command@);
    while i < n
        invariant
            n == command@.len(),
            i <= n,
            first_word(command@) == command@.take(i as int) + first_word(command@.skip(i as int)),
        decreases n - i,
    {
        if command.get_char(i) == ' ' {
            assert(first_word(command@.skip(i as int)) =~= Seq::<char>::empty());
            assert(command@.take(i as int) + Seq::<char>::empty() =~= command@.take(i as int));
            return command.substring_char(0, i);
        }
        let ghost rest = command@.skip(i as int);
        assert(rest.drop_first() =~= command@.skip(i + 1));
        assert(command@.take(i as int) + seq![rest[0]] =~= command@.take(i + 1));
        i = i + 1;
    }
    assert(command@.skip(n as int) =~= Seq::<char>::empty());
    assert(command@.take(n as int) + Seq::<char>::empty() =~= command@.take(n as int));
    command.substring_char(0, n)
}

} // verus!
