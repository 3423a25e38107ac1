//! The kernel shell: a prompt line edited key by key, and the commands it
//! understands (`echo`, `exit`).
use vstd::prelude::*;

verus! {

/// Why a character was not added to the prompt.
#[derive(Clone, Copy, Debug, PartialEq, Eq, Structural)]
pub enum PromptPushError {
    PromptFull,
}

/// The commands of the shell.
#[derive(Clone, Copy, Debug, PartialEq, Eq, Structural)]
pub enum ShellCommand {
    Echo,
    Exit,
}

/// The bytes of a command's name.
pub open spec fn command_name(c: ShellCommand) -> Seq<u8> {
    match c {
        ShellCommand::Echo => seq![0x65u8, 0x63u8, 0x68u8, 0x6fu8],
        ShellCommand::Exit => seq![0x65u8, 0x78u8, 0x69u8, 0x74u8],
    }
}

/// Whether a prompt holding `entries` (`len` of them typed) starts with the
/// command's name followed by a space.
pub open spec fn names_command(entries: Seq<u8>, c: ShellCommand) -> bool {
    let n = command_name(c);
    entries.subrange(0, n.len() as int) == n && entries[n.len() as int] == 0x20u8
}

/// The arguments of command `c`: what follows its name and a space, or
/// nothing when the line is no longer than the name.
pub open spec fn command_args(entries: Seq<u8>, len: int, c: ShellCommand) -> Seq<u8> {
    let n = command_name(c).len() as int;
    if n >= len {
        Seq::empty()
    } else {
        entries.subrange(n + 1, len)
    }
}

/// What `echo` writes to the screen: its arguments, then a newline.
pub fn echo_cmd(args: &[u8]) -> (r: Vec<u8>)
    ensures
        r@ == args@.push(0x0au8),
{
    let mut out: Vec<u8> = Vec::new();
    let mut i: usize = 0;
    while i < args.len()
        invariant
            i <= args@.len(),
            out@ == args@.subrange(0, i as int),
        decreases args@.len() - i,
    {
        out.push(args[i]);
        i = i + 1;
    }
    assert(args@.subrange(0, args@.len() as int) =~= args@);
    out.push(0x0a);
    out
}

/// The command a prompt runs: the first of `echo`, `exit` that it names,
/// with its arguments.
pub open spec fn command_of(entries: Seq<u8>, len: int) -> Option<(ShellCommand, Seq<u8>)> {
    if names_command(entries, ShellCommand::Echo) {
        Some((ShellCommand::Echo, command_args(entries, len, ShellCommand::Echo)))
    } else if names_command(entries, ShellCommand::Exit) {
        Some((ShellCommand::Exit, command_args(entries, len, ShellCommand::Exit)))
    } else {
        None
    }
}

/// The line being typed: a fixed number of slots, the first `len` typed.
pub struct Prompt {
    entries: Vec<u8>,
    len: usize,
}

impl Prompt {
    /// The slots, typed ones first.
    pub closed spec fn slots(&self) -> Seq<u8> {
        self.entries@
    }

    /// Number of typed characters.
    pub closed spec fn typed(&self) -> nat {
        self.len as nat
    }

    /// The typed characters.
    pub open spec fn line(&self) -> Seq<u8> {
        self.slots().subrange(0, self.typed() as int)
    }

    /// At most as many typed characters as slots.
    pub closed spec fn wf(&self) -> bool {
        self.len <= self.entries@.len()
    }

    /// An empty prompt of `capacity` slots, all spaces.
    pub fn default(capacity: usize) -> (r: Self)
        ensures
            r.wf(),
            r.slots() == Seq::new(capacity as nat, |i: int| 0x20u8),
            r.typed() == 0,
    {
        Self { entries: spaces(capacity), len: 0 }
    }

    /// Number of typed characters.
    pub fn len(&self) -> (r: usize)
        ensures
            r == self.typed(),
    {
        self.len
    }

    /// Appends `c`, unless every slot is taken.
    pub fn push(&mut self, c: u8) -> (r: Result<(), PromptPushError>)
        requires
            old(self).wf(),
        ensures
            final(self).wf(),
            r is Err <==> old(self).typed() >= old(self).slots().len(),
            r is Err ==> r == Err::<(), PromptPushError>(PromptPushError::PromptFull) && *final(self) == *old(self),
            r is Ok ==> final(self).slots() == old(self).slots().update(old(self).typed() as int, c)
                && final(self).typed() == old(self).typed() + 1,
    {
        if self.len >= self.entries.len() {
            Err(PromptPushError::PromptFull)
        } else {
            self.entries.set(self.len, c);
            self.len = self.len + 1;
            Ok(())
        }
    }

    /// Forgets the last typed character (its slot keeps the character).
    pub fn pop(&mut self) -> (r: bool)
        requires
            old(self).wf(),
        ensures
            final(self).wf(),
            r == (old(self).typed() > 0),
            final(self).slots() == old(self).slots(),
            final(self).typed() == if r { old(self).typed() - 1 } else { 0 },
    {
        if self.len != 0 {
            self.len = self.len - 1;
            true
        } else {
            false
        }
    }

    /// Empties the prompt and fills every slot with a space.
    pub fn clear(&mut self)
        requires
            old(self).wf(),
        ensures
            final(self).wf(),
            final(self).typed() == 0,
            final(self).slots() == Seq::new(old(self).slots().len(), |i: int| 0x20u8),
    {
        let n = self.entries.len();
        self.len = 0;
        self.entries = spaces(n);
    }

    /// The command the line names, with its arguments (see `command_of`).
    pub fn execute(&self) -> (r: Option<(ShellCommand, Vec<u8>)>)
        requires
            self.wf(),
            self.slots().len() > 4,
        ensures
            match r {
                Some((c, args)) => command_of(self.slots(), self.typed() as int) == Some((c, args@)),
                None => command_of(self.slots(), self.typed() as int) is None,
            },
    {
        let echo: Vec<u8> = vec![0x65, 0x63, 0x68, 0x6f];
        let exit: Vec<u8> = vec![0x65, 0x78, 0x69, 0x74];
        assert(echo@ =~= command_name(ShellCommand::Echo));
        assert(exit@ =~= command_name(ShellCommand::Exit));
        if self.names(&echo) {
            return Some((ShellCommand::Echo, self.args(4)));
        }
        if self.names(&exit) {
            return Some((ShellCommand::Exit, self.args(4)));
        }
        None
    }

    /// Whether the slots start with `name` followed by a space.
    fn names(&self, name: &Vec<u8>) -> (r: bool)
        requires
            name@.len() < self.slots().len(),
        ensures
            r == (self.slots().subrange(0, name@.len() as int) == name@ && self.slots()[name@.len() as int] == 0x20u8),
    {
        let mut i: usize = 0;
        while i < name.len()
            invariant
                i <= name@.len(),
                name@.len() < self.entries@.len(),
                forall|k: int| 0 <= k < i ==> self.entries@[k] == name@[k],
            decreases name@.len() - i,
        {
            if self.entries[i] != name[i] {
                assert(self.slots().subrange(0, name@.len() as int)[i as int] != name@[i as int]);
                return false;
            }
            i = i + 1;
        }
        assert(self.slots().subrange(0, name@.len() as int) =~= name@);
        self.entries[name.len()] == 0x20
    }

    /// The typed characters after a name of `n` bytes and a space.
    fn args(&self, n: usize) -> (r: Vec<u8>)
        requires
            self.wf(),
        ensures
            r@ == (if n >= self.typed() { Seq::<u8>::empty() } else { self.slots().subrange(n + 1, self.typed() as int) }),
    {
        let mut out: Vec<u8> = Vec::new();
        if n >= self.len {
            return out;
        }
        let mut i = n + 1;
        while i < self.len
            invariant
                n < self.len,
                n + 1 <= i <= self.len,
                self.len <= self.entries@.len(),
                out@ == self.entries@.subrange(n + 1, i as int),
            decreases self.len - i,
        {
            out.push(self.entries[i]);
            i = i + 1;
        }
        out
    }
}

/// Typing a character appends it to the line, and erasing it gives the line
/// back as it was.
pub proof fn law_pop_undoes_push(p0: Prompt, p1: Prompt, p2: Prompt, c: u8)
    requires
        p0.wf(),
        p0.typed() < p0.slots().len(),
        p1.slots() == p0.slots().update(p0.typed() as int, c),
        p1.typed() == p0.typed() + 1,
        p2.slots() == p1.slots(),
        p2.typed() == p1.typed() - 1,
    ensures
        p1.line() == p0.line().push(c),
        p2.line() == p0.line(),
{
    assert(p1.line() =~= p0.line().push(c));
    assert(p2.line() =~= p0.line());
}

/// `n` spaces.
fn spaces(n: usize) -> (r: Vec<u8>)
    ensures
        r@ == Seq::new(n as nat, |i: int| 0x20u8),
{
    let mut v: Vec<u8> = Vec::new();
    while v.len() < n
        invariant
            v@.len() <= n,
            forall|i: int| 0 <= i < v@.len() ==> #[trigger] v@[i] == 0x20u8,
        decreases n - v@.len(),
    {
        v.push(0x20);
    }
    assert(v@ =~= Seq::new(n as nat, |i: int| 0x20u8));
    v
}

/// A key as the shell sees it.
#[derive(Clone, Copy, Debug, PartialEq, Eq, Structural)]
pub enum ShellKey {
    Enter,
    Backspace,
    ArrowUp,
    Char(u8),
}

/// What the screen should show after a key.
#[derive(Debug)]
pub enum ShellAction {
    /// Nothing changes.
    Nothing,
    /// The character was added to the line.
    Echo(u8),
    /// The last character was removed.
    RemoveLast,
    /// The line was submitted: a newline, then the command it names (if any)
    /// runs with its arguments. `line` is what was typed.
    Submit { line: Vec<u8>, command: Option<(ShellCommand, Vec<u8>)> },
}

/// The shell's state: the prompt.
pub struct Shell {
    pub prompt: Prompt,
}

impl Shell {
    /// A shell with an empty prompt of `capacity` slots.
    pub fn default(capacity: usize) -> (r: Self)
        ensures
            r.prompt.wf(),
            r.prompt.typed() == 0,
            r.prompt.slots() == Seq::new(capacity as nat, |i: int| 0x20u8),
    {
        Self { prompt: Prompt::default(capacity) }
    }

    /// Handles one key: Enter submits the line and clears the prompt,
    /// Backspace removes the last character (if any), the up arrow does
    /// nothing, any other key is typed (when the prompt has room).
    pub fn handle_key(&mut self, key: ShellKey) -> (r: ShellAction)
        requires
            old(self).prompt.wf(),
            old(self).prompt.slots().len() > 4,
        ensures
            final(self).prompt.wf(),
            final(self).prompt.slots().len() == old(self).prompt.slots().len(),
            match key {
                ShellKey::Enter => {
                    &&& final(self).prompt.typed() == 0
                    &&& final(self).prompt.slots() == Seq::new(old(self).prompt.slots().len(), |i: int| 0x20u8)
                    &&& r matches ShellAction::Submit { line, command } && line@ == old(self).prompt.line() && match command {
                        Some((c, args)) => command_of(old(self).prompt.slots(), old(self).prompt.typed() as int) == Some((c, args@)),
                        None => command_of(old(self).prompt.slots(), old(self).prompt.typed() as int) is None,
                    }
                },
                ShellKey::Backspace => {
                    &&& final(self).prompt.slots() == old(self).prompt.slots()
                    &&& old(self).prompt.typed() > 0 ==> r is RemoveLast && final(self).prompt.typed() == old(self).prompt.typed() - 1
                    &&& old(self).prompt.typed() == 0 ==> r is Nothing && final(self).prompt.typed() == 0
                },
                ShellKey::ArrowUp => r is Nothing && final(self).prompt == old(self).prompt,
                ShellKey::Char(c) => {
                    &&& old(self).prompt.typed() < old(self).prompt.slots().len() ==> r == ShellAction::Echo(c)
                        && final(self).prompt.slots() == old(self).prompt.slots().update(old(self).prompt.typed() as int, c)
                        && final(self).prompt.typed() == old(self).prompt.typed() + 1
                    &&& old(self).prompt.typed() >= old(self).prompt.slots().len() ==> r is Nothing
                        && final(self).prompt == old(self).prompt
                },
            },
    {
        match key {
            ShellKey::Enter => {
                let line = self.prompt.typed_line();
                let command = self.prompt.execute();
                self.prompt.clear();
                ShellAction::Submit { line, command }
            },
            ShellKey::Backspace => {
                if self.prompt.pop() {
                    ShellAction::RemoveLast
                } else {
                    ShellAction::Nothing
                }
            },
            ShellKey::ArrowUp => ShellAction::Nothing,
            ShellKey::Char(c) => match self.prompt.push(c) {
                Ok(()) => ShellAction::Echo(c),
                Err(_) => ShellAction::Nothing,
            },
        }
    }
}

impl Prompt {
    /// The typed characters.
    fn typed_line(&self) -> (r: Vec<u8>)
        requires
            self.wf(),
        ensures
            r@ == self.line(),
    {
        let mut out: Vec<u8> = Vec::new();
        let mut i: usize = 0;
        while i < self.len
            invariant
                i <= self.len,
                self.len <= self.entries@.len(),
                out@ == self.entries@.subrange(0, i as int),
            decreases self.len - i,
        {
            out.push(self.entries[i]);
            i = i + 1;
        }
        out
    }
}

} // verus!
