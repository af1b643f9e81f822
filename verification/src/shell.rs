use vstd::prelude::*;
use vstd::string::StringSliceAdditionalSpecFns;
use crate::gdt::{info_screen, print_info};
use crate::keyboard::KeyboardDriver;
use crate::libft::{
    backspace, backspace_step, blank_screen, c_str, c_strlen, char_step, clear_screen, emit, no_percent, printk,
    printk_char, printk_str, put_cell, reset_cursor, strlen, Console, PrintkArg, Screen, VGA_HEIGHT, VGA_WIDTH,
};
use crate::libft::{
    lemma_backspace_after_char, lemma_c_strlen_unique, lemma_char_step_valid, lemma_emit_push, lemma_emit_valid,
    lemma_printk_plain,
};
use crate::types::{Colors, color_code};

verus! {

/// The prompt.
pub open spec fn prompt() -> Seq<u8> {
    "kfs> ".spec_bytes()
}

/// The prompt. It holds no `%`.
fn prompt_bytes() -> (b: &'static [u8])
    ensures
        b@ == prompt(),
        no_percent(b@),
{
    let s: &'static str = "kfs> ";
    proof {
        reveal_strlit("kfs> ");
        vstd::string::is_ascii_spec_bytes(s);
    }
    s.as_bytes()
}

/// The first line of the help text.
pub open spec fn help_header() -> Seq<u8> {
    "\nAvailable commands:\n".spec_bytes()
}

/// The first line of the help text. It holds no `%`.
fn help_header_bytes() -> (b: &'static [u8])
    ensures
        b@ == help_header(),
        no_percent(b@),
{
    let s: &'static str = "\nAvailable commands:\n";
    proof {
        reveal_strlit("\nAvailable commands:\n");
        vstd::string::is_ascii_spec_bytes(s);
    }
    s.as_bytes()
}

/// What each line of the help text starts with.
pub open spec fn help_indent() -> Seq<u8> {
    "  ".spec_bytes()
}

/// What each line of the help text starts with. It holds no `%`.
fn help_indent_bytes() -> (b: &'static [u8])
    ensures
        b@ == help_indent(),
        no_percent(b@),
{
    let s: &'static str = "  ";
    proof {
        reveal_strlit("  ");
        vstd::string::is_ascii_spec_bytes(s);
    }
    s.as_bytes()
}

/// What comes before an unknown command.
pub open spec fn unknown_prefix() -> Seq<u8> {
    "unknown command: '".spec_bytes()
}

/// What comes before an unknown command. It holds no `%`.
fn unknown_prefix_bytes() -> (b: &'static [u8])
    ensures
        b@ == unknown_prefix(),
        no_percent(b@),
{
    let s: &'static str = "unknown command: '";
    proof {
        reveal_strlit("unknown command: '");
        vstd::string::is_ascii_spec_bytes(s);
    }
    s.as_bytes()
}

/// What comes after an unknown command.
pub open spec fn unknown_suffix() -> Seq<u8> {
    "'  (type 'help')\n".spec_bytes()
}

/// What comes after an unknown command. It holds no `%`.
fn unknown_suffix_bytes() -> (b: &'static [u8])
    ensures
        b@ == unknown_suffix(),
        no_percent(b@),
{
    let s: &'static str = "'  (type 'help')\n";
    proof {
        reveal_strlit("'  (type 'help')\n");
        vstd::string::is_ascii_spec_bytes(s);
    }
    s.as_bytes()
}

/// What the `reboot` command prints.
pub open spec fn rebooting() -> Seq<u8> {
    "Rebooting...\n".spec_bytes()
}

/// What the `reboot` command prints. It holds no `%`.
fn rebooting_bytes() -> (b: &'static [u8])
    ensures
        b@ == rebooting(),
        no_percent(b@),
{
    let s: &'static str = "Rebooting...\n";
    proof {
        reveal_strlit("Rebooting...\n");
        vstd::string::is_ascii_spec_bytes(s);
    }
    s.as_bytes()
}

/// What the `halt` command prints.
pub open spec fn halting() -> Seq<u8> {
    "Halting...\n".spec_bytes()
}

/// What the `halt` command prints. It holds no `%`.
fn halting_bytes() -> (b: &'static [u8])
    ensures
        b@ == halting(),
        no_percent(b@),
{
    let s: &'static str = "Halting...\n";
    proof {
        reveal_strlit("Halting...\n");
        vstd::string::is_ascii_spec_bytes(s);
    }
    s.as_bytes()
}

/// What the shell prints when it exits.
pub open spec fn exit_message() -> Seq<u8> {
    "\nShell exited. Powering off.\n".spec_bytes()
}

/// What the shell prints when it exits. It holds no `%`.
fn exit_message_bytes() -> (b: &'static [u8])
    ensures
        b@ == exit_message(),
        no_percent(b@),
{
    let s: &'static str = "\nShell exited. Powering off.\n";
    proof {
        reveal_strlit("\nShell exited. Powering off.\n");
        vstd::string::is_ascii_spec_bytes(s);
    }
    s.as_bytes()
}

/// Writes a message holding no `%` with `printk`.
fn print_message(con: &mut Console, msg: &[u8], color: Colors)
    requires
        old(con).wf(),
        no_percent(msg@),
    ensures
        final(con)@ == emit(old(con)@, msg@, color_code(color)),
        final(con).wf(),
{
    let no_args: [PrintkArg; 0] = [];
    proof {
        lemma_printk_plain(msg@, no_args@, 0, 0);
        assert(msg@.skip(0) =~= msg@);
    }
    printk(con, msg, color, &no_args);
}

/// What the shell is to do next.
#[derive(Clone, Copy, Debug, PartialEq, Eq, Structural)]
pub enum Flow {
    /// Read the next key.
    Continue,
    /// The shell has ended; the machine is to be powered off.
    Exit,
    /// The caller is to print a dump of the kernel stack, then the prompt.
    DumpStack,
    /// The caller is to reset the machine.
    Reboot,
    /// The caller is to halt the CPU.
    Halt,
}

/// What a command does.
#[derive(Clone, Copy, Debug, PartialEq, Eq, Structural)]
pub enum CommandAction {
    Help,
    Stack,
    Gdt,
    Clear,
    Reboot,
    Halt,
    Exit,
}

/// A shell command: its name, its line in the help text and what it does.
pub struct Command {
    pub name: &'static [u8],
    pub description: &'static [u8],
    pub run: CommandAction,
}

/// The commands, in the order the help text lists them and the shell tries
/// them.
pub open spec fn command_table() -> Seq<(Seq<u8>, Seq<u8>, CommandAction)> {
    seq![
        ("help".spec_bytes(), "List available commands".spec_bytes(), CommandAction::Help),
        ("stack".spec_bytes(), "Print kernel stack dump".spec_bytes(), CommandAction::Stack),
        ("gdt".spec_bytes(), "Print GDT layout".spec_bytes(), CommandAction::Gdt),
        ("clear".spec_bytes(), "Clear the screen".spec_bytes(), CommandAction::Clear),
        ("reboot".spec_bytes(), "Reboot the system".spec_bytes(), CommandAction::Reboot),
        ("halt".spec_bytes(), "Halt the CPU".spec_bytes(), CommandAction::Halt),
        ("exit".spec_bytes(), "Cause the shell to exit".spec_bytes(), CommandAction::Exit),
    ]
}

/// `cmds` holds the command table.
pub open spec fn is_command_table(cmds: Seq<Command>) -> bool {
    &&& cmds.len() == command_table().len()
    &&& forall|i: int|
        0 <= i < cmds.len() ==> {
            &&& (#[trigger] cmds[i]).name@ == command_table()[i].0
            &&& cmds[i].description@ == command_table()[i].1
            &&& cmds[i].run == command_table()[i].2
        }
}

fn command(name: &'static str, description: &'static str, run: CommandAction) -> (c: Command)
    ensures
        c.name@ == name.spec_bytes(),
        c.description@ == description.spec_bytes(),
        c.run == run,
{
    Command { name: name.as_bytes(), description: description.as_bytes(), run }
}

/// The command table.
pub fn commands() -> (cmds: Vec<Command>)
    ensures
        is_command_table(cmds@),
{
    let mut v: Vec<Command> = Vec::new();
    v.push(command("help", "List available commands", CommandAction::Help));
    v.push(command("stack", "Print kernel stack dump", CommandAction::Stack));
    v.push(command("gdt", "Print GDT layout", CommandAction::Gdt));
    v.push(command("clear", "Clear the screen", CommandAction::Clear));
    v.push(command("reboot", "Reboot the system", CommandAction::Reboot));
    v.push(command("halt", "Halt the CPU", CommandAction::Halt));
    v.push(command("exit", "Cause the shell to exit", CommandAction::Exit));
    v
}

/// Whether `a` and `b` hold the same bytes.
fn bytes_eq(a: &[u8], b: &[u8]) -> (eq: bool)
    ensures
        eq == (a@ == b@),
{
    if a.len() != b.len() {
        return false;
    }
    let mut i: usize = 0;
    while i < a.len()
        invariant
            i <= a.len(),
            a.len() == b.len(),
            forall|j: int| 0 <= j < i ==> a[j] == b[j],
        decreases a.len() - i,
    {
        if a[i] != b[i] {
            return false;
        }
        i += 1;
    }
    assert(a@ =~= b@);
    true
}

/// The spaces that pad a command name of `len` bytes to ten columns.
pub open spec fn name_padding(len: nat) -> Seq<u8> {
    Seq::new(if len < 10 { (10 - len) as nat } else { 0 }, |i: int| 32u8)
}

/// The screen after the help line of a command: the indent, the name in
/// yellow, the padding, the description in gray and a newline.
pub open spec fn help_line(s: Screen, name: Seq<u8>, description: Seq<u8>) -> Screen {
    let white = color_code(Colors::White);
    let s1 = emit(s, help_indent(), white);
    let s2 = emit(s1, c_str(name), color_code(Colors::Yellow));
    let s3 = emit(s2, name_padding(c_strlen(name)), white);
    let s4 = emit(s3, c_str(description), color_code(Colors::Gray));
    char_step(s4, 10, white)
}

/// The screen after the help lines of the first `n` commands.
pub open spec fn help_lines(s: Screen, n: int) -> Screen
    decreases n,
{
    if n <= 0 {
        s
    } else {
        help_line(help_lines(s, n - 1), command_table()[n - 1].0, command_table()[n - 1].1)
    }
}

/// The screen after the help text: the header in light cyan, a line per
/// command and an empty line.
pub open spec fn help_screen(s: Screen) -> Screen {
    let head = emit(s, help_header(), color_code(Colors::LightCyan));
    char_step(help_lines(head, command_table().len() as int), 10, color_code(Colors::White))
}

/// Prints the help text (see `help_screen`).
pub fn cmd_help(con: &mut Console) -> (f: Flow)
    requires
        old(con).wf(),
    ensures
        final(con)@ == help_screen(old(con)@),
        final(con).wf(),
        f == Flow::Continue,
{
    let ghost white = color_code(Colors::White);
    print_message(con, help_header_bytes(), Colors::LightCyan);
    let ghost head = con@;
    let cmds = commands();
    let mut i: usize = 0;
    while i < cmds.len()
        invariant
            i <= cmds.len(),
            is_command_table(cmds@),
            con.wf(),
            white == color_code(Colors::White),
            con@ == help_lines(head, i as int),
        decreases cmds.len() - i,
    {
        let cmd = &cmds[i];
        print_message(con, help_indent_bytes(), Colors::White);
        printk_str(con, cmd.name, Colors::Yellow);
        let ghost after_name = con@;
        let name_len = strlen(cmd.name);
        let mut pad = name_len;
        while pad < 10
            invariant
                name_len <= pad,
                name_len < 10 ==> pad <= 10,
                name_len >= 10 ==> pad == name_len,
                con.wf(),
                white == color_code(Colors::White),
                con@ == emit(after_name, Seq::new((pad - name_len) as nat, |k: int| 32u8), white),
            decreases 10 - pad,
        {
            printk_char(con, 32, Colors::White);
            proof {
                let sp = Seq::new((pad - name_len) as nat, |k: int| 32u8);
                lemma_emit_push(after_name, sp, 32u8, white);
                assert(Seq::new((pad + 1 - name_len) as nat, |k: int| 32u8) =~= sp.push(32u8));
            }
            pad += 1;
        }
        assert(Seq::new((pad - name_len) as nat, |k: int| 32u8) =~= name_padding(name_len as nat));
        printk_str(con, cmd.description, Colors::Gray);
        printk_char(con, 10, Colors::White);
        i += 1;
    }
    printk_char(con, 10, Colors::White);
    Flow::Continue
}

/// Ends the shell.
pub fn cmd_exit() -> (f: Flow)
    ensures
        f == Flow::Exit,
{
    Flow::Exit
}

/// Asks the caller for a dump of the kernel stack.
pub fn cmd_stack() -> (f: Flow)
    ensures
        f == Flow::DumpStack,
{
    Flow::DumpStack
}

/// Prints the layout of the descriptor table.
pub fn cmd_gdt(con: &mut Console) -> (f: Flow)
    requires
        old(con).wf(),
    ensures
        final(con)@ == info_screen(old(con)@),
        final(con).wf(),
        f == Flow::Continue,
{
    print_info(con);
    Flow::Continue
}

/// Clears the screen.
pub fn cmd_clear(con: &mut Console) -> (f: Flow)
    requires
        old(con).wf(),
    ensures
        final(con)@ == blank_screen(),
        final(con).wf(),
        f == Flow::Continue,
{
    clear_screen(con);
    reset_cursor(con);
    Flow::Continue
}

/// Announces the reset and asks the caller for it.
pub fn cmd_reboot(con: &mut Console) -> (f: Flow)
    requires
        old(con).wf(),
    ensures
        final(con)@ == emit(old(con)@, rebooting(), color_code(Colors::LightRed)),
        final(con).wf(),
        f == Flow::Reboot,
{
    print_message(con, rebooting_bytes(), Colors::LightRed);
    Flow::Reboot
}

/// Announces the halt and asks the caller for it.
pub fn cmd_halt(con: &mut Console) -> (f: Flow)
    requires
        old(con).wf(),
    ensures
        final(con)@ == emit(old(con)@, halting(), color_code(Colors::LightRed)),
        final(con).wf(),
        f == Flow::Halt,
{
    print_message(con, halting_bytes(), Colors::LightRed);
    Flow::Halt
}

/// What running a command does to the screen, and what follows.
pub open spec fn run_command(a: CommandAction, s: Screen) -> (Screen, Flow) {
    match a {
        CommandAction::Help => (help_screen(s), Flow::Continue),
        CommandAction::Stack => (s, Flow::DumpStack),
        CommandAction::Gdt => (info_screen(s), Flow::Continue),
        CommandAction::Clear => (blank_screen(), Flow::Continue),
        CommandAction::Reboot => (emit(s, rebooting(), color_code(Colors::LightRed)), Flow::Reboot),
        CommandAction::Halt => (emit(s, halting(), color_code(Colors::LightRed)), Flow::Halt),
        CommandAction::Exit => (s, Flow::Exit),
    }
}

/// Runs what a command does (see `run_command`).
fn run_action(a: CommandAction, con: &mut Console) -> (f: Flow)
    requires
        old(con).wf(),
    ensures
        (final(con)@, f) == run_command(a, old(con)@),
        final(con).wf(),
{
    match a {
        CommandAction::Help => cmd_help(con),
        CommandAction::Stack => cmd_stack(),
        CommandAction::Gdt => cmd_gdt(con),
        CommandAction::Clear => cmd_clear(con),
        CommandAction::Reboot => cmd_reboot(con),
        CommandAction::Halt => cmd_halt(con),
        CommandAction::Exit => cmd_exit(),
    }
}

/// The first command from index `j` on whose name is `line`.
pub open spec fn command_index_from(line: Seq<u8>, j: int) -> Option<int>
    decreases command_table().len() - j,
{
    if j >= command_table().len() {
        None
    } else if command_table()[j].0 == line {
        Some(j)
    } else {
        command_index_from(line, j + 1)
    }
}

/// What the command named `line` does, if there is one.
pub open spec fn command_for(line: Seq<u8>) -> Option<CommandAction> {
    match command_index_from(line, 0) {
        Some(j) => Some(command_table()[j].2),
        None => None,
    }
}

/// What executing the input line does to the screen, and what follows: an
/// empty line does nothing; a command's name runs it; anything else is
/// reported as unknown.
pub open spec fn execute_spec(line: Seq<u8>, s: Screen) -> (Screen, Flow) {
    if line.len() == 0 {
        (s, Flow::Continue)
    } else {
        match command_for(line) {
            Some(a) => run_command(a, s),
            None => {
                let red = color_code(Colors::LightRed);
                let s1 = emit(s, unknown_prefix(), red);
                let s2 = emit(s1, line, color_code(Colors::White));
                (emit(s2, unknown_suffix(), red), Flow::Continue)
            },
        }
    }
}

/// Size of the input buffer; a line holds at most one byte less.
pub const INPUT_MAX: usize = 256;

/// The bytes the shell takes into the input line: printable ASCII.
pub open spec fn is_printable(c: u8) -> bool {
    32 <= c < 127
}

/// The command which the name `line` names is the first one from index `k`
/// whose name it is.
proof fn lemma_command_index_found(line: Seq<u8>, k: int, i: int)
    requires
        0 <= k <= i < command_table().len(),
        forall|j: int| k <= j < i ==> command_table()[j].0 != line,
        command_table()[i].0 == line,
    ensures
        command_index_from(line, k) == Some(i),
    decreases i - k,
{
    if k < i {
        lemma_command_index_found(line, k + 1, i);
    }
}

/// No command from index `k` on is named `line`.
proof fn lemma_command_index_none(line: Seq<u8>, k: int)
    requires
        0 <= k <= command_table().len(),
        forall|j: int| k <= j < command_table().len() ==> command_table()[j].0 != line,
    ensures
        command_index_from(line, k) is None,
    decreases command_table().len() - k,
{
    if k < command_table().len() {
        lemma_command_index_none(line, k + 1);
    }
}

/// The index of the command named `input`, if there is one.
fn find_command(cmds: &Vec<Command>, input: &[u8]) -> (r: Option<usize>)
    requires
        is_command_table(cmds@),
    ensures
        r matches Some(i) ==> i < cmds@.len() && command_index_from(input@, 0) == Some(i as int),
        r is None ==> command_index_from(input@, 0) is None,
{
    let mut i: usize = 0;
    while i < cmds.len()
        invariant
            i <= cmds.len(),
            is_command_table(cmds@),
            forall|j: int| 0 <= j < i ==> command_table()[j].0 != input@,
        decreases cmds.len() - i,
    {
        if bytes_eq(input, cmds[i].name) {
            proof {
                lemma_command_index_found(input@, 0, i as int);
            }
            return Some(i);
        }
        i += 1;
    }
    proof {
        lemma_command_index_none(input@, 0);
    }
    None
}

/// A minimal debug shell reading keys from a `KeyboardDriver`.
pub struct Shell<K: KeyboardDriver> {
    keyboard: K,
    buf: [u8; 256],
    len: usize,
}

impl<K: KeyboardDriver> Shell<K> {
    /// The keyboard the shell reads from.
    pub closed spec fn keyboard(&self) -> K {
        self.keyboard
    }

    /// The input line typed so far.
    pub closed spec fn line(&self) -> Seq<u8> {
        self.buf@.take(self.len as int)
    }

    /// The line is shorter than the buffer and printable, and the rest of the
    /// buffer is zero.
    pub closed spec fn wf(&self) -> bool {
        &&& self.len < INPUT_MAX
        &&& forall|i: int| 0 <= i < self.len ==> is_printable(#[trigger] self.buf@[i])
        &&& forall|i: int| self.len <= i < INPUT_MAX ==> #[trigger] self.buf@[i] == 0
    }

    /// A shell reading from `keyboard`, with an empty line.
    pub fn new(keyboard: K) -> (sh: Self)
        ensures
            sh.wf(),
            sh.line() == Seq::<u8>::empty(),
            sh.keyboard() == keyboard,
    {
        let sh = Shell { keyboard, buf: [0u8; 256], len: 0 };
        assert(sh.line() =~= Seq::<u8>::empty());
        sh
    }

    /// The input line typed so far.
    pub fn input(&self) -> (v: Vec<u8>)
        requires
            self.wf(),
        ensures
            v@ == self.line(),
    {
        let mut v: Vec<u8> = Vec::new();
        let mut i: usize = 0;
        while i < self.len
            invariant
                i <= self.len < INPUT_MAX,
                v@ == self.buf@.take(i as int),
            decreases self.len - i,
        {
            v.push(self.buf[i]);
            assert(self.buf@.take(i + 1) =~= self.buf@.take(i as int).push(self.buf@[i as int]));
            i += 1;
        }
        v
    }
}

/// What one key does to the input line and the screen, and what follows:
/// Enter echoes the newline, executes the line, empties it and shows the
/// prompt again unless the shell is to stop; Backspace drops the last byte
/// and erases it on screen; a printable byte is appended and echoed while
/// the line has room; anything else is ignored.
#[verifier::opaque]
pub open spec fn key_step(line: Seq<u8>, s: Screen, c: u8) -> (Seq<u8>, Screen, Flow) {
    let white = color_code(Colors::White);
    if c == 10 {
        let (s2, f) = execute_spec(line, char_step(s, 10, white));
        if f == Flow::Continue {
            (seq![], emit(s2, prompt(), color_code(Colors::LightGreen)), Flow::Continue)
        } else {
            (seq![], s2, f)
        }
    } else if c == 8 {
        if line.len() > 0 {
            (line.drop_last(), backspace_step(s), Flow::Continue)
        } else {
            (line, s, Flow::Continue)
        }
    } else if is_printable(c) {
        if line.len() < INPUT_MAX - 1 {
            (line.push(c), char_step(s, c, white), Flow::Continue)
        } else {
            (line, s, Flow::Continue)
        }
    } else {
        (line, s, Flow::Continue)
    }
}

impl<K: KeyboardDriver> Shell<K> {
    /// Prints the prompt.
    pub fn print_prompt(&self, con: &mut Console)
        requires
            old(con).wf(),
        ensures
            final(con)@ == emit(old(con)@, prompt(), color_code(Colors::LightGreen)),
            final(con).wf(),
    {
        print_message(con, prompt_bytes(), Colors::LightGreen);
    }

    /// Executes the input line (see `execute_spec`).
    pub fn execute(&self, con: &mut Console) -> (f: Flow)
        requires
            self.wf(),
            old(con).wf(),
        ensures
            (final(con)@, f) == execute_spec(self.line(), old(con)@),
            final(con).wf(),
    {
        if self.len == 0 {
            return Flow::Continue;
        }
        let input = vstd::slice::slice_subrange(self.buf.as_slice(), 0, self.len);
        assert(input@ =~= self.line());
        let cmds = commands();
        if let Some(i) = find_command(&cmds, input) {
            return run_action(cmds[i].run, con);
        }
        proof {
            lemma_c_strlen_unique(input@, input@.len() as int);
            assert(c_str(input@) =~= input@);
        }
        print_message(con, unknown_prefix_bytes(), Colors::LightRed);
        printk_str(con, input, Colors::White);
        print_message(con, unknown_suffix_bytes(), Colors::LightRed);
        Flow::Continue
    }

    /// Takes one key (see `key_step`).
    pub fn handle_char(&mut self, con: &mut Console, c: u8) -> (f: Flow)
        requires
            old(self).wf(),
            old(con).wf(),
        ensures
            (final(self).line(), final(con)@, f) == key_step(old(self).line(), old(con)@, c),
            final(self).keyboard() == old(self).keyboard(),
            final(self).wf(),
            final(con).wf(),
    {
        reveal(key_step);
        if c == 10 {
            printk_char(con, 10, Colors::White);
            let flow = self.execute(con);
            let mut i: usize = 0;
            while i < INPUT_MAX
                invariant
                    i <= INPUT_MAX,
                    forall|j: int| 0 <= j < i ==> self.buf@[j] == 0,
                    self.keyboard() == old(self).keyboard(),
                decreases INPUT_MAX - i,
            {
                self.buf[i] = 0;
                i += 1;
            }
            self.len = 0;
            assert(self.line() =~= Seq::<u8>::empty());
            if flow != Flow::Continue {
                return flow;
            }
            self.print_prompt(con);
            Flow::Continue
        } else if c == 8 {
            if self.len > 0 {
                self.len = self.len - 1;
                self.buf[self.len] = 0;
                backspace(con);
                assert(self.line() =~= old(self).line().drop_last());
            }
            Flow::Continue
        } else if c >= 32 && c < 127 {
            if self.len < INPUT_MAX - 1 {
                self.buf[self.len] = c;
                self.len = self.len + 1;
                printk_char(con, c, Colors::White);
                assert(self.line() =~= old(self).line().push(c));
            }
            Flow::Continue
        } else {
            Flow::Continue
        }
    }
}

/// The outcome of a key as `run` sees it: when the shell is to exit, the
/// exit message is printed in light red first.
pub open spec fn after_key(r: (Seq<u8>, Screen, Flow)) -> (Seq<u8>, Screen, Flow) {
    if r.2 == Flow::Exit {
        (r.0, emit(r.1, exit_message(), color_code(Colors::LightRed)), Flow::Exit)
    } else {
        r
    }
}

/// The input line, the screen and what follows after `run` has handled the
/// keys `keys` in order, stopping at the first key after which the shell is
/// not to continue.
pub open spec fn run_keys(line: Seq<u8>, s: Screen, keys: Seq<u8>) -> (Seq<u8>, Screen, Flow)
    decreases keys.len(),
{
    if keys.len() == 0 {
        (line, s, Flow::Continue)
    } else {
        let r = after_key(key_step(line, s, keys[0]));
        if r.2 == Flow::Continue {
            run_keys(r.0, r.1, keys.drop_first())
        } else {
            r
        }
    }
}

/// Handling one more key after keys that all let the shell continue.
pub proof fn lemma_run_keys_push(line: Seq<u8>, s: Screen, keys: Seq<u8>, c: u8)
    requires
        run_keys(line, s, keys).2 == Flow::Continue,
    ensures
        run_keys(line, s, keys.push(c)) == after_key(
            key_step(run_keys(line, s, keys).0, run_keys(line, s, keys).1, c),
        ),
    decreases keys.len(),
{
    if keys.len() == 0 {
        assert(keys.push(c)[0] == c);
        assert(keys.push(c).drop_first() =~= Seq::<u8>::empty());
        let r = after_key(key_step(line, s, c));
        assert(run_keys(line, s, keys) == (line, s, Flow::Continue));
        if r.2 == Flow::Continue {
            assert(run_keys(r.0, r.1, Seq::<u8>::empty()) == (r.0, r.1, Flow::Continue));
            assert(run_keys(line, s, keys.push(c)) == r);
        } else {
            assert(run_keys(line, s, keys.push(c)) == r);
        }
    } else {
        let r = after_key(key_step(line, s, keys[0]));
        assert(keys.push(c)[0] == keys[0]);
        assert(keys.push(c).drop_first() =~= keys.drop_first().push(c));
        lemma_run_keys_push(r.0, r.1, keys.drop_first(), c);
    }
}

/// The keys among the results of a series of polls, in order.
pub open spec fn present_keys(polled: Seq<Option<u8>>) -> Seq<u8>
    decreases polled.len(),
{
    if polled.len() == 0 {
        seq![]
    } else {
        let keys = present_keys(polled.drop_last());
        match polled.last() {
            Some(c) => keys.push(c),
            None => keys,
        }
    }
}

impl<K: KeyboardDriver> Shell<K> {
    /// Reads the keyboard up to `polls` times and handles each key it gives,
    /// returning as soon as the shell is not to continue (printing the exit
    /// message first when it is to exit). Whatever the keyboard gives, the
    /// result is that of handling some sequence of at most `polls` keys.
    pub fn run(&mut self, con: &mut Console, polls: usize) -> (f: Flow)
        requires
            old(self).wf(),
            old(con).wf(),
        ensures
            final(self).wf(),
            final(con).wf(),
            final(self).keyboard() == old(self).keyboard(),
            exists|keys: Seq<u8>|
                keys.len() <= polls && run_keys(old(self).line(), old(con)@, keys) == (
                    final(self).line(),
                    final(con)@,
                    f,
                ),
            exists|polled: Seq<Option<u8>>|
                #![trigger present_keys(polled)]
                {
                    &&& polled.len() <= polls
                    &&& f == Flow::Continue ==> polled.len() == polls
                    &&& forall|j: int|
                        0 <= j < polled.len() ==> call_ensures(
                            K::poll,
                            (&old(self).keyboard(),),
                            #[trigger] polled[j],
                        )
                    &&& run_keys(old(self).line(), old(con)@, present_keys(polled)) == (
                        final(self).line(),
                        final(con)@,
                        f,
                    )
                },
    {
        let ghost line0 = self.line();
        let ghost screen0 = con@;
        let ghost mut keys: Seq<u8> = Seq::empty();
        let ghost mut polled: Seq<Option<u8>> = Seq::empty();
        let mut n: usize = 0;
        while n < polls
            invariant
                n <= polls,
                keys.len() <= n,
                polled.len() == n,
                keys == present_keys(polled),
                forall|j: int| 0 <= j < polled.len() ==> call_ensures(K::poll, (&self.keyboard,), #[trigger] polled[j]),
                self.wf(),
                con.wf(),
                line0 == old(self).line(),
                screen0 == old(con)@,
                self.keyboard() == old(self).keyboard(),
                run_keys(line0, screen0, keys) == (self.line(), con@, Flow::Continue),
            decreases polls - n,
        {
            let key = self.keyboard.poll();
            proof {
                assert(polled.push(key).drop_last() =~= polled);
                polled = polled.push(key);
            }
            if let Some(c) = key {
                let f = self.handle_char(con, c);
                proof {
                    lemma_run_keys_push(line0, screen0, keys, c);
                    keys = keys.push(c);
                    assert(present_keys(polled) == keys);
                    assert(forall|j: int|
                        0 <= j < polled.len() ==> call_ensures(
                            K::poll,
                            (&old(self).keyboard(),),
                            #[trigger] polled[j],
                        ));
                }
                let ghost stepped = (self.line(), con@, f);
                assert(run_keys(line0, screen0, keys) == after_key(stepped));
                if f == Flow::Exit {
                    print_message(con, exit_message_bytes(), Colors::LightRed);
                    assert(run_keys(line0, screen0, keys) == (self.line(), con@, Flow::Exit));
                    return Flow::Exit;
                }
                if f != Flow::Continue {
                    assert(run_keys(line0, screen0, keys) == (self.line(), con@, f));
                    return f;
                }
            }
            n += 1;
        }
        Flow::Continue
    }
}

/// Typing a printable character and then Backspace gives the line back; on
/// screen the cursor is back too and its cell blank, unless the character
/// was typed into the last cell of the screen, which scrolls.
pub proof fn lemma_type_then_erase(line: Seq<u8>, s: Screen, c: u8)
    requires
        s.valid(),
        is_printable(c),
        line.len() < INPUT_MAX - 1,
    ensures
        ({
            let (l1, s1, f1) = key_step(line, s, c);
            let (l2, s2, f2) = key_step(l1, s1, 8);
            &&& f1 == Flow::Continue
            &&& f2 == Flow::Continue
            &&& l2 == line
            &&& !(s.row == VGA_HEIGHT - 1 && s.col == VGA_WIDTH - 1) ==> s2 == (Screen {
                bytes: put_cell(s.bytes, s.cursor_pos(), 32, 0),
                ..s
            })
        }),
{
    reveal(key_step);
    assert(line.push(c).drop_last() =~= line);
    if !(s.row == VGA_HEIGHT - 1 && s.col == VGA_WIDTH - 1) {
        lemma_backspace_after_char(s, c, color_code(Colors::White));
    }
}

/// Only Enter can stop the shell, and after Enter the line is empty.
pub proof fn lemma_only_enter_stops(line: Seq<u8>, s: Screen, c: u8)
    ensures
        c != 10 ==> key_step(line, s, c).2 == Flow::Continue,
        c == 10 ==> key_step(line, s, c).0 == Seq::<u8>::empty(),
{
    reveal(key_step);
}

/// A key keeps the line at most `INPUT_MAX - 1` printable bytes long: it
/// leaves the line alone, drops its last byte, appends a printable byte or
/// empties it.
pub proof fn lemma_line_stays_bounded(line: Seq<u8>, s: Screen, c: u8)
    requires
        line.len() < INPUT_MAX,
        forall|i: int| 0 <= i < line.len() ==> is_printable(#[trigger] line[i]),
    ensures
        ({
            let l = key_step(line, s, c).0;
            &&& l.len() < INPUT_MAX
            &&& forall|i: int| 0 <= i < l.len() ==> is_printable(#[trigger] l[i])
            &&& (l == line || l == line.drop_last() || l == line.push(c) || l.len() == 0)
        }),
{
    reveal(key_step);
}

/// An input line that names no command does not stop the shell.
pub proof fn lemma_unknown_command_continues(line: Seq<u8>, s: Screen)
    requires
        command_for(line) is None,
    ensures
        execute_spec(line, s).1 == Flow::Continue,
{
}

/// Every key leaves a valid screen valid.
pub proof fn lemma_key_step_valid(line: Seq<u8>, s: Screen, c: u8)
    requires
        s.valid(),
    ensures
        key_step(line, s, c).1.valid(),
{
    reveal(key_step);
    let white = color_code(Colors::White);
    let s1 = char_step(s, 10, white);
    lemma_char_step_valid(s, 10, white);
    lemma_execute_valid(line, s1);
    let (s2, f) = execute_spec(line, s1);
    lemma_emit_valid(s2, prompt(), color_code(Colors::LightGreen));
    lemma_char_step_valid(s, c, white);
}

proof fn lemma_help_lines_valid(s: Screen, n: int)
    requires
        s.valid(),
    ensures
        help_lines(s, n).valid(),
    decreases n,
{
    if n > 0 {
        lemma_help_lines_valid(s, n - 1);
        let t = help_lines(s, n - 1);
        let white = color_code(Colors::White);
        let name = command_table()[n - 1].0;
        let desc = command_table()[n - 1].1;
        lemma_emit_valid(t, help_indent(), white);
        let s1 = emit(t, help_indent(), white);
        lemma_emit_valid(s1, c_str(name), color_code(Colors::Yellow));
        let s2 = emit(s1, c_str(name), color_code(Colors::Yellow));
        lemma_emit_valid(s2, name_padding(c_strlen(name)), white);
        let s3 = emit(s2, name_padding(c_strlen(name)), white);
        lemma_emit_valid(s3, c_str(desc), color_code(Colors::Gray));
        let s4 = emit(s3, c_str(desc), color_code(Colors::Gray));
        lemma_char_step_valid(s4, 10, white);
    }
}

proof fn lemma_execute_valid(line: Seq<u8>, s: Screen)
    requires
        s.valid(),
    ensures
        execute_spec(line, s).0.valid(),
{
    let red = color_code(Colors::LightRed);
    let white = color_code(Colors::White);
    let head = emit(s, help_header(), color_code(Colors::LightCyan));
    lemma_emit_valid(s, help_header(), color_code(Colors::LightCyan));
    lemma_help_lines_valid(head, command_table().len() as int);
    lemma_char_step_valid(help_lines(head, command_table().len() as int), 10, white);
    crate::gdt::lemma_info_screen_valid(s);
    lemma_emit_valid(s, rebooting(), red);
    lemma_emit_valid(s, halting(), red);
    lemma_emit_valid(s, unknown_prefix(), red);
    let s1 = emit(s, unknown_prefix(), red);
    lemma_emit_valid(s1, line, white);
    lemma_emit_valid(emit(s1, line, white), unknown_suffix(), red);
}

/// Backspace on an empty line changes nothing: not the line, not the screen,
/// not the cursor.
pub proof fn lemma_backspace_on_empty_line(s: Screen)
    ensures
        key_step(Seq::<u8>::empty(), s, 8) == (Seq::<u8>::empty(), s, Flow::Continue),
{
    reveal(key_step);
}

/// Backspace on a non-empty line drops exactly its last byte and erases the
/// character before the cursor.
pub proof fn lemma_backspace_on_line(line: Seq<u8>, s: Screen)
    requires
        line.len() > 0,
    ensures
        key_step(line, s, 8).0 == line.subrange(0, line.len() - 1),
        key_step(line, s, 8).1 == backspace_step(s),
        key_step(line, s, 8).2 == Flow::Continue,
{
    reveal(key_step);
}

/// A printable key is appended to the line and echoed in white at the cursor
/// while the line has room; when the line is full, or for a key that is
/// neither printable nor Enter nor Backspace, nothing changes.
pub proof fn lemma_typing(line: Seq<u8>, s: Screen, c: u8)
    ensures
        is_printable(c) && line.len() < INPUT_MAX - 1 ==> {
            let (l, t, f) = key_step(line, s, c);
            &&& l.len() == line.len() + 1
            &&& l.subrange(0, line.len() as int) == line
            &&& l[line.len() as int] == c
            &&& t == char_step(s, c, color_code(Colors::White))
            &&& f == Flow::Continue
        },
        is_printable(c) && line.len() >= INPUT_MAX - 1 ==> key_step(line, s, c) == (line, s, Flow::Continue),
        !is_printable(c) && c != 8 && c != 10 ==> key_step(line, s, c) == (line, s, Flow::Continue),
{
    reveal(key_step);
    assert(line.push(c).subrange(0, line.len() as int) =~= line);
}

/// In the help text a name shorter than ten bytes is followed by spaces up
/// to the tenth column; a longer one by none.
pub proof fn lemma_name_padding(len: nat)
    ensures
        len < 10 ==> len + name_padding(len).len() == 10,
        len >= 10 ==> name_padding(len).len() == 0,
        forall|i: int| 0 <= i < name_padding(len).len() ==> #[trigger] name_padding(len)[i] == 32,
{
}

} // verus!
