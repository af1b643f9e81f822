use std::cell::RefCell;
use std::collections::VecDeque;

use kfs::keyboard::KeyboardDriver;
use kfs::libft::Console;
use kfs::shell::{commands, CommandAction, Flow, Shell};

struct Script {
    keys: RefCell<VecDeque<Option<u8>>>,
}

impl Script {
    fn new(text: &[u8]) -> Script {
        Script { keys: RefCell::new(text.iter().map(|&c| Some(c)).collect()) }
    }

    fn empty() -> Script {
        Script { keys: RefCell::new(VecDeque::new()) }
    }
}

impl KeyboardDriver for Script {
    fn poll(&self) -> Option<u8> {
        self.keys.borrow_mut().pop_front().flatten()
    }
}

fn row_text(con: &Console, row: usize) -> String {
    let b = con.bytes();
    (0..80).map(|c| b[2 * (row * 80 + c)] as char).collect::<String>().trim_end().to_string()
}

fn type_line(sh: &mut Shell<Script>, con: &mut Console, text: &[u8]) -> Flow {
    let mut last = Flow::Continue;
    for &c in text {
        last = sh.handle_char(con, c);
    }
    last
}

#[test]
fn command_table_names() {
    let names: Vec<&[u8]> = commands().iter().map(|c| c.name).collect();
    assert_eq!(names, vec![&b"help"[..], b"stack", b"gdt", b"clear", b"reboot", b"halt", b"exit"]);
    assert_eq!(commands()[6].run, CommandAction::Exit);
    assert_eq!(commands()[0].description, b"List available commands");
}

#[test]
fn prompt_is_printed_in_light_green() {
    let sh = Shell::new(Script::empty());
    let mut con = Console::new();
    sh.print_prompt(&mut con);
    assert_eq!(row_text(&con, 0), "kfs>");
    assert_eq!(con.cursor(), (0, 5));
    assert_eq!(con.bytes()[1], 0xA);
}

#[test]
fn typing_echoes_and_fills_the_line() {
    let mut sh = Shell::new(Script::empty());
    let mut con = Console::new();
    assert_eq!(type_line(&mut sh, &mut con, b"he"), Flow::Continue);
    assert_eq!(sh.input(), b"he".to_vec());
    assert_eq!(row_text(&con, 0), "he");
    assert_eq!(con.bytes()[1], 0xF);
}

#[test]
fn backspace_removes_last_character() {
    let mut sh = Shell::new(Script::empty());
    let mut con = Console::new();
    type_line(&mut sh, &mut con, b"abc\x08");
    assert_eq!(sh.input(), b"ab".to_vec());
    assert_eq!(row_text(&con, 0), "ab");
    assert_eq!(con.cursor(), (0, 2));
    type_line(&mut sh, &mut con, b"\x08\x08\x08");
    assert_eq!(sh.input(), Vec::<u8>::new());
    assert_eq!(con.cursor(), (0, 0));
}

#[test]
fn unprintable_keys_are_ignored() {
    let mut sh = Shell::new(Script::empty());
    let mut con = Console::new();
    type_line(&mut sh, &mut con, b"a\t\x1b\x7fb");
    assert_eq!(sh.input(), b"ab".to_vec());
}

#[test]
fn line_holds_at_most_255_bytes() {
    let mut sh = Shell::new(Script::empty());
    let mut con = Console::new();
    let long = vec![b'x'; 300];
    type_line(&mut sh, &mut con, &long);
    assert_eq!(sh.input().len(), 255);
    assert_eq!(con.cursor(), (3, 15));
}

#[test]
fn unknown_command_is_reported() {
    let mut sh = Shell::new(Script::empty());
    let mut con = Console::new();
    assert_eq!(type_line(&mut sh, &mut con, b"foo\n"), Flow::Continue);
    assert_eq!(row_text(&con, 0), "foo");
    assert_eq!(row_text(&con, 1), "unknown command: 'foo'  (type 'help')");
    assert_eq!(row_text(&con, 2), "kfs>");
    assert_eq!(sh.input(), Vec::<u8>::new());
}

#[test]
fn empty_line_just_prompts_again() {
    let mut sh = Shell::new(Script::empty());
    let mut con = Console::new();
    assert_eq!(type_line(&mut sh, &mut con, b"\n"), Flow::Continue);
    assert_eq!(row_text(&con, 1), "kfs>");
}

#[test]
fn help_lists_commands() {
    let mut sh = Shell::new(Script::empty());
    let mut con = Console::new();
    assert_eq!(type_line(&mut sh, &mut con, b"help\n"), Flow::Continue);
    assert_eq!(row_text(&con, 0), "help");
    assert_eq!(row_text(&con, 1), "");
    assert_eq!(row_text(&con, 2), "Available commands:");
    assert_eq!(row_text(&con, 3), "  help      List available commands");
    assert_eq!(row_text(&con, 4), "  stack     Print kernel stack dump");
    assert_eq!(row_text(&con, 7), "  reboot    Reboot the system");
    assert_eq!(row_text(&con, 9), "  exit      Cause the shell to exit");
    assert_eq!(row_text(&con, 10), "");
    assert_eq!(row_text(&con, 11), "kfs>");
    assert_eq!(con.bytes()[2 * (3 * 80 + 2) + 1], 0xE);
    assert_eq!(con.bytes()[2 * (3 * 80 + 12) + 1], 0x7);
}

#[test]
fn clear_blanks_the_screen_then_prompts() {
    let mut sh = Shell::new(Script::empty());
    let mut con = Console::new();
    assert_eq!(type_line(&mut sh, &mut con, b"clear\n"), Flow::Continue);
    assert_eq!(row_text(&con, 0), "kfs>");
    assert_eq!(row_text(&con, 1), "");
    assert_eq!(con.cursor(), (0, 5));
}

#[test]
fn machine_commands_are_handed_back() {
    let mut sh = Shell::new(Script::empty());
    let mut con = Console::new();
    assert_eq!(type_line(&mut sh, &mut con, b"stack\n"), Flow::DumpStack);
    assert_eq!(type_line(&mut sh, &mut con, b"reboot\n"), Flow::Reboot);
    assert_eq!(row_text(&con, 2), "Rebooting...");
    assert_eq!(type_line(&mut sh, &mut con, b"halt\n"), Flow::Halt);
    assert_eq!(row_text(&con, 4), "Halting...");
    assert_eq!(sh.input(), Vec::<u8>::new());
}

#[test]
fn exit_stops_without_prompt() {
    let mut sh = Shell::new(Script::empty());
    let mut con = Console::new();
    assert_eq!(type_line(&mut sh, &mut con, b"exit\n"), Flow::Exit);
    assert_eq!(row_text(&con, 1), "");
    assert_eq!(con.cursor(), (1, 0));
}

#[test]
fn command_names_must_match_exactly() {
    let mut sh = Shell::new(Script::empty());
    let mut con = Console::new();
    assert_eq!(type_line(&mut sh, &mut con, b"exit2\n"), Flow::Continue);
    assert_eq!(row_text(&con, 1), "unknown command: 'exit2'  (type 'help')");
    assert_eq!(type_line(&mut sh, &mut con, b"hel\n"), Flow::Continue);
}

#[test]
fn run_reads_keys_until_exit() {
    let mut sh = Shell::new(Script::new(b"foo\x08\x08\x08exit\nhelp\n"));
    let mut con = Console::new();
    sh.print_prompt(&mut con);
    assert_eq!(sh.run(&mut con, 100), Flow::Exit);
    assert_eq!(row_text(&con, 0), "kfs> exit");
    assert_eq!(row_text(&con, 1), "");
    assert_eq!(row_text(&con, 2), "Shell exited. Powering off.");
    assert_eq!(con.cursor(), (3, 0));
}

#[test]
fn run_stops_after_the_given_number_of_polls() {
    let mut sh = Shell::new(Script {
        keys: RefCell::new(vec![None, Some(b'l'), None, Some(b's'), Some(b'x')].into_iter().collect()),
    });
    let mut con = Console::new();
    assert_eq!(sh.run(&mut con, 4), Flow::Continue);
    assert_eq!(sh.input(), b"ls".to_vec());
    assert_eq!(sh.run(&mut con, 4), Flow::Continue);
    assert_eq!(sh.input(), b"lsx".to_vec());
}

#[test]
fn run_hands_back_machine_requests() {
    let mut sh = Shell::new(Script::new(b"stack\nls"));
    let mut con = Console::new();
    assert_eq!(sh.run(&mut con, 100), Flow::DumpStack);
    assert_eq!(sh.input(), Vec::<u8>::new());
    assert_eq!(sh.run(&mut con, 100), Flow::Continue);
    assert_eq!(sh.input(), b"ls".to_vec());
}

#[test]
fn gdt_lists_the_table_then_prompts() {
    let mut sh = Shell::new(Script::empty());
    let mut con = Console::new();
    assert_eq!(type_line(&mut sh, &mut con, b"gdt\n"), Flow::Continue);
    assert_eq!(row_text(&con, 0), "gdt");
    assert_eq!(row_text(&con, 1), "");
    assert_eq!(row_text(&con, 2), "GDT at 0x00000800, limit 0x00000037");
    assert_eq!(row_text(&con, 3), "  0x00000000: 0x00000000 0x00000000");
    assert_eq!(row_text(&con, 4), "  0x00000008: 0x00CF9A00 0x0000FFFF");
    assert_eq!(row_text(&con, 7), "  0x00000020: 0x00CFFA00 0x0000FFFF");
    assert_eq!(row_text(&con, 9), "  0x00000030: 0x00CFF200 0x0000FFFF");
    assert_eq!(row_text(&con, 10), "kfs>");
}

#[test]
fn new_shell_reads_from_the_given_keyboard() {
    let mut sh = Shell::new(Script::new(b"ok"));
    let mut con = Console::new();
    assert_eq!(sh.run(&mut con, 2), Flow::Continue);
    assert_eq!(sh.input(), b"ok".to_vec());
}
