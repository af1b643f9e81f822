use kfs::libft::{
    backspace, clear_screen, printk, printk_char, printk_hex, printk_nbr, printk_str, putchar, putnbr,
    putstr, reset_cursor, strcmp, strlen, Console, PrintkArg,
};
use kfs::types::Colors;

fn row_text(con: &Console, row: usize) -> String {
    let b = con.bytes();
    (0..80).map(|c| b[2 * (row * 80 + c)] as char).collect::<String>().trim_end().to_string()
}

fn attr_at(con: &Console, pos: usize) -> u8 {
    con.bytes()[2 * pos + 1]
}

#[test]
fn new_console_is_blank() {
    let con = Console::new();
    assert_eq!(con.bytes().len(), 4000);
    assert!(con.bytes().chunks(2).all(|c| c[0] == b' ' && c[1] == 0));
    assert_eq!(con.cursor(), (0, 0));
}

#[test]
fn strlen_stops_at_nul() {
    assert_eq!(strlen(b"abc\0def"), 3);
    assert_eq!(strlen(b"abc"), 3);
    assert_eq!(strlen(b"\0"), 0);
    assert_eq!(strlen(b""), 0);
}

#[test]
fn strcmp_differences() {
    assert_eq!(strcmp(b"abc\0", b"abd\0"), -1);
    assert_eq!(strcmp(b"abd\0", b"abc\0"), 1);
    assert_eq!(strcmp(b"abc\0", b"abc\0"), 0);
    assert_eq!(strcmp(b"abc\0xyz", b"abc\0123"), 0);
    assert_eq!(strcmp(b"ab\0", b"abc\0"), -(b'c' as i32));
    assert_eq!(strcmp(b"b\0", b"a\0"), 1);
}

#[test]
fn printk_char_writes_and_advances() {
    let mut con = Console::new();
    printk_char(&mut con, b'A', Colors::Yellow);
    assert_eq!(con.bytes()[0], b'A');
    assert_eq!(attr_at(&con, 0), 0xE);
    assert_eq!(con.cursor(), (0, 1));
    printk_char(&mut con, b'\n', Colors::White);
    assert_eq!(con.cursor(), (1, 0));
    assert_eq!(con.bytes()[2], b' ');
}

#[test]
fn printk_char_wraps_at_end_of_row() {
    let mut con = Console::new();
    for _ in 0..80 {
        printk_char(&mut con, b'x', Colors::White);
    }
    assert_eq!(con.cursor(), (1, 0));
    assert_eq!(row_text(&con, 0), "x".repeat(80));
}

#[test]
fn printk_char_scrolls_past_last_row() {
    let mut con = Console::new();
    printk_char(&mut con, b'T', Colors::White);
    for _ in 0..24 {
        printk_char(&mut con, b'\n', Colors::White);
    }
    assert_eq!(con.cursor(), (24, 0));
    printk_char(&mut con, b'B', Colors::Red);
    printk_char(&mut con, b'\n', Colors::White);
    assert_eq!(con.cursor(), (24, 0));
    assert_eq!(row_text(&con, 0), "");
    assert_eq!(row_text(&con, 23), "B");
    assert_eq!(attr_at(&con, 23 * 80), 0x4);
    assert_eq!(row_text(&con, 24), "");
    assert_eq!(attr_at(&con, 24 * 80), 0);
}

#[test]
fn printk_formats_arguments() {
    let mut con = Console::new();
    printk(
        &mut con,
        b"n=%d s=%s x=%x 100%% %q end",
        Colors::White,
        &[PrintkArg::Int(-42), PrintkArg::Str(b"ok\0ignored"), PrintkArg::Hex(0xBEEF)],
    );
    assert_eq!(row_text(&con, 0), "n=-42 s=ok x=0x0000BEEF 100% %q end");
}

#[test]
fn printk_skips_mismatched_and_missing_arguments() {
    let mut con = Console::new();
    printk(&mut con, b"[%x][%d][%s]%", Colors::White, &[PrintkArg::Int(5), PrintkArg::Int(7)]);
    assert_eq!(row_text(&con, 0), "[][7][]%");
}

#[test]
fn printk_nbr_decimal() {
    let mut con = Console::new();
    printk_nbr(&mut con, -42, Colors::White);
    printk_char(&mut con, b' ', Colors::White);
    printk_nbr(&mut con, 0, Colors::White);
    printk_char(&mut con, b' ', Colors::White);
    printk_nbr(&mut con, 1234567890, Colors::White);
    printk_char(&mut con, b' ', Colors::White);
    printk_nbr(&mut con, i32::MIN as isize, Colors::White);
    assert_eq!(row_text(&con, 0), "-42 0 1234567890 -2147483648");
}

#[test]
fn printk_hex_eight_upper_case_digits() {
    let mut con = Console::new();
    printk_hex(&mut con, 0xDEADBEEF, Colors::White);
    printk_char(&mut con, b' ', Colors::White);
    printk_hex(&mut con, 0x800, Colors::White);
    assert_eq!(row_text(&con, 0), "0xDEADBEEF 0x00000800");
}

#[test]
fn printk_str_stops_at_nul() {
    let mut con = Console::new();
    printk_str(&mut con, b"hi\0there", Colors::Green);
    assert_eq!(row_text(&con, 0), "hi");
    assert_eq!(con.cursor(), (0, 2));
    assert_eq!(attr_at(&con, 1), 0x2);
}

#[test]
fn putchar_and_putnbr_do_not_move_cursor() {
    let mut con = Console::new();
    putchar(&mut con, b'Z', Colors::Cyan, 81);
    assert_eq!(row_text(&con, 1), " Z");
    assert_eq!(attr_at(&con, 81), 0x3);
    let next = putnbr(&mut con, -305, Colors::White, 160);
    assert_eq!(next, 164);
    assert_eq!(row_text(&con, 2), "-305");
    assert_eq!(con.cursor(), (0, 0));
}

#[test]
fn putstr_newline_jumps_to_next_row() {
    let mut con = Console::new();
    putstr(&mut con, b"ab\ncd\0ef", Colors::White, 5);
    assert_eq!(row_text(&con, 0), "     ab");
    assert_eq!(row_text(&con, 1), "cd");
    assert_eq!(con.cursor(), (0, 0));
}

#[test]
fn backspace_erases_previous_cell() {
    let mut con = Console::new();
    backspace(&mut con);
    assert_eq!(con.cursor(), (0, 0));
    printk_char(&mut con, b'q', Colors::White);
    backspace(&mut con);
    assert_eq!(con.cursor(), (0, 0));
    assert_eq!(con.bytes()[0], b' ');
    assert_eq!(con.bytes()[1], 0);
    printk_char(&mut con, b'\n', Colors::White);
    backspace(&mut con);
    assert_eq!(con.cursor(), (0, 79));
}

#[test]
fn clear_screen_blanks_and_homes() {
    let mut con = Console::new();
    printk(&mut con, b"some text\nmore", Colors::LightRed, &[]);
    clear_screen(&mut con);
    assert!(con.bytes().chunks(2).all(|c| c[0] == b' ' && c[1] == 0));
    assert_eq!(con.cursor(), (0, 0));
}

#[test]
fn reset_cursor_keeps_text() {
    let mut con = Console::new();
    printk(&mut con, b"abc", Colors::White, &[]);
    reset_cursor(&mut con);
    assert_eq!(con.cursor(), (0, 0));
    assert_eq!(row_text(&con, 0), "abc");
}

#[test]
fn cursor_position_bytes_split_the_cell_index() {
    let mut con = Console::new();
    for _ in 0..5 {
        printk_char(&mut con, b'\n', Colors::White);
    }
    printk(&mut con, b"abc", Colors::White, &[]);
    let (low, high) = con.cursor_position_bytes();
    let pos = 5 * 80 + 3;
    assert_eq!(low as usize, pos & 0xFF);
    assert_eq!(high as usize, pos >> 8);
}

#[test]
fn color_values() {
    assert_eq!(Colors::Black.value(), 0);
    assert_eq!(Colors::LightGreen.value(), 0xA);
    assert_eq!(Colors::White.value(), 0xF);
}
