use kfs::gdt::make_entry;
use kfs::keyboard::{KeyboardDriver, Ps2Keyboard};
use kfs::libft::{printk, printk_char, printk_hex, printk_nbr, printk_str, strcmp, Console, PrintkArg};
use kfs::shell::{Flow, Shell};
use kfs::types::Colors;

struct NoKeys;

impl KeyboardDriver for NoKeys {
    fn poll(&self) -> Option<u8> {
        None
    }
}

fn row_text(con: &Console, row: usize) -> String {
    let b = con.bytes();
    (0..80).map(|c| b[2 * (row * 80 + c)] as char).collect::<String>().trim_end().to_string()
}

#[test]
fn writing_in_two_pieces_is_writing_the_whole() {
    let mut a = Console::new();
    printk(&mut a, b"ab", Colors::Blue, &[]);
    printk(&mut a, b"c\nd", Colors::Blue, &[]);
    let mut b = Console::new();
    printk(&mut b, b"abc\nd", Colors::Blue, &[]);
    assert_eq!(a.bytes(), b.bytes());
    assert_eq!(a.cursor(), b.cursor());
}

#[test]
fn plain_format_is_written_as_is() {
    let mut a = Console::new();
    printk(&mut a, b"plain text, no conversions", Colors::Gray, &[]);
    let mut b = Console::new();
    printk_str(&mut b, b"plain text, no conversions", Colors::Gray);
    assert_eq!(a.bytes(), b.bytes());
}

#[test]
fn decimal_text_reads_back() {
    for n in [0isize, 7, -7, 10, 99, -100, 123456, i32::MAX as isize, i32::MIN as isize] {
        let mut con = Console::new();
        printk_nbr(&mut con, n, Colors::White);
        let text = row_text(&con, 0);
        assert_eq!(text.parse::<isize>().unwrap(), n);
        assert!(!text.starts_with('0') || n == 0);
    }
}

#[test]
fn hex_text_reads_back() {
    for n in [0u32, 1, 0xA, 0xFF, 0x800, 0xDEADBEEF, u32::MAX] {
        let mut con = Console::new();
        printk_hex(&mut con, n, Colors::White);
        let text = row_text(&con, 0);
        assert_eq!(text.len(), 10);
        assert!(text.starts_with("0x"));
        assert_eq!(u32::from_str_radix(&text[2..], 16).unwrap(), n);
    }
}

#[test]
fn backspace_undoes_a_character_except_in_the_last_cell() {
    let mut con = Console::new();
    printk(&mut con, b"12345", Colors::White, &[]);
    let before = con.cursor();
    printk_char(&mut con, b'x', Colors::Red);
    kfs::libft::backspace(&mut con);
    assert_eq!(con.cursor(), before);
    assert_eq!(row_text(&con, 0), "12345");
}

#[test]
fn newline_moves_to_next_row_start() {
    let mut con = Console::new();
    printk(&mut con, b"abc", Colors::White, &[]);
    printk_char(&mut con, b'\n', Colors::White);
    assert_eq!(con.cursor(), (1, 0));
    assert_eq!(row_text(&con, 0), "abc");
}

#[test]
fn comparison_is_antisymmetric() {
    let pairs: [(&[u8], &[u8]); 4] = [(b"abc\0", b"abd\0"), (b"a\0", b"\0"), (b"zz\0", b"zz\0"), (b"x\0", b"y\0")];
    for (a, b) in pairs {
        assert_eq!(strcmp(b, a), -strcmp(a, b));
    }
}

#[test]
fn colors_have_distinct_codes() {
    let all = [
        Colors::Black,
        Colors::Blue,
        Colors::Green,
        Colors::Cyan,
        Colors::Red,
        Colors::Magenta,
        Colors::Brown,
        Colors::Gray,
        Colors::DarkGray,
        Colors::LightBlue,
        Colors::LightGreen,
        Colors::LightCyan,
        Colors::LightRed,
        Colors::LightMagenta,
        Colors::Yellow,
        Colors::White,
    ];
    for (i, c) in all.iter().enumerate() {
        assert_eq!(c.value() as usize, i);
    }
}

#[test]
fn descriptor_gives_back_base_limit_and_flags() {
    for (base, limit, gran) in [(0u32, 0xFFFFFu32, 0xCFu8), (0x12345678, 0xABCDE, 0x4F), (0xFFFFFFFF, 0x7FFFFFFF, 0x80)] {
        let e = make_entry(base, limit, 0x92, gran);
        let b = e.base_low as u32 | (e.base_middle as u32) << 16 | (e.base_high as u32) << 24;
        let l = e.limit_low as u32 | ((e.granularity & 0x0F) as u32) << 16;
        assert_eq!(b, base);
        assert_eq!(l, limit & 0xFFFFF);
        assert_eq!(e.granularity & 0xF0, gran & 0xF0);
    }
}

#[test]
fn decoder_output_is_printable_or_control() {
    for shift in [false, true] {
        for sc in 0u8..=255 {
            let mut k = Ps2Keyboard::new();
            if shift {
                k.handle_scancode(0x2A);
            }
            if let Some(c) = k.handle_scancode(sc) {
                assert!((32..127).contains(&c) || [8, 9, 10, 27].contains(&c), "{sc:#x} gave {c}");
            }
        }
    }
}

#[test]
fn break_codes_give_nothing() {
    for sc in 0x80u8..=0xFF {
        let mut k = Ps2Keyboard::new();
        k.handle_scancode(0x2A);
        assert_eq!(k.handle_scancode(sc), None);
        assert_eq!(k.shift(), !(sc == 0xAA || sc == 0xB6));
    }
}

#[test]
fn shifted_letters_are_upper_case() {
    for sc in 0u8..58 {
        let mut plain = Ps2Keyboard::new();
        if let Some(c) = plain.handle_scancode(sc) {
            if c.is_ascii_lowercase() {
                let mut shifted = Ps2Keyboard::new();
                shifted.handle_scancode(0x36);
                assert_eq!(shifted.handle_scancode(sc), Some(c.to_ascii_uppercase()));
            }
        }
    }
}

#[test]
fn only_enter_can_stop_the_shell() {
    let mut sh = Shell::new(NoKeys);
    let mut con = Console::new();
    for c in 0u8..=255 {
        if c != b'\n' {
            assert_eq!(sh.handle_char(&mut con, c), Flow::Continue);
        }
    }
    assert!(sh.input().len() <= 255);
    assert!(sh.input().iter().all(|c| (32..127).contains(c)));
}

#[test]
fn typing_then_erasing_restores_the_line() {
    let mut sh = Shell::new(NoKeys);
    let mut con = Console::new();
    for &c in b"ec" {
        sh.handle_char(&mut con, c);
    }
    let (line, cursor) = (sh.input(), con.cursor());
    sh.handle_char(&mut con, b'h');
    sh.handle_char(&mut con, 0x08);
    assert_eq!(sh.input(), line);
    assert_eq!(con.cursor(), cursor);
}

#[test]
fn arguments_past_the_conversions_are_not_read() {
    let mut a = Console::new();
    printk(&mut a, b"%d and %x, 100%%\n", Colors::White, &[PrintkArg::Int(3), PrintkArg::Hex(0x10)]);
    let mut b = Console::new();
    printk(
        &mut b,
        b"%d and %x, 100%%\n",
        Colors::White,
        &[PrintkArg::Int(3), PrintkArg::Hex(0x10), PrintkArg::Str(b"unused"), PrintkArg::Int(9)],
    );
    assert_eq!(a.bytes(), b.bytes());
    assert_eq!(a.cursor(), b.cursor());
}
