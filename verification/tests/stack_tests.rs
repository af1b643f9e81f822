use kfs::libft::Console;
use kfs::stack::print_kernel_stack;

fn row_text(con: &Console, row: usize) -> String {
    let b = con.bytes();
    (0..80).map(|c| b[2 * (row * 80 + c)] as char).collect::<String>().trim_end().to_string()
}

#[test]
fn stack_dump_layout() {
    let mut con = Console::new();
    print_kernel_stack(&mut con, 0x1000, 0x2000, &[1, 2, 3, 4, 0xCAFEBABE]);
    assert_eq!(row_text(&con, 0), "");
    assert_eq!(row_text(&con, 1), "--- Kernel stack dump ---");
    assert_eq!(row_text(&con, 2), "ESP = 0x00001000   EBP = 0x00002000");
    assert_eq!(row_text(&con, 3), "0x00001000:  0x00000001 0x00000002 0x00000003 0x00000004");
    assert_eq!(row_text(&con, 4), "0x00001010:  0xCAFEBABE");
    assert_eq!(con.cursor(), (5, 0));
    assert_eq!(con.bytes()[2 * (3 * 80) + 1], 0x3);
    assert_eq!(con.bytes()[2 * (3 * 80 + 13) + 1], 0xF);
    assert_eq!(con.bytes()[2 * 80 + 1], 0xE);
}

#[test]
fn stack_dump_full_lines_end_without_extra_newline() {
    let mut con = Console::new();
    print_kernel_stack(&mut con, 0x10, 0x20, &[9, 8, 7, 6]);
    assert_eq!(row_text(&con, 3), "0x00000010:  0x00000009 0x00000008 0x00000007 0x00000006");
    assert_eq!(con.cursor(), (4, 0));
}
