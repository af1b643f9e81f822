use vstd::prelude::*;
use vstd::string::StringSliceAdditionalSpecFns;
use crate::libft::{
    char_step, emit, hex_text, printk, printk_char, printk_hex, printk_text, Console, PrintkArg, Screen,
};
use crate::libft::{hex_value, lemma_hex_round_trip, lemma_printk_accepts_without_int, lemma_printk_plain};
use crate::types::{Colors, color_code};

verus! {

/// The banner above a stack dump.
pub open spec fn stack_banner() -> Seq<u8> {
    "\n--- Kernel stack dump ---\n".spec_bytes()
}

/// The format of the register line of a stack dump.
pub open spec fn register_format() -> Seq<u8> {
    "ESP = %x   EBP = %x\n".spec_bytes()
}

/// What follows an address in a stack dump.
pub open spec fn address_separator() -> Seq<u8> {
    ":  ".spec_bytes()
}

fn stack_banner_bytes() -> (b: &'static [u8])
    ensures
        b@ == stack_banner(),
        forall|j: int| 0 <= j < b@.len() ==> b@[j] != 37,
{
    let s: &'static str = "\n--- Kernel stack dump ---\n";
    proof {
        reveal_strlit("\n--- Kernel stack dump ---\n");
        vstd::string::is_ascii_spec_bytes(s);
    }
    s.as_bytes()
}

fn register_format_bytes() -> (b: &'static [u8])
    ensures
        b@ == register_format(),
{
    "ESP = %x   EBP = %x\n".as_bytes()
}

fn address_separator_bytes() -> (b: &'static [u8])
    ensures
        b@ == address_separator(),
        forall|j: int| 0 <= j < b@.len() ==> b@[j] != 37,
{
    let s: &'static str = ":  ";
    proof {
        reveal_strlit(":  ");
        vstd::string::is_ascii_spec_bytes(s);
    }
    s.as_bytes()
}

/// The register line of a stack dump: `ESP = ` and the stack pointer, then
/// `   EBP = ` and the frame pointer, in hexadecimal, then a newline.
pub open spec fn register_line(esp: u32, ebp: u32) -> Seq<u8> {
    "ESP = ".spec_bytes() + hex_text(esp) + "   EBP = ".spec_bytes() + hex_text(ebp) + seq![10u8]
}

proof fn lemma_register_line(esp: u32, ebp: u32)
    ensures
        printk_text(register_format(), seq![PrintkArg::Hex(esp), PrintkArg::Hex(ebp)]) == register_line(esp, ebp),
{
    reveal_strlit("ESP = %x   EBP = %x\n");
    reveal_strlit("ESP = ");
    reveal_strlit("   EBP = ");
    vstd::string::is_ascii_spec_bytes("ESP = %x   EBP = %x\n");
    vstd::string::is_ascii_spec_bytes("ESP = ");
    vstd::string::is_ascii_spec_bytes("   EBP = ");
    let f = register_format();
    let args = seq![PrintkArg::Hex(esp), PrintkArg::Hex(ebp)];
    assert(f =~= seq![69u8, 83, 80, 32, 61, 32, 37, 120, 32, 32, 32, 69, 66, 80, 32, 61, 32, 37, 120, 10]);
    reveal_with_fuel(crate::libft::printk_from, 20);
    assert(printk_text(f, args) =~= register_line(esp, ebp));
}

/// The screen after the hexadecimal text of word `i` of a dump: the word and
/// a space in white, and a newline after every fourth word.
pub open spec fn word_value_step(s: Screen, w: u32, i: int) -> Screen {
    let white = color_code(Colors::White);
    let s2 = char_step(emit(s, hex_text(w), white), 32, white);
    if i % 4 == 3 {
        char_step(s2, 10, white)
    } else {
        s2
    }
}

/// The screen after word `i` of a dump starting at address `esp`: before
/// every fourth word its address and `:  ` in cyan, then the word (see
/// `word_value_step`).
pub open spec fn dump_word(s: Screen, esp: u32, words: Seq<u32>, i: int) -> Screen {
    let cyan = color_code(Colors::Cyan);
    let s1 = if i % 4 == 0 {
        emit(emit(s, hex_text((esp + 4 * i) as u32), cyan), address_separator(), cyan)
    } else {
        s
    };
    word_value_step(s1, words[i], i)
}

/// The screen after the first `n` words of a dump.
pub open spec fn dump_words(s: Screen, esp: u32, words: Seq<u32>, n: int) -> Screen
    decreases n,
{
    if n <= 0 {
        s
    } else {
        dump_word(dump_words(s, esp, words, n - 1), esp, words, n - 1)
    }
}

/// The screen after a whole stack dump of `words`, read from address `esp`:
/// the banner in yellow, the register line in white, the words four to a
/// line, and a last newline if the last line is not full.
pub open spec fn stack_dump(s: Screen, esp: u32, ebp: u32, words: Seq<u32>) -> Screen {
    let white = color_code(Colors::White);
    let head = emit(emit(s, stack_banner(), color_code(Colors::Yellow)), register_line(esp, ebp), white);
    let body = dump_words(head, esp, words, words.len() as int);
    if words.len() % 4 != 0 {
        char_step(body, 10, white)
    } else {
        body
    }
}

/// Every address printed in a dump of `n` words from `esp` (that of each
/// fourth word, the last being word `4 * ((n - 1) / 4)`) fits in 32 bits.
pub open spec fn dump_addresses_fit(esp: u32, n: int) -> bool {
    n == 0 || esp + 16 * ((n - 1) / 4) <= u32::MAX
}

/// Prints a dump of the stack: the banner, the stack and frame pointers, and
/// `words` (read from address `esp` upwards), four to a line, each line
/// starting with its address.
pub fn print_kernel_stack(con: &mut Console, esp: u32, ebp: u32, words: &[u32])
    requires
        old(con).wf(),
        dump_addresses_fit(esp, words.len() as int),
    ensures
        final(con)@ == stack_dump(old(con)@, esp, ebp, words@),
        final(con).wf(),
{
    let ghost start = con@;
    let ghost white = color_code(Colors::White);
    let ghost cyan = color_code(Colors::Cyan);
    let banner = stack_banner_bytes();
    let no_args: [PrintkArg; 0] = [];
    proof {
        lemma_printk_plain(banner@, no_args@, 0, 0);
        assert(banner@.skip(0) =~= banner@);
    }
    printk(con, banner, Colors::Yellow, &no_args);
    let regs: [PrintkArg; 2] = [PrintkArg::Hex(esp), PrintkArg::Hex(ebp)];
    proof {
        assert(regs@ =~= seq![PrintkArg::Hex(esp), PrintkArg::Hex(ebp)]);
        lemma_register_line(esp, ebp);
        lemma_printk_accepts_without_int(register_format(), regs@, 0, 0);
    }
    printk(con, register_format_bytes(), Colors::White, &regs);
    let ghost head = con@;
    let sep = address_separator_bytes();
    proof {
        lemma_printk_plain(sep@, no_args@, 0, 0);
        assert(sep@.skip(0) =~= sep@);
    }
    let mut i: usize = 0;
    while i < words.len()
        invariant
            i <= words.len(),
            con.wf(),
            dump_addresses_fit(esp, words.len() as int),
            sep@ == address_separator(),
            printk_text(sep@, no_args@) == sep@,
            crate::libft::printk_accepts(sep@, no_args@, 0, 0),
            white == color_code(Colors::White),
            cyan == color_code(Colors::Cyan),
            con@ == dump_words(head, esp, words@, i as int),
        decreases words.len() - i,
    {
        if i % 4 == 0 {
            assert(esp + 4 * i <= u32::MAX);
            let addr = esp + (i as u32) * 4;
            printk_hex(con, addr, Colors::Cyan);
            printk(con, sep, Colors::Cyan, &no_args);
        }
        let val = words[i];
        printk_hex(con, val, Colors::White);
        printk_char(con, 32, Colors::White);
        if i % 4 == 3 {
            printk_char(con, 10, Colors::White);
        }
        i += 1;
    }
    if words.len() % 4 != 0 {
        printk_char(con, 10, Colors::White);
    }
}

/// Each line of a dump is labelled with the address of the word it starts
/// with: before word `i`, when `i` is a multiple of four, the dump writes
/// `0x` and eight hexadecimal digits that read back as `esp + 4 * i`, then
/// `:  `; before any other word it writes nothing.
pub proof fn lemma_dump_line_address(s: Screen, esp: u32, words: Seq<u32>, i: int)
    requires
        0 <= i,
        i % 4 == 0 ==> esp + 4 * i <= u32::MAX,
    ensures
        i % 4 == 0 ==> {
            let label = hex_text((esp + 4 * i) as u32);
            &&& label.len() == 10
            &&& hex_value(label.skip(2)) == esp + 4 * i
            &&& dump_word(s, esp, words, i) == word_value_step(
                emit(emit(s, label, color_code(Colors::Cyan)), address_separator(), color_code(Colors::Cyan)),
                words[i],
                i,
            )
        },
        i % 4 != 0 ==> dump_word(s, esp, words, i) == word_value_step(s, words[i], i),
{
    if i % 4 == 0 {
        lemma_hex_round_trip((esp + 4 * i) as u32);
    }
}

/// The lines of a dump are labelled with addresses 16 apart: the label
/// before word `i + 4` is that before word `i` plus 16.
pub proof fn lemma_dump_addresses_step(esp: u32, i: int)
    requires
        0 <= i,
        i % 4 == 0,
        esp + 4 * (i + 4) <= u32::MAX,
    ensures
        hex_value(hex_text((esp + 4 * (i + 4)) as u32).skip(2)) == hex_value(hex_text((esp + 4 * i) as u32).skip(2))
            + 16,
{
    lemma_hex_round_trip((esp + 4 * (i + 4)) as u32);
    lemma_hex_round_trip((esp + 4 * i) as u32);
}

} // verus!
