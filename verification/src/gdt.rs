use vstd::prelude::*;
use vstd::string::StringSliceAdditionalSpecFns;
use crate::libft::{emit, hex_text, printk, printk_text, Console, PrintkArg, Screen};
use crate::libft::lemma_printk_accepts_without_int;
use crate::types::{Colors, color_code};

verus! {

/// Physical address the descriptor table is copied to.
pub const GDT_ADDR: u32 = 0x00000800;
/// Descriptors in the table: null, kernel code, data and stack, user code,
/// data and stack.
pub const GDT_ENTRIES: usize = 7;
/// Bytes of one descriptor.
pub const GDT_ENTRY_SIZE: usize = 8;

/// One segment descriptor, field by field in the order the CPU lays them out.
#[derive(Clone, Copy, Debug, PartialEq, Eq, Structural)]
pub struct GdtEntry {
    pub limit_low: u16,
    pub base_low: u16,
    pub base_middle: u8,
    pub access: u8,
    pub granularity: u8,
    pub base_high: u8,
}

/// The descriptor `make_entry` builds: the base spread over the three base
/// fields, the low 16 bits of the limit in `limit_low`, its bits 16 to 19 in
/// the low nibble of `granularity`, and the high nibble of `gran` as flags.
pub open spec fn entry_spec(base: u32, limit: u32, access: u8, gran: u8) -> GdtEntry {
    GdtEntry {
        limit_low: (limit & 0xFFFF) as u16,
        base_low: (base & 0xFFFF) as u16,
        base_middle: ((base >> 16u32) & 0xFF) as u8,
        access,
        granularity: (((limit >> 16u32) & 0x0F) as u8) | (gran & 0xF0),
        base_high: ((base >> 24u32) & 0xFF) as u8,
    }
}

/// The segment base a descriptor holds.
pub open spec fn entry_base(e: GdtEntry) -> int {
    e.base_low + e.base_middle * 0x10000 + e.base_high * 0x1000000
}

/// The 20-bit segment limit a descriptor holds.
pub open spec fn entry_limit(e: GdtEntry) -> int {
    e.limit_low + (e.granularity % 16) * 0x10000
}

/// The flags nibble of a descriptor (granularity and operand size), in place.
pub open spec fn entry_flags(e: GdtEntry) -> int {
    (e.granularity / 16 * 16) as int
}

/// The descriptor privilege level: 0 for the kernel, 3 for user code.
pub open spec fn entry_dpl(e: GdtEntry) -> int {
    ((e.access / 32) % 4) as int
}

/// Whether the descriptor's present bit is set.
pub open spec fn entry_present(e: GdtEntry) -> bool {
    e.access >= 0x80
}

/// Whether the descriptor is for a code segment.
pub open spec fn entry_executable(e: GdtEntry) -> bool {
    (e.access / 8) % 2 == 1
}

/// Builds a descriptor from a base, a 20-bit limit, an access byte and the
/// flags in the high nibble of `gran`; the descriptor gives them back.
pub fn make_entry(base: u32, limit: u32, access: u8, gran: u8) -> (e: GdtEntry)
    ensures
        e == entry_spec(base, limit, access, gran),
        entry_base(e) == base,
        entry_limit(e) == limit % 0x100000,
        entry_flags(e) == gran / 16 * 16,
        e.access == access,
{
    let e = GdtEntry {
        limit_low: (limit & 0xFFFF) as u16,
        base_low: (base & 0xFFFF) as u16,
        base_middle: ((base >> 16) & 0xFF) as u8,
        access,
        granularity: (((limit >> 16) & 0x0F) as u8) | (gran & 0xF0),
        base_high: ((base >> 24) & 0xFF) as u8,
    };
    let ll = e.limit_low;
    let bl = e.base_low;
    let bm = e.base_middle;
    let g = e.granularity;
    let bh = e.base_high;
    assert(bl + bm * 0x10000u32 + bh * 0x1000000u32 == base) by (bit_vector)
        requires
            bl == (base & 0xFFFF) as u16,
            bm == ((base >> 16) & 0xFF) as u8,
            bh == ((base >> 24) & 0xFF) as u8,
    ;
    assert(ll + (g % 16) * 0x10000u32 == limit % 0x100000 && g / 16 * 16 == gran / 16 * 16) by (bit_vector)
        requires
            ll == (limit & 0xFFFF) as u16,
            g == (((limit >> 16) & 0x0F) as u8) | (gran & 0xF0),
    ;
    e
}

/// The eight bytes of a descriptor as the CPU reads them from the table.
pub open spec fn entry_bytes(e: GdtEntry) -> Seq<u8> {
    seq![
        (e.limit_low % 256) as u8,
        (e.limit_low / 256) as u8,
        (e.base_low % 256) as u8,
        (e.base_low / 256) as u8,
        e.base_middle,
        e.access,
        e.granularity,
        e.base_high,
    ]
}

/// The descriptor that eight table bytes hold.
pub open spec fn entry_from_bytes(b: Seq<u8>) -> GdtEntry {
    GdtEntry {
        limit_low: (b[0] + 256 * b[1]) as u16,
        base_low: (b[2] + 256 * b[3]) as u16,
        base_middle: b[4],
        access: b[5],
        granularity: b[6],
        base_high: b[7],
    }
}

/// Reading a descriptor back from its bytes gives the descriptor.
pub proof fn lemma_entry_bytes_round_trip(e: GdtEntry)
    ensures
        entry_bytes(e).len() == GDT_ENTRY_SIZE,
        entry_from_bytes(entry_bytes(e)) == e,
{
}

impl GdtEntry {
    /// The descriptor's bytes, in table order.
    pub fn to_bytes(&self) -> (b: [u8; 8])
        ensures
            b@ == entry_bytes(*self),
    {
        let b: [u8; 8] = [
            (self.limit_low % 256) as u8,
            (self.limit_low / 256) as u8,
            (self.base_low % 256) as u8,
            (self.base_low / 256) as u8,
            self.base_middle,
            self.access,
            self.granularity,
            self.base_high,
        ];
        assert(b@ =~= entry_bytes(*self));
        b
    }
}

/// The descriptors `init` installs: the null descriptor, then flat 4 GiB
/// kernel code, data and stack segments (ring 0) and user code, data and
/// stack segments (ring 3).
pub open spec fn gdt_table_spec() -> Seq<GdtEntry> {
    seq![
        entry_spec(0, 0, 0x00, 0x00),
        entry_spec(0, 0xFFFFF, 0x9A, 0xCF),
        entry_spec(0, 0xFFFFF, 0x92, 0xCF),
        entry_spec(0, 0xFFFFF, 0x92, 0xCF),
        entry_spec(0, 0xFFFFF, 0xFA, 0xCF),
        entry_spec(0, 0xFFFFF, 0xF2, 0xCF),
        entry_spec(0, 0xFFFFF, 0xF2, 0xCF),
    ]
}

/// The descriptor table, in selector order (selector = 8 * index).
pub fn gdt_table() -> (t: Vec<GdtEntry>)
    ensures
        t@ == gdt_table_spec(),
{
    let mut t: Vec<GdtEntry> = Vec::new();
    t.push(make_entry(0, 0, 0x00, 0x00));
    t.push(make_entry(0, 0xFFFFF, 0x9A, 0xCF));
    t.push(make_entry(0, 0xFFFFF, 0x92, 0xCF));
    t.push(make_entry(0, 0xFFFFF, 0x92, 0xCF));
    t.push(make_entry(0, 0xFFFFF, 0xFA, 0xCF));
    t.push(make_entry(0, 0xFFFFF, 0xF2, 0xCF));
    t.push(make_entry(0, 0xFFFFF, 0xF2, 0xCF));
    assert(t@ =~= gdt_table_spec());
    t
}

/// The bytes of the descriptors of `t`, one after the other.
pub open spec fn table_bytes(t: Seq<GdtEntry>) -> Seq<u8>
    decreases t.len(),
{
    if t.len() == 0 {
        seq![]
    } else {
        table_bytes(t.drop_last()) + entry_bytes(t.last())
    }
}

proof fn lemma_table_bytes_len(t: Seq<GdtEntry>)
    ensures
        table_bytes(t).len() == GDT_ENTRY_SIZE * t.len(),
    decreases t.len(),
{
    if t.len() > 0 {
        lemma_table_bytes_len(t.drop_last());
    }
}

/// The table as it is copied to `GDT_ADDR`.
pub fn gdt_image() -> (img: Vec<u8>)
    ensures
        img@ == table_bytes(gdt_table_spec()),
        img@.len() == GDT_ENTRY_SIZE * GDT_ENTRIES,
{
    let table = gdt_table();
    let mut img: Vec<u8> = Vec::new();
    let mut i: usize = 0;
    while i < table.len()
        invariant
            i <= table.len(),
            table@ == gdt_table_spec(),
            img@ == table_bytes(table@.take(i as int)),
        decreases table.len() - i,
    {
        let b = table[i].to_bytes();
        let mut k: usize = 0;
        let ghost before = img@;
        while k < 8
            invariant
                k <= 8,
                b@ == entry_bytes(table@[i as int]),
                img@ == before + b@.take(k as int),
            decreases 8 - k,
        {
            img.push(b[k]);
            assert(b@.take(k + 1) =~= b@.take(k as int).push(b@[k as int]));
            k += 1;
        }
        assert(table@.take(i + 1).drop_last() =~= table@.take(i as int));
        assert(b@.take(8) =~= b@);
        i += 1;
    }
    assert(table@.take(table.len() as int) =~= table@);
    proof {
        lemma_table_bytes_len(gdt_table_spec());
    }
    img
}

/// What the CPU's `lgdt` instruction is given: the table's last byte offset
/// and its address.
#[derive(Clone, Copy, Debug, PartialEq, Eq, Structural)]
pub struct GdtPtr {
    pub limit: u16,
    pub base: u32,
}

/// The pointer `init` loads: the whole table at `GDT_ADDR`.
pub fn gdt_pointer() -> (p: GdtPtr)
    ensures
        p.limit == GDT_ENTRY_SIZE * GDT_ENTRIES - 1,
        p.base == GDT_ADDR,
{
    GdtPtr { limit: (GDT_ENTRY_SIZE * GDT_ENTRIES - 1) as u16, base: GDT_ADDR }
}

/// The installed table: a null descriptor first; then six present, flat
/// segments (base 0, limit 0xFFFFF in 4 KiB pages, 32-bit); the kernel's
/// three at privilege 0 and the user's three at privilege 3, the first of
/// each three a code segment and the other two data segments; and the
/// pointer covers exactly the table's bytes.
pub proof fn lemma_gdt_layout()
    ensures
        gdt_table_spec().len() == GDT_ENTRIES,
        gdt_table_spec()[0] == (GdtEntry {
            limit_low: 0,
            base_low: 0,
            base_middle: 0,
            access: 0,
            granularity: 0,
            base_high: 0,
        }),
        forall|i: int|
            1 <= i < GDT_ENTRIES ==> {
                let e = #[trigger] gdt_table_spec()[i];
                &&& entry_present(e)
                &&& entry_base(e) == 0
                &&& entry_limit(e) == 0xFFFFF
                &&& entry_flags(e) == 0xC0
                &&& entry_dpl(e) == (if i < 4 { 0int } else { 3int })
                &&& entry_executable(e) == (i == 1 || i == 4)
            },
        table_bytes(gdt_table_spec()).len() == GDT_ENTRY_SIZE * GDT_ENTRIES,
{
    assert({
        &&& (0u32 & 0xFFFF) as u16 == 0
        &&& ((0u32 >> 16u32) & 0xFF) as u8 == 0
        &&& ((0u32 >> 24u32) & 0xFF) as u8 == 0
        &&& (((0u32 >> 16u32) & 0x0F) as u8) | (0u8 & 0xF0) == 0
        &&& (0xFFFFFu32 & 0xFFFF) as u16 == 0xFFFF
        &&& (((0xFFFFFu32 >> 16u32) & 0x0F) as u8) | (0xCFu8 & 0xF0) == 0xCF
    }) by (bit_vector);
    lemma_table_bytes_len(gdt_table_spec());
}

/// The first four bytes of a descriptor read as a little-endian word.
pub open spec fn entry_low_word(e: GdtEntry) -> int {
    e.limit_low + e.base_low * 0x10000
}

/// The last four bytes of a descriptor read as a little-endian word.
pub open spec fn entry_high_word(e: GdtEntry) -> int {
    e.base_middle + e.access * 0x100 + e.granularity * 0x10000 + e.base_high * 0x1000000
}

/// The format of the first line of the table listing.
pub open spec fn info_header_format() -> Seq<u8> {
    "\nGDT at %x, limit %x\n".spec_bytes()
}

/// The format of a descriptor's line in the table listing.
pub open spec fn info_line_format() -> Seq<u8> {
    "  %x: %x %x\n".spec_bytes()
}

/// The first line of the table listing: the table's address and limit.
pub open spec fn info_header(base: u32, limit: u32) -> Seq<u8> {
    "\nGDT at ".spec_bytes() + hex_text(base) + ", limit ".spec_bytes() + hex_text(limit) + seq![10u8]
}

/// A descriptor's line in the table listing: its selector, then its high and
/// low words.
pub open spec fn info_line(selector: u32, e: GdtEntry) -> Seq<u8> {
    "  ".spec_bytes() + hex_text(selector) + ": ".spec_bytes() + hex_text(entry_high_word(e) as u32) + seq![32u8]
        + hex_text(entry_low_word(e) as u32) + seq![10u8]
}

/// The screen after the lines of the first `n` descriptors of the table.
pub open spec fn info_lines(s: Screen, n: int) -> Screen
    decreases n,
{
    if n <= 0 {
        s
    } else {
        emit(
            info_lines(s, n - 1),
            info_line((GDT_ENTRY_SIZE * (n - 1)) as u32, gdt_table_spec()[n - 1]),
            color_code(Colors::White),
        )
    }
}

/// The screen after the table listing: the header in light cyan, then a line
/// per descriptor in white.
pub open spec fn info_screen(s: Screen) -> Screen {
    let head = emit(
        s,
        info_header(GDT_ADDR, (GDT_ENTRY_SIZE * GDT_ENTRIES - 1) as u32),
        color_code(Colors::LightCyan),
    );
    info_lines(head, GDT_ENTRIES as int)
}

proof fn lemma_info_header(base: u32, limit: u32)
    ensures
        printk_text(info_header_format(), seq![PrintkArg::Hex(base), PrintkArg::Hex(limit)]) == info_header(
            base,
            limit,
        ),
{
    reveal_strlit("\nGDT at %x, limit %x\n");
    reveal_strlit("\nGDT at ");
    reveal_strlit(", limit ");
    vstd::string::is_ascii_spec_bytes("\nGDT at %x, limit %x\n");
    vstd::string::is_ascii_spec_bytes("\nGDT at ");
    vstd::string::is_ascii_spec_bytes(", limit ");
    let f = info_header_format();
    assert(f =~= seq![10u8, 71, 68, 84, 32, 97, 116, 32, 37, 120, 44, 32, 108, 105, 109, 105, 116, 32, 37, 120, 10]);
    reveal_with_fuel(crate::libft::printk_from, 22);
    assert(printk_text(f, seq![PrintkArg::Hex(base), PrintkArg::Hex(limit)]) =~= info_header(base, limit));
}

proof fn lemma_info_line(selector: u32, high: u32, low: u32, e: GdtEntry)
    requires
        high == entry_high_word(e),
        low == entry_low_word(e),
    ensures
        printk_text(
            info_line_format(),
            seq![PrintkArg::Hex(selector), PrintkArg::Hex(high), PrintkArg::Hex(low)],
        ) == info_line(selector, e),
{
    reveal_strlit("  %x: %x %x\n");
    reveal_strlit("  ");
    reveal_strlit(": ");
    vstd::string::is_ascii_spec_bytes("  %x: %x %x\n");
    vstd::string::is_ascii_spec_bytes("  ");
    vstd::string::is_ascii_spec_bytes(": ");
    let f = info_line_format();
    assert(f =~= seq![32u8, 32, 37, 120, 58, 32, 37, 120, 32, 37, 120, 10]);
    reveal_with_fuel(crate::libft::printk_from, 13);
    assert(printk_text(f, seq![PrintkArg::Hex(selector), PrintkArg::Hex(high), PrintkArg::Hex(low)]) =~= info_line(
        selector,
        e,
    ));
}

/// Prints the installed descriptor table (see `info_screen`).
pub fn print_info(con: &mut Console)
    requires
        old(con).wf(),
    ensures
        final(con)@ == info_screen(old(con)@),
        final(con).wf(),
{
    let p = gdt_pointer();
    let header_args: [PrintkArg; 2] = [PrintkArg::Hex(p.base), PrintkArg::Hex(p.limit as u32)];
    proof {
        assert(header_args@ =~= seq![PrintkArg::Hex(p.base), PrintkArg::Hex(p.limit as u32)]);
        lemma_info_header(p.base, p.limit as u32);
        lemma_printk_accepts_without_int(info_header_format(), header_args@, 0, 0);
    }
    printk(con, "\nGDT at %x, limit %x\n".as_bytes(), Colors::LightCyan, &header_args);
    let ghost head = con@;
    let table = gdt_table();
    let line_format = "  %x: %x %x\n".as_bytes();
    let mut i: usize = 0;
    while i < table.len()
        invariant
            i <= table.len(),
            table@ == gdt_table_spec(),
            line_format@ == info_line_format(),
            con.wf(),
            con@ == info_lines(head, i as int),
        decreases table.len() - i,
    {
        let e = table[i];
        let low: u32 = e.limit_low as u32 + (e.base_low as u32) * 0x10000;
        let high: u32 = e.base_middle as u32 + (e.access as u32) * 0x100 + (e.granularity as u32) * 0x10000
            + (e.base_high as u32) * 0x1000000;
        let selector: u32 = (i * GDT_ENTRY_SIZE) as u32;
        let args: [PrintkArg; 3] = [PrintkArg::Hex(selector), PrintkArg::Hex(high), PrintkArg::Hex(low)];
        proof {
            assert(args@ =~= seq![PrintkArg::Hex(selector), PrintkArg::Hex(high), PrintkArg::Hex(low)]);
            lemma_info_line(selector, high, low, e);
            lemma_printk_accepts_without_int(info_line_format(), args@, 0, 0);
        }
        printk(con, line_format, Colors::White, &args);
        i += 1;
    }
}

proof fn lemma_info_lines_valid(s: Screen, n: int)
    requires
        s.valid(),
    ensures
        info_lines(s, n).valid(),
    decreases n,
{
    if n > 0 {
        lemma_info_lines_valid(s, n - 1);
        crate::libft::lemma_emit_valid(
            info_lines(s, n - 1),
            info_line((GDT_ENTRY_SIZE * (n - 1)) as u32, gdt_table_spec()[n - 1]),
            color_code(Colors::White),
        );
    }
}

/// The table listing leaves a valid screen valid.
pub proof fn lemma_info_screen_valid(s: Screen)
    requires
        s.valid(),
    ensures
        info_screen(s).valid(),
{
    let head_text = info_header(GDT_ADDR, (GDT_ENTRY_SIZE * GDT_ENTRIES - 1) as u32);
    crate::libft::lemma_emit_valid(s, head_text, color_code(Colors::LightCyan));
    lemma_info_lines_valid(emit(s, head_text, color_code(Colors::LightCyan)), GDT_ENTRIES as int);
}

} // verus!
