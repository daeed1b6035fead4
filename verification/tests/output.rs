use ropgadget_rs::gadget::{Gadget, Instruction, InstructionGroup};
use ropgadget_rs::numbers::{format_decimal, format_hex};
use ropgadget_rs::output::{
    arrange_gadgets, dedup_by_text, format_address, gadget_line, gadget_lines, join_line,
    render_output,
};
use ropgadget_rs::session::RopGadgetOutput;

fn insn(address: u64, mnemonic: &str, operands: Option<&str>, group: InstructionGroup) -> Instruction {
    Instruction {
        size: 1,
        raw: vec![0x90],
        address,
        group,
        mnemonic: mnemonic.to_string(),
        operands: operands.map(|o| o.to_string()),
    }
}

/// A gadget of one instruction at the address given, whose text is the mnemonic and ` ;`.
fn gadget(address: u64, mnemonic: &str) -> Gadget {
    Gadget::new(vec![insn(address, mnemonic, None, InstructionGroup::Ret)])
}

fn listing(gadgets: &[Gadget]) -> Vec<(u64, String)> {
    gadgets.iter().map(|g| (g.address, g.text(false))).collect()
}

fn expect(pairs: &[(u64, &str)]) -> Vec<(u64, String)> {
    pairs.iter().map(|(a, t)| (*a, t.to_string())).collect()
}

#[test]
fn gadgets_are_put_in_the_order_of_their_addresses() {
    let found = vec![gadget(3, "c"), gadget(1, "a"), gadget(3, "b"), gadget(2, "z"), gadget(3, "a")];
    let arranged = arrange_gadgets(found, false);
    // gadgets at one address stay in the order in which they were found
    assert_eq!(
        listing(&arranged),
        expect(&[(1, "a ;"), (2, "z ;"), (3, "c ;"), (3, "b ;"), (3, "a ;")])
    );
}

#[test]
fn arranging_nothing_gives_nothing() {
    assert!(arrange_gadgets(Vec::new(), false).is_empty());
    assert!(arrange_gadgets(Vec::new(), true).is_empty());
    assert!(dedup_by_text(Vec::new()).is_empty());
}

#[test]
fn one_gadget_of_each_text_is_kept() {
    let found = vec![
        gadget(10, "ret"),
        gadget(5, "ret"),
        gadget(7, "pop"),
        gadget(3, "pop"),
        gadget(8, "nop"),
    ];
    let arranged = arrange_gadgets(found, true);
    // of the gadgets of one text the one found first is kept
    assert_eq!(listing(&arranged), expect(&[(7, "pop ;"), (8, "nop ;"), (10, "ret ;")]));
}

#[test]
fn texts_that_differ_by_case_only_count_as_one_where_they_stand_together() {
    let found = vec![gadget(9, "ret"), gadget(2, "Ret"), gadget(4, "rEt")];
    // in the order of texts: Ret, rEt, ret
    assert_eq!(listing(&arrange_gadgets(found, true)), expect(&[(2, "Ret ;")]));
}

#[test]
fn texts_that_differ_by_case_survive_where_another_text_stands_between() {
    let found = vec![gadget(10, "ret"), gadget(5, "ret"), gadget(7, "pop"), gadget(1, "RET")];
    // in the order of texts: RET, pop, ret, ret
    let arranged = arrange_gadgets(found, true);
    assert_eq!(listing(&arranged), expect(&[(1, "RET ;"), (7, "pop ;"), (10, "ret ;")]));
}

#[test]
fn texts_are_compared_character_by_character() {
    let found = vec![
        gadget(1, "b"),
        gadget(2, "ab"),
        gadget(3, "a"),
        gadget(4, "B"),
        gadget(5, "a"),
        gadget(6, "é"),
        gadget(7, "z"),
    ];
    // in the order of texts: B, a, a, ab, b, z, é; the second a goes
    let arranged = arrange_gadgets(found, true);
    assert_eq!(
        listing(&arranged),
        expect(&[(1, "b ;"), (2, "ab ;"), (3, "a ;"), (4, "B ;"), (6, "é ;"), (7, "z ;")])
    );
}

#[test]
fn dedup_by_text_compares_each_gadget_with_the_one_kept_before_it() {
    let gadgets = vec![
        gadget(1, "a"),
        gadget(2, "A"),
        gadget(3, "b"),
        gadget(4, "a"),
        gadget(5, "a"),
        gadget(6, "B"),
        gadget(7, "b"),
    ];
    let kept = dedup_by_text(gadgets);
    assert_eq!(listing(&kept), expect(&[(1, "a ;"), (3, "b ;"), (4, "a ;"), (6, "B ;")]));
}

#[test]
fn only_ascii_letters_lose_their_case() {
    let kept = dedup_by_text(vec![gadget(1, "é"), gadget(2, "É"), gadget(3, "z["), gadget(4, "Z{")]);
    assert_eq!(listing(&kept), expect(&[(1, "é ;"), (2, "É ;"), (3, "z[ ;"), (4, "Z{ ;")]));
    let kept = dedup_by_text(vec![gadget(1, "@az`"), gadget(2, "@AZ`"), gadget(3, "`AZ@")]);
    assert_eq!(listing(&kept), expect(&[(1, "@az` ;"), (3, "`AZ@ ;")]));
}

#[test]
fn addresses_are_padded_to_the_width_of_a_pointer() {
    assert_eq!(format_address(0x1000, true), "0x0000000000001000");
    assert_eq!(format_address(0x1000, false), "0x00001000");
    assert_eq!(format_address(0, true), "0x0000000000000000");
    assert_eq!(format_address(0, false), "0x00000000");
    assert_eq!(format_address(u64::MAX, true), "0xffffffffffffffff");
    assert_eq!(format_address(0xffff_ffff, false), "0xffffffff");
    assert_eq!(format_address(0x0123_4567_89ab_cdef, true), "0x0123456789abcdef");
    assert_eq!(format_address(0x00ab_cdef, false), "0x00abcdef");
}

#[test]
fn addresses_wider_than_the_padding_are_written_in_full() {
    assert_eq!(format_address(0x1_2345_6789, false), "0x123456789");
    assert_eq!(format_address(u64::MAX, false), "0xffffffffffffffff");
}

#[test]
fn numbers_are_written_in_digits() {
    assert_eq!(format_hex(0, 0), "0");
    assert_eq!(format_hex(0, 1), "0");
    assert_eq!(format_hex(0, 3), "000");
    assert_eq!(format_hex(0xabc, 0), "abc");
    assert_eq!(format_hex(0xabc, 3), "abc");
    assert_eq!(format_hex(0xabc, 5), "00abc");
    assert_eq!(format_hex(0x10, 1), "10");
    assert_eq!(format_hex(u64::MAX, 20), "0000ffffffffffffffff");
    assert_eq!(format_decimal(0), "0");
    assert_eq!(format_decimal(7), "7");
    assert_eq!(format_decimal(10), "10");
    assert_eq!(format_decimal(4096), "4096");
    assert_eq!(format_decimal(1_000_000_007), "1000000007");
    assert_eq!(format_decimal(u64::MAX), "18446744073709551615");
}

#[test]
fn a_line_is_the_address_and_the_text() {
    let g = Gadget::new(vec![
        insn(0x1000, "mov", Some("rax, rcx"), InstructionGroup::Undefined),
        insn(0x1003, "ret", None, InstructionGroup::Ret),
    ]);
    assert_eq!(g.text(false), "mov rax, rcx ; ret ;");
    assert_eq!(gadget_line(&g, true, false), "0x0000000000001000 | mov rax, rcx ; ret ;");
    assert_eq!(gadget_line(&g, false, false), "0x00001000 | mov rax, rcx ; ret ;");
    assert_eq!(
        gadget_lines(&vec![gadget(1, "ret"), gadget(0x20, "nop")], false, false),
        vec!["0x00000001 | ret ;".to_string(), "0x00000020 | nop ;".to_string()]
    );
}

#[test]
fn painted_lines_still_hold_the_address_and_the_text() {
    let g = gadget(0x1000, "ret");
    let line = gadget_line(&g, true, true);
    assert!(line.contains("0x0000000000001000"));
    assert!(line.contains(" | "));
    assert!(line.contains("ret"));
    assert!(line.ends_with(" ;"));
}

#[test]
fn the_output_decides_what_is_rendered() {
    let gadgets = vec![gadget(1, "ret"), gadget(0x20, "nop")];
    let plain = vec!["0x00000001 | ret ;".to_string(), "0x00000020 | nop ;".to_string()];
    assert!(render_output(&RopGadgetOutput::NoOutput, &gadgets, false, false).is_empty());
    assert!(render_output(&RopGadgetOutput::NoOutput, &gadgets, false, true).is_empty());
    assert_eq!(render_output(&RopGadgetOutput::Console, &gadgets, false, false), plain);
    assert_eq!(render_output(&RopGadgetOutput::Console, &gadgets, false, true).len(), 2);
    // nothing is painted in a file
    let file = RopGadgetOutput::File("gadgets.txt".to_string());
    assert_eq!(render_output(&file, &gadgets, false, false), plain);
    assert_eq!(render_output(&file, &gadgets, false, true), plain);
}

#[test]
fn an_address_and_a_text_are_joined_to_a_line() {
    assert_eq!(join_line("0x00001000".to_string(), "ret ;".to_string()), "0x00001000 | ret ;");
    assert_eq!(join_line(String::new(), String::new()), " | ");
    assert_eq!(
        join_line("\u{1b}[31m0x00001000\u{1b}[0m".to_string(), "ret ;".to_string()),
        "\u{1b}[31m0x00001000\u{1b}[0m | ret ;"
    );
}

#[test]
fn a_painted_line_is_joined_as_a_plain_one() {
    let g = gadget(0x1000, "ret");
    let line = gadget_line(&g, false, true);
    assert!(line.ends_with(&format!(" | {}", g.text(true))));
    assert!(line.contains("0x00001000"));
    assert_eq!(gadget_line(&g, false, false), join_line(format_address(0x1000, false), g.text(false)));
}
