use piolsp::hover::opcode_doc;
use piolsp::lsp::{DocumentData, Position};

fn doc(src: &str) -> DocumentData {
    let mut parser = piolsp::pio_parser().unwrap();
    DocumentData::new(&mut parser, src.to_string()).unwrap()
}

fn test_hover(src: &'static str, c: u32, expected: impl Into<Option<&'static str>>) {
    let doc = doc(&format!(".program p\n{src}"));

    let node = doc.node_at(Position { line: 1, character: c }).unwrap();
    let c = doc.hover_instr(node).unwrap_or_default();

    if let Some(expected) = expected.into() {
        if c.len() < expected.len() {
            panic!("output too short: {c}\nexpected:         {expected}");
        }
        assert_eq!(&c[..expected.len()], expected);
    } else {
        assert_eq!(c, "");
    }
}

#[test]
fn hover_jmp() {
    test_hover("jmp 0", 0, "\n## Operation\n\nSet program counter to");
    test_hover("jmp 0", 4, "Is a program label or value");
    test_hover("jmp !x 0", 4, "Is an optional condition listed");
}

#[test]
fn hover_wait() {
    test_hover(
        "wait 0 pin 0",
        0,
        "\n## Operation\n\nStall until some condition",
    );
    test_hover("wait 0 pin 0", 5, "Is a value specifying the polarity");
    test_hover("wait 0 pin 0", 7, "gpio | pin");
    test_hover(
        "wait 0 pin 0",
        11,
        "Is a value specifying the input pin number",
    );
}

#[test]
fn hover_push() {
    test_hover("push", 0, "\n## Operation\n\nPush the contents of");
    test_hover("push block", 5, "Is equivalent to Block == 1");
    test_hover("push noblock", 5, "Is equivalent to Block == 0");
    test_hover("push iffull", 5, "Is equivalent to IfFull == 1");
}

#[test]
fn hover_pull() {
    test_hover("pull", 0, "\n## Operation\n\nLoad a 32-bit word");
    test_hover("pull block", 5, "Is equivalent to Block == 1");
    test_hover("pull noblock", 5, "Is equivalent to Block == 0");
    test_hover("pull ifempty", 5, "Is equivalent to IfEmpty == 1");
}

#[test]
fn hover_in() {
    test_hover("in 1", 0, "\n## Operation\n\nShift Bit count bits from");
    test_hover(
        "in 1",
        3,
        "Is a value specifying the number of bits to shift",
    );
    test_hover("in pins 1", 3, "Is one of the sources");
}

#[test]
fn hover_out() {
    test_hover("out 1", 0, "\n## Operation\n\nShift Bit count bits out");
    test_hover(
        "out 1",
        4,
        "Is a value specifying the number of bits to shift",
    );
    test_hover("out pins 1", 4, "Is one of the destinations");
}

#[test]
fn hover_mov() {
    test_hover(
        "mov x, y",
        0,
        "# MOV\n\n## Operation\n\nCopy data from Source to Destination",
    );
    test_hover("mov x y", 4, "Is one of the destinations specified above.");
    test_hover("mov x :: y", 6, "If present, is:");
    test_hover("mov x y", 6, "Is one of the sources specified above.");
    test_hover(
        "mov rxfifo[y], y",
        4,
        "Is one of the destinations specified above.",
    );
}

#[test]
fn hover_irq() {
    test_hover("irq 1", 0, "\n## Operation\n\nSet or clear the IRQ flag");
    test_hover("irq 1", 4, "Is a value specifying The irq");
    test_hover(
        "irq prev 1",
        4,
        "(version 1 and above) To target the IRQ on the next lower",
    );
    test_hover(
        "irq next 1",
        4,
        "(version 1 and above) To target the IRQ on the next higher",
    );
    test_hover(
        "irq next set 1",
        9,
        "Also means set the IRQ without waiting",
    );
    test_hover(
        "irq nowait 1",
        4,
        "Again, means set the IRQ without waiting",
    );
    test_hover(
        "irq wait 1",
        4,
        "Means set the IRQ and wait for it to be cleared before proceeding",
    );
    test_hover("irq clear 1", 4, "Means clear the IRQ");
}

#[test]
fn hover_set() {
    test_hover(
        "set x 1",
        0,
        "\n## Operation\n\nWrite immediate value Data to Destination.",
    );
    test_hover("set x 1", 4, "Is one of the destinations specified above.");
    test_hover("set x 1", 6, "The value to set");
}

#[test]
fn hover_upper_case_source_is_mapped() {
    // opcodes and literals are matched case-insensitively
    test_hover("PUSH BLOCK", 0, "\n## Operation\n\nPush the contents of");
    test_hover("PUSH BLOCK", 5, "Is equivalent to Block == 1");
}

#[test]
fn opcode_doc_concatenates_mov_variants() {
    let d = opcode_doc("MOV").unwrap();
    assert!(d.starts_with("# MOV\n"));
    assert!(d.contains("# MOV_TO_RX\n"));
    assert!(d.contains("# MOV_FROM_RX\n"));
    assert!(d.ends_with("\n"));
    assert!(opcode_doc("NOP").is_none());
    assert!(opcode_doc("jmp").is_none());
    assert!(opcode_doc("JMP").unwrap().starts_with("\n## Operation"));
}

#[test]
fn hover_outside_instruction_is_empty() {
    test_hover("start:", 0, None);
}
