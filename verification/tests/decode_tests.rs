use assembler::str_to_instructions;

#[test]
fn test_add() {
    for i in 1u16..=99u16 {
        let instructions = str_to_instructions(&format!("ADD {}", i)).unwrap();
        assert_eq!(instructions.len(), 1);
        assert_eq!(instructions[0].name(), "ADD");
        assert_eq!(instructions[0].code(), 1);
        assert_eq!(instructions[0].operand(), Some(i));
    }
}

#[test]
fn test_sub() {
    for i in 1u16..=99u16 {
        let instructions = str_to_instructions(&format!("SUB {}", i)).unwrap();
        assert_eq!(instructions.len(), 1);
        assert_eq!(instructions[0].name(), "SUB");
        assert_eq!(instructions[0].code(), 2);
        assert_eq!(instructions[0].operand(), Some(i));
    }
}

#[test]
fn test_sta() {
    for i in 1u16..=99u16 {
        let instructions = str_to_instructions(&format!("STA {}", i)).unwrap();
        assert_eq!(instructions.len(), 1);
        assert_eq!(instructions[0].name(), "STA");
        assert_eq!(instructions[0].code(), 3);
        assert_eq!(instructions[0].operand(), Some(i));
    }
}

#[test]
fn test_lda() {
    for i in 1u16..=99u16 {
        let instructions = str_to_instructions(&format!("LDA {}", i)).unwrap();
        assert_eq!(instructions.len(), 1);
        assert_eq!(instructions[0].name(), "LDA");
        assert_eq!(instructions[0].code(), 5);
        assert_eq!(instructions[0].operand(), Some(i));
    }
}

#[test]
fn test_bra() {
    for i in 1u16..=99u16 {
        let instructions = str_to_instructions(&format!("BRA {}", i)).unwrap();
        assert_eq!(instructions.len(), 1);
        assert_eq!(instructions[0].name(), "BRA");
        assert_eq!(instructions[0].code(), 6);
        assert_eq!(instructions[0].operand(), Some(i));
    }
}

#[test]
fn test_brz() {
    for i in 1u16..=99u16 {
        let instructions = str_to_instructions(&format!("BRZ {}", i)).unwrap();
        assert_eq!(instructions.len(), 1);
        assert_eq!(instructions[0].name(), "BRZ");
        assert_eq!(instructions[0].code(), 7);
        assert_eq!(instructions[0].operand(), Some(i));
    }
}

#[test]
fn test_brp() {
    for i in 1u16..=99u16 {
        let instructions = str_to_instructions(&format!("BRP {}", i)).unwrap();
        assert_eq!(instructions.len(), 1);
        assert_eq!(instructions[0].name(), "BRP");
        assert_eq!(instructions[0].code(), 8);
        assert_eq!(instructions[0].operand(), Some(i));
    }
}

#[test]
fn test_inp() {
    let instructions = str_to_instructions("INP").unwrap();
    assert_eq!(instructions.len(), 1);
    assert_eq!(instructions[0].name(), "INP");
    assert_eq!(instructions[0].code(), 901);
    assert_eq!(instructions[0].operand(), None);
}

#[test]
fn test_out() {
    let instructions = str_to_instructions("OUT").unwrap();
    assert_eq!(instructions.len(), 1);
    assert_eq!(instructions[0].name(), "OUT");
    assert_eq!(instructions[0].code(), 902);
    assert_eq!(instructions[0].operand(), None);
}

#[test]
fn test_hlt() {
    let instructions = str_to_instructions("HLT").unwrap();
    assert_eq!(instructions.len(), 1);
    assert_eq!(instructions[0].name(), "HLT");
    assert_eq!(instructions[0].code(), 0);
    assert_eq!(instructions[0].operand(), None);
}

#[test]
fn test_dat() {
    let instructions = str_to_instructions("DAT 1").unwrap();
    assert_eq!(instructions.len(), 1);
    assert_eq!(instructions[0].name(), "DAT");
    assert_eq!(instructions[0].code(), 1000);
    assert_eq!(instructions[0].operand(), Some(1));
}

#[test]
fn test_instructions_together() {
    let s = "ADD 1
            SUB 2
            // This is a comment
            STA 3
            LDA 5
            BRA 6
            BRZ 7
            BRP 8
            INP
            OUT
            HLT
            DAT 1000";
    let instructions = str_to_instructions(s).unwrap();

    assert_eq!(instructions[0].name(), "ADD");
    assert_eq!(instructions[0].code(), 1);
    assert_eq!(instructions[0].operand(), Some(1));

    assert_eq!(instructions[1].name(), "SUB");
    assert_eq!(instructions[1].code(), 2);
    assert_eq!(instructions[1].operand(), Some(2));

    assert_eq!(instructions[2].name(), "STA");
    assert_eq!(instructions[2].code(), 3);
    assert_eq!(instructions[2].operand(), Some(3));

    assert_eq!(instructions[3].name(), "LDA");
    assert_eq!(instructions[3].code(), 5);
    assert_eq!(instructions[3].operand(), Some(5));

    assert_eq!(instructions[4].name(), "BRA");
    assert_eq!(instructions[4].code(), 6);
    assert_eq!(instructions[4].operand(), Some(6));

    assert_eq!(instructions[5].name(), "BRZ");
    assert_eq!(instructions[5].code(), 7);
    assert_eq!(instructions[5].operand(), Some(7));

    assert_eq!(instructions[6].name(), "BRP");
    assert_eq!(instructions[6].code(), 8);
    assert_eq!(instructions[6].operand(), Some(8));

    assert_eq!(instructions[7].name(), "INP");
    assert_eq!(instructions[7].code(), 901);
    assert_eq!(instructions[7].operand(), None);

    assert_eq!(instructions[8].name(), "OUT");
    assert_eq!(instructions[8].code(), 902);
    assert_eq!(instructions[8].operand(), None);

    assert_eq!(instructions[9].name(), "HLT");
    assert_eq!(instructions[9].code(), 0);
    assert_eq!(instructions[9].operand(), None);

    assert_eq!(instructions[10].name(), "DAT");
    assert_eq!(instructions[10].code(), 1000);
    assert_eq!(instructions[10].operand(), Some(1000));
    assert_eq!(instructions.len(), 11);
}
