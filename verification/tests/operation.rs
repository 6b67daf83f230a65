use takoyaki_arm::Operation;

#[test]
fn test_operation_display() {
    let op = Operation {
        arm_move: 'L',
        node_rotate: vec!['.', 'L', 'R'],
        node_interact: vec!['.', '.', 'P'],
    }
    .encode();
    assert_eq!(format!("{op}"), "LLR..P",);

    let op = Operation {
        arm_move: '.',
        node_rotate: vec!['.'],
        node_interact: vec!['P'],
    }
    .encode();
    assert_eq!(format!("{op}"), ".P");
}

fn operation(arm_move: char, rotate: &str, interact: &str) -> Operation {
    Operation {
        arm_move,
        node_rotate: rotate.chars().collect(),
        node_interact: interact.chars().collect(),
    }
}

#[test]
fn encode_leaves_out_the_root_rotation_only() {
    // The root's rotation is not sent, whatever it holds; its interaction is.
    assert_eq!(operation('U', "RLR", "P.P").encode(), "ULRP.P");
    assert_eq!(operation('D', ".", ".").encode(), "D.");
}

#[test]
fn is_encodable_tells_a_move_symbol_and_equal_lengths() {
    assert!(operation('L', ".LR", "..P").is_encodable());
    assert!(!operation('P', ".LR", "..P").is_encodable());
    assert!(!operation('L', ".LR", "..").is_encodable());
    assert!(!operation('.', "", "").is_encodable());
}

#[test]
fn parse_reads_an_operation_line() {
    let op = Operation::parse("LLR..P").unwrap();
    assert_eq!(op.arm_move, 'L');
    assert_eq!(op.node_rotate, vec!['.', 'L', 'R']);
    assert_eq!(op.node_interact, vec!['.', '.', 'P']);

    let op = Operation::parse(".P").unwrap();
    assert_eq!(op.arm_move, '.');
    assert_eq!(op.node_rotate, vec!['.']);
    assert_eq!(op.node_interact, vec!['P']);
}

#[test]
fn parse_refuses_what_is_no_operation_line() {
    assert!(Operation::parse("").is_none());
    assert!(Operation::parse("L").is_none());
    assert!(Operation::parse("LLR..").is_none());
    assert!(Operation::parse("PLR..P").is_none());
    assert!(Operation::parse("LUR..P").is_none());
    assert!(Operation::parse("LLR.LP").is_none());
    assert!(Operation::parse("LLRP.é").is_none());
}

#[test]
fn parse_undoes_encode() {
    for arm_move in ['.', 'L', 'R', 'U', 'D'] {
        for rotate in [".", "..", ".L", ".R", ".LR.", ".RRL"] {
            for fill in ['.', 'P'] {
                let interact: String = rotate.chars().map(|_| fill).collect();
                let op = operation(arm_move, rotate, &interact);
                let back = Operation::parse(&op.encode()).unwrap();
                assert_eq!(back.arm_move, op.arm_move);
                assert_eq!(back.node_rotate, op.node_rotate);
                assert_eq!(back.node_interact, op.node_interact);
            }
        }
    }
}

#[test]
fn encode_undoes_parse() {
    for line in ["..", "U.", "RLP.", "DLR.P.", ".R.LP.PP"] {
        assert_eq!(Operation::parse(line).unwrap().encode(), line);
    }
}
