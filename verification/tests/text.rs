use competitive_net_sim::text::parse_tiny_program;

#[test]
fn parses_simple_program() {
    let src = r#"
        # one stage that loads ip_dst and looks it up in table 1
        stage alu=4 mem=1
            load    r0, ip_dst
            table   t1, r0 -> m0
    "#;
    let p = parse_tiny_program(src).unwrap();
    assert_eq!(p.stages.len(), 1);
    assert_eq!(p.stages[0].max_alu_ops, 4);
    assert_eq!(p.stages[0].instrs.len(), 2);
}

#[test]
fn parses_arith_and_branch() {
    let src = r#"
        stage
            const   r0, 3
            const   r1, 0x4
            add     r2, r0, r1
            eq      r3, r2, r1
            bif     r3 -> 6
            drop
            noop
    "#;
    let p = parse_tiny_program(src).unwrap();
    assert_eq!(p.stages[0].instrs.len(), 7);
}

#[test]
fn parses_register_and_counter() {
    let src = r#"
        stage
            const   r0, 1
            rwrite  a0[r0], r0
            rread   a0[r0] -> r1
            counter c0[r0], r1
            egress  2
            punt    no_route
            recirc
    "#;
    let p = parse_tiny_program(src).unwrap();
    assert_eq!(p.stages[0].instrs.len(), 7);
}

#[test]
fn rejects_orphan_instruction() {
    let err = parse_tiny_program("noop\n").unwrap_err();
    assert!(err.message.contains("outside"));
}

#[test]
fn comments_and_blank_lines_change_nothing() {
    let plain = "stage alu=4 mem=1\n load r0, ip_dst\n table t1, r0 -> m2\nstage\n drop\n";
    let dressed = "# a program\n\n  stage alu=4 mem=1   # first\n load r0, ip_dst # -> x\n\t\n table t1, r0 -> m2\t#\n#\nstage\n\n drop # the end";
    let a = parse_tiny_program(plain).unwrap();
    let b = parse_tiny_program(dressed).unwrap();
    assert_eq!(format!("{:?}", a), format!("{:?}", b));
    // A line of commas is no blank line.
    assert_eq!(parse_tiny_program("stage\n , \n drop\n").unwrap_err().line, 2);
    let e = parse_tiny_program("\n# one\nstage\n add r1\n bogus\n").unwrap_err();
    assert_eq!(e.line, 4);
    let e = parse_tiny_program("# nothing\n\n").unwrap_err();
    assert_eq!((e.line, e.message.as_str()), (0, "program has no stages"));
}
