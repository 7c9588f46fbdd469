use lockjaw::lints::{
    check_kernel_no_neon, check_linker_symbols, check_pointers, find_linker_symbol_sites,
    line_has_linker_symbol_site, line_has_neon_reference, parse_audit, Site,
};

#[test]
fn neon_scan_detects_first_operand_q_form() {
    assert!(line_has_neon_reference(
        "ffff008000018f64: 3dc00270 \tldr\tq0, [x19]"
    ));
}

#[test]
fn neon_scan_detects_first_operand_str_q() {
    assert!(line_has_neon_reference(
        "ffff008000018f64: 3d800270 \tstr\tq3, [x19]"
    ));
}

#[test]
fn neon_scan_detects_first_operand_fmov_d() {
    assert!(line_has_neon_reference(
        "ffff008000018f64: 9e670020 \tfmov\td0, x1"
    ));
}

#[test]
fn neon_scan_detects_first_operand_dup_v_lane() {
    assert!(line_has_neon_reference(
        "ffff008000018f64: 4e080066 \tdup\tv6.2d, x3"
    ));
}

#[test]
fn neon_scan_detects_movi_v_immediate() {
    assert!(line_has_neon_reference(
        "ffff008000018f64: 4f000400 \tmovi\tv0.16b, #0"
    ));
}

#[test]
fn neon_scan_detects_stp_q_pair() {
    assert!(line_has_neon_reference(
        "ffff008000018f64: ad0387e0 \tstp\tq0, q1, [sp, #112]"
    ));
}

#[test]
fn neon_scan_detects_v_form_lane_in_operand_list() {
    assert!(line_has_neon_reference(
        "ffff008000018f64: 0e205800 \tcnt\tv0.8b, v0.8b"
    ));
}

#[test]
fn neon_scan_ignores_plain_gpr_mov() {
    assert!(!line_has_neon_reference(
        "ffff008000018f64: aa1f03e0 \tmov\tx0, xzr"
    ));
}

#[test]
fn neon_scan_ignores_compare_immediate() {
    assert!(!line_has_neon_reference(
        "ffff008000018f64: f100041f \tcmp\tx0, #0x2"
    ));
}

#[test]
fn neon_scan_ignores_d_starting_hex_byte_in_pre_tab_region() {
    assert!(!line_has_neon_reference(
        "ffff008000000014: d5384240 \tmrs\tx0, CurrentEL"
    ));
}

#[test]
fn neon_scan_ignores_branch_with_condition() {
    assert!(!line_has_neon_reference(
        "ffff008000018f64: 54000000 \tb.eq\t0xffff008000018f70"
    ));
}

#[test]
fn neon_scan_handles_no_tab_lines() {
    assert!(!line_has_neon_reference(
        "Disassembly of section .text:"
    ));
    assert!(!line_has_neon_reference(""));
}

#[test]
fn pointer_casts_need_a_safety_comment() {
    let r = check_pointers(
        "let a = x as *const u8;\n\
         // SAFETY: kernel address\n\
         let b = x as *mut u8;\n\
         let c = (x + 1)\n\
             as *mut u8;\n\
         let d = x as *mut u8; // SAFETY: mapped\n\
         // as *const u8\n\
         * as *mut u8\n",
    );
    assert_eq!(r.casts, 4);
    assert_eq!(r.findings.len(), 2);
    assert_eq!(r.findings[0].line, 1);
    assert_eq!(r.findings[0].text, "let a = x as *const u8;");
    assert_eq!(r.findings[1].line, 5);
    assert_eq!(r.findings[1].text, "as *mut u8;");
}

#[test]
fn a_safety_comment_covers_the_line_below() {
    let r = check_pointers("// SAFETY: ok\nlet a = x as *mut u8;\n");
    assert_eq!((r.casts, r.findings.len()), (1, 0));
    let r = check_pointers("// SAFETY: ok\n\nlet a = x as *mut u8;\n");
    assert_eq!((r.casts, r.findings.len()), (1, 1));
    assert_eq!(r.findings[0].line, 3);
}

#[test]
fn a_register_that_ends_the_line_is_seen() {
    assert!(line_has_neon_reference("ffff008000018f64: 9e660001 \tfmov\tx1, d0"));
    assert!(line_has_neon_reference("0: 1e2e1000 \tfmov\tw1, s31"));
    assert!(line_has_neon_reference("0: 1 \tfoo\tq7"));
    assert!(!line_has_neon_reference("0: 1 \tfoo\tx1, d"));
    assert!(!line_has_neon_reference("0: 1 \tfoo\tx1, d123"));
    assert!(!line_has_neon_reference("0: 1 \tfoo\tx1, v1"));
}

fn is_site(line: &str) -> bool {
    line_has_linker_symbol_site(&line.chars().collect())
}

#[test]
fn linker_symbol_sites_have_five_shapes() {
    assert!(is_site("let a = &__bss_start as *const u8;"));
    assert!(is_site("let a = &raw const __bss_start;"));
    assert!(is_site("let a = &raw const BOOT_L0;"));
    assert!(is_site("let a = &raw const KERNEL_L1;"));
    assert!(is_site("let a = _secondary_start as *const () as u64;"));
    assert!(!is_site("let a = &raw const OTHER;"));
    assert!(!is_site("let a = x as *const u8 as u64;"));
}

#[test]
fn linker_symbol_sites_are_numbered_from_one() {
    let source = "fn f() {\n    let a = &__end;\n    // &__end\n    * &__end\n}\nlet b = &__end;\n";
    assert_eq!(find_linker_symbol_sites(source), vec![2, 6]);
}

fn site(file: &str, line: usize) -> Site {
    Site { file: file.to_string(), line }
}

fn pairs(sites: &Vec<Site>) -> Vec<(String, usize)> {
    let mut out: Vec<(String, usize)> = Vec::new();
    for s in sites {
        out.push((s.file.clone(), s.line));
    }
    out
}

const AUDIT: &str = "# Audit\n\
    | 1 | before any heading |\n\
    ### `src/mmu.rs`\n\
    | Line | Class |\n\
    |------|-------|\n\
    | 12 | PA |\n\
    |  7| VA-image |\n\
    ### no path here\n\
    | 9 | DISPLAY |\n\
    ### `src/boot.rs` (boot)\n\
    | 3 | PA |\n";

#[test]
fn audit_rows_belong_to_the_last_named_file() {
    let mut got = pairs(&parse_audit(AUDIT));
    got.sort();
    assert_eq!(
        got,
        vec![
            ("src/boot.rs".to_string(), 3),
            ("src/mmu.rs".to_string(), 7),
            ("src/mmu.rs".to_string(), 9),
            ("src/mmu.rs".to_string(), 12),
        ],
    );
}

#[test]
fn audits_are_compared_both_ways() {
    let source = vec![site("b.rs", 2), site("a.rs", 9), site("a.rs", 1)];
    let audit = vec![site("a.rs", 1), site("c.rs", 4)];
    let r = check_linker_symbols(&source, &audit);
    assert_eq!(pairs(&r.missing), vec![("a.rs".to_string(), 9), ("b.rs".to_string(), 2)]);
    assert_eq!(pairs(&r.stale), vec![("c.rs".to_string(), 4)]);
    let r = check_linker_symbols(&audit, &audit);
    assert!(r.missing.is_empty());
    assert!(r.stale.is_empty());
}

#[test]
fn neon_is_allowed_in_the_context_switch_only() {
    let text = "kernel: file\n\
        0010 <context_switch>:\n\
        10: 00000000 \tstp\tq0, q1, [x0]\n\
        0020 <other_context_switch>:\n\
        20: 00000000 \tldr\td2, [x0]\n\
        24: 00000000 ldr d2, [x0]\n\
        28: 00000000 \tldr\tx2, [x0]\n";
    let out = check_kernel_no_neon(text);
    assert_eq!(out.len(), 1);
    assert_eq!(out[0].line, 5);
    assert_eq!(out[0].text, "20: 00000000 \tldr\td2, [x0]");
}

#[test]
fn at_most_twenty_neon_lines_are_reported() {
    let mut text = String::new();
    for _ in 0..30 {
        text.push_str("20: 00000000 \tldr\td2, [x0]\n");
    }
    let out = check_kernel_no_neon(&text);
    assert_eq!(out.len(), 20);
    assert_eq!(out[19].line, 20);
}
