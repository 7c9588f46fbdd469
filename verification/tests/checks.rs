use lockjaw::annotations::{load_annotations, Annotations, IndirectAnnotation};
use lockjaw::bytes::{read_cstr, read_u16, read_u32, read_u64};
use lockjaw::call_graph::{extract_call_graph, extract_call_target, CallGraph};
use lockjaw::elf::{
    build_symbol_map, check_vtables, data_placed, find_code_pointers, find_section,
    has_nearby_allowed_callee, has_sections, looks_like_elf, parse_elf_sections, reads_code,
    resolve_code_pointer, ElfSection, SymbolMap,
};
use lockjaw::init_budget::{has_program_headers, measure_init};
use lockjaw::recursion::detect_cycles;
use lockjaw::sorting::{add_sorted, before};
use lockjaw::stack_check::{
    check_stack_for_profile, resolve_target_name, target_candidates, StackFault, StackReport,
    PER_FUNCTION_CAP, TOTAL_BUDGET,
};
use lockjaw::stack_depth::{
    lookup_stack_size, parse_stack_sizes, strip_llvm_suffix, worst_case_depth,
};
use lockjaw::table::Table;
use lockjaw::text::{chars_of, lines, parse_hex_or_dec, parse_unsigned, pieces, string_of, strip, trim};
use lockjaw::walks::collect_reachable;

fn plain(lines: &Vec<Vec<char>>) -> Vec<String> {
    let mut out: Vec<String> = Vec::new();
    for l in lines {
        out.push(string_of(l));
    }
    out
}

fn owned(names: &[&str]) -> Vec<String> {
    let mut out: Vec<String> = Vec::new();
    for n in names {
        out.push(n.to_string());
    }
    out
}

fn sizes(entries: &[(&str, u64)]) -> Table<u64> {
    let mut t: Table<u64> = Table::new();
    for e in entries {
        t.put(e.0.to_string(), e.1);
    }
    t
}

fn graph(edges: &[(&str, &[&str])]) -> CallGraph {
    let mut g = CallGraph::new();
    for e in edges {
        g.add_node(e.0);
        for c in e.1 {
            g.add_call(e.0, c);
        }
    }
    g
}

// --- text ---

#[test]
fn lines_end_with_or_without_a_newline() {
    assert_eq!(plain(&lines(&chars_of("a\nb\r\n\nc"))), owned(&["a", "b", "", "c"]));
    assert_eq!(plain(&lines(&chars_of("a\n"))), owned(&["a"]));
    assert_eq!(plain(&lines(&chars_of(""))), owned(&[]));
}

#[test]
fn pieces_are_split_at_every_separator() {
    assert_eq!(plain(&pieces(&chars_of("a,,b"), ',')), owned(&["a", "", "b"]));
    assert_eq!(plain(&pieces(&chars_of(""), ',')), owned(&[""]));
}

#[test]
fn trimming_takes_the_ends_only() {
    assert_eq!(string_of(&trim(&chars_of(" \t a b \n"))), "a b");
    assert_eq!(string_of(&strip(&chars_of("\"\"a\"b\""), '"')), "a\"b");
}

#[test]
fn numbers_are_read_in_hex_or_decimal() {
    assert_eq!(parse_hex_or_dec(&chars_of("0x1F")), Some(31));
    assert_eq!(parse_hex_or_dec(&chars_of("42")), Some(42));
    assert_eq!(parse_hex_or_dec(&chars_of("+42")), Some(42));
    assert_eq!(parse_hex_or_dec(&chars_of("0x")), None);
    assert_eq!(parse_hex_or_dec(&chars_of("")), None);
    assert_eq!(parse_hex_or_dec(&chars_of("+")), None);
    assert_eq!(parse_hex_or_dec(&chars_of("0X1F")), None);
    assert_eq!(parse_hex_or_dec(&chars_of("18446744073709551615")), Some(u64::MAX));
    assert_eq!(parse_hex_or_dec(&chars_of("18446744073709551616")), None);
    assert_eq!(parse_unsigned(&chars_of("ff"), 16, 0xff), Some(255));
    assert_eq!(parse_unsigned(&chars_of("100"), 16, 0xff), None);
}

#[test]
fn names_are_ordered_by_code_points() {
    assert!(before("a", "ab"));
    assert!(before("Z", "a"));
    assert!(!before("a", "a"));
    let mut v: Vec<String> = Vec::new();
    for n in ["b", "a", "c", "ab"] {
        add_sorted(&mut v, n.to_string());
    }
    assert_eq!(v, owned(&["a", "ab", "b", "c"]));
}

#[test]
fn a_table_keeps_the_last_value_of_a_name() {
    let mut t: Table<u64> = Table::new();
    t.put("a".to_string(), 1);
    t.put("b".to_string(), 2);
    t.put("a".to_string(), 3);
    assert_eq!(t.entries.len(), 2);
    assert_eq!(t.entries[t.find("a").unwrap()].1, 3);
    assert_eq!(t.entries[t.find("b").unwrap()].1, 2);
    assert!(t.find("c").is_none());
}

// --- annotations ---

const NOTES: &str = "# comment\n\
    [indirect_calls]\n\
    \"core::fmt::write\" = \"fmt-internal\"\n\
    \"sched::run\" = [\"task_a\", \"task_b\", ]\n\
    \"ignored\" = other\n\
    no equals sign\n\
    [allowed_cycles]\n\
    \"core::fmt::write\" = \"bounded\"\n\
    [known_assembly]\n\
    \"_start\" = 0x10\n\
    \"__vec_irq\" = 272\n\
    \"bad\" = many\n\
    [allowed_vtables]\n\
    \"pl011::puts\" = \"console\"\n\
    [something_else]\n\
    \"x\" = 1\n";

#[test]
fn annotations_fill_their_sections() {
    let a: Annotations = load_annotations(NOTES);
    assert_eq!(a.indirect_calls.entries.len(), 2);
    let fmt = a.indirect_calls.find("core::fmt::write").unwrap();
    assert!(matches!(a.indirect_calls.entries[fmt].1, IndirectAnnotation::FmtInternal));
    let run = a.indirect_calls.find("sched::run").unwrap();
    match &a.indirect_calls.entries[run].1 {
        IndirectAnnotation::Targets(t) => assert_eq!(t, &owned(&["task_a", "task_b"])),
        IndirectAnnotation::FmtInternal => panic!("targets expected"),
    }
    assert_eq!(a.allowed_cycles, owned(&["core::fmt::write"]));
    assert_eq!(a.known_assembly.entries, vec![("_start".to_string(), 16), ("__vec_irq".to_string(), 272)]);
    assert_eq!(a.allowed_vtables.entries, vec![("pl011::puts".to_string(), "console".to_string())]);
}

#[test]
fn entries_before_any_section_are_dropped() {
    let a = load_annotations("\"a\" = 1\n[known_assembly]\nb = 2\n");
    assert_eq!(a.known_assembly.entries, vec![("b".to_string(), 2)]);
    assert!(a.indirect_calls.entries.is_empty());
    assert!(a.allowed_cycles.is_empty());
    assert!(a.allowed_vtables.entries.is_empty());
}

// --- call graph ---

#[test]
fn call_targets_keep_nested_brackets() {
    assert_eq!(extract_call_target(&chars_of("bl 0x10 <kmain>")), Some("kmain".to_string()));
    assert_eq!(
        extract_call_target(&chars_of("bl 0x10 <core::Result<T, E>::map>")),
        Some("core::Result<T, E>::map".to_string()),
    );
    assert_eq!(extract_call_target(&chars_of("bl 0x10")), None);
    assert_eq!(extract_call_target(&chars_of("> <")), None);
}

const DISASSEMBLY: &str = "\n\
    lockjaw:\tfile format elf64-littleaarch64\n\
    \n\
    0000000040080000 <_start>:\n\
    40080000:      \tbl\t0x40080078 <kmain>\n\
    40080004:      \tbl\t0x40080078 <kmain>\n\
    40080008:      \tb\t0x40080008 <_start>\n\
    4008000c:      \tb\t0x40080010 <_start+0x10>\n\
    40080010:      \tb\t0x40080090 <idle>\n\
    0000000040080078 <kmain>:\n\
    40080078:      \tblr\tx8\n\
    4008007c:      \tblr\tx9\n\
    40080080:      \tret\n\
    0000000040080090 <idle>:\n\
    40080090:      \twfi\n";

#[test]
fn disassembly_gives_the_call_graph() {
    let e = extract_call_graph(DISASSEMBLY);
    assert_eq!(e.graph.nodes.len(), 3);
    assert_eq!(e.graph.nodes[0].name, "_start");
    assert_eq!(e.graph.nodes[0].callees, owned(&["kmain", "idle"]));
    assert_eq!(e.graph.nodes[1].name, "kmain");
    assert!(e.graph.nodes[1].callees.is_empty());
    assert_eq!(e.indirect, owned(&["kmain"]));
    assert_eq!(e.bl_count, 1);
    assert_eq!(e.tail_count, 1);
}

#[test]
fn instructions_before_the_first_function_are_dropped() {
    let e = extract_call_graph("40080000: bl 0x10 <a>\n");
    assert!(e.graph.nodes.is_empty());
    assert_eq!(e.bl_count, 0);
}

#[test]
fn reachable_functions_include_callees_without_a_body() {
    let g = graph(&[("a", &["b", "outside"]), ("b", &["a"]), ("c", &["b"])]);
    let mut r = collect_reachable(&owned(&["a", "missing"]), &g);
    r.sort();
    assert_eq!(r, owned(&["a", "b", "outside"]));
}

// --- recursion and depth ---

#[test]
fn a_cycle_is_reported_closed() {
    let g = graph(&[("a", &["b"]), ("b", &["c"]), ("c", &["b"])]);
    assert_eq!(detect_cycles(&g), vec![owned(&["b", "c", "b"])]);
}

#[test]
fn the_functions_of_a_cycle_differ() {
    let g = graph(&[("a", &["b", "a"]), ("b", &["c", "a"]), ("c", &["a", "b"])]);
    let cycles = detect_cycles(&g);
    assert!(cycles.len() > 2);
    for c in &cycles {
        assert_eq!(c.first(), c.last());
        for i in 1..c.len() {
            assert!(!c[i..c.len() - 1].contains(&c[i - 1]), "{c:?}");
        }
    }
}

#[test]
fn a_self_call_is_a_cycle() {
    let g = graph(&[("a", &["a"])]);
    assert_eq!(detect_cycles(&g), vec![owned(&["a", "a"])]);
}

#[test]
fn a_diamond_is_no_cycle() {
    let g = graph(&[("a", &["b", "c"]), ("b", &["d"]), ("c", &["d"]), ("d", &[])]);
    assert!(detect_cycles(&g).is_empty());
}

const SIZES: &str = "StackSizes [\n\
    Entry {\n\
    Functions: [_start]\n\
    Size: 0x20\n\
    }\n\
    Entry {\n\
    Functions: [kmain]\n\
    Size: 64\n\
    }\n\
    Entry {\n\
    Functions: [broken]\n\
    Size: unknown\n\
    }\n\
    ]\n";

#[test]
fn stack_sizes_are_read_by_function() {
    let t = parse_stack_sizes(SIZES);
    assert_eq!(t.entries, vec![("_start".to_string(), 32), ("kmain".to_string(), 64)]);
}

#[test]
fn llvm_suffixes_are_stripped() {
    assert_eq!(string_of(&strip_llvm_suffix(&chars_of("foo (.llvm.123)"))), "foo");
    assert_eq!(string_of(&strip_llvm_suffix(&chars_of("foo"))), "foo");
}

#[test]
fn stack_sizes_are_looked_up_in_four_steps() {
    let t = sizes(&[("foo", 8), ("foo::bar", 16), ("__stub_*", 24), ("foo::bar::<u8>", 32)]);
    assert_eq!(lookup_stack_size("foo", &t), Some(8));
    assert_eq!(lookup_stack_size("foo (.llvm.9)", &t), Some(8));
    assert_eq!(lookup_stack_size("foo::bar::<u64, u64>", &t), Some(16));
    assert_eq!(lookup_stack_size("foo::bar::<u8>", &t), Some(32));
    assert_eq!(lookup_stack_size("__stub_FFFF0080", &t), Some(24));
    assert_eq!(lookup_stack_size("foo::baz", &t), None);
}

#[test]
fn depth_follows_the_deepest_chain() {
    let g = graph(&[("a", &["b", "c"]), ("b", &["d"]), ("c", &[]), ("d", &[])]);
    let t = sizes(&[("a", 10), ("b", 20), ("c", 45), ("d", 30)]);
    assert_eq!(worst_case_depth("a", &g, &t), Some(60));
    assert_eq!(worst_case_depth("b", &g, &t), Some(50));
    assert_eq!(worst_case_depth("nobody", &g, &t), None);
}

#[test]
fn depth_counts_a_repeated_function_once_on_a_cycle() {
    let g = graph(&[("a", &["b"]), ("b", &["a"])]);
    let t = sizes(&[("a", 10), ("b", 20)]);
    assert_eq!(worst_case_depth("a", &g, &t), Some(30));
}

#[test]
fn targets_resolve_by_name_or_unique_suffix() {
    let g = graph(&[("m::task", &[]), ("x::twice", &[]), ("y::twice", &[]), ("task_b", &[])]);
    assert_eq!(resolve_target_name("task_b", &g), Some("task_b".to_string()));
    assert_eq!(resolve_target_name("task", &g), Some("m::task".to_string()));
    assert_eq!(resolve_target_name("twice", &g), None);
    assert_eq!(resolve_target_name("nobody", &g), None);
}

// --- the whole stack check ---

const KERNEL: &str = "0010 <_start>:\n\
    10: bl 0x20 <kmain>\n\
    0020 <kmain>:\n\
    20: blr x1\n\
    0030 <_secondary_start>:\n\
    30: ret\n\
    0040 <__vec_sync_lower>:\n\
    40: bl 0x60 <handler>\n\
    0050 <__vec_irq>:\n\
    50: ret\n\
    0060 <handler>:\n\
    60: ret\n\
    0070 <m::task>:\n\
    70: ret\n";

const KERNEL_SIZES: &str = "Functions: [kmain]\nSize: 0x40\n\
    Functions: [handler]\nSize: 100\n\
    Functions: [m::task]\nSize: 8\n";

const KERNEL_NOTES: &str = "[indirect_calls]\n\
    \"kmain\" = [\"task\"]\n\
    [known_assembly]\n\
    \"_start\" = 0\n\
    \"_secondary_start\" = 16\n\
    \"__vec_sync_lower\" = 272\n\
    \"__vec_irq\" = 288\n\
    \"memcpy\" = 0\n\
    \"__stub_*\" = 16\n";

#[test]
fn noted_targets_are_counted_and_ambiguous_ones_listed() {
    let text = "0 <_start>:\n1: blr x0\n2 <a::f>:\n3: ret\n4 <b::f>:\n5: ret\n6 <c::g>:\n7: ret\n";
    let scan = extract_call_graph(text);
    assert_eq!(target_candidates("f", &scan.graph), ["a::f", "b::f"]);
    assert_eq!(target_candidates("g", &scan.graph), ["c::g"]);
    assert_eq!(resolve_target_name("f", &scan.graph), None);
    assert_eq!(resolve_target_name("g", &scan.graph), Some("c::g".to_string()));
    assert_eq!(kernel_report(KERNEL_NOTES, KERNEL_SIZES, KERNEL).resolved, 1);
}

fn kernel_report(notes: &str, listing: &str, disassembly: &str) -> StackReport {
    match check_stack_for_profile(&load_annotations(notes), listing, disassembly) {
        Ok(r) => r,
        Err(_) => panic!("a report expected"),
    }
}

fn kernel_fault(notes: &str, listing: &str, disassembly: &str) -> StackFault {
    match check_stack_for_profile(&load_annotations(notes), listing, disassembly) {
        Ok(_) => panic!("a fault expected"),
        Err(f) => f,
    }
}

#[test]
fn a_small_kernel_passes() {
    let r = kernel_report(KERNEL_NOTES, KERNEL_SIZES, KERNEL);
    assert_eq!(r.normal, 64 + 8);
    assert_eq!(r.secondary, 16);
    assert_eq!(r.sync, 272 + 100);
    assert_eq!(r.irq, 288);
    assert_eq!(r.combined_depth(), Some(72 + 372));
    assert_eq!(r.largest, ("__vec_irq".to_string(), 288));
    assert!(r.over_cap.is_empty());
    assert!(r.cycles.is_empty());
    assert!(r.passed());
}

#[test]
fn a_large_frame_fails_the_cap() {
    let listing = KERNEL_SIZES.replace("Size: 100", "Size: 1601");
    let r = kernel_report(KERNEL_NOTES, &listing, KERNEL);
    assert_eq!(PER_FUNCTION_CAP, 1600);
    assert_eq!(r.over_cap, vec![("handler".to_string(), 1601)]);
    assert_eq!(r.largest, ("handler".to_string(), 1601));
    assert!(!r.passed());
    let listing = KERNEL_SIZES.replace("Size: 100", "Size: 1600");
    assert!(kernel_report(KERNEL_NOTES, &listing, KERNEL).passed());
}

#[test]
fn a_deep_kernel_fails_the_budget() {
    // Six frames below the cap under one entry: 6 * 1400 = 8400 bytes.
    let mut text = KERNEL.to_string();
    let mut listing = KERNEL_SIZES.to_string();
    text.push_str("0080 <f0>:\n80: bl 0x90 <f1>\n0090 <f1>:\n90: bl 0xa0 <f2>\n");
    text.push_str("00a0 <f2>:\na0: bl 0xb0 <f3>\n00b0 <f3>:\nb0: bl 0xc0 <f4>\n");
    text.push_str("00c0 <f4>:\nc0: bl 0xd0 <f5>\n00d0 <f5>:\nd0: ret\n");
    for f in ["f0", "f1", "f2", "f3", "f4", "f5"] {
        listing.push_str(&format!("Functions: [{}]\nSize: 1400\n", f));
    }
    let text = text.replace("30: ret", "30: bl 0x80 <f0>");
    let r = kernel_report(KERNEL_NOTES, &listing, &text);
    assert_eq!(TOTAL_BUDGET, 8192);
    assert_eq!(r.secondary, 16 + 8400);
    assert_eq!(r.combined_depth(), Some(8416 + 372));
    assert!(r.over_cap.is_empty());
    assert!(!r.passed());
}

#[test]
fn recursion_fails_unless_it_is_allowed() {
    let text = KERNEL.replace("60: ret", "60: bl 0x60 <handler>");
    let r = kernel_report(KERNEL_NOTES, KERNEL_SIZES, &text);
    assert_eq!(r.cycles, vec![owned(&["handler", "handler"])]);
    assert!(!r.passed());
    let notes = format!("{}[allowed_cycles]\n\"handler\" = \"bounded\"\n", KERNEL_NOTES);
    let r = kernel_report(&notes, KERNEL_SIZES, &text);
    assert!(r.cycles.is_empty());
    assert!(r.passed());
}

#[test]
fn unknown_assembly_symbols_are_refused() {
    let notes = format!("{}\"renamed\" = 4\n", KERNEL_NOTES);
    match kernel_fault(&notes, KERNEL_SIZES, KERNEL) {
        StackFault::KnownAssemblyMissing { symbol } => assert_eq!(symbol, "renamed"),
        _ => panic!("another fault"),
    }
}

#[test]
fn unannotated_indirect_calls_are_refused() {
    let notes = KERNEL_NOTES.replace("\"kmain\"", "\"other\"");
    match kernel_fault(&notes, KERNEL_SIZES, KERNEL) {
        StackFault::Unannotated { functions } => assert_eq!(functions, owned(&["kmain"])),
        _ => panic!("another fault"),
    }
}

#[test]
fn unresolved_targets_are_refused() {
    let notes = KERNEL_NOTES.replace("\"task\"", "\"nobody\"");
    match kernel_fault(&notes, KERNEL_SIZES, KERNEL) {
        StackFault::TargetUnresolved { function, target } => {
            assert_eq!(function, "kmain");
            assert_eq!(target, "nobody");
        }
        _ => panic!("another fault"),
    }
}

#[test]
fn reachable_functions_without_a_size_are_refused_in_order() {
    let listing = KERNEL_SIZES.replace("[kmain]", "[x]").replace("[handler]", "[y]");
    match kernel_fault(KERNEL_NOTES, &listing, KERNEL) {
        StackFault::NoSize { functions } => assert_eq!(functions, owned(&["handler", "kmain"])),
        _ => panic!("another fault"),
    }
}

#[test]
fn missing_entry_points_are_refused() {
    let text = KERNEL.replace("<__vec_irq>", "<__vec_other>");
    let notes = KERNEL_NOTES.replace("\"__vec_irq\" = 288\n", "");
    match kernel_fault(&notes, KERNEL_SIZES, &text) {
        StackFault::EntryMissing { entry } => assert_eq!(entry, "__vec_irq"),
        _ => panic!("another fault"),
    }
}

// --- bytes and ELF files ---

#[test]
fn integers_are_little_endian() {
    let b = [0x01u8, 0x02, 0x03, 0x04, 0x05, 0x06, 0x07, 0x08, 0x09];
    assert_eq!(read_u16(&b, 1), 0x0302);
    assert_eq!(read_u32(&b, 1), 0x0504_0302);
    assert_eq!(read_u64(&b, 1), 0x0908_0706_0504_0302);
}

#[test]
fn strings_end_at_a_zero_byte_and_are_decoded_lossily() {
    assert_eq!(read_cstr(b"\0.text\0.data", 1), ".text");
    assert_eq!(read_cstr(b"\0.text\0.data", 7), ".data");
    assert_eq!(read_cstr(b"abc", 3), "");
    assert_eq!(read_cstr(b"a\xffb\0", 0), "a\u{fffd}b");
    assert_eq!(read_cstr("h\u{e9}\0".as_bytes(), 0), "h\u{e9}");
}

fn put(b: &mut Vec<u8>, at: usize, bytes: &[u8]) {
    while b.len() < at + bytes.len() {
        b.push(0);
    }
    let mut i = 0usize;
    while i < bytes.len() {
        b[at + i] = bytes[i];
        i += 1;
    }
}

fn section(b: &mut Vec<u8>, at: usize, name: u32, vaddr: u64, offset: u64, size: u64) {
    put(b, at, &name.to_le_bytes());
    put(b, at + 16, &vaddr.to_le_bytes());
    put(b, at + 24, &offset.to_le_bytes());
    put(b, at + 32, &size.to_le_bytes());
    put(b, at + 40, &[0; 24]);
}

// Sections: none, .text at 0x40080000 (file 0x100, 0x40 bytes), .rodata at
// 0x40090000 (file 0x140, 0x1c bytes), .shstrtab (file 0x180).
fn kernel_elf() -> Vec<u8> {
    let mut b: Vec<u8> = Vec::new();
    put(&mut b, 0, b"\x7fELF");
    put(&mut b, 40, &0x200u64.to_le_bytes());
    put(&mut b, 58, &64u16.to_le_bytes());
    put(&mut b, 60, &4u16.to_le_bytes());
    put(&mut b, 62, &3u16.to_le_bytes());
    // A call at offset 0x10 of .text to 0x40080030, eight words ahead.
    put(&mut b, 0x110, &0x9400_0008u32.to_le_bytes());
    // Three words of .rodata: a code pointer, a number, and a pointer one past
    // the code; then half a word.
    put(&mut b, 0x140, &0x4008_0014u64.to_le_bytes());
    put(&mut b, 0x148, &7u64.to_le_bytes());
    put(&mut b, 0x150, &0x4008_0040u64.to_le_bytes());
    put(&mut b, 0x158, &[1, 2, 3, 4]);
    put(&mut b, 0x180, b"\0.text\0.rodata\0.shstrtab\0");
    section(&mut b, 0x200, 0, 0, 0, 0);
    section(&mut b, 0x240, 1, 0x4008_0000, 0x100, 0x40);
    section(&mut b, 0x280, 7, 0x4009_0000, 0x140, 0x1c);
    section(&mut b, 0x2c0, 15, 0, 0x180, 25);
    b
}

const SYMBOLS: &str = "0000000040080000 T kmain\n\
    0000000040080030 t <pl011::Pl011>::puts\n\
    not a symbol line\n\
    zzzz T bad\n";

#[test]
fn elf_files_are_told_by_their_first_bytes() {
    assert!(looks_like_elf(&kernel_elf()));
    assert!(!looks_like_elf(b"\x7fELF"));
    let mut b = kernel_elf();
    b[0] = 0;
    assert!(!looks_like_elf(&b));
}

#[test]
fn elf_sections_are_read_with_their_names() {
    let b = kernel_elf();
    assert!(has_sections(&b));
    let s = parse_elf_sections(&b);
    assert_eq!(s.len(), 4);
    assert_eq!(s[0].name, "");
    assert_eq!(s[1].name, ".text");
    assert_eq!((s[1].vaddr, s[1].file_offset, s[1].size), (0x4008_0000, 0x100, 0x40));
    assert_eq!(s[2].name, ".rodata");
    assert_eq!(s[3].name, ".shstrtab");
    assert_eq!(find_section(&s, ".rodata"), Some(2));
    assert_eq!(find_section(&s, ".bss"), None);
    assert!(data_placed(&b, &s, &s[1]));
}

#[test]
fn only_sections_that_are_searched_have_to_be_placed() {
    let mut b = kernel_elf();
    let mut s = parse_elf_sections(&b);
    s[3].vaddr = u64::MAX;
    assert!(data_placed(&b, &s, &s[1]));
    assert_eq!(find_code_pointers(&b, &s, &s[1]).len(), 1);
    // The section runs past the last address, but its one code pointer does not.
    s[2].vaddr = u64::MAX;
    assert!(data_placed(&b, &s, &s[1]));
    assert_eq!(find_code_pointers(&b, &s, &s[1])[0].address, u64::MAX);
    // Now its third word is one too.
    put(&mut b, 0x150, &0x4008_0020u64.to_le_bytes());
    assert!(!data_placed(&b, &s, &s[1]));
    s[2].vaddr = u64::MAX - 16;
    assert!(data_placed(&b, &s, &s[1]));
    assert_eq!(find_code_pointers(&b, &s, &s[1])[1].address, u64::MAX);
    s[2].vaddr = u64::MAX;
    s[2].size = 0x10000;
    assert!(data_placed(&b, &s, &s[1]));
}

#[test]
fn truncated_section_tables_are_noticed() {
    let mut b = kernel_elf();
    b.truncate(0x2c0);
    assert!(!has_sections(&b));
}

#[test]
fn code_pointers_in_data_are_found() {
    let b = kernel_elf();
    let s = parse_elf_sections(&b);
    let hits = find_code_pointers(&b, &s, &s[1]);
    assert_eq!(hits.len(), 1);
    assert_eq!(hits[0].section, ".rodata");
    assert_eq!(hits[0].address, 0x4009_0000);
    assert_eq!(hits[0].target, 0x4008_0014);
}

#[test]
fn sections_past_the_end_of_the_file_are_skipped() {
    let b = kernel_elf();
    let mut s = parse_elf_sections(&b);
    s[2].size = 0x10000;
    assert!(find_code_pointers(&b, &s, &s[1]).is_empty());
}

#[test]
fn symbols_are_read_line_by_line() {
    let m = build_symbol_map(SYMBOLS);
    assert_eq!(m.get(0x4008_0000), Some(&"kmain".to_string()));
    assert_eq!(m.get(0x4008_0030), Some(&"<pl011::Pl011>::puts".to_string()));
    assert_eq!(m.get(0x4008_0034), None);
    assert_eq!(m.entries.len(), 2);
}

#[test]
fn code_pointers_are_named_by_the_nearest_symbol() {
    let m = build_symbol_map(SYMBOLS);
    assert_eq!(resolve_code_pointer(0x4008_0000, &m), "kmain");
    assert_eq!(resolve_code_pointer(0x4008_0014, &m), "kmain+0x14");
    assert_eq!(resolve_code_pointer(0x4008_0040, &m), "<pl011::Pl011>::puts+0x10");
    assert_eq!(resolve_code_pointer(0x10, &m), "<unknown @ 0x10>");
    let m = build_symbol_map("0000000000000000 T _head\n");
    assert_eq!(resolve_code_pointer(0, &m), "_head");
    assert_eq!(resolve_code_pointer(4, &m), "_head+0x4");
}

fn text_section() -> ElfSection {
    ElfSection { name: ".text".to_string(), vaddr: 0x4008_0000, file_offset: 0x100, size: 0x40 }
}

fn allowed(pattern: &str) -> Table<String> {
    let mut t: Table<String> = Table::new();
    t.put(pattern.to_string(), "reason".to_string());
    t
}

#[test]
fn nearby_calls_are_matched_without_the_plus() {
    let b = kernel_elf();
    let m = build_symbol_map(SYMBOLS);
    let t = text_section();
    assert!(has_nearby_allowed_callee(&b, &t, 0x4008_0014, &m, &allowed("Pl011>::puts+")));
    assert!(!has_nearby_allowed_callee(&b, &t, 0x4008_0014, &m, &allowed("other")));
    assert!(!has_nearby_allowed_callee(&b, &t, 0x4008_0040, &m, &allowed("Pl011>::puts")));
}

#[test]
fn backward_calls_are_sign_extended() {
    let mut b = kernel_elf();
    // From offset 0x10 four words back to the start of .text.
    put(&mut b, 0x110, &0x97ff_fffcu32.to_le_bytes());
    let m = build_symbol_map(SYMBOLS);
    assert!(has_nearby_allowed_callee(&b, &text_section(), 0x4008_0014, &m, &allowed("kmain")));
    assert!(!has_nearby_allowed_callee(&b, &text_section(), 0x4008_0014, &m, &allowed("puts")));
}

fn violations(pattern: &str, m: &SymbolMap) -> Vec<String> {
    let b = kernel_elf();
    let s = parse_elf_sections(&b);
    let hits = find_code_pointers(&b, &s, &s[1]);
    let mut out: Vec<String> = Vec::new();
    for v in check_vtables(&b, &s[1], &hits, m, &allowed(pattern)) {
        assert_eq!(v.pointer.target, 0x4008_0014);
        out.push(v.name);
    }
    out
}

#[test]
fn code_pointers_must_be_allowed() {
    let m = build_symbol_map(SYMBOLS);
    assert_eq!(violations("other", &m), owned(&["kmain+0x14"]));
    assert!(violations("kmain", &m).is_empty());
    assert!(violations("Pl011>::puts+", &m).is_empty());
}

#[test]
fn a_nearby_call_excuses_only_pointers_into_a_body() {
    let m = build_symbol_map(&format!("{}0000000040080014 T table\n", SYMBOLS));
    assert_eq!(violations("Pl011>::puts", &m), owned(&["table"]));
}

#[test]
fn the_code_is_read_only_where_a_name_does_not_settle_it() {
    let b = kernel_elf();
    let s = parse_elf_sections(&b);
    let hits = find_code_pointers(&b, &s, &s[1]);
    let m = build_symbol_map(SYMBOLS);
    assert!(reads_code(&s[1], &hits, &m, &allowed("puts")));
    assert!(!reads_code(&s[1], &hits, &m, &allowed("kmain")));
    assert!(!reads_code(&s[1], &Vec::new(), &m, &allowed("puts")));
    // Where it is not read, it may lie outside the file.
    let mut text = text_section();
    text.file_offset = 0x1_0000;
    assert!(check_vtables(&b, &text, &hits, &m, &allowed("kmain")).is_empty());
}

// --- the init program ---

fn program_header(b: &mut Vec<u8>, i: usize, kind: u32, flags: u32, vaddr: u64, memsz: u64) {
    let at = 64 + 56 * i;
    put(b, at, &kind.to_le_bytes());
    put(b, at + 4, &flags.to_le_bytes());
    put(b, at + 16, &vaddr.to_le_bytes());
    put(b, at + 40, &memsz.to_le_bytes());
    put(b, at + 48, &[0; 8]);
}

fn init_elf(segments: &[(u32, u32, u64, u64)]) -> Vec<u8> {
    let mut b: Vec<u8> = Vec::new();
    put(&mut b, 0, b"\x7fELF");
    put(&mut b, 32, &64u64.to_le_bytes());
    put(&mut b, 54, &56u16.to_le_bytes());
    put(&mut b, 56, &(segments.len() as u16).to_le_bytes());
    put(&mut b, 63, &[0]);
    let mut i = 0usize;
    while i < segments.len() {
        program_header(&mut b, i, segments[i].0, segments[i].1, segments[i].2, segments[i].3);
        i += 1;
    }
    b
}

#[test]
fn init_segments_are_counted_in_pages() {
    let b = init_elf(&[(1, 5, 0x400000, 0x1001), (2, 6, 0, 0x9000), (1, 6, 0x402000, 0x1000)]);
    assert!(has_program_headers(&b));
    let r = measure_init(&b);
    assert_eq!(r.segments.len(), 2);
    assert_eq!((r.segments[0].vaddr, r.segments[0].pages, r.segments[0].flags), (0x400000, 2, 5));
    assert_eq!((r.segments[1].vaddr, r.segments[1].pages, r.segments[1].flags), (0x402000, 1, 6));
    assert_eq!(r.total_pages, 3);
    assert_eq!(r.total_with_stack(), 11);
    assert_eq!(r.capacity(), 2720);
    let mut regions = r.regions.clone();
    regions.sort();
    assert_eq!(regions, vec![2, 4]);
    assert!(r.fits_buffer());
    assert!(r.fits_tables());
    assert!(r.passed());
    assert_eq!(r.buffer_percent(), 0);
    assert_eq!(r.tables_percent(), 25);
    assert!(!r.warns_buffer());
    assert!(!r.warns_tables());
}

#[test]
fn init_regions_follow_the_pages() {
    // The second page of the segment stands in the next region.
    let r = measure_init(&init_elf(&[(1, 4, 0x1ff000, 0x2000)]));
    let mut regions = r.regions.clone();
    regions.sort();
    assert_eq!(regions, vec![0, 1, 4]);
}

#[test]
fn init_programs_beyond_the_buffer_fail() {
    let r = measure_init(&init_elf(&[(1, 4, 0, 2712 * 4096)]));
    assert_eq!(r.total_with_stack(), 2720);
    assert!(r.fits_buffer());
    assert!(r.warns_buffer());
    let r = measure_init(&init_elf(&[(1, 4, 0, 2713 * 4096)]));
    assert_eq!(r.total_with_stack(), 2721);
    assert!(!r.fits_buffer());
    assert!(!r.passed());
}

#[test]
fn init_programs_over_too_many_regions_fail() {
    let seven: Vec<(u32, u32, u64, u64)> = vec![(1, 4, 0, 8 * 0x200000)];
    let r = measure_init(&init_elf(&seven));
    assert_eq!(r.regions.len(), 8);
    assert!(r.fits_tables());
    assert!(r.warns_tables());
    assert_eq!(r.tables_percent(), 100);
    let r = measure_init(&init_elf(&[(1, 4, 0, 9 * 0x200000)]));
    assert_eq!(r.regions.len(), 9);
    assert!(!r.fits_tables());
    assert!(!r.passed());
}

#[test]
fn truncated_program_headers_are_noticed() {
    let mut b = init_elf(&[(1, 5, 0x400000, 0x1000)]);
    b.truncate(64 + 40);
    assert!(!has_program_headers(&b));
}

#[test]
fn a_header_that_is_not_loaded_may_be_cut_short() {
    let mut b = init_elf(&[(1, 5, 0x400000, 0x1000), (4, 6, 0, 0)]);
    b.truncate(64 + 56 + 4);
    assert!(has_program_headers(&b));
    assert_eq!(measure_init(&b).segments.len(), 1);
    b.truncate(64 + 56 + 3);
    assert!(!has_program_headers(&b));
}

#[test]
fn a_segment_may_end_where_the_last_region_starts() {
    let last: u64 = 0u64.wrapping_sub(0x200000);
    let b = init_elf(&[(1, 4, last - 0x1000, 0x1000)]);
    assert!(has_program_headers(&b));
    assert!(measure_init(&b).regions.contains(&(last / 0x200000 - 1)));
    assert!(!has_program_headers(&init_elf(&[(1, 4, last - 0x1000, 0x1001)])));
}
