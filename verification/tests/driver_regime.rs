use lockjaw::driver_regime::{
    attr_matches_lint, check_crate, find_in_source, find_in_text, first_banned_pair,
    has_inner_deny_unsafe_code, ident_str, SourceFile,
};
use lockjaw::driver_source::{
    parse_file, parse_root_attributes, AttributePath, ImportTree, LintAttribute, Node, Token,
};

fn root_attributes(src: &str) -> Vec<LintAttribute> {
    parse_root_attributes(src).expect("valid Rust")
}

fn syscall_findings(src: &str) -> Vec<String> {
    let mut out: Vec<String> = Vec::new();
    find_in_text("test.rs", src, &mut out);
    out
}

#[test]
fn deny_inner_attr_canonical_form() {
    assert!(has_inner_deny_unsafe_code(&root_attributes("#![deny(unsafe_code)]\nfn _x() {}")));
}

#[test]
fn deny_inner_attr_spaced_form() {
    assert!(has_inner_deny_unsafe_code(&root_attributes("#![deny( unsafe_code )]\nfn _x() {}")));
}

#[test]
fn deny_inner_attr_list_form() {
    assert!(has_inner_deny_unsafe_code(&root_attributes("#![deny(unsafe_code, unused)]\nfn _x() {}")));
}

#[test]
fn deny_missing_is_detected() {
    assert!(!has_inner_deny_unsafe_code(&root_attributes("fn _x() {}")));
}

#[test]
fn deny_outer_on_item_does_not_count_as_crate_level() {
    assert!(!has_inner_deny_unsafe_code(&root_attributes("#[deny(unsafe_code)]\nfn _x() {}")));
}


#[test]
fn allow_finds_canonical_outer() {
    let f = syscall_findings("#[allow(unsafe_code)]\nfn _f() {}\n");
    assert!(f.iter().any(|s| s.contains("allow(unsafe_code)")), "{f:?}");
}

#[test]
fn allow_finds_spaced_form() {
    let f = syscall_findings("#[allow( unsafe_code )]\nfn _f() {}\n");
    assert!(f.iter().any(|s| s.contains("allow(unsafe_code)")), "{f:?}");
}

#[test]
fn allow_finds_list_form() {
    let f = syscall_findings("#[allow(unsafe_code, unused)]\nfn _f() {}\n");
    assert!(f.iter().any(|s| s.contains("allow(unsafe_code)")), "{f:?}");
}

#[test]
fn allow_ignores_unrelated() {
    let f = syscall_findings("#[allow(unused)]\nfn _f() {}\n");
    assert!(!f.iter().any(|s| s.contains("allow(unsafe_code)")), "{f:?}");
}


#[test]
fn flags_direct_use_of_forbidden_sys() {
    let f = syscall_findings(
        "use lockjaw_userlib::syscall::sys_alloc_pages;\nfn _f() {}",
    );
    assert!(
        f.iter().any(|s| s.contains("syscall") && s.contains("sys_alloc_pages")),
        "{f:?}"
    );
}

#[test]
fn flags_direct_path_call() {
    let f = syscall_findings(
        "fn _f() { let _ = lockjaw_userlib::syscall::sys_alloc_pages(0); }",
    );
    assert!(f.iter().any(|s| s.contains("sys_alloc_pages")), "{f:?}");
}

#[test]
fn allows_use_of_sys_exit() {
    let f = syscall_findings(
        "use lockjaw_userlib::syscall::sys_exit;\nfn _f() {}",
    );
    assert!(f.is_empty(), "{f:?}");
}


#[test]
fn flags_brace_group_import() {
    let f = syscall_findings(
        "use lockjaw_userlib::syscall::{sys_alloc_pages};\nfn _f() {}",
    );
    assert!(f.iter().any(|s| s.contains("sys_alloc_pages")), "{f:?}");
}

#[test]
fn flags_brace_with_rename() {
    let f = syscall_findings(
        "use lockjaw_userlib::syscall::{sys_alloc_pages as y};\nfn _f() {}",
    );
    assert!(f.iter().any(|s| s.contains("sys_alloc_pages")), "{f:?}");
}

#[test]
fn flags_brace_with_self_module_import() {
    let f = syscall_findings(
        "use lockjaw_userlib::syscall::{self, sys_alloc_pages};\nfn _f() {}",
    );
    assert!(
        f.iter().any(|s| s.contains("`syscall`")),
        "{f:?} — should flag the self leaf (module import)"
    );
    assert!(
        f.iter().any(|s| s.contains("sys_alloc_pages")),
        "{f:?} — should flag the brace leaf"
    );
}

#[test]
fn flags_spaced_path_in_call() {
    let f = syscall_findings(
        "fn _f() { let _ = lockjaw_userlib :: syscall :: sys_alloc_pages(0); }",
    );
    assert!(f.iter().any(|s| s.contains("sys_alloc_pages")), "{f:?}");
}

#[test]
fn flags_ufcs_qself_through_syscall() {
    let f = syscall_findings(
        "fn _f() { let _ = <lockjaw_userlib::syscall>::sys_alloc_pages(0); }",
    );
    assert!(
        f.iter().any(|s| s.contains("syscall")),
        "{f:?} — UFCS qself path should flag"
    );
}


#[test]
fn flags_module_alias_use() {
    let f = syscall_findings(
        "use lockjaw_userlib::syscall as sc;\nfn _f() {}",
    );
    assert!(
        f.iter().any(|s| s.contains("`syscall`")),
        "{f:?} — module alias must flag at the `use` line"
    );
}


#[test]
fn does_not_flag_non_syscall_paths() {
    let f = syscall_findings(
        "use lockjaw_userlib::dma::OwnedDmaMapping;\n\
         fn _f() { let _: lockjaw_userlib::dma::DmaBacking = todo!(); }",
    );
    assert!(f.is_empty(), "{f:?}");
}

#[test]
fn does_not_flag_glob_of_non_syscall() {
    let f = syscall_findings("use lockjaw_userlib::dma::*;\nfn _f() {}");
    assert!(f.is_empty(), "{f:?}");
}

#[test]
fn flags_glob_of_syscall_module() {
    let f = syscall_findings(
        "use lockjaw_userlib::syscall::*;\nfn _f() {}",
    );
    assert!(
        f.iter().any(|s| s.contains("`*`") || s.contains("`syscall`")),
        "{f:?} — syscall::* glob must flag"
    );
}


#[test]
fn flags_macro_rules_with_forbidden_syscall_path() {
    let f = syscall_findings(
        "macro_rules! m { () => { lockjaw_userlib::syscall::sys_alloc_pages(1) }; }\n\
         fn _f() { m!(); }",
    );
    assert!(
        f.iter().any(|s| s.contains("macro") && s.contains("syscall")),
        "{f:?} — macro_rules! body must be flagged"
    );
}

#[test]
fn flags_macro_invocation_args_with_syscall() {
    let f = syscall_findings(
        "fn _f() { my_macro!(lockjaw_userlib::syscall::sys_alloc_pages(1)); }",
    );
    assert!(
        f.iter().any(|s| s.contains("macro") && s.contains("syscall")),
        "{f:?} — macro invocation args must be flagged"
    );
}

#[test]
fn does_not_flag_macro_with_bare_allowlist_call() {
    let f = syscall_findings(
        "macro_rules! m { () => { sys_exit() }; }\nfn _f() { m!(); }",
    );
    assert!(f.is_empty(), "{f:?}");
}


#[test]
fn flags_raw_ident_module_in_use() {
    let f = syscall_findings(
        "use lockjaw_userlib::r#syscall::sys_alloc_pages;\nfn _f() {}",
    );
    assert!(
        f.iter().any(|s| s.contains("sys_alloc_pages")),
        "{f:?} — r#syscall must be normalized to syscall"
    );
}

#[test]
fn flags_raw_ident_module_in_path_call() {
    let f = syscall_findings(
        "fn _f() { let _ = lockjaw_userlib::r#syscall::sys_alloc_pages(0); }",
    );
    assert!(
        f.iter().any(|s| s.contains("sys_alloc_pages")),
        "{f:?} — r#syscall in expression path must be flagged"
    );
}

#[test]
fn flags_raw_ident_module_in_macro() {
    let f = syscall_findings(
        "macro_rules! m { () => { lockjaw_userlib::r#syscall::sys_x(1) }; }\n\
         fn _f() { m!(); }",
    );
    assert!(
        f.iter().any(|s| s.contains("macro") && s.contains("syscall")),
        "{f:?} — r#syscall inside a macro body must be flagged"
    );
}

#[test]
fn allowlist_accepts_raw_ident_form() {
    let f = syscall_findings(
        "use lockjaw_userlib::syscall::r#sys_exit;\nfn _f() {}",
    );
    assert!(f.is_empty(), "{f:?}");
}


#[test]
fn flags_banned_module_use_tree() {
    let f = syscall_findings("use lockjaw_regs::sdhci::Sdhci;\nfn _f() {}");
    assert!(
        f.iter().any(|s| s.contains("banned module path") && s.contains("lockjaw_regs::sdhci")),
        "{f:?}"
    );
}

#[test]
fn flags_banned_module_path_call() {
    let f = syscall_findings(
        "fn _f() { let _ = lockjaw_regs::sdhci::Sdhci::some_method(); }",
    );
    assert!(
        f.iter().any(|s| s.contains("banned module path") && s.contains("lockjaw_regs::sdhci")),
        "{f:?}"
    );
}

#[test]
fn flags_banned_module_raw_ident_crate() {
    let f = syscall_findings(
        "use r#lockjaw_regs::sdhci::Sdhci;\nfn _f() {}",
    );
    assert!(
        f.iter().any(|s| s.contains("banned module path") && s.contains("lockjaw_regs::sdhci")),
        "{f:?}"
    );
}

#[test]
fn flags_banned_module_raw_ident_module() {
    let f = syscall_findings(
        "use lockjaw_regs::r#sdhci::Sdhci;\nfn _f() {}",
    );
    assert!(
        f.iter().any(|s| s.contains("banned module path") && s.contains("lockjaw_regs::sdhci")),
        "{f:?}"
    );
}

#[test]
fn flags_extern_crate_banned_crate() {
    let f = syscall_findings("extern crate lockjaw_regs;\nfn _f() {}");
    assert!(
        f.iter().any(|s| s.contains("extern crate") && s.contains("lockjaw_regs")),
        "{f:?}"
    );
}

#[test]
fn flags_extern_crate_banned_with_raw_ident() {
    let f = syscall_findings("extern crate r#lockjaw_regs;\nfn _f() {}");
    assert!(
        f.iter().any(|s| s.contains("extern crate") && s.contains("lockjaw_regs")),
        "{f:?}"
    );
}

#[test]
fn flags_banned_module_in_macro() {
    let f = syscall_findings(
        "macro_rules! m { () => { lockjaw_regs::sdhci::Sdhci }; }\nfn _f() { m!(); }",
    );
    assert!(
        f.iter().any(|s| s.contains("macro") && s.contains("lockjaw_regs::sdhci")),
        "{f:?}"
    );
}

#[test]
fn allows_lockjaw_userlib_sdhci_re_export() {
    let f = syscall_findings(
        "use lockjaw_userlib::sdhci::{Sdhci, SdhciOpToken};\nfn _f() {}",
    );
    assert!(f.is_empty(), "{f:?}");
}

#[test]
fn flags_alias_bypass_of_banned_pair_crate() {
    let f = syscall_findings("use lockjaw_regs as lr;\nfn _f() {}");
    assert!(
        f.iter().any(|s| s.contains("names banned-pair crate") && s.contains("lockjaw_regs")),
        "{f:?}"
    );
}

#[test]
fn flags_bare_use_of_banned_pair_crate() {
    let f = syscall_findings("use lockjaw_regs;\nfn _f() {}");
    assert!(
        f.iter().any(|s| s.contains("names banned-pair crate") && s.contains("lockjaw_regs")),
        "{f:?}"
    );
}

#[test]
fn flags_bare_use_of_pl011_ban_pair() {
    let f = syscall_findings("use lockjaw_regs::pl011::Pl011;\nfn _f() {}");
    assert!(
        f.iter().any(|s| s.contains("banned module path") && s.contains("lockjaw_regs::pl011")),
        "{f:?}"
    );
}

#[test]
fn flags_bare_use_of_cprman_ban_pair() {
    let f = syscall_findings("use lockjaw_regs::cprman::Cprman;\nfn _f() {}");
    assert!(
        f.iter().any(|s| s.contains("banned module path") && s.contains("lockjaw_regs::cprman")),
        "{f:?}"
    );
}

#[test]
fn flags_bare_use_of_fw_cfg_ban_pair() {
    let f = syscall_findings("use lockjaw_regs::fw_cfg::FwCfg;\nfn _f() {}");
    assert!(
        f.iter().any(|s| s.contains("banned module path") && s.contains("lockjaw_regs::fw_cfg")),
        "{f:?}"
    );
}

#[test]
fn flags_bare_use_of_virtio_mmio_ban_pair() {
    let f = syscall_findings("use lockjaw_regs::virtio_mmio::VirtioMmio;\nfn _f() {}");
    assert!(
        f.iter().any(|s| s.contains("banned module path") && s.contains("lockjaw_regs::virtio_mmio")),
        "{f:?}"
    );
}

#[test]
fn raw_spelling_names_the_same() {
    assert_eq!(ident_str("r#syscall"), "syscall");
    assert_eq!(ident_str("syscall"), "syscall");
    assert_eq!(ident_str("r#r#x"), "r#x");
    assert_eq!(ident_str(""), "");
}

#[test]
fn a_banned_pair_is_found_anywhere() {
    let names = |v: &[&str]| v.iter().map(|s| s.to_string()).collect::<Vec<String>>();
    assert_eq!(first_banned_pair(&names(&["a", "lockjaw_regs", "sdhci", "Sdhci"])), Some(1));
    assert_eq!(first_banned_pair(&names(&["lockjaw_regs", "uart"])), None);
    assert_eq!(first_banned_pair(&names(&["sdhci"])), None);
}

#[test]
fn the_findings_are_worded() {
    let f = syscall_findings("\nuse lockjaw_userlib::syscall::sys_alloc_pages;");
    assert_eq!(
        f,
        vec![
            "test.rs:2: driver use statement references the `syscall` module (imports \
             `sys_alloc_pages`; allowed leaf names: [\"sys_exit\", \"sys_debug_puts\"])"
                .to_string()
        ]
    );
    let f = syscall_findings("#[allow(unsafe_code)]\nuse a::b;");
    assert_eq!(
        f,
        vec!["test.rs:1: driver source contains an allow(unsafe_code) attribute".to_string()]
    );
}

#[test]
fn a_crate_is_checked_as_a_whole() {
    let file = |path: &str, text: Result<&str, &str>| SourceFile {
        path: path.to_string(),
        text: text.map(|t| t.to_string()).map_err(|e| e.to_string()),
    };
    let clean = "#![deny(unsafe_code)]\nfn main() {}";
    let mut out: Vec<String> = Vec::new();
    check_crate(
        "src/main.rs",
        &Ok(clean.to_string()),
        &vec![file("src/main.rs", Ok(clean))],
        &mut out,
    );
    assert_eq!(out, Vec::<String>::new());

    let files = vec![
        file("src/a.rs", Err("no such file")),
        file("src/main.rs", Ok("#[allow(unsafe_code)] fn f() {}")),
    ];
    check_crate("src/main.rs", &Ok("fn main() {}".to_string()), &files, &mut out);
    assert_eq!(
        out,
        vec![
            "src/main.rs: crate root is missing #![deny(unsafe_code)]".to_string(),
            "src/a.rs: parse error: no such file".to_string(),
            "src/main.rs:1: driver source contains an allow(unsafe_code) attribute".to_string(),
        ]
    );

    out.clear();
    check_crate("src/main.rs", &Err("gone".to_string()), &files, &mut out);
    assert_eq!(out, vec!["src/main.rs: parse error: gone".to_string()]);

    out.clear();
    check_crate("src/main.rs", &Ok("fn {".to_string()), &files, &mut out);
    assert_eq!(out.len(), 1);
    assert!(out[0].starts_with("src/main.rs: parse error: syn: "), "{out:?}");
}

#[test]
fn a_text_that_is_no_source_is_refused() {
    match parse_file("fn {") {
        Ok(_) => panic!("parsed"),
        Err(e) => {
            assert!(e.starts_with("syn: ") && e.len() > 5, "{e}");
            assert_eq!(syscall_findings("fn {"), vec![format!("test.rs: parse error: {e}")]);
        }
    }
    match parse_root_attributes("#![deny(") {
        Ok(_) => panic!("parsed"),
        Err(e) => assert!(e.starts_with("syn: ") && e.len() > 5, "{e}"),
    }
}

#[test]
fn a_text_is_taken_apart_in_the_order_of_the_walk() {
    let text = "#![deny(unsafe_code, ::a::b)]\nuse a::{b as c, r#d::*, self};\n\
                extern crate e;\nfn f(x: g::H<i::J>) {\n    k!(l::m, [1, 'n']);\n}\n";
    let nodes = parse_file(text).expect("valid Rust");
    let is = |v: &[String], w: &[&str]| v.len() == w.len() && v.iter().zip(w).all(|(a, b)| a == b);
    assert_eq!(nodes.len(), 8);

    let Node::Attribute(1, a) = &nodes[0] else { panic!("the attribute") };
    assert!(a.inner && !a.path.rooted && is(&a.path.names, &["deny"]));
    assert_eq!(a.list.len(), 2);
    assert!(!a.list[0].rooted && is(&a.list[0].names, &["unsafe_code"]));
    assert!(a.list[1].rooted && is(&a.list[1].names, &["a", "b"]));
    assert!(matches!(&nodes[1], Node::Path(1, p) if is(p, &["deny"])));

    let Node::Use(2, ImportTree::Path(name, rest)) = &nodes[2] else { panic!("the import") };
    assert_eq!(name, "a");
    let ImportTree::Group(items) = &**rest else { panic!("the group") };
    assert_eq!(items.len(), 3);
    assert!(matches!(&items[0], ImportTree::Rename(n) if n == "b"));
    let ImportTree::Path(raw, star) = &items[1] else { panic!("the raw name") };
    assert_eq!(raw, "r#d");
    assert!(matches!(&**star, ImportTree::Glob));
    assert!(matches!(&items[2], ImportTree::Name(n) if n == "self"));

    assert!(matches!(&nodes[3], Node::Crate(3, n) if n == "e"));
    assert!(matches!(&nodes[4], Node::Path(4, p) if is(p, &["g", "H"])));
    assert!(matches!(&nodes[5], Node::Path(4, p) if is(p, &["i", "J"])));

    let Node::Macro(5, ts) = &nodes[6] else { panic!("the macro") };
    assert_eq!(ts.len(), 6);
    assert!(matches!(&ts[0], Token::Ident(n) if n == "l"));
    assert!(matches!(&ts[1], Token::Punct(':')));
    assert!(matches!(&ts[2], Token::Punct(':')));
    assert!(matches!(&ts[3], Token::Ident(n) if n == "m"));
    assert!(matches!(&ts[4], Token::Punct(',')));
    let Token::Group(inner) = &ts[5] else { panic!("the brackets") };
    assert_eq!(inner.len(), 3);
    assert!(matches!(&inner[0], Token::Literal));
    assert!(matches!(&inner[2], Token::Literal));
    assert!(matches!(&nodes[7], Node::Path(5, p) if is(p, &["k"])));
}

#[test]
fn the_lines_of_a_text_do_not_depend_on_what_was_parsed_before() {
    let text = "\n\nuse lockjaw_regs;\n";
    let first = syscall_findings(text);
    let _ = syscall_findings("fn f() {}\nfn g() {}\nfn h() {}\n");
    assert_eq!(syscall_findings(text), first);
    assert!(first[0].starts_with("test.rs:3: "), "{first:?}");
}

#[test]
fn nodes_in_hand_give_the_findings_of_their_text() {
    let text = "#[allow(unsafe_code)]\nfn f() { lockjaw_regs::pl011::x() }\n";
    let mut out: Vec<String> = Vec::new();
    find_in_source("test.rs", &parse_file(text).expect("valid Rust"), &mut out);
    assert_eq!(out, syscall_findings(text));
    assert_eq!(out.len(), 2);
}

#[test]
fn only_a_lone_name_is_a_lint() {
    let path = |rooted: bool, names: &[&str]| AttributePath {
        rooted,
        names: names.iter().map(|s| s.to_string()).collect(),
    };
    let with = |p: AttributePath, list: Vec<AttributePath>| LintAttribute {
        inner: true,
        path: p,
        list,
    };
    let lint = || path(false, &["unsafe_code"]);
    let hit = |a: &LintAttribute| attr_matches_lint(a, "allow", "unsafe_code");
    assert!(hit(&with(path(false, &["allow"]), vec![path(false, &["unused"]), lint()])));
    assert!(!hit(&with(path(true, &["allow"]), vec![lint()])));
    assert!(!hit(&with(path(false, &["a", "allow"]), vec![lint()])));
    assert!(!hit(&with(path(false, &["allow"]), vec![path(true, &["unsafe_code"])])));
    assert!(!hit(&with(path(false, &["allow"]), vec![path(false, &["unsafe_code", "x"])])));
    assert!(!hit(&with(path(false, &["allow"]), Vec::new())));
    assert!(!hit(&with(path(false, &["warn"]), vec![lint()])));
}

#[test]
fn attributes_of_imports_are_seen() {
    let f = syscall_findings("#[allow(unsafe_code)]\nuse a::b;\n");
    assert_eq!(f.len(), 1);
    let f = syscall_findings("#[allow(unsafe_code, reason = \"x\")]\nfn f() {}\n");
    assert_eq!(f.len(), 1);
}
