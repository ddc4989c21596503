//! Behaviour of the naming conventions, the catalog scanner with its
//! collision resolver, the registry, and the marker-delimited patcher.

use icon_bundler::catalog::{get_icons, resolve_insert, IconList, IconSource};
use icon_bundler::errors::BuildError;
use icon_bundler::normalize::{path_to_icon_alias, IconPack};
use icon_bundler::patcher::Generator;
use icon_bundler::registry::{IconEntry, Provenance, Registry};
use icon_bundler::text::to_const_case;

fn s(x: &str) -> String {
    x.to_string()
}

fn entry(id: &str) -> IconEntry {
    IconEntry {
        identifier: s(id),
        source_path: s("somewhere"),
        provenance: Provenance::Shipped,
        relative_group_path: vec![],
        file_stem: s(id),
    }
}

#[test]
fn alias_strips_svg_extension() {
    assert_eq!(path_to_icon_alias("dir/icon.svg"), Some(s("dir/icon")));
    assert_eq!(path_to_icon_alias("icon.svg.svg"), Some(s("icon")));
    assert_eq!(path_to_icon_alias("README.md"), None);
}

#[test]
fn const_case_folds_names() {
    assert_eq!(to_const_case("document-save"), "DOCUMENT_SAVE");
    assert_eq!(to_const_case("x3d"), "X3D");
    assert_eq!(to_const_case(""), "");
}

#[test]
fn devkit_names_keep_symbolic_files() {
    let p = IconPack::DevKit;
    assert_eq!(p.icon_name("home-symbolic.svg"), Some(s("home-symbolic.svg")));
    assert_eq!(p.icon_name("home.svg"), None);
    assert!(p.filter_dirs("anything"));
}

#[test]
fn fluent_names_rewrite_the_vendor_form() {
    let p = IconPack::Fluent;
    assert_eq!(
        p.icon_name("ic_fluent_arrow_up_16_filled.svg"),
        Some(s("arrow-up-filled-symbolic.svg"))
    );
    assert_eq!(
        p.icon_name("ic_fluent_save_16_regular.svg"),
        Some(s("save-regular-symbolic.svg"))
    );
    assert_eq!(p.icon_name("ic_fluent_arrow_up_24_filled.svg"), None);
}

#[test]
fn alternate_names_mark_the_collision() {
    let p = IconPack::DevKit;
    assert_eq!(p.alt_icon_name("home-symbolic.svg"), "home-alt-symbolic.svg");
    assert_eq!(
        p.alt_icon_name2("home-symbolic.svg"),
        "home-devkit-alt-symbolic.svg"
    );
    assert_eq!(
        IconPack::Fluent.alt_icon_name2("home-symbolic.svg"),
        "home-fluent-alt-symbolic.svg"
    );
}

#[test]
fn fluent_skips_locale_and_variant_dirs() {
    let p = IconPack::Fluent;
    assert!(!p.filter_dirs("ar"));
    assert!(!p.filter_dirs("de"));
    assert!(p.filter_dirs("abc"));
    assert!(p.filter_dirs("AB"));
    assert!(!p.filter_dirs("RTL"));
    assert!(!p.filter_dirs("some-LTR-dir"));
    assert!(!p.filter_dirs("sr-cyrl"));
    assert!(!p.filter_dirs("sr-latn"));
    assert!(p.filter_dirs("assets"));
}

#[test]
fn resolver_tries_two_alternates_then_fails() {
    let mut list = IconList::new();
    let p = IconPack::DevKit;
    resolve_insert(&mut list, p, s("x-symbolic.svg"), s("p1"), s("pack")).unwrap();
    resolve_insert(&mut list, p, s("x-symbolic.svg"), s("p2"), s("pack")).unwrap();
    resolve_insert(&mut list, p, s("x-symbolic.svg"), s("p3"), s("pack")).unwrap();
    let err = resolve_insert(&mut list, p, s("x-symbolic.svg"), s("p4"), s("pack")).unwrap_err();
    assert!(matches!(err, BuildError::DuplicateIdentifier(id) if id == "x-symbolic.svg"));

    assert_eq!(list.len(), 3);
    assert_eq!(list.get(0).name, "x-alt-symbolic.svg");
    assert_eq!(list.get(0).path, "p2");
    assert_eq!(list.get(1).name, "x-devkit-alt-symbolic.svg");
    assert_eq!(list.get(1).path, "p3");
    assert_eq!(list.get(2).name, "x-symbolic.svg");
    assert_eq!(list.get(2).path, "p1");
}

#[test]
fn get_icons_collects_and_renames_collisions() {
    let sources = vec![
        IconSource {
            name: s("devkit"),
            dir: s("icons/devkit"),
            files: vec![s("b-symbolic.svg"), s("a-symbolic.svg")],
        },
        IconSource {
            name: s("fluent"),
            dir: s("icons/fluent"),
            files: vec![s("a-symbolic.svg")],
        },
    ];
    let icons = get_icons(&sources).unwrap();
    assert_eq!(icons.len(), 3);
    assert_eq!(icons[0].name, "a");
    assert_eq!(icons[0].path, "icons/devkit/a-symbolic.svg");
    assert_eq!(icons[0].source, "devkit");
    assert_eq!(icons[1].name, "a-alt");
    assert_eq!(icons[1].path, "icons/fluent/a-symbolic.svg");
    assert_eq!(icons[1].source, "fluent");
    assert_eq!(icons[2].name, "b");
}

#[test]
fn get_icons_rejects_a_second_collision() {
    let sources = vec![
        IconSource {
            name: s("one"),
            dir: s("icons/one"),
            files: vec![s("a-symbolic.svg")],
        },
        IconSource {
            name: s("two"),
            dir: s("icons/two"),
            files: vec![s("a-symbolic.svg")],
        },
        IconSource {
            name: s("three"),
            dir: s("icons/three"),
            files: vec![s("a-symbolic.svg")],
        },
    ];
    let err = get_icons(&sources).unwrap_err();
    assert!(matches!(err, BuildError::DuplicateIdentifier(id) if id == "a"));
}

#[test]
fn patcher_reports_an_unterminated_region() {
    let g = Generator {
        path: "features.rs",
        start_seq: "// start of generated",
        end_seq: "// end of generated",
    };
    let open_region = vec![s("fn a() {}"), s("// start of generated"), s("old line")];
    assert!(g.has_unterminated_region(&open_region));
    let closed_region = vec![
        s("fn a() {}"),
        s("// start of generated"),
        s("old line"),
        s("// end of generated"),
    ];
    assert!(!g.has_unterminated_region(&closed_region));
    let no_region = vec![s("fn a() {}")];
    assert!(!g.has_unterminated_region(&no_region));
}

#[test]
fn get_icons_rejects_foreign_files() {
    let sources = vec![IconSource {
        name: s("devkit"),
        dir: s("icons/devkit"),
        files: vec![s("a-symbolic.svg"), s("notes.txt")],
    }];
    let err = get_icons(&sources).unwrap_err();
    assert!(matches!(err, BuildError::UnexpectedFile(f) if f == "notes.txt"));
}

#[test]
fn registry_sorts_and_rejects_duplicates() {
    let mut reg = Registry::new();
    reg.insert(entry("beta")).unwrap();
    reg.insert(entry("alpha")).unwrap();
    reg.insert(entry("gamma")).unwrap();
    assert_eq!(reg.len(), 3);
    assert_eq!(reg.get(0).identifier, "alpha");
    assert_eq!(reg.get(1).identifier, "beta");
    assert_eq!(reg.get(2).identifier, "gamma");
    let err = reg.insert(entry("beta")).unwrap_err();
    assert!(matches!(err, BuildError::DuplicateIdentifier(id) if id == "beta"));
    assert_eq!(reg.len(), 3);
}

#[test]
fn error_messages_name_the_subject() {
    assert_eq!(
        BuildError::MissingShippedIcon(s("home")).message(),
        "no shipped icon has this name: home"
    );
    assert_eq!(
        BuildError::DuplicateIdentifier(s("home")).message(),
        "icon identifier exists twice: home"
    );
}

#[test]
fn patcher_replaces_the_marked_region() {
    let g = Generator {
        path: "features.rs",
        start_seq: "// start of generated",
        end_seq: "// end of generated",
    };
    let lines = vec![
        s("fn before() {}"),
        s("  // start of generated"),
        s("old line one"),
        s("old line two"),
        s("  // end of generated"),
        s("fn after() {}"),
    ];
    let rendered = vec![s("new line one"), s("new line two")];
    let out = g.generate_features(&lines, &rendered);
    assert_eq!(
        out,
        "fn before() {}\n  // start of generated\nnew line one\nnew line two\n  // end of generated\nfn after() {}\n"
    );
}

#[test]
fn patcher_without_marker_passes_through() {
    let g = Generator {
        path: "features.rs",
        start_seq: "// start of generated",
        end_seq: "// end of generated",
    };
    let lines = vec![s("fn a() {}"), s("fn b() {}")];
    let rendered = vec![s("never inserted")];
    let out = g.generate_features(&lines, &rendered);
    assert_eq!(out, "fn a() {}\nfn b() {}\n");
}
