//! End-to-end behaviour of the merge, bundle and code-generation pipeline.

use std::borrow::Cow;
use std::io::Read;

use icon_bundler::bundle::resource_prefix;
use icon_bundler::errors::BuildError;
use icon_bundler::merge::{merge, CustomFile, CustomScan, ShippedDir};
use icon_bundler::pipeline::bundle_icons;
use icon_bundler::registry::Provenance;

fn s(x: &str) -> String {
    x.to_string()
}

fn pack_dir() -> Vec<ShippedDir> {
    vec![ShippedDir {
        path: s("icons/pack"),
        files: vec![
            s("document-save-symbolic.svg"),
            s("edit-copy-symbolic.svg"),
            s("home-symbolic.svg"),
        ],
    }]
}

const SVG_A: &[u8] = b"<svg><path d=\"M0 0\"/></svg>";
const SVG_B: &[u8] = b"<svg><rect width=\"1\"/></svg>";

#[test]
fn shipped_selection_two_icons() {
    let dirs = pack_dir();
    let names = vec![s("document-save"), s("edit-copy")];
    let reg = merge(None, &dirs, &names).unwrap();
    assert_eq!(reg.len(), 2);
    let e0 = reg.get(0);
    assert_eq!(e0.identifier, "document-save");
    assert_eq!(e0.source_path, "icons/pack/document-save-symbolic.svg");
    assert!(matches!(e0.provenance, Provenance::Shipped));
    let e1 = reg.get(1);
    assert_eq!(e1.identifier, "edit-copy");
    assert!(matches!(e1.provenance, Provenance::Shipped));

    let contents = vec![SVG_A.to_vec(), SVG_B.to_vec()];
    let out = bundle_icons("icons", None, None, &reg, &contents).unwrap();
    assert!(out
        .constants_text
        .contains("pub const DOCUMENT_SAVE: &str = \"document-save\";"));
    assert!(out
        .constants_text
        .contains("pub const EDIT_COPY: &str = \"edit-copy\";"));
    assert_eq!(out.gresource_file_name, "icons.gresource");
}

#[test]
fn custom_folder_nested_icon() {
    let scan = CustomScan {
        root: s("icons"),
        files: vec![CustomFile {
            components: vec![s("social"), s("twitter.svg")],
        }],
    };
    let dirs: Vec<ShippedDir> = vec![];
    let names: Vec<String> = vec![];
    let reg = merge(Some(&scan), &dirs, &names).unwrap();
    assert_eq!(reg.len(), 1);
    let e = reg.get(0);
    assert_eq!(e.identifier, "social-twitter");
    assert_eq!(e.source_path, "icons/social/twitter.svg");
    assert!(matches!(e.provenance, Provenance::Custom));
    assert_eq!(e.relative_group_path, vec![s("social")]);
    assert_eq!(e.file_stem, "twitter");

    let out = bundle_icons("icons", None, None, &reg, &vec![SVG_A.to_vec()]).unwrap();
    assert!(out.constants_text.contains("pub mod social {\n"));
    assert!(out
        .constants_text
        .contains("pub const TWITTER: &str = \"social-twitter\";"));

    let file = gvdb::read::File::from_bytes(Cow::Owned(out.gresource)).unwrap();
    let table = file.hash_table().unwrap();
    // besides the file keys the table holds the parent directory entries
    let keys: Vec<String> = table
        .keys()
        .map(|k| k.unwrap())
        .filter(|k| k.ends_with(".svg"))
        .collect();
    assert_eq!(keys.len(), 1);
    assert!(keys[0].ends_with("social-twitter.svg"));
    assert_eq!(
        keys[0],
        "/org/relm4/icons/scalable/actions/social-twitter.svg"
    );
}

#[test]
fn custom_and_shipped_collision_aborts() {
    let scan = CustomScan {
        root: s("custom"),
        files: vec![CustomFile {
            components: vec![s("home.svg")],
        }],
    };
    let dirs = pack_dir();
    let names = vec![s("home")];
    let err = merge(Some(&scan), &dirs, &names).unwrap_err();
    assert!(matches!(err, BuildError::DuplicateIdentifier(id) if id == "home"));
}

#[test]
fn duplicate_custom_icon_aborts() {
    let scan = CustomScan {
        root: s("icons"),
        files: vec![
            CustomFile {
                components: vec![s("star.svg")],
            },
            CustomFile {
                components: vec![s("star.svg")],
            },
        ],
    };
    let dirs: Vec<ShippedDir> = vec![];
    let names: Vec<String> = vec![];
    let err = merge(Some(&scan), &dirs, &names).unwrap_err();
    assert!(matches!(err, BuildError::DuplicateIdentifier(id) if id == "star"));
}

#[test]
fn missing_shipped_icon_fails() {
    let dirs = pack_dir();
    let names = vec![s("document-save"), s("no-such-icon")];
    let err = merge(None, &dirs, &names).unwrap_err();
    assert!(matches!(err, BuildError::MissingShippedIcon(n) if n == "no-such-icon"));
}

#[test]
fn first_pack_directory_wins() {
    let dirs = vec![
        ShippedDir {
            path: s("first"),
            files: vec![s("home-symbolic.svg")],
        },
        ShippedDir {
            path: s("second"),
            files: vec![s("home-symbolic.svg")],
        },
    ];
    let reg = merge(None, &dirs, &vec![s("home")]).unwrap();
    assert_eq!(reg.get(0).source_path, "first/home-symbolic.svg");
}

#[test]
fn non_svg_custom_files_are_skipped() {
    let scan = CustomScan {
        root: s("icons"),
        files: vec![
            CustomFile {
                components: vec![s("README.md")],
            },
            CustomFile {
                components: vec![s("ok.svg")],
            },
        ],
    };
    let dirs: Vec<ShippedDir> = vec![];
    let names: Vec<String> = vec![];
    let reg = merge(Some(&scan), &dirs, &names).unwrap();
    assert_eq!(reg.len(), 1);
    assert_eq!(reg.get(0).identifier, "ok");
    assert_eq!(reg.get(0).source_path, "icons/ok.svg");
}

#[test]
fn container_round_trip() {
    let dirs = pack_dir();
    let names = vec![s("document-save"), s("edit-copy")];
    let reg = merge(None, &dirs, &names).unwrap();
    let c1 = SVG_A.to_vec();
    let c2 = SVG_B.to_vec();
    let out = bundle_icons("icons", None, None, &reg, &vec![c1.clone(), c2.clone()]).unwrap();

    let file = gvdb::read::File::from_bytes(Cow::Owned(out.gresource)).unwrap();
    let table = file.hash_table().unwrap();
    let keys: Vec<String> = table
        .keys()
        .map(|k| k.unwrap())
        .filter(|k| k.ends_with(".svg"))
        .collect();
    assert_eq!(keys.len(), 2);

    let expected = [
        (
            "/org/relm4/icons/scalable/actions/document-save-symbolic.svg",
            &c1,
        ),
        (
            "/org/relm4/icons/scalable/actions/edit-copy-symbolic.svg",
            &c2,
        ),
    ];
    for (path, content) in expected {
        assert!(keys.iter().any(|k| k == path), "missing key {path}");
        let (size, flags, data): (u32, u32, Vec<u8>) = table.get(path).unwrap();
        assert_eq!(size as usize, content.len());
        assert_eq!(flags, 1);
        let mut decoder = flate2::read::ZlibDecoder::new(&data[..]);
        let mut decompressed = Vec::new();
        decoder.read_to_end(&mut decompressed).unwrap();
        assert_eq!(&decompressed, content);
    }
}

#[test]
fn xml_whitespace_is_stripped_before_packing() {
    let dirs = pack_dir();
    let reg = merge(None, &dirs, &vec![s("home")]).unwrap();
    let spaced = b"<svg>\n  <path d=\"M0 0\"/>\n</svg>".to_vec();
    let out = bundle_icons("icons", None, None, &reg, &vec![spaced]).unwrap();

    let file = gvdb::read::File::from_bytes(Cow::Owned(out.gresource)).unwrap();
    let table = file.hash_table().unwrap();
    let (size, flags, data): (u32, u32, Vec<u8>) = table
        .get("/org/relm4/icons/scalable/actions/home-symbolic.svg")
        .unwrap();
    assert_eq!(flags, 1);
    let mut decoder = flate2::read::ZlibDecoder::new(&data[..]);
    let mut decompressed = Vec::new();
    decoder.read_to_end(&mut decompressed).unwrap();
    assert_eq!(decompressed, b"<svg><path d=\"M0 0\"/></svg>".to_vec());
    assert_eq!(size as usize, decompressed.len());
}

#[test]
fn malformed_content_fails_the_bundle() {
    let dirs = pack_dir();
    let reg = merge(None, &dirs, &vec![s("home")]).unwrap();
    let err = bundle_icons("icons", None, None, &reg, &vec![b"<unclosed".to_vec()]).unwrap_err();
    assert!(matches!(err, BuildError::BundleFailed(_)));
}

#[test]
fn pipeline_is_deterministic() {
    let scan = CustomScan {
        root: s("icons"),
        files: vec![CustomFile {
            components: vec![s("social"), s("twitter.svg")],
        }],
    };
    let dirs = pack_dir();
    let names = vec![s("edit-copy"), s("document-save")];
    let contents = vec![SVG_A.to_vec(), SVG_B.to_vec(), SVG_A.to_vec()];

    let reg1 = merge(Some(&scan), &dirs, &names).unwrap();
    let out1 = bundle_icons("icons", Some("com.example.App"), None, &reg1, &contents).unwrap();
    let reg2 = merge(Some(&scan), &dirs, &names).unwrap();
    let out2 = bundle_icons("icons", Some("com.example.App"), None, &reg2, &contents).unwrap();

    assert_eq!(out1.gresource, out2.gresource);
    assert_eq!(out1.constants_text, out2.constants_text);
    assert_eq!(out1.gresource_file_name, out2.gresource_file_name);
}

#[test]
fn registry_is_sorted_by_identifier() {
    let scan = CustomScan {
        root: s("icons"),
        files: vec![CustomFile {
            components: vec![s("zebra.svg")],
        }],
    };
    let dirs = pack_dir();
    let names = vec![s("home"), s("document-save")];
    let reg = merge(Some(&scan), &dirs, &names).unwrap();
    assert_eq!(reg.len(), 3);
    assert_eq!(reg.get(0).identifier, "document-save");
    assert_eq!(reg.get(1).identifier, "home");
    assert_eq!(reg.get(2).identifier, "zebra");
}

#[test]
fn resource_prefix_priority_order() {
    assert_eq!(
        resource_prefix(Some("/com/example/data"), Some("ignored.app")),
        "/com/example/data/icons"
    );
    assert_eq!(
        resource_prefix(None, Some("com.example.App")),
        "/com/example/App/icons"
    );
    assert_eq!(resource_prefix(None, None), "/org/relm4/icons");
}

#[test]
fn generated_text_embeds_container_and_prefix() {
    let dirs = pack_dir();
    let reg = merge(None, &dirs, &vec![s("home")]).unwrap();
    let out = bundle_icons("icons", None, Some("/com/app/data"), &reg, &vec![SVG_A.to_vec()])
        .unwrap();
    assert!(out.constants_text.starts_with("#![rustfmt::skip]\n"));
    assert!(out
        .constants_text
        .contains("pub mod shipped {\n//! module contains shipped icons\n\n"));
    assert!(out
        .constants_text
        .contains("pub mod custom {\n//! module contains user's custom icons\n\n"));
    assert!(out
        .constants_text
        .contains("pub const GRESOURCE_BYTES: &[u8] = &["));
    assert!(out
        .constants_text
        .ends_with("pub const RESOURCE_PREFIX: &str = \"/com/app/data/icons\";"));
    // the embedded byte list is the container, byte for byte
    let start = out
        .constants_text
        .find("GRESOURCE_BYTES: &[u8] = &[")
        .unwrap()
        + "GRESOURCE_BYTES: &[u8] = &[".len();
    let end = out.constants_text[start..].find(']').unwrap() + start;
    let listed: Vec<u8> = out.constants_text[start..end]
        .split(',')
        .filter(|p| !p.is_empty())
        .map(|p| p.parse().unwrap())
        .collect();
    assert_eq!(listed, out.gresource);
}
