//! Naming conventions: turning raw file names into candidate icon
//! identifiers, one rule set per icon pack, plus the directory filter that
//! keeps localized duplicate trees out of a scan.

use vstd::prelude::*;

use crate::text::{contains_sub, ends_with, replace_all, replace_char, str_contains,
    str_ends_with, str_replace_all, str_replace_char, str_trim_prefix, str_trim_suffix,
    trim_prefix, trim_suffix};

verus! {

/// The candidate identifier for a file under the generic convention:
/// `.svg` files keep their name without the extension, everything else is
/// no icon.
pub open spec fn icon_alias(path: Seq<char>) -> Option<Seq<char>> {
    if ends_with(path, ".svg"@) {
        Some(trim_suffix(path, ".svg"@))
    } else {
        None
    }
}

/// Parses a file path into an icon name by stripping `.svg`; any other
/// file is no icon and is skipped.
pub fn path_to_icon_alias(path: &str) -> (r: Option<String>)
    ensures
        r is Some <==> ends_with(path@, ".svg"@),
        r matches Some(a) ==> a@ == trim_suffix(path@, ".svg"@),
{
    proof {
        reveal_strlit(".svg");
    }
    if str_ends_with(path, ".svg") {
        Some(str_trim_suffix(path, ".svg"))
    } else {
        None
    }
}

/// The upstream icon packs whose trees are scanned, each with its own
/// naming rules.
#[derive(Clone, Copy, PartialEq, Eq, Structural, Debug)]
pub enum IconPack {
    DevKit,
    Fluent,
}

/// What the development-kit convention makes of a file name: symbolic SVG
/// files are taken as they are, everything else is skipped.
pub open spec fn devkit_icon_name(f: Seq<char>) -> Option<Seq<char>> {
    if ends_with(f, "-symbolic.svg"@) {
        Some(f)
    } else {
        None
    }
}

/// What the Fluent convention makes of a file name: only the two 16px
/// style variants are taken; the vendor prefix and size marker go, the
/// underscores become dashes and the symbolic suffix is appended.
pub open spec fn fluent_icon_name(f: Seq<char>) -> Option<Seq<char>> {
    if ends_with(f, "16_filled.svg"@) || ends_with(f, "16_regular.svg"@) {
        let stripped = trim_prefix(f, "ic_fluent_"@);
        let sized = replace_all(stripped, "16_"@, ""@);
        let dashed = replace_char(sized, '_', '-');
        Some(replace_all(dashed, ".svg"@, "-symbolic.svg"@))
    } else {
        None
    }
}

/// The pack's candidate identifier for a scanned file name.
pub open spec fn pack_icon_name(p: IconPack, f: Seq<char>) -> Option<Seq<char>> {
    match p {
        IconPack::DevKit => devkit_icon_name(f),
        IconPack::Fluent => fluent_icon_name(f),
    }
}

/// First fallback name on a collision, shared by all packs: an `-alt`
/// marker before the symbolic suffix.
pub open spec fn alt_name(name: Seq<char>) -> Seq<char> {
    replace_all(name, "-symbolic.svg"@, "-alt-symbolic.svg"@)
}

/// Second, pack-specific fallback name on a collision, keeping the pack
/// visible in the identifier.
pub open spec fn alt_name2(p: IconPack, name: Seq<char>) -> Seq<char> {
    match p {
        IconPack::DevKit => replace_all(name, "-symbolic.svg"@, "-devkit-alt-symbolic.svg"@),
        IconPack::Fluent => replace_all(name, "-symbolic.svg"@, "-fluent-alt-symbolic.svg"@),
    }
}

/// A two-letter lower-case directory name, the shape of a locale subtree.
pub open spec fn is_locale_dir(d: Seq<char>) -> bool {
    d.len() == 2 && (forall|i: int| 0 <= i < d.len() ==> 'a' <= #[trigger] d[i] <= 'z')
}

/// Whether a scan may descend into the directory: locale subtrees and the
/// layout- or script-variant folders hold duplicates and are skipped.
pub open spec fn pack_scans_dir(p: IconPack, d: Seq<char>) -> bool {
    match p {
        IconPack::DevKit => true,
        IconPack::Fluent => !is_locale_dir(d) && !contains_sub(d, "RTL"@) && !contains_sub(
            d,
            "LTR"@,
        ) && !contains_sub(d, "sr-cyrl"@) && !contains_sub(d, "sr-latn"@),
    }
}

impl IconPack {
    /// The candidate identifier for a scanned file name, or `None` for a
    /// file this pack does not take.
    pub fn icon_name(&self, file_name: &str) -> (r: Option<String>)
        ensures
            r is Some <==> pack_icon_name(*self, file_name@) is Some,
            r matches Some(a) ==> Some(a@) == pack_icon_name(*self, file_name@),
    {
        match self {
            IconPack::DevKit => {
                if str_ends_with(file_name, "-symbolic.svg") {
                    Some(String::from_str(file_name))
                } else {
                    None
                }
            },
            IconPack::Fluent => {
                if str_ends_with(file_name, "16_filled.svg") || str_ends_with(
                    file_name,
                    "16_regular.svg",
                ) {
                    proof {
                        reveal_strlit("ic_fluent_");
                        reveal_strlit("16_");
                        reveal_strlit(".svg");
                    }
                    let stripped = str_trim_prefix(file_name, "ic_fluent_");
                    let sized = str_replace_all(stripped.as_str(), "16_", "");
                    let dashed = str_replace_char(sized.as_str(), '_', '-');
                    Some(str_replace_all(dashed.as_str(), ".svg", "-symbolic.svg"))
                } else {
                    None
                }
            },
        }
    }

    /// First fallback name on a collision.
    pub fn alt_icon_name(&self, name: &str) -> (r: String)
        ensures
            r@ == alt_name(name@),
    {
        proof {
            reveal_strlit("-symbolic.svg");
        }
        str_replace_all(name, "-symbolic.svg", "-alt-symbolic.svg")
    }

    /// Second, pack-specific fallback name on a collision.
    pub fn alt_icon_name2(&self, name: &str) -> (r: String)
        ensures
            r@ == alt_name2(*self, name@),
    {
        proof {
            reveal_strlit("-symbolic.svg");
        }
        match self {
            IconPack::DevKit => str_replace_all(name, "-symbolic.svg", "-devkit-alt-symbolic.svg"),
            IconPack::Fluent => str_replace_all(name, "-symbolic.svg", "-fluent-alt-symbolic.svg"),
        }
    }

    /// Whether a scan may descend into the directory.
    pub fn filter_dirs(&self, dir_name: &str) -> (r: bool)
        ensures
            r == pack_scans_dir(*self, dir_name@),
    {
        match self {
            IconPack::DevKit => true,
            IconPack::Fluent => {
                let lang = is_lang_code(dir_name);
                let excluded = str_contains(dir_name, "RTL") || str_contains(dir_name, "LTR")
                    || str_contains(dir_name, "sr-cyrl") || str_contains(dir_name, "sr-latn");
                !lang && !excluded
            },
        }
    }
}

/// Executable test for the two-letter lower-case locale shape.
fn is_lang_code(d: &str) -> (r: bool)
    ensures
        r == is_locale_dir(d@),
{
    let n = d.unicode_len();
    if n != 2 {
        return false;
    }
    let mut i: usize = 0;
    while i < n
        invariant
            n == d@.len(),
            i <= n,
            forall|k: int| 0 <= k < i ==> 'a' <= #[trigger] d@[k] <= 'z',
        decreases n - i,
    {
        let c = d.get_char(i);
        if c < 'a' || c > 'z' {
            return false;
        }
        i += 1;
    }
    true
}

} // verus!
