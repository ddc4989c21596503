//! The bundle builder: computes each asset's virtual resource path and
//! serializes the registry's files into one binary GResource container.
//! The serialization itself is gvdb's; the library states its contracts
//! and proves everything around them.

use vstd::prelude::*;

use crate::errors::BuildError;
use crate::registry::{EntryModel, IconEntry, Provenance, Registry};
use crate::text::{ends_with, lemma_concat_ends_with, lemma_ends_with_tail, replace_char};

verus! {

#[verifier::external_type_specification]
#[verifier::external_body]
pub struct ExFileData<'a>(gvdb::gresource::FileData<'a>);

#[verifier::external_type_specification]
#[verifier::external_body]
pub struct ExBuilderError(gvdb::gresource::BuilderError);

/// Whether gvdb's xml-stripblanks preprocessing accepts the bytes: they
/// must be well-formed UTF-8 XML. Acceptance depends on the bytes alone.
pub uninterp spec fn xml_accepts(data: Seq<u8>) -> bool;

/// The preprocessor accepts every entry's content.
pub open spec fn all_accepted(contents: Seq<Seq<u8>>) -> bool {
    forall|i: int| 0 <= i < contents.len() ==> xml_accepts(#[trigger] contents[i])
}

/// What gvdb's xml-stripblanks preprocessing makes of accepted bytes. The
/// result depends on the bytes alone.
pub uninterp spec fn xml_stripped(data: Seq<u8>) -> Seq<u8>;

/// The virtual-path key a file data carries.
pub uninterp spec fn file_data_key(fd: gvdb::gresource::FileData<'static>) -> Seq<char>;

/// The logical content a file data carries: the preprocessed bytes, as a
/// reader of the container gets them back after decompression.
pub uninterp spec fn file_data_content(fd: gvdb::gresource::FileData<'static>) -> Seq<u8>;

/// The serialized GResource container over the given (virtual path,
/// content) pairs, in order. The bytes are a function of the pairs alone.
pub uninterp spec fn gresource_bytes(entries: Seq<(Seq<char>, Seq<u8>)>) -> Seq<u8>;

/// Relies on gvdb's `FileData::new`, called with xml-stripblanks
/// preprocessing and zlib compression as the icon bundle format asks. It
/// succeeds exactly when the preprocessor accepts the bytes (its only
/// failure path is the quick-xml rewrite, which rejects bytes that are no
/// well-formed UTF-8 XML and rewrites everything else; zlib compression
/// cannot fail). On success the value carries the given key and, as its
/// logical content, the whitespace-stripped form of the given bytes.
#[verifier::external_body]
fn new_file_data(key: String, data: Vec<u8>) -> (r: Result<
    gvdb::gresource::FileData<'static>,
    gvdb::gresource::BuilderError,
>)
    ensures
        r is Ok <==> xml_accepts(data@),
        r matches Ok(fd) ==> file_data_key(fd) == key@ && file_data_content(fd) == xml_stripped(
            data@,
        ),
{
    gvdb::gresource::FileData::new(
        key,
        std::borrow::Cow::Owned(data),
        None,
        true,
        &gvdb::gresource::PreprocessOptions::xml_stripblanks(),
    )
}

/// Relies on gvdb's `BundleBuilder::build` (via `from_file_data`, which
/// merely wraps the vector): on success the container bytes are a
/// function of the keys and contents of the given files, in order. Files
/// whose keys end in `.svg` are always accepted: the builder's only
/// data-dependent failures are its key-consistency checks, which need a
/// value key that is empty or coincides with one of the `/`-terminated
/// directory keys it derives, and serializing the (size, flags, bytes)
/// record of each file into a vector cannot fail.
#[verifier::external_body]
fn build_container(files: Vec<gvdb::gresource::FileData<'static>>) -> (r: Result<
    Vec<u8>,
    gvdb::gresource::BuilderError,
>)
    ensures
        (forall|k: int|
            0 <= k < files@.len() ==> ends_with(
                file_data_key(#[trigger] files@[k]),
                ".svg"@,
            )) ==> r is Ok,
        r matches Ok(bytes) ==> bytes@ == gresource_bytes(
            files@.map_values(
                |fd: gvdb::gresource::FileData<'static>|
                    (file_data_key(fd), file_data_content(fd)),
            ),
        ),
{
    gvdb::gresource::BundleBuilder::from_file_data(files).build()
}

/// Relies on gvdb's `BuilderError` display implementation for the
/// diagnostic text of a failed bundle build.
#[verifier::external_body]
fn builder_error_message(e: &gvdb::gresource::BuilderError) -> String {
    format!("{e}")
}

/// The resource-path prefix: an explicit base resource path wins, then
/// the application id with its dots as slashes, then the general default.
/// Exactly one of the three sources is used, in that priority order.
pub open spec fn prefix_model(base: Option<Seq<char>>, app_id: Option<Seq<char>>) -> Seq<char> {
    match base {
        Option::Some(b) => b + "/icons"@,
        Option::None => match app_id {
            Option::Some(a) => "/"@ + replace_char(a, '.', '/') + "/icons"@,
            Option::None => "/org/relm4/icons"@,
        },
    }
}

/// The view of an optional borrowed string.
pub open spec fn opt_view(o: Option<&str>) -> Option<Seq<char>> {
    match o {
        Option::Some(s) => Option::Some(s@),
        Option::None => Option::None,
    }
}

/// Computes the resource-path prefix from the configuration.
pub fn resource_prefix(base_resource_path: Option<&str>, app_id: Option<&str>) -> (r: String)
    ensures
        r@ == prefix_model(opt_view(base_resource_path), opt_view(app_id)),
{
    match base_resource_path {
        Some(b) => {
            let mut p = String::from_str(b);
            p.append("/icons");
            p
        },
        None => match app_id {
            Some(a) => {
                let dashed = crate::text::str_replace_char(a, '.', '/');
                let mut p = String::from_str("/");
                p.append(dashed.as_str());
                p.append("/icons");
                p
            },
            None => String::from_str("/org/relm4/icons"),
        },
    }
}

/// The virtual resource path of one entry: shipped entries get the
/// `-symbolic.svg` suffix, custom entries keep the plain `.svg` form
/// (their identifier already carries any symbolic marker of the file
/// name).
pub open spec fn virtual_path(prefix: Seq<char>, e: EntryModel) -> Seq<char> {
    prefix + "/scalable/actions/"@ + e.identifier + (if e.provenance is Shipped {
        "-symbolic.svg"@
    } else {
        ".svg"@
    })
}

/// Computes the virtual resource path of one entry.
pub fn entry_virtual_path(prefix: &str, entry: &IconEntry) -> (r: String)
    ensures
        r@ == virtual_path(prefix@, entry@),
{
    let mut p = String::from_str(prefix);
    p.append("/scalable/actions/");
    p.append(entry.identifier.as_str());
    match entry.provenance {
        Provenance::Shipped => p.append("-symbolic.svg"),
        Provenance::Custom => p.append(".svg"),
    }
    p
}

/// The (virtual path, preprocessed content) pairs the container is built
/// over: one per registry entry, in registry order.
pub open spec fn bundle_inputs(
    entries: Seq<EntryModel>,
    prefix: Seq<char>,
    contents: Seq<Seq<u8>>,
) -> Seq<(Seq<char>, Seq<u8>)> {
    Seq::new(entries.len(), |i: int| (virtual_path(prefix, entries[i]), xml_stripped(contents[i])))
}

/// A copy of the bytes.
fn clone_bytes(v: &Vec<u8>) -> (r: Vec<u8>)
    ensures
        r@ == v@,
{
    let mut r: Vec<u8> = Vec::new();
    let n = v.len();
    let mut i: usize = 0;
    while i < n
        invariant
            n == v@.len(),
            i <= n,
            r@ == v@.take(i as int),
        decreases n - i,
    {
        r.push(v[i]);
        proof {
            assert(r@ =~= v@.take(i + 1));
        }
        i += 1;
    }
    proof {
        assert(v@.take(n as int) =~= v@);
    }
    r
}

/// Serializes the registry into one GResource container. The content
/// bytes are given per entry, in registry order; each is run through
/// gvdb's xml-stripblanks preprocessing before packing. It succeeds
/// exactly when the preprocessor accepts every entry's content; content
/// that is no well-formed XML fails the build.
pub fn build_bundle(registry: &Registry, contents: &Vec<Vec<u8>>, prefix: &str) -> (r: Result<
    Vec<u8>,
    BuildError,
>)
    requires
        registry.wf(),
        contents@.len() == registry@.len(),
    ensures
        r is Ok <==> all_accepted(contents@.map_values(|c: Vec<u8>| c@)),
        match r {
            Ok(bytes) => bytes@ == gresource_bytes(
                bundle_inputs(registry@, prefix@, contents@.map_values(|c: Vec<u8>| c@)),
            ),
            Err(e) => e@ is BundleFailed,
        },
{
    let ghost entries = registry@;
    let ghost cviews = contents@.map_values(|c: Vec<u8>| c@);
    let ghost inputs = bundle_inputs(registry@, prefix@, contents@.map_values(|c: Vec<u8>| c@));
    let n = registry.len();
    let mut files: Vec<gvdb::gresource::FileData<'static>> = Vec::new();
    let mut i: usize = 0;
    while i < n
        invariant
            entries == registry@,
            cviews == contents@.map_values(|c: Vec<u8>| c@),
            inputs == bundle_inputs(registry@, prefix@, contents@.map_values(|c: Vec<u8>| c@)),
            n == entries.len(),
            contents@.len() == entries.len(),
            i <= n,
            files@.len() == i,
            forall|k: int| 0 <= k < i ==> xml_accepts(#[trigger] cviews[k]),
            forall|k: int| 0 <= k < i ==> (file_data_key(#[trigger] files@[k]), file_data_content(
                files@[k],
            )) == inputs[k],
        decreases n - i,
    {
        let entry = registry.get(i);
        let vp = entry_virtual_path(prefix, entry);
        let data = clone_bytes(&contents[i]);
        proof {
            assert(cviews[i as int] == contents@[i as int]@);
        }
        match new_file_data(vp, data) {
            Ok(fd) => {
                files.push(fd);
            },
            Err(e) => {
                proof {
                    assert(!xml_accepts(cviews[i as int]));
                    assert(!all_accepted(cviews));
                }
                let msg = builder_error_message(&e);
                return Err(BuildError::BundleFailed(msg));
            },
        }
        i += 1;
    }
    proof {
        assert(all_accepted(cviews));
        reveal_strlit(".svg");
        reveal_strlit("-symbolic.svg");
        assert(ends_with(".svg"@, ".svg"@)) by {
            assert(".svg"@.subrange(0, 4) =~= ".svg"@);
        }
        assert(ends_with("-symbolic.svg"@, ".svg"@)) by {
            assert("-symbolic.svg"@.subrange(9, 13) =~= ".svg"@);
        }
        assert forall|k: int| 0 <= k < files@.len() implies ends_with(
            file_data_key(#[trigger] files@[k]),
            ".svg"@,
        ) by {
            let e = entries[k];
            let sfx = if e.provenance is Shipped {
                "-symbolic.svg"@
            } else {
                ".svg"@
            };
            assert(file_data_key(files@[k]) == virtual_path(prefix@, e));
            lemma_concat_ends_with(prefix@ + "/scalable/actions/"@ + e.identifier, sfx);
            lemma_ends_with_tail(virtual_path(prefix@, e), sfx, ".svg"@);
        }
    }
    match build_container(files) {
        Ok(bytes) => {
            proof {
                let models = files@.map_values(
                    |fd: gvdb::gresource::FileData<'static>|
                        (file_data_key(fd), file_data_content(fd)),
                );
                assert forall|k: int| 0 <= k < models.len() implies #[trigger] models[k]
                    == inputs[k] by {
                    assert(models[k] == (file_data_key(files@[k]), file_data_content(files@[k])));
                }
                assert(models =~= inputs);
            }
            Ok(bytes)
        },
        Err(e) => {
            proof {
                assert(false);
            }
            let msg = builder_error_message(&e);
            Err(BuildError::BundleFailed(msg))
        },
    }
}

} // verus!
