//! The whole bundle step over a resolved registry: compute the resource
//! prefix, serialize the container, and render the constants source. The
//! caller reads each entry's file and hands the bytes in, in registry
//! order, and writes the two artifacts out on success.

use vstd::prelude::*;

use crate::bundle::{all_accepted, build_bundle, bundle_inputs, gresource_bytes, opt_view,
    prefix_model, resource_prefix};
use crate::codegen::{constants_text, generate_constants};
use crate::errors::{BuildError, ErrorModel};
use crate::merge::{merge_model, DirModel, ScanModel};
use crate::registry::{EntryModel, Registry};

verus! {

/// The two build artifacts and the name to write the container under.
#[derive(Debug)]
pub struct BundleOutput {
    /// The serialized GResource container.
    pub gresource: Vec<u8>,
    /// The generated constants source text.
    pub constants_text: String,
    /// The file name for the container artifact.
    pub gresource_file_name: String,
}

/// Bundles a resolved registry: computes the prefix from the
/// configuration, serializes all entries into the container, and renders
/// the constants source with the container bytes embedded. `contents`
/// holds each entry's file bytes, in registry order. It succeeds exactly
/// when gvdb's preprocessor accepts every entry's content; content that
/// is no well-formed XML fails the build.
pub fn bundle_icons(
    out_file_name: &str,
    app_id: Option<&str>,
    base_resource_path: Option<&str>,
    registry: &Registry,
    contents: &Vec<Vec<u8>>,
) -> (r: Result<BundleOutput, BuildError>)
    requires
        registry.wf(),
        contents@.len() == registry@.len(),
    ensures
        r is Ok <==> all_accepted(contents@.map_values(|c: Vec<u8>| c@)),
        match r {
            Ok(out) => {
                let prefix = prefix_model(opt_view(base_resource_path), opt_view(app_id));
                &&& out.gresource@ == gresource_bytes(
                    bundle_inputs(registry@, prefix, contents@.map_values(|c: Vec<u8>| c@)),
                )
                &&& out.constants_text@ == constants_text(registry@, prefix, out.gresource@)
                &&& out.gresource_file_name@ == out_file_name@ + ".gresource"@
            },
            Err(e) => e@ is BundleFailed,
        },
{
    let prefix = resource_prefix(base_resource_path, app_id);
    let gresource = match build_bundle(registry, contents, prefix.as_str()) {
        Ok(bytes) => bytes,
        Err(e) => {
            return Err(e);
        },
    };
    let text = generate_constants(registry, prefix.as_str(), &gresource);
    let mut file_name = String::from_str(out_file_name);
    file_name.append(".gresource");
    Ok(BundleOutput { gresource, constants_text: text, gresource_file_name: file_name })
}

/// Determinism of the build: on equal inputs, the merge resolves to the
/// same registry, the two runs agree on whether bundling succeeds, and
/// on success the container comes out byte-identical and the generated
/// source text character-identical. The whole pipeline is a function of
/// the scanned tree, the configuration and the file contents alone.
pub proof fn lemma_pipeline_deterministic(
    custom: Option<ScanModel>,
    dirs: Seq<DirModel>,
    names: Seq<Seq<char>>,
    prefix: Seq<char>,
    contents: Seq<Seq<u8>>,
    m1: Result<Seq<EntryModel>, ErrorModel>,
    m2: Result<Seq<EntryModel>, ErrorModel>,
    ok1: bool,
    ok2: bool,
    g1: Seq<u8>,
    g2: Seq<u8>,
    t1: Seq<char>,
    t2: Seq<char>,
)
    requires
        m1 == merge_model(custom, dirs, names),
        m2 == merge_model(custom, dirs, names),
        m1 is Ok,
        ok1 == all_accepted(contents),
        ok2 == all_accepted(contents),
        ok1 ==> (m1 matches Ok(entries1) && g1 == gresource_bytes(
            bundle_inputs(entries1, prefix, contents),
        ) && t1 == constants_text(entries1, prefix, g1)),
        ok2 ==> (m2 matches Ok(entries2) && g2 == gresource_bytes(
            bundle_inputs(entries2, prefix, contents),
        ) && t2 == constants_text(entries2, prefix, g2)),
    ensures
        m1 == m2,
        ok1 == ok2,
        ok1 ==> g1 == g2 && t1 == t2,
{
}

} // verus!
