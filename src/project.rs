//! The runtime project as a whole: its build manifest, build glue, entry
//! point and module index, rendered from the templates and the user's code.

use vstd::prelude::*;
use crate::manifest::{generate_cargo_toml_with_dependencies, manifest_text, parse_user_dependencies, user_dependencies};
use crate::synthesis::{
    entry_point, index_text, module_index, module_lines, sorted_texts, synthesize_entry_point,
};
use crate::text::string_views;

verus! {

/// The fixed texts that a runtime project is rendered from.
pub struct Templates {
    /// Build manifest, with a `[dependencies]` header line.
    pub manifest: String,
    /// Build glue, written as it is.
    pub build_glue: String,
    /// Entry point, with the pass-through processing function between its
    /// markers.
    pub entry_point: String,
}

/// The files of a runtime project.
pub struct RuntimeProject {
    pub manifest: String,
    pub build_glue: String,
    pub entry_point: String,
    /// The index of the copied module tree, when there is one to index.
    pub module_index: Option<String>,
}

pub open spec fn opt_str(o: Option<&str>) -> Option<Seq<char>> {
    match o {
        Some(s) => Some(s@),
        None => None,
    }
}

/// The runtime project for the user's code: `declared` is the text of the
/// dependency declaration file, if any; `sources` the texts of the user's
/// source files, scanned for dependencies; `user_source` the text of the
/// processing source, if any; `module_files` the file names of the user's
/// module tree, when it is copied beside the entry point.
///
/// The manifest holds the declared entries, then the inferred ones; the
/// entry point holds the user's function (or the delegation to the module
/// tree) only when the processing source has the exact signature; the
/// module index exists when there is a module tree with a processing
/// source.
pub fn synthesize_project(
    templates: &Templates,
    declared: Option<&str>,
    sources: &Vec<String>,
    user_source: Option<&str>,
    module_files: Option<&Vec<String>>,
) -> (r: RuntimeProject)
    ensures
        r.manifest@ == manifest_text(
            templates.manifest@,
            user_dependencies(opt_str(declared), string_views(sources@)),
        ),
        r.build_glue@ == templates.build_glue@,
        r.entry_point@ == entry_point(
            templates.entry_point@,
            opt_str(user_source),
            module_files is Some,
        ),
        r.module_index is Some <==> (module_files is Some && user_source is Some),
        r.module_index matches Some(ix) ==> (module_files matches Some(files) && ix@
            == index_text(sorted_texts(module_lines(string_views(files@))))),
{
    let deps = parse_user_dependencies(declared, sources);
    let manifest = generate_cargo_toml_with_dependencies(templates.manifest.as_str(), &deps);
    let entry = synthesize_entry_point(
        templates.entry_point.as_str(),
        user_source,
        module_files.is_some(),
    );
    let index = match (module_files, user_source) {
        (Some(files), Some(_)) => Some(module_index(files)),
        _ => None,
    };
    RuntimeProject {
        manifest,
        build_glue: templates.build_glue.clone(),
        entry_point: entry,
        module_index: index,
    }
}

} // verus!
