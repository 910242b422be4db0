use playdsp::project::{synthesize_project, Templates};
use playdsp::synthesis::{
    is_processing_source, is_program_file, is_wav_file, module_index, selection_for,
    splice_user_function, synthesize_entry_point, validate_file, wants_file, Selection,
    CPP_SIGNATURE, DELEGATION, RUST_SIGNATURE,
};

const TEMPLATE: &str = "fn main() {}\n\n// Rust processing function - will be loaded from user's code\nfn rust_process(input: &Vec<Vec<f64>>, output: &mut Vec<Vec<f64>>) {\n    output.clone_from(input);\n}\n\n// C++ FFI\nfn tail() {}\n";

fn user_source() -> String {
    format!("{} {{\n    output.clone_from(input);\n}}\n", RUST_SIGNATURE)
}

#[test]
fn valid_rust_source() {
    assert!(validate_file("code/rust_process_audio.rs", &user_source()));
    assert!(!validate_file("code/rust_process_audio.rs", "pub fn rust_process(input: &[f64])"));
}

#[test]
fn valid_cpp_source() {
    let text = format!("#include <cstddef>\n{} {{ }}\n", CPP_SIGNATURE);
    assert!(validate_file("dir/cpp_process_audio.cpp", &text));
    assert!(!validate_file("dir/cpp_process_audio.cpp", &user_source()));
}

#[test]
fn other_file_names_are_not_valid() {
    assert!(!validate_file("dir/other.rs", &user_source()));
    assert!(!validate_file("", &user_source()));
}

#[test]
fn selection_follows_flags() {
    assert_eq!(selection_for(true, false), Some(Selection::Rust));
    assert_eq!(selection_for(false, true), Some(Selection::Cpp));
    assert_eq!(selection_for(false, false), Some(Selection::Both));
    assert_eq!(selection_for(true, true), None);
}

#[test]
fn selected_files() {
    assert!(wants_file(Selection::Rust, "a/rust_process_audio.rs"));
    assert!(!wants_file(Selection::Rust, "a/cpp_process_audio.cpp"));
    assert!(wants_file(Selection::Cpp, "a/cpp_process_audio.cpp"));
    assert!(wants_file(Selection::Both, "a/cpp_process_audio.cpp"));
    assert!(wants_file(Selection::Both, "rust_process_audio.rs"));
    assert!(!wants_file(Selection::Both, "a/readme.md"));
    assert!(is_processing_source("x/cpp_process_audio.cpp"));
    assert!(!is_processing_source("x/cpp_process_audio.c"));
}

#[test]
fn program_and_audio_files() {
    assert!(is_program_file("../audio/processing/rust_process_audio.rs", "rs"));
    assert!(!is_program_file("../audio/processing/rust_process_audio.rs", "cpp"));
    assert!(!is_program_file("../audio/processing/helper.rs", "rs"));
    assert!(is_wav_file("source/take1.wav"));
    assert!(!is_wav_file("source/take1.WAV.txt"));
    assert!(!is_wav_file("source/wav"));
}

#[test]
fn signed_source_is_spliced() {
    let out = synthesize_entry_point(TEMPLATE, Some(&user_source()), false);
    assert_eq!(
        out,
        format!("fn main() {{}}\n\n{}\n\n// C++ FFI\nfn tail() {{}}\n", user_source())
    );
}

#[test]
fn module_tree_gets_delegation() {
    let out = synthesize_entry_point(TEMPLATE, Some(&user_source()), true);
    assert_eq!(out, format!("fn main() {{}}\n\n{}\n\n// C++ FFI\nfn tail() {{}}\n", DELEGATION));
}

#[test]
fn unsigned_source_falls_back_to_template() {
    let bad = "pub fn rust_process(input: &Vec<Vec<f32>>, output: &mut Vec<Vec<f32>>) {}";
    assert_eq!(synthesize_entry_point(TEMPLATE, Some(bad), false), TEMPLATE);
    assert_eq!(synthesize_entry_point(TEMPLATE, Some(bad), true), TEMPLATE);
    assert_eq!(synthesize_entry_point(TEMPLATE, None, true), TEMPLATE);
}

#[test]
fn missing_marker_leaves_template() {
    assert_eq!(splice_user_function("fn main() {}\n", "x"), None);
    let no_end = "// Rust processing function - will be loaded from user's code\nfn rust_process() {}\n";
    assert_eq!(splice_user_function(no_end, "x"), None);
    assert_eq!(synthesize_entry_point(no_end, Some(&user_source()), false), no_end);
}

#[test]
fn module_index_is_sorted() {
    let files: Vec<String> = ["rust_process_audio.rs", "mod.rs", "notes.txt", "a1.rs", "a.rs", "Zeta.rs"]
        .iter()
        .map(|s| s.to_string())
        .collect();
    assert_eq!(
        module_index(&files),
        "pub mod Zeta;\npub mod a1;\npub mod a;\npub mod rust_process_audio;\n\npub use rust_process_audio::rust_process;\n"
    );
}

#[test]
fn module_index_of_empty_tree() {
    assert_eq!(module_index(&vec![]), "\n\npub use rust_process_audio::rust_process;\n");
}

#[test]
fn whole_project() {
    let templates = Templates {
        manifest: "[package]\nname = \"rt\"\n[dependencies]\n".to_string(),
        build_glue: "fn main() {}\n".to_string(),
        entry_point: TEMPLATE.to_string(),
    };
    let src = format!("use rand::Rng;\n{}", user_source());
    let files = vec!["rust_process_audio.rs".to_string()];
    let p = synthesize_project(&templates, None, &vec![src.clone()], Some(&src), Some(&files));
    assert_eq!(p.manifest, "[package]\nname = \"rt\"\n[dependencies]\nrand = \"*\"\n");
    assert_eq!(p.build_glue, "fn main() {}\n");
    assert_eq!(p.entry_point, format!("fn main() {{}}\n\n{}\n\n// C++ FFI\nfn tail() {{}}\n", DELEGATION));
    assert_eq!(
        p.module_index,
        Some("pub mod rust_process_audio;\n\npub use rust_process_audio::rust_process;\n".to_string())
    );
    let q = synthesize_project(&templates, None, &vec![], None, None);
    assert_eq!(q.entry_point, TEMPLATE);
    assert_eq!(q.module_index, None);
    assert_eq!(q.manifest, templates.manifest);
}
