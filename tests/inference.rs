use playdsp::inference::{collect_local_modules, detect_crate_dependencies};

fn names(v: &[&str]) -> Vec<String> {
    v.iter().map(|s| s.to_string()).collect()
}

#[test]
fn detects_first_segment_once_in_order() {
    let code = "use rand::Rng;\nuse serde::{Serialize, Deserialize};\n  use rand::thread_rng;\nfn main() {}\nuse itertools;\n";
    assert_eq!(
        detect_crate_dependencies(code, &vec![]),
        names(&["rand", "serde", "itertools"])
    );
}

#[test]
fn runtime_and_relative_paths_are_not_dependencies() {
    let code = "use std::fs;\nuse core::mem;\nuse alloc::vec::Vec;\nuse crate::a;\nuse self::b;\nuse super::c;\n";
    assert!(detect_crate_dependencies(code, &vec![]).is_empty());
}

#[test]
fn local_module_is_not_a_dependency() {
    let code = "mod helpers;\nuse helpers::thing;\nuse num_traits::Float;\n";
    let locals = collect_local_modules(&vec![code.to_string()]);
    assert_eq!(locals, names(&["helpers"]));
    assert_eq!(detect_crate_dependencies(code, &locals), names(&["num_traits"]));
}

#[test]
fn comments_and_odd_lines_do_not_crash() {
    let code = "// use fake::x;\r\n\tuse   rustfft::FftPlanner;\r\nuse ;\nuse ::;\n\n";
    assert_eq!(detect_crate_dependencies(code, &vec![]), names(&["rustfft"]));
}

#[test]
fn empty_text_has_no_dependencies() {
    assert!(detect_crate_dependencies("", &vec![]).is_empty());
}

#[test]
fn collects_modules_across_files() {
    let a = "pub mod filters;\nmod util ;\n".to_string();
    let b = "mod util;\nmod  gain { }\nmodule x;\n".to_string();
    assert_eq!(collect_local_modules(&vec![a, b]), names(&["filters", "util", "gain"]));
}
