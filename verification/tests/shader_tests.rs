use lvie::shader::resolve_imports;

fn resolve(shader: &str, clamp: &str) -> String {
    let s: Vec<char> = shader.chars().collect();
    let c: Vec<char> = clamp.chars().collect();
    resolve_imports(&s, &c).into_iter().collect()
}

#[test]
fn shaders_without_imports_are_kept() {
    assert_eq!(resolve("fn main() {}", "CL;"), "fn main() {}");
    assert_eq!(resolve("", "CL;"), "");
    assert_eq!(resolve("impor", "CL;"), "impor");
}

#[test]
fn the_import_block_is_replaced() {
    assert_eq!(resolve("import { clamp }\nfn main() {}", "CL;"), "CL;\nfn main() {}");
    assert_eq!(resolve("import {}body", "CL;"), "body");
    assert_eq!(resolve("import { other }body", "CL;"), "body");
}

#[test]
fn names_match_in_any_case() {
    assert_eq!(resolve("import {ClAmP}x", "CL;"), "CL;x");
    assert_eq!(resolve("import { clamp CLAMP other }x", "CL;"), "CL;CL;x");
    assert_eq!(resolve("import { clamps clam }x", "CL;"), "x");
}

#[test]
fn names_are_split_at_single_spaces_after_trimming() {
    // two spaces leave an empty name between them
    assert_eq!(resolve("import {\n\tclamp  clamp \n}x", "C"), "CCx");
    // a tab is not a separator
    assert_eq!(resolve("import { clamp\tclamp }x", "C"), "x");
}
