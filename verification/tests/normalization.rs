//! Tests of the module normalizer as a pure byte transformation.

use handle_bridge::normalizer::{normalize, NormError};

fn header() -> Vec<u8> {
    vec![0x00, 0x61, 0x73, 0x6d, 0x01, 0x00, 0x00, 0x00]
}

fn module_with_plain_import() -> Vec<u8> {
    let mut m = header();
    // type section: (i32) -> ()
    m.extend_from_slice(&[0x01, 0x05, 0x01, 0x60, 0x01, 0x7f, 0x00]);
    // import section: env.log of that type
    let mut imports: Vec<u8> = vec![0x01];
    imports.extend_from_slice(b"\x03env\x03log\x00\x00");
    m.push(0x02);
    m.push(imports.len() as u8);
    m.extend_from_slice(&imports);
    m
}

#[test]
fn module_without_qualifying_imports_is_unchanged() {
    let m = module_with_plain_import();
    let (info, out) = normalize(&m).unwrap();
    assert!(!info.patched);
    assert!(info.handle_imports.is_empty());
    assert_eq!(out, m);

    // A module with no imports at all is unchanged too.
    let bare = header();
    let (info, out) = normalize(&bare).unwrap();
    assert!(!info.patched);
    assert_eq!(out, bare);
}

#[test]
fn normalization_is_deterministic() {
    let mut m = header();
    m.extend_from_slice(&[0x01, 0x05, 0x01, 0x60, 0x01, 0x6f, 0x00]);
    let mut imports: Vec<u8> = vec![0x01];
    imports.extend_from_slice(b"\x03env\x04free\x00\x00");
    m.push(0x02);
    m.push(imports.len() as u8);
    m.extend_from_slice(&imports);

    let first = normalize(&m).unwrap();
    let second = normalize(&m).unwrap();
    assert!(first.0.patched && second.0.patched);
    assert_eq!(first.1, second.1);
}

#[test]
fn externref_parameter_qualifies_by_signature() {
    // The import is not from the host namespace, but its signature takes
    // an opaque reference: the patch is generated all the same.
    let mut m = header();
    m.extend_from_slice(&[0x01, 0x05, 0x01, 0x60, 0x01, 0x6f, 0x00]);
    let mut imports: Vec<u8> = vec![0x01];
    imports.extend_from_slice(b"\x03env\x04free\x00\x00");
    m.push(0x02);
    m.push(imports.len() as u8);
    m.extend_from_slice(&imports);

    let (info, out) = normalize(&m).unwrap();
    assert!(info.patched);
    assert_eq!(info.handle_imports.len(), 1);
    assert_eq!(info.handle_imports[0].module, b"env".to_vec());
    assert_eq!(info.handle_imports[0].name, b"free".to_vec());
    // One function import, none defined: save sits at function index 1.
    assert_eq!(info.save_function_index, 1);
    assert_eq!(info.drop_function_index, 2);
    assert_eq!(info.table_index, 0);
    // The fixed export names stand verbatim in the patched bytes.
    for name in [
        b"_lunatic_externref_save".to_vec(),
        b"_lunatic_externref_drop".to_vec(),
        b"__lunatic_externref_resource_table".to_vec(),
    ] {
        assert!(out.windows(name.len()).any(|w| w == &name[..]));
    }
}

#[test]
fn malformed_modules_are_rejected() {
    // Wrong magic.
    assert_eq!(normalize(&[0x01, 0x61, 0x73, 0x6d, 0x01, 0, 0, 0]).err(), Some(NormError::Malformed));
    // Too short for a preamble.
    assert_eq!(normalize(&[0x00, 0x61]).err(), Some(NormError::Malformed));
    // Section size runs past the end of the bytes.
    let mut m = header();
    m.extend_from_slice(&[0x01, 0x7f, 0x00]);
    assert_eq!(normalize(&m).err(), Some(NormError::Malformed));
    // A function import naming a signature the module does not declare.
    let mut m = header();
    let mut imports: Vec<u8> = vec![0x01];
    imports.extend_from_slice(b"\x03env\x03log\x00\x00");
    m.push(0x02);
    m.push(imports.len() as u8);
    m.extend_from_slice(&imports);
    assert_eq!(normalize(&m).err(), Some(NormError::Malformed));
}

#[test]
fn patched_module_keeps_existing_sections() {
    // A qualifying module with a defined function: the patch appends to
    // the existing type/function/code sections and shifts the synthesized
    // function indices past the module's own.
    let mut m = header();
    // types: t0 = (externref) -> (), t1 = () -> ()
    m.extend_from_slice(&[0x01, 0x08, 0x02, 0x60, 0x01, 0x6f, 0x00, 0x60, 0x00, 0x00]);
    // import: host.keep of type 0
    let mut imports: Vec<u8> = vec![0x01];
    imports.extend_from_slice(b"\x04host\x04keep\x00\x00");
    m.push(0x02);
    m.push(imports.len() as u8);
    m.extend_from_slice(&imports);
    // function section: one defined function of type 1
    m.extend_from_slice(&[0x03, 0x02, 0x01, 0x01]);
    // code section: one empty body
    m.extend_from_slice(&[0x0a, 0x04, 0x01, 0x02, 0x00, 0x0b]);

    let (info, out) = normalize(&m).unwrap();
    assert!(info.patched);
    // One imported and one defined function come first.
    assert_eq!(info.save_function_index, 2);
    assert_eq!(info.drop_function_index, 3);
    assert_ne!(out, m);
    // The output is still a parseable module that the pass accepts.
    let again = normalize(&out);
    assert!(again.is_ok());
}

#[test]
fn table_imports_shift_the_synthesized_table_index() {
    let mut m = header();
    // type section: (externref) -> ()
    m.extend_from_slice(&[0x01, 0x05, 0x01, 0x60, 0x01, 0x6f, 0x00]);
    // imports: a funcref table, then host.keep of type 0
    let mut imports: Vec<u8> = vec![0x02];
    imports.extend_from_slice(b"\x03env\x03tab\x01\x70\x00\x01");
    imports.extend_from_slice(b"\x04host\x04keep\x00\x00");
    m.push(0x02);
    m.push(imports.len() as u8);
    m.extend_from_slice(&imports);
    let (info, _) = normalize(&m).unwrap();
    assert!(info.patched);
    // The imported table occupies index 0; the synthesized one follows it.
    assert_eq!(info.table_index, 1);
    // The table import does not count in the function index space.
    assert_eq!(info.save_function_index, 1);
}

#[test]
fn custom_sections_are_kept_in_place() {
    let mut m = header();
    // a custom section before everything
    m.extend_from_slice(&[0x00, 0x03, 0x01, 0x61, 0x61]);
    m.extend_from_slice(&[0x01, 0x05, 0x01, 0x60, 0x01, 0x6f, 0x00]);
    let mut imports: Vec<u8> = vec![0x01];
    imports.extend_from_slice(b"\x03env\x04free\x00\x00");
    m.push(0x02);
    m.push(imports.len() as u8);
    m.extend_from_slice(&imports);
    let (info, out) = normalize(&m).unwrap();
    assert!(info.patched);
    // The custom section's bytes survive the patch verbatim.
    let custom = [0x00u8, 0x03, 0x01, 0x61, 0x61];
    assert!(out.windows(custom.len()).any(|w| w == custom));
    // The patched module parses and needs no structural repair.
    assert!(normalize(&out).is_ok());
}

#[test]
fn absurd_declared_counts_get_their_own_report() {
    // A parsable module whose declared function count would push the
    // synthesized save function's index past what an index can hold is
    // turned away distinctly from malformed bytes.
    let mut m = header();
    m.extend_from_slice(&[0x01, 0x05, 0x01, 0x60, 0x01, 0x6f, 0x00]);
    let mut imports: Vec<u8> = vec![0x01];
    imports.extend_from_slice(b"\x03env\x04free\x00\x00");
    m.push(0x02);
    m.push(imports.len() as u8);
    m.extend_from_slice(&imports);
    // function section declaring the largest possible entry count
    m.extend_from_slice(&[0x03, 0x05, 0xff, 0xff, 0xff, 0xff, 0x0f]);
    assert_eq!(normalize(&m).err(), Some(NormError::IndexOverflow));
}
