//! Tests of the resource table and the normalization pass working together,
//! mirroring how the runtime drives the save/drop bridge of a patched
//! module instance.

use handle_bridge::normalizer::{normalize, save_export_name, drop_export_name, table_export_name};
use handle_bridge::resource_table::ResourceTable;

/// A module with two imports from the "lunatic" namespace, enough to
/// force synthesis of the save/drop bridge.
fn two_import_module() -> Vec<u8> {
    let mut m: Vec<u8> = vec![0x00, 0x61, 0x73, 0x6d, 0x01, 0x00, 0x00, 0x00];
    // type section: (i32, i32, i64) -> (i32) and (i32) -> ()
    m.extend_from_slice(&[
        0x01, 0x0c, 0x02, 0x60, 0x03, 0x7f, 0x7f, 0x7e, 0x01, 0x7f, 0x60, 0x01, 0x7f, 0x00,
    ]);
    // import section: lunatic.spawn (type 0), lunatic.drop_externref (type 1)
    let mut imports: Vec<u8> = vec![0x02];
    imports.extend_from_slice(b"\x07lunatic\x05spawn\x00\x00");
    imports.extend_from_slice(b"\x07lunatic\x0edrop_externref\x00\x01");
    m.push(0x02);
    m.push(imports.len() as u8);
    m.extend_from_slice(&imports);
    m
}

#[test]
fn externref_save_drop() {
    // The normaliser's patch: the two "lunatic" imports force generation of
    // the save/drop functions and the backing table.
    let wasm = two_import_module();
    let (info, patched) = normalize(&wasm).unwrap();
    assert!(info.patched);
    assert_ne!(patched, wasm);
    assert_eq!(info.handle_imports.len(), 2);
    assert_eq!(info.handle_imports[0].module, b"lunatic".to_vec());
    assert_eq!(info.handle_imports[0].name, b"spawn".to_vec());
    assert_eq!(info.handle_imports[1].name, b"drop_externref".to_vec());
    // Two function imports, no defined functions: save lands at index 2.
    assert_eq!(info.save_function_index, 2);
    assert_eq!(info.drop_function_index, 3);
    assert_eq!(info.table_index, 0);
    assert_eq!(save_export_name(), b"_lunatic_externref_save".to_vec());
    // The synthesized save body: pop the most recently freed index from the
    // memory-backed free stack and reuse it, else grow the table by one.
    let save_body: Vec<u8> = vec![
        0x01, 0x01, 0x7f, 0x23, 0x00, 0x04, 0x7f, 0x23, 0x00, 0x41, 0x01, 0x6b, 0x24, 0x00, 0x23,
        0x00, 0x41, 0x02, 0x74, 0x28, 0x02, 0x00, 0x21, 0x01, 0x20, 0x01, 0x20, 0x00, 0x26, 0x00,
        0x20, 0x01, 0x05, 0x20, 0x00, 0x41, 0x01, 0xfc, 0x0f, 0x00, 0x0b, 0x0b,
    ];
    // The synthesized drop body: reserved, out-of-range and already-free
    // handles are left alone; otherwise clear the slot and push the index
    // onto the free stack.
    let drop_body: Vec<u8> = vec![
        0x00, 0x20, 0x00, 0x41, 0x03, 0x49, 0x04, 0x40, 0x0f, 0x0b, 0x20, 0x00, 0xfc, 0x10, 0x00,
        0x4f, 0x04, 0x40, 0x0f, 0x0b, 0x20, 0x00, 0x25, 0x00, 0xd1, 0x04, 0x40, 0x0f, 0x0b, 0x20,
        0x00, 0xd0, 0x6f, 0x26, 0x00, 0x23, 0x00, 0x41, 0x02, 0x74, 0x3f, 0x00, 0x41, 0x10, 0x74,
        0x4f, 0x04, 0x40, 0x41, 0x01, 0x40, 0x00, 0x1a, 0x0b, 0x23, 0x00, 0x41, 0x02, 0x74, 0x20,
        0x00, 0x36, 0x02, 0x00, 0x23, 0x00, 0x41, 0x01, 0x6a, 0x24, 0x00, 0x0b,
    ];
    let mut code_tail: Vec<u8> = vec![save_body.len() as u8];
    code_tail.extend_from_slice(&save_body);
    code_tail.push(drop_body.len() as u8);
    code_tail.extend_from_slice(&drop_body);
    assert!(patched.windows(code_tail.len()).any(|w| w == &code_tail[..]));
    // The backing table (opaque references, three reserved slots), the
    // free-stack memory (one growable page) and the free-length global
    // (mutable integer, zero) are synthesized alongside.
    let table_section = [0x04u8, 0x04, 0x01, 0x6f, 0x00, 0x03];
    let memory_section = [0x05u8, 0x03, 0x01, 0x00, 0x01];
    let global_section = [0x06u8, 0x06, 0x01, 0x7f, 0x01, 0x41, 0x00, 0x0b];
    assert!(patched.windows(table_section.len()).any(|w| w == table_section));
    assert!(patched.windows(memory_section.len()).any(|w| w == memory_section));
    assert!(patched.windows(global_section.len()).any(|w| w == global_section));
    assert_eq!(drop_export_name(), b"_lunatic_externref_drop".to_vec());
    assert_eq!(
        table_export_name(),
        b"__lunatic_externref_resource_table".to_vec()
    );

    // Save tests against the table the bridge is specified over.
    // Stdin, Stdout & Stderr occupy places 0-2.
    let mut table: ResourceTable<i32> = ResourceTable::new(vec![100, 101, 102]);
    assert_eq!(table.save(0), 3);
    assert_eq!(table.save(1), 4);
    assert_eq!(table.save(2), 5);
    assert_eq!(table.save(3), 6);
    assert_eq!(table.save(4), 7);
    assert_eq!(table.save(5), 8);
    assert_eq!(table.save(6), 9);
    assert_eq!(table.save(7), 10);
    assert_eq!(table.save(8), 11);

    // Value check
    assert_eq!(table.get(3), Some(&0));
    assert_eq!(table.get(4), Some(&1));
    assert_eq!(table.get(5), Some(&2));
    assert_eq!(table.get(6), Some(&3));
    assert_eq!(table.get(7), Some(&4));
    assert_eq!(table.get(8), Some(&5));
    assert_eq!(table.get(9), Some(&6));
    assert_eq!(table.get(10), Some(&7));
    assert_eq!(table.get(11), Some(&8));

    // Drop tests
    table.drop_handle(4);
    assert!(table.get(4).is_none());
    table.drop_handle(6);
    assert!(table.get(6).is_none());

    // Now 4 & 6 are free; the most recently freed index is reused first.
    assert_eq!(table.save(1337), 6);
    assert_eq!(table.save(1338), 4);
    assert_eq!(table.get(4), Some(&1338));
    assert_eq!(table.get(6), Some(&1337));
}

#[test]
fn externref_multivalue_return_as_params() {
    // An import whose signature returns several values with an opaque
    // reference among them has no bridgeable shape: normalization must
    // fail with the distinct unsupported-signature error.
    let mut m: Vec<u8> = vec![0x00, 0x61, 0x73, 0x6d, 0x01, 0x00, 0x00, 0x00];
    // type section: (i32) -> (externref, externref)
    m.extend_from_slice(&[0x01, 0x07, 0x01, 0x60, 0x01, 0x7f, 0x02, 0x6f, 0x6f]);
    // import section: test.echo of that type
    let mut imports: Vec<u8> = vec![0x01];
    imports.extend_from_slice(b"\x04test\x04echo\x00\x00");
    m.push(0x02);
    m.push(imports.len() as u8);
    m.extend_from_slice(&imports);
    let r = normalize(&m);
    assert_eq!(
        r.map(|(_, b)| b).err(),
        Some(handle_bridge::normalizer::NormError::UnsupportedSignature)
    );
}

#[test]
fn reserved_handles_are_never_released() {
    let mut table: ResourceTable<u64> = ResourceTable::new(vec![7, 8, 9]);
    // Dropping a reserved handle is a no-op; it never enters the free list.
    table.drop_handle(0);
    table.drop_handle(1);
    table.drop_handle(2);
    assert_eq!(table.get(0), Some(&7));
    assert_eq!(table.get(1), Some(&8));
    assert_eq!(table.get(2), Some(&9));
    // The next save does not return a reserved index.
    assert_eq!(table.save(1000), 3);
}

#[test]
fn get_on_absent_handles_is_silent() {
    let mut table: ResourceTable<u64> = ResourceTable::new(vec![1]);
    assert!(table.get(1).is_none());
    assert!(table.get(99).is_none());
    let h = table.save(5);
    assert_eq!(h, 1);
    table.drop_handle(h);
    assert!(table.get(h).is_none());
    // Double drop is a no-op: the handle is not on the free list twice.
    table.drop_handle(h);
    assert_eq!(table.save(6), 1);
    assert_eq!(table.save(7), 2);
}

#[test]
fn lifo_reuse_over_interleaved_operations() {
    let mut table: ResourceTable<u64> = ResourceTable::new(vec![0, 0, 0]);
    let a = table.save(10);
    let b = table.save(20);
    let c = table.save(30);
    assert_eq!((a, b, c), (3, 4, 5));
    table.drop_handle(a);
    table.drop_handle(c);
    // Last freed first: c's slot comes back before a's.
    assert_eq!(table.save(40), c);
    assert_eq!(table.save(50), a);
    assert_eq!(table.length(), 6);
    assert_eq!(table.reserved_slots(), 3);
}

#[test]
fn end_to_end_reuse_scenario() {
    // Three reserved slots; four saves take 3,4,5,6; after dropping 4 then
    // 6, the next saves reuse 6 first, then 4.
    let mut table: ResourceTable<&str> = ResourceTable::new(vec!["in", "out", "err"]);
    assert_eq!(table.save("a"), 3);
    assert_eq!(table.save("b"), 4);
    assert_eq!(table.save("c"), 5);
    assert_eq!(table.save("d"), 6);
    table.drop_handle(4);
    table.drop_handle(6);
    assert_eq!(table.save("e"), 6);
    assert_eq!(table.save("f"), 4);
    assert_eq!(table.get(0), Some(&"in"));
    assert_eq!(table.get(5), Some(&"c"));
}
